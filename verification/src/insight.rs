//! An insight, the metadata its file carries, and how a file's parts become
//! one.

use vstd::prelude::*;
use crate::insight_format::{
    clean_body_content, clean_body_spec, details_section_spec, metadata_candidate,
    metadata_candidate_spec, newline, split_frontmatter_content, split_frontmatter_spec,
};
use crate::text::{
    chars_of, join, join_exec, lines, lines_exec, slice_vec, string_of, trim, trim_chars,
};
use crate::timestamp::{Timestamp, default_created_at, default_created_at_spec, now};
use crate::usage::Usage;

verus! {

broadcast use vstd::string::group_string_axioms;

/// The view of an optional string.
pub open spec fn opt_str(o: Option<String>) -> Option<Seq<char>> {
    match o {
        Some(s) => Some(s@),
        None => None,
    }
}

/// The view of an optional string slice.
pub open spec fn opt_text(o: Option<&str>) -> Option<Seq<char>> {
    match o {
        Some(s) => Some(s@),
        None => None,
    }
}

/// The view of an optional vector of embedding components.
pub open spec fn opt_vec(o: Option<Vec<u32>>) -> Option<Seq<u32>> {
    match o {
        Some(v) => Some(v@),
        None => None,
    }
}

/// What the YAML frontmatter of an insight file reads as.
///
/// The temporal and usage fields are kept so that files written when they
/// lived in the frontmatter still load. An embedding's components are held
/// as their `f32` bit patterns.
pub struct InsightMetaData {
    pub topic: String,
    pub name: String,
    pub overview: String,
    pub created_at: Timestamp,
    pub last_updated: Timestamp,
    pub update_count: u32,
    pub retrieval_count: u32,
    pub search_hit_count: u32,
    pub last_accessed: Option<Timestamp>,
    pub pinned: bool,
    pub embedding_version: Option<String>,
    pub embedding: Option<Vec<u32>>,
    pub embedding_text: Option<String>,
    pub embedding_computed: Option<Timestamp>,
}

/// What the metadata block trailing an insight's details reads as.
pub struct InsightTemporalMetadata {
    pub created_at: Timestamp,
    pub last_updated: Timestamp,
    pub update_count: u32,
    pub pinned: bool,
    pub retrieval_count: u32,
    pub search_hit_count: u32,
    pub last_accessed: Option<Timestamp>,
}

/// An insight: a note filed under a topic, with its history and this
/// machine's use of it. An embedding's components are held as their `f32`
/// bit patterns.
pub struct Insight {
    pub topic: String,
    pub name: String,
    pub overview: String,
    pub details: String,
    pub created_at: Timestamp,
    pub last_updated: Timestamp,
    pub update_count: u32,
    pub retrieval_count: u32,
    pub search_hit_count: u32,
    pub last_accessed: Option<Timestamp>,
    pub pinned: bool,
    pub embedding_version: Option<String>,
    pub embedding: Option<Vec<u32>>,
    pub embedding_text: Option<String>,
    pub embedding_computed: Option<Timestamp>,
}

/// The mathematical content of frontmatter metadata.
pub struct MetaDataView {
    pub topic: Seq<char>,
    pub name: Seq<char>,
    pub overview: Seq<char>,
    pub created_at: Timestamp,
    pub last_updated: Timestamp,
    pub update_count: u32,
    pub retrieval_count: u32,
    pub search_hit_count: u32,
    pub last_accessed: Option<Timestamp>,
    pub pinned: bool,
    pub embedding_version: Option<Seq<char>>,
    pub embedding: Option<Seq<u32>>,
    pub embedding_text: Option<Seq<char>>,
    pub embedding_computed: Option<Timestamp>,
}

impl View for InsightMetaData {
    type V = MetaDataView;

    open spec fn view(&self) -> MetaDataView {
        MetaDataView {
            topic: self.topic@,
            name: self.name@,
            overview: self.overview@,
            created_at: self.created_at,
            last_updated: self.last_updated,
            update_count: self.update_count,
            retrieval_count: self.retrieval_count,
            search_hit_count: self.search_hit_count,
            last_accessed: self.last_accessed,
            pinned: self.pinned,
            embedding_version: opt_str(self.embedding_version),
            embedding: opt_vec(self.embedding),
            embedding_text: opt_str(self.embedding_text),
            embedding_computed: self.embedding_computed,
        }
    }
}

/// The mathematical content of an insight.
pub struct InsightView {
    pub topic: Seq<char>,
    pub name: Seq<char>,
    pub overview: Seq<char>,
    pub details: Seq<char>,
    pub created_at: Timestamp,
    pub last_updated: Timestamp,
    pub update_count: u32,
    pub retrieval_count: u32,
    pub search_hit_count: u32,
    pub last_accessed: Option<Timestamp>,
    pub pinned: bool,
    pub embedding_version: Option<Seq<char>>,
    pub embedding: Option<Seq<u32>>,
    pub embedding_text: Option<Seq<char>>,
    pub embedding_computed: Option<Timestamp>,
}

impl View for Insight {
    type V = InsightView;

    open spec fn view(&self) -> InsightView {
        InsightView {
            topic: self.topic@,
            name: self.name@,
            overview: self.overview@,
            details: self.details@,
            created_at: self.created_at,
            last_updated: self.last_updated,
            update_count: self.update_count,
            retrieval_count: self.retrieval_count,
            search_hit_count: self.search_hit_count,
            last_accessed: self.last_accessed,
            pinned: self.pinned,
            embedding_version: opt_str(self.embedding_version),
            embedding: opt_vec(self.embedding),
            embedding_text: opt_str(self.embedding_text),
            embedding_computed: self.embedding_computed,
        }
    }
}

/// Metadata for a file that records nothing but its overview: no topic or
/// name, the default creation time, zero counts, nothing pinned or embedded.
/// Its last update is left to the clock.
pub open spec fn is_legacy_metadata(m: MetaDataView, overview: Seq<char>) -> bool {
    &&& m.topic.len() == 0
    &&& m.name.len() == 0
    &&& m.overview == overview
    &&& m.created_at == default_created_at_spec()
    &&& m.update_count == 0
    &&& m.retrieval_count == 0
    &&& m.search_hit_count == 0
    &&& m.last_accessed is None
    &&& !m.pinned
    &&& m.embedding_version is None
    &&& m.embedding is None
    &&& m.embedding_text is None
    &&& m.embedding_computed is None
}

fn legacy_metadata(overview: String) -> (m: InsightMetaData)
    ensures
        is_legacy_metadata(m@, overview@),
{
    InsightMetaData {
        topic: String::new(),
        name: String::new(),
        overview,
        created_at: default_created_at(),
        last_updated: now(),
        update_count: 0,
        retrieval_count: 0,
        search_hit_count: 0,
        last_accessed: None,
        pinned: false,
        embedding_version: None,
        embedding: None,
        embedding_text: None,
        embedding_computed: None,
    }
}

/// Reads a file whose frontmatter section is not YAML: the section, trimmed,
/// is the overview, and the body, trimmed, the details.
pub fn parse_legacy_format(frontmatter_section: &str, body: &str) -> (r: (InsightMetaData, String))
    ensures
        is_legacy_metadata(r.0@, trim(frontmatter_section@)),
        r.1@ == trim(body@),
{
    let overview = trim_chars(chars_of(frontmatter_section).as_slice());
    let details = trim_chars(chars_of(body).as_slice());
    (legacy_metadata(string_of(overview.as_slice())), string_of(details.as_slice()))
}

/// The overview and details of a file with no frontmatter: its first line and
/// the rest, trimmed, or the whole text when it is one line.
pub open spec fn legacy_parts(content: Seq<char>) -> (Seq<char>, Seq<char>) {
    let c = trim(content);
    let ls = lines(c);
    if ls.len() > 1 {
        (ls[0], trim(join(ls.skip(1), newline())))
    } else {
        (c, seq![])
    }
}

/// Reads a file with no frontmatter: the first line is the overview and the
/// rest the details.
pub fn parse_legacy_format_no_frontmatter(content: &str) -> (r: (InsightMetaData, String))
    ensures
        is_legacy_metadata(r.0@, legacy_parts(content@).0),
        r.1@ == legacy_parts(content@).1,
{
    let c = trim_chars(chars_of(content).as_slice());
    let ls = lines_exec(c.as_slice());
    if ls.len() > 1 {
        let first = slice_vec(ls[0].as_slice(), 0, ls[0].len());
        let mut rest: Vec<Vec<char>> = Vec::new();
        let mut i: usize = 1;
        while i < ls.len()
            invariant
                1 <= i <= ls@.len(),
                ls@.len() == lines(c@).len(),
                forall|j: int| 0 <= j < ls@.len() ==> #[trigger] ls@[j]@ == lines(c@)[j],
                rest@.len() == i - 1,
                forall|j: int| 0 <= j < rest@.len() ==> #[trigger] rest@[j]@ == lines(c@)[j + 1],
            decreases ls@.len() - i,
        {
            rest.push(slice_vec(ls[i].as_slice(), 0, ls[i].len()));
            proof {
                assert(ls@[i as int]@.subrange(0, ls@[i as int]@.len() as int) =~= ls@[i as int]@);
            }
            i = i + 1;
        }
        proof {
            assert(first@ =~= ls@[0]@);
            assert(rest@.map_values(|p: Vec<char>| p@) =~= lines(c@).skip(1));
        }
        let nl = vec!['\n'];
        assert(nl@ =~= newline());
        let joined = join_exec(&rest, nl.as_slice());
        let details = trim_chars(joined.as_slice());
        (legacy_metadata(string_of(first.as_slice())), string_of(details.as_slice()))
    } else {
        (legacy_metadata(string_of(c.as_slice())), String::new())
    }
}

/// Frontmatter metadata with the metadata block's fields taking precedence.
pub open spec fn with_footer(fm: MetaDataView, footer: InsightTemporalMetadata) -> MetaDataView {
    MetaDataView {
        created_at: footer.created_at,
        last_updated: footer.last_updated,
        update_count: footer.update_count,
        retrieval_count: footer.retrieval_count,
        search_hit_count: footer.search_hit_count,
        last_accessed: footer.last_accessed,
        pinned: footer.pinned,
        ..fm
    }
}

/// Takes the temporal and usage fields of a metadata block over those of the
/// frontmatter.
pub fn apply_footer(fm: &mut InsightMetaData, footer: &InsightTemporalMetadata)
    ensures
        final(fm)@ == with_footer(old(fm)@, *footer),
{
    fm.created_at = footer.created_at;
    fm.last_updated = footer.last_updated;
    fm.update_count = footer.update_count;
    fm.retrieval_count = footer.retrieval_count;
    fm.search_hit_count = footer.search_hit_count;
    fm.last_accessed = footer.last_accessed;
    fm.pinned = footer.pinned;
}

/// What a file reads as, given what its frontmatter section and its metadata
/// block read as in YAML (`None` where that section is not valid YAML for
/// them, or, for the block, where the body has none).
///
/// - No frontmatter: the first line is the overview, the rest the details.
/// - A frontmatter that is not YAML metadata: its text is the overview, the
///   body the details.
/// - Otherwise the frontmatter's metadata, the block's fields over it when the
///   body ends in one that reads as YAML, and the details read from the body
///   before that block.
pub open spec fn parsed_as(
    content: Seq<char>,
    frontmatter: Option<MetaDataView>,
    footer: Option<InsightTemporalMetadata>,
    r: (MetaDataView, Seq<char>),
) -> bool {
    match split_frontmatter_spec(content) {
        Err(_) => is_legacy_metadata(r.0, legacy_parts(content).0) && r.1 == legacy_parts(content).1,
        Ok((section, body)) => match frontmatter {
            None => is_legacy_metadata(r.0, trim(section)) && r.1 == trim(body),
            Some(fm) => {
                let footer_reads = metadata_candidate_spec(body) is Some && footer is Some;
                &&& r.1 == clean_body_spec(details_section_spec(body, footer_reads))
                &&& r.0 == if footer_reads {
                    with_footer(fm, footer->0)
                } else {
                    fm
                }
            },
        },
    }
}

/// Reads an insight file, given what its frontmatter section and its metadata
/// block read as in YAML.
pub fn parse_insight_with_metadata(
    content: &str,
    frontmatter: Option<InsightMetaData>,
    footer: Option<InsightTemporalMetadata>,
) -> (r: (InsightMetaData, String))
    ensures
        parsed_as(
            content@,
            match frontmatter {
                Some(f) => Some(f@),
                None => None,
            },
            footer,
            (r.0@, r.1@),
        ),
{
    match split_frontmatter_content(content) {
        Err(_) => parse_legacy_format_no_frontmatter(content),
        Ok((section, body)) => match frontmatter {
            None => parse_legacy_format(section.as_str(), body.as_str()),
            Some(fm) => {
                let mut fm = fm;
                let candidate = metadata_candidate(body.as_str());
                match (candidate, footer) {
                    (Some((details, _)), Some(f)) => {
                        apply_footer(&mut fm, &f);
                        (fm, clean_body_content(details.as_str()))
                    },
                    _ => (fm, clean_body_content(body.as_str())),
                }
            },
        },
    }
}

/// Whether a file keeps its metadata in a trailing block, the only place
/// usage counters were ever written, given whether that block reads as YAML.
pub fn has_metadata_footer(content: &str, footer_reads: bool) -> (r: bool)
    ensures
        r == match split_frontmatter_spec(content@) {
            Ok((_, body)) => metadata_candidate_spec(body) is Some && footer_reads,
            Err(_) => false,
        },
{
    match split_frontmatter_content(content) {
        Ok((_, body)) => match metadata_candidate(body.as_str()) {
            Some(_) => footer_reads,
            None => false,
        },
        Err(_) => false,
    }
}

/// Why an operation on an insight was refused.
#[derive(Debug, PartialEq, Eq)]
pub enum InsightError {
    /// Saving would overwrite an insight of that topic and name.
    AlreadyExists { topic: String, name: String },
    /// No insight of that topic and name is stored.
    NotFound { topic: String, name: String },
    /// An update named neither a new overview nor new details.
    NothingToUpdate,
}

/// `"Insight {topic}/{name} {what}"`.
pub open spec fn insight_message(topic: Seq<char>, name: Seq<char>, what: Seq<char>) -> Seq<char> {
    "Insight "@ + topic + seq!['/'] + name + seq![' '] + what
}

impl InsightError {
    /// The message the error is reported with.
    pub fn message(&self) -> (r: String)
        ensures
            match self {
                InsightError::AlreadyExists { topic, name } => r@ == insight_message(
                    topic@,
                    name@,
                    "already exists"@,
                ),
                InsightError::NotFound { topic, name } => r@ == insight_message(
                    topic@,
                    name@,
                    "not found"@,
                ),
                InsightError::NothingToUpdate => r@
                    == "At least one of overview or details must be provided"@,
            },
    {
        match self {
            InsightError::AlreadyExists { topic, name } => insight_message_exec(
                topic.as_str(),
                name.as_str(),
                "already exists",
            ),
            InsightError::NotFound { topic, name } => insight_message_exec(
                topic.as_str(),
                name.as_str(),
                "not found",
            ),
            InsightError::NothingToUpdate => {
                "At least one of overview or details must be provided".to_string()
            },
        }
    }
}

fn insight_message_exec(topic: &str, name: &str, what: &str) -> (r: String)
    ensures
        r@ == insight_message(topic@, name@, what@),
{
    let mut out = chars_of("Insight ");
    crate::text::extend(&mut out, chars_of(topic).as_slice());
    out.push('/');
    crate::text::extend(&mut out, chars_of(name).as_slice());
    out.push(' ');
    crate::text::extend(&mut out, chars_of(what).as_slice());
    string_of(out.as_slice())
}

/// A copy of a string.
fn copy_str(s: &str) -> (r: String)
    ensures
        r@ == s@,
{
    string_of(chars_of(s).as_slice())
}

/// Refuses to save over an insight that is already stored, given whether its
/// file exists.
pub fn check_insight_is_new(exists: bool, topic: &str, name: &str) -> (r: Result<(), InsightError>)
    ensures
        exists <==> r is Err,
        r matches Err(InsightError::AlreadyExists { topic: t, name: n }) ==> t@ == topic@ && n@
            == name@,
        r matches Err(e) ==> e is AlreadyExists,
{
    if exists {
        return Err(InsightError::AlreadyExists { topic: copy_str(topic), name: copy_str(name) });
    }
    Ok(())
}

/// Refuses to act on an insight that is not stored, given whether its file
/// exists.
pub fn check_insight_exists(exists: bool, topic: &str, name: &str) -> (r: Result<(), InsightError>)
    ensures
        !exists <==> r is Err,
        r matches Err(InsightError::NotFound { topic: t, name: n }) ==> t@ == topic@ && n@ == name@,
        r matches Err(e) ==> e is NotFound,
{
    if !exists {
        return Err(InsightError::NotFound { topic: copy_str(topic), name: copy_str(name) });
    }
    Ok(())
}

impl Insight {
    /// A new insight, created and last updated now, never updated, read or
    /// pinned, and with no embedding.
    pub fn new(topic: String, name: String, overview: String, details: String) -> (r: Insight)
        ensures
            r@.topic == topic@,
            r@.name == name@,
            r@.overview == overview@,
            r@.details == details@,
            r.created_at == r.last_updated,
            r.update_count == 0,
            r.retrieval_count == 0,
            r.search_hit_count == 0,
            r.last_accessed is None,
            !r.pinned,
            r.embedding_version is None,
            r.embedding is None,
            r.embedding_text is None,
            r.embedding_computed is None,
    {
        let t = now();
        Insight {
            topic,
            name,
            overview,
            details,
            created_at: t,
            last_updated: t,
            update_count: 0,
            retrieval_count: 0,
            search_hit_count: 0,
            last_accessed: None,
            pinned: false,
            embedding_version: None,
            embedding: None,
            embedding_text: None,
            embedding_computed: None,
        }
    }
}

/// An insight whose embedding is to be recomputed: everything else kept.
pub open spec fn without_embedding(i: InsightView) -> InsightView {
    InsightView {
        embedding_version: None,
        embedding: None,
        embedding_text: None,
        embedding_computed: None,
        ..i
    }
}

/// Drops an insight's embedding so that it is recomputed.
pub fn clear_embedding(insight: &mut Insight)
    ensures
        final(insight)@ == without_embedding(old(insight)@),
{
    insight.embedding_version = None;
    insight.embedding = None;
    insight.embedding_text = None;
    insight.embedding_computed = None;
}

/// Pins an insight, so that it ranks first among the results of a search.
pub fn pin(insight: &mut Insight)
    ensures
        final(insight)@ == (InsightView { pinned: true, ..old(insight)@ }),
{
    insight.pinned = true;
}

/// Unpins an insight.
pub fn unpin(insight: &mut Insight)
    ensures
        final(insight)@ == (InsightView { pinned: false, ..old(insight)@ }),
{
    insight.pinned = false;
}

/// Replaces an insight's usage counters with what this machine recorded.
pub fn attach_usage(insight: &mut Insight, usage: Usage)
    ensures
        final(insight)@ == (InsightView {
            retrieval_count: usage.retrieval_count,
            search_hit_count: usage.search_hit_count,
            last_accessed: usage.last_accessed,
            ..old(insight)@
        }),
{
    insight.retrieval_count = usage.retrieval_count;
    insight.search_hit_count = usage.search_hit_count;
    insight.last_accessed = usage.last_accessed;
}

/// Whether the file an insight came from recorded any use of it.
pub fn carries_usage(insight: &Insight) -> (r: bool)
    ensures
        r == (insight.retrieval_count > 0 || insight.search_hit_count > 0
            || insight.last_accessed is Some),
{
    insight.retrieval_count > 0 || insight.search_hit_count > 0 || insight.last_accessed.is_some()
}

/// The usage counters an insight carries.
pub open spec fn usage_of_insight(i: InsightView) -> Usage {
    Usage {
        retrieval_count: i.retrieval_count,
        search_hit_count: i.search_hit_count,
        last_accessed: i.last_accessed,
    }
}

/// What an update does to an insight: the new overview and details where
/// given; when either is given, last updated at `at` and counted once more;
/// when its file exists too, its embedding dropped.
pub open spec fn updated(
    i: InsightView,
    new_overview: Option<Seq<char>>,
    new_details: Option<Seq<char>>,
    at: Timestamp,
    file_exists: bool,
) -> InsightView {
    let edited = InsightView {
        overview: match new_overview {
            Some(o) => o,
            None => i.overview,
        },
        details: match new_details {
            Some(d) => d,
            None => i.details,
        },
        ..i
    };
    if new_overview is None && new_details is None {
        edited
    } else {
        let stamped = InsightView {
            last_updated: at,
            update_count: (i.update_count + 1) as u32,
            ..edited
        };
        if file_exists {
            without_embedding(stamped)
        } else {
            stamped
        }
    }
}

/// Updates an insight's overview or details, given whether the file it is
/// stored in exists.
///
/// Fails when neither is given, and when the insight is not stored; either
/// way what was given is already applied, as the file operations that follow
/// a success are the caller's.
pub fn update(
    insight: &mut Insight,
    new_overview: Option<&str>,
    new_details: Option<&str>,
    file_exists: bool,
) -> (r: Result<(), InsightError>)
    requires
        old(insight).update_count < u32::MAX,
    ensures
        exists|at: Timestamp|
            final(insight)@ == #[trigger] updated(
                old(insight)@,
                opt_text(new_overview),
                opt_text(new_details),
                at,
                file_exists,
            ),
        new_overview is None && new_details is None <==> r == Err::<(), InsightError>(
            InsightError::NothingToUpdate,
        ),
        (new_overview is Some || new_details is Some) && !file_exists ==> (r matches Err(
            InsightError::NotFound { topic: t, name: n },
        ) && t@ == old(insight)@.topic && n@ == old(insight)@.name),
        (new_overview is Some || new_details is Some) && file_exists ==> r is Ok,
{
    if let Some(overview) = new_overview {
        insight.overview = copy_str(overview);
    }
    if let Some(details) = new_details {
        insight.details = copy_str(details);
    }
    if new_overview.is_none() && new_details.is_none() {
        proof {
            let t0 = Timestamp { secs: 0, nanos: 0 };
            assert(insight@ == updated(old(insight)@, opt_text(new_overview), opt_text(new_details), t0, file_exists));
        }
        return Err(InsightError::NothingToUpdate);
    }
    let at = now();
    insight.last_updated = at;
    insight.update_count = insight.update_count + 1;
    if !file_exists {
        proof {
            assert(insight@ == updated(old(insight)@, opt_text(new_overview), opt_text(new_details), at, file_exists));
        }
        return Err(
            InsightError::NotFound {
                topic: copy_str(insight.topic.as_str()),
                name: copy_str(insight.name.as_str()),
            },
        );
    }
    clear_embedding(insight);
    proof {
        assert(insight@ == updated(old(insight)@, opt_text(new_overview), opt_text(new_details), at, file_exists));
    }
    Ok(())
}

/// The insight a file holds, given what the file read as and the topic and
/// name it is stored under: the frontmatter's topic and name where it records
/// them, which keep their original case, and the stored ones otherwise.
pub open spec fn insight_from(
    topic: Seq<char>,
    name: Seq<char>,
    m: MetaDataView,
    details: Seq<char>,
) -> InsightView {
    InsightView {
        topic: if m.topic.len() > 0 {
            m.topic
        } else {
            topic
        },
        name: if m.name.len() > 0 {
            m.name
        } else {
            name
        },
        overview: m.overview,
        details,
        created_at: m.created_at,
        last_updated: m.last_updated,
        update_count: m.update_count,
        retrieval_count: m.retrieval_count,
        search_hit_count: m.search_hit_count,
        last_accessed: m.last_accessed,
        pinned: m.pinned,
        embedding_version: m.embedding_version,
        embedding: m.embedding,
        embedding_text: m.embedding_text,
        embedding_computed: m.embedding_computed,
    }
}

/// Reads the insight stored under `topic`/`name` from its file's content,
/// given what its frontmatter section and metadata block read as in YAML.
pub fn parse_insight_from_content(
    topic: &str,
    name: &str,
    content: &str,
    frontmatter: Option<InsightMetaData>,
    footer: Option<InsightTemporalMetadata>,
) -> (r: Insight)
    ensures
        exists|m: MetaDataView, d: Seq<char>|
            parsed_as(
                content@,
                match frontmatter {
                    Some(f) => Some(f@),
                    None => None,
                },
                footer,
                (m, d),
            ) && r@ == insight_from(topic@, name@, m, d)
            && r.topic@ == (if m.topic.len() > 0 { m.topic } else { topic@ })
            && r.name@ == (if m.name.len() > 0 { m.name } else { name@ })
            && r.overview@ == m.overview
            && r.details@ == d
            && r.created_at == m.created_at
            && r.last_updated == m.last_updated
            && r.update_count == m.update_count
            && r.retrieval_count == m.retrieval_count
            && r.search_hit_count == m.search_hit_count
            && r.last_accessed == m.last_accessed
            && r.pinned == m.pinned
            && opt_str(r.embedding_version) == m.embedding_version
            && opt_vec(r.embedding) == m.embedding
            && opt_str(r.embedding_text) == m.embedding_text
            && r.embedding_computed == m.embedding_computed,
        r.pinned == match split_frontmatter_spec(content@) {
            Ok((_, body)) => match frontmatter {
                Some(f) => if metadata_candidate_spec(body) is Some && footer is Some {
                    footer->0.pinned
                } else {
                    f.pinned
                },
                None => false,
            },
            Err(_) => false,
        },
        match split_frontmatter_spec(content@) {
            Ok((_, body)) => match frontmatter {
                Some(f) => {
                    &&& r.overview@ == f.overview@
                    &&& r.embedding_computed == f.embedding_computed
                    &&& if metadata_candidate_spec(body) is Some && footer is Some {
                        let b = footer->0;
                        &&& r.created_at == b.created_at
                        &&& r.last_updated == b.last_updated
                        &&& r.update_count == b.update_count
                        &&& r.retrieval_count == b.retrieval_count
                        &&& r.search_hit_count == b.search_hit_count
                        &&& r.last_accessed == b.last_accessed
                    } else {
                        &&& r.created_at == f.created_at
                        &&& r.last_updated == f.last_updated
                        &&& r.update_count == f.update_count
                        &&& r.retrieval_count == f.retrieval_count
                        &&& r.search_hit_count == f.search_hit_count
                        &&& r.last_accessed == f.last_accessed
                    }
                },
                None => r.update_count == 0 && r.retrieval_count == 0 && r.search_hit_count == 0
                    && r.last_accessed is None,
            },
            Err(_) => r.update_count == 0 && r.retrieval_count == 0 && r.search_hit_count == 0
                && r.last_accessed is None,
        },
{
    let (fm, details) = parse_insight_with_metadata(content, frontmatter, footer);
    let ghost mv = fm@;
    let ghost dv = details@;
    let stored_topic = if !fm.topic.as_str().is_empty() { fm.topic } else { copy_str(topic) };
    let stored_name = if !fm.name.as_str().is_empty() { fm.name } else { copy_str(name) };
    let r = Insight {
        topic: stored_topic,
        name: stored_name,
        overview: fm.overview,
        details,
        created_at: fm.created_at,
        last_updated: fm.last_updated,
        update_count: fm.update_count,
        retrieval_count: fm.retrieval_count,
        search_hit_count: fm.search_hit_count,
        last_accessed: fm.last_accessed,
        pinned: fm.pinned,
        embedding_version: fm.embedding_version,
        embedding: fm.embedding,
        embedding_text: fm.embedding_text,
        embedding_computed: fm.embedding_computed,
    };
    proof {
        assert(r@ == insight_from(topic@, name@, mv, dv));
    }
    r
}

/// Reading a file keeps the pin it recorded: a file with a metadata block
/// that reads as YAML is pinned exactly when that block says so, a file with
/// frontmatter metadata and no such block exactly when its frontmatter says
/// so, and a file in an older layout, with no metadata, is never pinned.
pub proof fn law_reading_keeps_the_recorded_pin(
    content: Seq<char>,
    frontmatter: Option<MetaDataView>,
    footer: Option<InsightTemporalMetadata>,
    r: (MetaDataView, Seq<char>),
)
    requires
        parsed_as(content, frontmatter, footer, r),
    ensures
        r.0.pinned == match split_frontmatter_spec(content) {
            Ok((_, body)) => match frontmatter {
                Some(f) => if metadata_candidate_spec(body) is Some && footer is Some {
                    footer->0.pinned
                } else {
                    f.pinned
                },
                None => false,
            },
            Err(_) => false,
        },
{
}

} // verus!
