//! The insight file: YAML frontmatter, a details body, and a trailing YAML
//! metadata block.
//!
//! ```text
//! ---
//! topic: rust
//! name: async-patterns
//! overview: ...
//! ---
//!
//! # Details
//! ...
//!
//! ---
//! metadata:
//!   created_at: ...
//! ```
//!
//! This module frames a file into those parts and reassembles one. Reading the
//! YAML itself is serde's work, done by the caller, whose results the
//! functions here take as arguments.

use vstd::prelude::*;
use crate::text::{
    all_ws, chars_of, extend, occurs_at, find, join, join_exec, lemma_find_from, lemma_rfind_upto, lines, lines_exec,
    is_blank, rfind, rfind_exec, slice_vec, starts_with, starts_with_exec, string_of, trim,
    trim_chars, trim_end, trim_end_chars, find_exec,
};

verus! {

broadcast use vstd::string::group_string_axioms;

/// `"---\n"`, which opens the frontmatter.
pub open spec fn fm_open() -> Seq<char> {
    seq!['-', '-', '-', '\n']
}

/// `"\n---\n"`, which closes the frontmatter and opens the metadata block.
pub open spec fn fm_close() -> Seq<char> {
    seq!['\n', '-', '-', '-', '\n']
}

/// `"\n# Details\n"`, written between the frontmatter and the details.
pub open spec fn details_heading() -> Seq<char> {
    seq!['\n', '#', ' ', 'D', 'e', 't', 'a', 'i', 'l', 's', '\n']
}

/// `"\n"`.
pub open spec fn newline() -> Seq<char> {
    seq!['\n']
}

fn fm_open_vec() -> (r: Vec<char>)
    ensures
        r@ == fm_open(),
{
    let r = vec!['-', '-', '-', '\n'];
    assert(r@ =~= fm_open());
    r
}

fn fm_close_vec() -> (r: Vec<char>)
    ensures
        r@ == fm_close(),
{
    let r = vec!['\n', '-', '-', '-', '\n'];
    assert(r@ =~= fm_close());
    r
}

fn details_heading_vec() -> (r: Vec<char>)
    ensures
        r@ == details_heading(),
{
    let r = vec!['\n', '#', ' ', 'D', 'e', 't', 'a', 'i', 'l', 's', '\n'];
    assert(r@ =~= details_heading());
    r
}

fn newline_vec() -> (r: Vec<char>)
    ensures
        r@ == newline(),
{
    let r = vec!['\n'];
    assert(r@ =~= newline());
    r
}

/// Why a file could not be framed.
#[derive(Debug, Clone, Copy, PartialEq, Eq, Structural)]
pub enum FrontmatterError {
    /// The file does not begin with `---`.
    Missing,
    /// The frontmatter is never closed.
    Unterminated,
}

impl FrontmatterError {
    /// The message the error is reported with.
    pub fn message(&self) -> (r: String)
        ensures
            *self == FrontmatterError::Missing ==> r@ == "Invalid insight format: missing frontmatter"@,
            *self == FrontmatterError::Unterminated ==> r@
                == "Invalid insight format: could not find end of frontmatter"@,
    {
        match self {
            FrontmatterError::Missing => "Invalid insight format: missing frontmatter".to_string(),
            FrontmatterError::Unterminated => {
                "Invalid insight format: could not find end of frontmatter".to_string()
            },
        }
    }
}

/// The frontmatter section and the body of a file, or why it has none.
pub open spec fn split_frontmatter_spec(content: Seq<char>) -> Result<
    (Seq<char>, Seq<char>),
    FrontmatterError,
> {
    if !starts_with(content, fm_open()) {
        Err(FrontmatterError::Missing)
    } else {
        let rest = content.skip(4);
        let end = find(rest, fm_close());
        if end < 0 {
            Err(FrontmatterError::Unterminated)
        } else {
            Ok((rest.take(end), rest.skip(end + 5)))
        }
    }
}

/// Splits a file into its frontmatter section and its body: the text between
/// the opening `---` line and the first `\n---\n`, and everything after that.
pub fn split_frontmatter_content(content: &str) -> (r: Result<(String, String), FrontmatterError>)
    ensures
        match (r, split_frontmatter_spec(content@)) {
            (Ok((f, b)), Ok((sf, sb))) => f@ == sf && b@ == sb,
            (Err(e), Err(se)) => e == se,
            _ => false,
        },
{
    let cs = chars_of(content);
    let open = fm_open_vec();
    if !starts_with_exec(cs.as_slice(), open.as_slice()) {
        return Err(FrontmatterError::Missing);
    }
    let rest = slice_vec(cs.as_slice(), 4, cs.len());
    assert(rest@ =~= content@.skip(4));
    let close = fm_close_vec();
    match find_exec(rest.as_slice(), close.as_slice()) {
        None => Err(FrontmatterError::Unterminated),
        Some(end) => {
            proof {
                lemma_find_from(rest@, fm_close(), 0);
            }
            let section = slice_vec(rest.as_slice(), 0, end);
            let body = slice_vec(rest.as_slice(), end + 5, rest.len());
            assert(section@ =~= rest@.take(end as int));
            assert(body@ =~= rest@.skip(end + 5));
            Ok((string_of(section.as_slice()), string_of(body.as_slice())))
        },
    }
}

/// The details and the metadata section a body would split into, if its
/// trimmed end holds a `\n---\n`: the text before the last one, and after it.
pub open spec fn metadata_candidate_spec(body: Seq<char>) -> Option<(Seq<char>, Seq<char>)> {
    let t = trim_end(body);
    let k = rfind(t, fm_close());
    if k < 0 {
        None
    } else {
        Some((t.take(k), t.skip(k + 5)))
    }
}

/// Splits a body at the last `\n---\n` of its trimmed end, into the details
/// and the section that may hold a metadata block.
pub fn metadata_candidate(body: &str) -> (r: Option<(String, String)>)
    ensures
        match (r, metadata_candidate_spec(body@)) {
            (Some((d, m)), Some((sd, sm))) => d@ == sd && m@ == sm,
            (None, None) => true,
            _ => false,
        },
{
    let cs = chars_of(body);
    let t = trim_end_chars(cs.as_slice());
    let close = fm_close_vec();
    match rfind_exec(t.as_slice(), close.as_slice()) {
        None => None,
        Some(k) => {
            proof {
                lemma_rfind_upto(t@, fm_close(), t@.len() - 5);
                assert(occurs_at(t@, fm_close(), k as int));
            }
            let n = t.len();
            assert(k + 5 <= n);
            let d = slice_vec(t.as_slice(), 0, k);
            let m = slice_vec(t.as_slice(), k + 5, n);
            assert(d@ =~= t@.take(k as int));
            assert(m@ =~= t@.skip(k + 5));
            Some((string_of(d.as_slice()), string_of(m.as_slice())))
        },
    }
}

/// The text that holds an insight's details: the body before its metadata
/// block when the body ends in one that reads as YAML, the whole body
/// otherwise.
pub open spec fn details_section_spec(body: Seq<char>, footer_reads: bool) -> Seq<char> {
    match metadata_candidate_spec(body) {
        Some((d, _)) => if footer_reads {
            d
        } else {
            body
        },
        None => body,
    }
}

/// Whether a line is skipped before the details begin: blank, or a heading.
pub open spec fn is_blank_or_heading(line: Seq<char>) -> bool {
    trim(line).len() == 0 || starts_with(line, seq!['#'])
}

/// The lines from the first one that is neither blank nor a heading.
pub open spec fn skip_blank_or_heading(ls: Seq<Seq<char>>) -> Seq<Seq<char>>
    decreases ls.len(),
{
    if ls.len() > 0 && is_blank_or_heading(ls[0]) {
        skip_blank_or_heading(ls.drop_first())
    } else {
        ls
    }
}

/// An insight's details as read from the text holding them: leading blank
/// and heading lines dropped, the rest rejoined and trimmed.
pub open spec fn clean_body_spec(body: Seq<char>) -> Seq<char> {
    trim(join(skip_blank_or_heading(lines(body)), newline()))
}

proof fn lemma_skip_blank_or_heading_at(ls: Seq<Seq<char>>, k: int)
    requires
        0 <= k <= ls.len(),
        forall|i: int| 0 <= i < k ==> is_blank_or_heading(#[trigger] ls[i]),
        k == ls.len() || !is_blank_or_heading(ls[k]),
    ensures
        skip_blank_or_heading(ls) == ls.skip(k),
    decreases k,
{
    if k == 0 {
        assert(ls.skip(0) =~= ls);
    } else {
        assert(is_blank_or_heading(ls[0]));
        let t = ls.drop_first();
        assert forall|i: int| 0 <= i < k - 1 implies is_blank_or_heading(#[trigger] t[i]) by {
            assert(t[i] == ls[i + 1]);
        }
        lemma_skip_blank_or_heading_at(t, k - 1);
        assert(t.skip(k - 1) =~= ls.skip(k));
    }
}

/// Reads an insight's details out of the text holding them: drops the blank
/// and heading lines before them, and trims what remains.
pub fn clean_body_content(body: &str) -> (r: String)
    ensures
        r@ == clean_body_spec(body@),
{
    let cs = chars_of(body);
    let ls = lines_exec(cs.as_slice());
    let hash = vec!['#'];
    let mut k: usize = 0;
    while k < ls.len()
        invariant
            k <= ls@.len(),
            hash@ == seq!['#'],
            ls@.len() == lines(cs@).len(),
            forall|i: int| 0 <= i < ls@.len() ==> #[trigger] ls@[i]@ == lines(cs@)[i],
            forall|i: int| 0 <= i < k ==> is_blank_or_heading(#[trigger] lines(cs@)[i]),
        ensures
            k <= ls@.len(),
            forall|i: int| 0 <= i < k ==> is_blank_or_heading(#[trigger] lines(cs@)[i]),
            k == ls@.len() || !is_blank_or_heading(lines(cs@)[k as int]),
        decreases ls@.len() - k,
    {
        let line = &ls[k];
        let blank = is_blank(line.as_slice());
        let heading = starts_with_exec(line.as_slice(), hash.as_slice());
        if !blank && !heading {
            break;
        }
        k = k + 1;
    }
    proof {
        lemma_skip_blank_or_heading_at(lines(cs@), k as int);
    }
    let mut rest: Vec<Vec<char>> = Vec::new();
    let mut i = k;
    let ghost all = lines(cs@);
    while i < ls.len()
        invariant
            k <= i <= ls@.len(),
            all == lines(cs@),
            ls@.len() == all.len(),
            forall|j: int| 0 <= j < ls@.len() ==> #[trigger] ls@[j]@ == all[j],
            rest@.len() == i - k,
            forall|j: int| 0 <= j < rest@.len() ==> #[trigger] rest@[j]@ == all[k + j],
        decreases ls@.len() - i,
    {
        rest.push(slice_vec(ls[i].as_slice(), 0, ls[i].len()));
        proof {
            assert(ls@[i as int]@.subrange(0, ls@[i as int]@.len() as int) =~= ls@[i as int]@);
        }
        i = i + 1;
    }
    let nl = newline_vec();
    let joined = join_exec(&rest, nl.as_slice());
    proof {
        assert(rest@.map_values(|p: Vec<char>| p@) =~= all.skip(k as int));
    }
    let t = trim_chars(joined.as_slice());
    string_of(t.as_slice())
}

/// The text of an insight file, from its frontmatter as YAML, its details, and
/// its metadata block as YAML.
pub open spec fn render_spec(frontmatter_yaml: Seq<char>, details: Seq<char>, metadata_yaml: Seq<char>) -> Seq<char> {
    fm_open() + frontmatter_yaml + fm_open() + details_heading() + details + newline() + fm_close()
        + metadata_yaml
}

/// Assembles an insight file: `"---\n{frontmatter}---\n\n# Details\n{details}\n\n---\n{metadata}"`.
pub fn render(frontmatter_yaml: &str, details: &str, metadata_yaml: &str) -> (r: String)
    ensures
        r@ == render_spec(frontmatter_yaml@, details@, metadata_yaml@),
{
    let mut out = fm_open_vec();
    extend(&mut out, chars_of(frontmatter_yaml).as_slice());
    extend(&mut out, fm_open_vec().as_slice());
    extend(&mut out, details_heading_vec().as_slice());
    extend(&mut out, chars_of(details).as_slice());
    extend(&mut out, newline_vec().as_slice());
    extend(&mut out, fm_close_vec().as_slice());
    extend(&mut out, chars_of(metadata_yaml).as_slice());
    string_of(out.as_slice())
}

} // verus!
