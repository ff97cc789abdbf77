//! Where the store lives and where its insights are: the store's root, the
//! path of an insight's file, the topic directories a listing walks, and the
//! order listings come in.

use vstd::prelude::*;
use vstd::multiset::Multiset;
use crate::git::opt_text;
use crate::insight::{Insight, InsightView};
use crate::ranking::{
    lemma_text_lt_from_irreflexive, lemma_text_lt_from_total, lemma_text_lt_from_transitive, text_lt, text_lt_exec,
};
use crate::store_path::{file_name_of, join_path, joined_path, path_file_name};
use crate::text::{chars_of, extend, lowercase, string_of, to_lowercase};

verus! {

broadcast use vstd::string::group_string_axioms;

/// The name of the topic a topic directory holds: its last component, or
/// `unknown`.
pub open spec fn topic_name_spec(topic_path: Seq<char>) -> Seq<char> {
    match path_file_name(topic_path) {
        Some(n) => n,
        None => "unknown"@,
    }
}

/// The name of the topic a topic directory holds.
pub fn extract_topic_name(topic_path: &str) -> (r: String)
    ensures
        r@ == topic_name_spec(topic_path@),
{
    match file_name_of(topic_path) {
        Some(n) => n,
        None => "unknown".to_string(),
    }
}

/// The directories a search or listing walks: the one topic asked for, or
/// every topic of the store, each under the store's root.
pub open spec fn search_paths_spec(root: Seq<char>, topic_filter: Option<Seq<char>>, topics: Seq<Seq<char>>) -> Seq<Seq<char>> {
    match topic_filter {
        Some(t) => seq![joined_path(root, t)],
        None => topics.map_values(|t: Seq<char>| joined_path(root, t)),
    }
}

/// The directories a search or listing walks.
pub fn get_search_paths(root: &str, topic_filter: Option<&str>, topics: &[String]) -> (r: Vec<String>)
    ensures
        r@.map_values(|p: String| p@) == search_paths_spec(
            root@,
            match topic_filter {
                Some(t) => Some(t@),
                None => None,
            },
            topics@.map_values(|t: String| t@),
        ),
{
    let mut out: Vec<String> = Vec::new();
    match topic_filter {
        Some(t) => {
            out.push(join_path(root, t));
            proof {
                assert(out@.map_values(|p: String| p@) =~= seq![joined_path(root@, t@)]);
            }
        },
        None => {
            let ghost ts = topics@.map_values(|t: String| t@);
            let mut i: usize = 0;
            while i < topics.len()
                invariant
                    i <= topics@.len(),
                    ts == topics@.map_values(|t: String| t@),
                    out@.map_values(|p: String| p@) == ts.take(i as int).map_values(|t: Seq<char>| joined_path(root@, t)),
                decreases topics@.len() - i,
            {
                let ghost before = out@;
                out.push(join_path(root, topics[i].as_str()));
                proof {
                    assert(out@.map_values(|p: String| p@) =~= before.map_values(|p: String| p@).push(
                        joined_path(root@, ts[i as int]),
                    ));
                    assert(ts.take(i + 1).map_values(|t: Seq<char>| joined_path(root@, t)) =~= ts.take(
                        i as int,
                    ).map_values(|t: Seq<char>| joined_path(root@, t)).push(joined_path(root@, ts[i as int])));
                }
                i = i + 1;
            }
            proof {
                assert(ts.take(topics@.len() as int) =~= ts);
            }
        },
    }
    out
}

/// The path of an insight's file: under the store's root, the topic
/// lowercased, then the name lowercased with `.insight.md`.
pub open spec fn insight_path_spec(root: Seq<char>, topic: Seq<char>, name: Seq<char>) -> Seq<char> {
    joined_path(joined_path(root, lowercase(topic)), lowercase(name) + ".insight.md"@)
}

/// Where an insight written before names were lowercased sits: the topic and
/// name as given.
pub open spec fn legacy_path_spec(root: Seq<char>, topic: Seq<char>, name: Seq<char>) -> Seq<char> {
    joined_path(joined_path(root, topic), name + ".insight.md"@)
}

fn with_suffix(name: &str) -> (r: String)
    ensures
        r@ == name@ + ".insight.md"@,
{
    let mut out = chars_of(name);
    extend(&mut out, chars_of(".insight.md").as_slice());
    string_of(out.as_slice())
}

/// The path of an insight's file.
pub fn file_path(root: &str, topic: &str, name: &str) -> (r: String)
    ensures
        r@ == insight_path_spec(root@, topic@, name@),
{
    let dir = join_path(root, to_lowercase(topic).as_str());
    let file = with_suffix(to_lowercase(name).as_str());
    join_path(dir.as_str(), file.as_str())
}

/// Where an insight written before names were lowercased sits.
pub fn legacy_path(root: &str, topic: &str, name: &str) -> (r: String)
    ensures
        r@ == legacy_path_spec(root@, topic@, name@),
{
    let dir = join_path(root, topic);
    let file = with_suffix(name);
    join_path(dir.as_str(), file.as_str())
}

/// Which path an insight is read from: its lowercased path when that file
/// exists, else the path as named when that one exists, else the lowercased
/// path (where it would be created, and what an error names).
pub open spec fn chosen_path(root: Seq<char>, topic: Seq<char>, name: Seq<char>, normalized_exists: bool, legacy_exists: bool) -> Seq<char> {
    if normalized_exists {
        insight_path_spec(root, topic, name)
    } else if legacy_exists {
        legacy_path_spec(root, topic, name)
    } else {
        insight_path_spec(root, topic, name)
    }
}

/// Which path an insight is read from, given whether its lowercased path and
/// its path as named exist.
pub fn make_insight_path(root: &str, topic: &str, name: &str, normalized_exists: bool, legacy_exists: bool) -> (r: String)
    ensures
        r@ == chosen_path(root@, topic@, name@, normalized_exists, legacy_exists),
{
    if !normalized_exists && legacy_exists {
        legacy_path(root, topic, name)
    } else {
        file_path(root, topic, name)
    }
}

/// Where the store may live, besides a root set in the environment: under
/// the data directory (or `~/.local/share` without one), and the older place
/// under `~/.blizz/persistent`.
pub open spec fn root_candidates_spec(data_dir: Option<Seq<char>>, home: Option<Seq<char>>) -> (Option<Seq<char>>, Option<Seq<char>>) {
    let base = match data_dir {
        Some(d) => Some(d),
        None => match home {
            Some(h) => Some(joined_path(joined_path(h, ".local"@), "share"@)),
            None => None,
        },
    };
    let xdg = match base {
        Some(b) => Some(joined_path(b, "insights"@)),
        None => None,
    };
    let legacy = match home {
        Some(h) => Some(joined_path(joined_path(joined_path(h, ".blizz"@), "persistent"@), "insights"@)),
        None => None,
    };
    (xdg, legacy)
}

/// Where the store may live, besides a root set in the environment.
pub fn root_candidates(data_dir: &Option<String>, home: &Option<String>) -> (r: (Option<String>, Option<String>))
    ensures
        (opt_text(r.0), opt_text(r.1)) == root_candidates_spec(opt_text(*data_dir), opt_text(*home)),
{
    let base = match data_dir {
        Some(d) => Some(string_of(chars_of(d.as_str()).as_slice())),
        None => match home {
            Some(h) => Some(join_path(join_path(h.as_str(), ".local").as_str(), "share")),
            None => None,
        },
    };
    let xdg = match base {
        Some(b) => Some(join_path(b.as_str(), "insights")),
        None => None,
    };
    let legacy = match home {
        Some(h) => Some(
            join_path(join_path(join_path(h.as_str(), ".blizz").as_str(), "persistent").as_str(), "insights"),
        ),
        None => None,
    };
    (xdg, legacy)
}

/// The store's root: the one set in the environment; else the data
/// directory's when it exists, else the older one when it exists, else the
/// data directory's; an error when there is none.
pub open spec fn insights_root_spec(
    custom: Option<Seq<char>>,
    xdg: Option<Seq<char>>,
    legacy: Option<Seq<char>>,
    xdg_exists: bool,
    legacy_exists: bool,
) -> Option<Seq<char>> {
    match custom {
        Some(c) => Some(c),
        None => if xdg is Some && xdg_exists {
            xdg
        } else if legacy is Some && legacy_exists {
            legacy
        } else {
            xdg
        },
    }
}

/// The message when no root can be found.
pub open spec fn no_root_message() -> Seq<char> {
    "Could not resolve insights data directory (set INSIGHTS_ROOT)"@
}

/// The store's root, given the root set in the environment, the places it
/// may live, and which of them exist.
pub fn get_insights_root(
    custom: &Option<String>,
    xdg: &Option<String>,
    legacy: &Option<String>,
    xdg_exists: bool,
    legacy_exists: bool,
) -> (r: Result<String, String>)
    ensures
        match r {
            Ok(p) => insights_root_spec(opt_text(*custom), opt_text(*xdg), opt_text(*legacy), xdg_exists, legacy_exists) == Some(p@),
            Err(m) => insights_root_spec(opt_text(*custom), opt_text(*xdg), opt_text(*legacy), xdg_exists, legacy_exists) is None
                && m@ == no_root_message(),
        },
{
    if let Some(c) = custom {
        return Ok(string_of(chars_of(c.as_str()).as_slice()));
    }
    if xdg.is_some() && xdg_exists {
        if let Some(x) = xdg {
            return Ok(string_of(chars_of(x.as_str()).as_slice()));
        }
    }
    if legacy.is_some() && legacy_exists {
        if let Some(l) = legacy {
            return Ok(string_of(chars_of(l.as_str()).as_slice()));
        }
    }
    match xdg {
        Some(x) => Ok(string_of(chars_of(x.as_str()).as_slice())),
        None => Err("Could not resolve insights data directory (set INSIGHTS_ROOT)".to_string()),
    }
}

/// The file holding this machine's usage counters: the one set in the
/// environment, else under `~/.blizz/volatile/insights`.
pub open spec fn usage_path_spec(custom: Option<Seq<char>>, home: Option<Seq<char>>) -> Option<Seq<char>> {
    match custom {
        Some(c) => Some(c),
        None => match home {
            Some(h) => Some(
                joined_path(joined_path(joined_path(joined_path(h, ".blizz"@), "volatile"@), "insights"@), "usage.json"@),
            ),
            None => None,
        },
    }
}

/// The file holding this machine's usage counters.
pub fn usage_path(custom: &Option<String>, home: &Option<String>) -> (r: Result<String, String>)
    ensures
        match r {
            Ok(p) => usage_path_spec(opt_text(*custom), opt_text(*home)) == Some(p@),
            Err(m) => usage_path_spec(opt_text(*custom), opt_text(*home)) is None
                && m@ == "Could not resolve home directory (set INSIGHTS_USAGE_PATH)"@,
        },
{
    match custom {
        Some(c) => Ok(string_of(chars_of(c.as_str()).as_slice())),
        None => match home {
            Some(h) => {
                let a = join_path(h.as_str(), ".blizz");
                let b = join_path(a.as_str(), "volatile");
                let c = join_path(b.as_str(), "insights");
                Ok(join_path(c.as_str(), "usage.json"))
            },
            None => Err("Could not resolve home directory (set INSIGHTS_USAGE_PATH)".to_string()),
        },
    }
}

// ---------------------------------------------------------------------------
// Order of listings
// ---------------------------------------------------------------------------

/// Whether no text of a sequence comes before one that precedes it.
pub open spec fn sorted_texts(s: Seq<Seq<char>>) -> bool {
    forall|i: int, j: int| 0 <= i < j < s.len() ==> !text_lt(#[trigger] s[j], #[trigger] s[i])
}

/// The views of some strings.
pub open spec fn texts(v: Seq<String>) -> Seq<Seq<char>> {
    v.map_values(|s: String| s@)
}

fn first_least_text(v: &Vec<String>) -> (m: usize)
    requires
        v@.len() > 0,
    ensures
        m < v@.len(),
        forall|k: int| 0 <= k < v@.len() ==> !text_lt(#[trigger] texts(v@)[k], texts(v@)[m as int]),
{
    let mut m: usize = 0;
    let mut j: usize = 1;
    proof {
        lemma_text_lt_from_irreflexive(v@[0]@, 0);
    }
    while j < v.len()
        invariant
            1 <= j <= v@.len(),
            m < j,
            forall|k: int| 0 <= k < j ==> !text_lt(#[trigger] texts(v@)[k], texts(v@)[m as int]),
        decreases v@.len() - j,
    {
        if text_lt_exec(v[j].as_str(), v[m].as_str()) {
            proof {
                assert forall|k: int| 0 <= k < j implies !text_lt(#[trigger] texts(v@)[k], texts(v@)[j as int]) by {
                    if text_lt(texts(v@)[k], texts(v@)[j as int]) {
                        lemma_text_lt_from_transitive(texts(v@)[k], texts(v@)[j as int], texts(v@)[m as int], 0);
                    }
                }
                lemma_text_lt_from_irreflexive(v@[j as int]@, 0);
            }
            m = j;
        }
        j = j + 1;
    }
    m
}

/// Sorts topic names into the order of strings.
pub fn sort_topics(topics: &mut Vec<String>)
    ensures
        texts(final(topics)@).to_multiset() == texts(old(topics)@).to_multiset(),
        sorted_texts(texts(final(topics)@)),
{
    broadcast use vstd::seq_lib::group_to_multiset_ensures;
    broadcast use vstd::multiset::group_multiset_axioms;

    let mut rest: Vec<String> = Vec::new();
    std::mem::swap(&mut rest, topics);
    let ghost start = texts(rest@);
    let mut out: Vec<String> = Vec::new();
    while rest.len() > 0
        invariant
            texts(out@).to_multiset().add(texts(rest@).to_multiset()) == start.to_multiset(),
            sorted_texts(texts(out@)),
            forall|i: int, k: int|
                0 <= i < out@.len() && 0 <= k < rest@.len() ==> !text_lt(
                    #[trigger] texts(rest@)[k],
                    #[trigger] texts(out@)[i],
                ),
        decreases rest@.len(),
    {
        let m = first_least_text(&rest);
        let ghost before_rest = texts(rest@);
        let ghost before_out = texts(out@);
        let x = rest.remove(m);
        proof {
            assert(texts(rest@) =~= before_rest.remove(m as int));
        }
        out.push(x);
        proof {
            assert(texts(out@) =~= before_out.push(x@));
            assert(before_rest[m as int] == x@);
            vstd::seq_lib::to_multiset_remove(before_rest, m as int);
            vstd::seq_lib::to_multiset_build(before_out, x@);
            assert(before_rest.contains(x@));
            vstd::seq_lib::to_multiset_contains(before_rest, x@);
            assert(texts(out@).to_multiset().add(texts(rest@).to_multiset()) =~= before_out.to_multiset().add(
                before_rest.to_multiset(),
            ));
            assert forall|i: int, j: int| 0 <= i < j < texts(out@).len() implies !text_lt(
                #[trigger] texts(out@)[j],
                #[trigger] texts(out@)[i],
            ) by {
                if j < before_out.len() {
                    assert(texts(out@)[j] == before_out[j]);
                    assert(texts(out@)[i] == before_out[i]);
                } else {
                    assert(texts(out@)[j] == before_rest[m as int]);
                    assert(texts(out@)[i] == before_out[i]);
                }
            }
            assert forall|i: int, k: int|
                0 <= i < out@.len() && 0 <= k < rest@.len() implies !text_lt(
                #[trigger] texts(rest@)[k],
                #[trigger] texts(out@)[i],
            ) by {
                let kk = if k < m { k } else { k + 1 };
                assert(texts(rest@)[k] == before_rest[kk]);
                if i < before_out.len() {
                    assert(texts(out@)[i] == before_out[i]);
                } else {
                    assert(texts(out@)[i] == before_rest[m as int]);
                }
            }
        }
    }
    proof {
        assert(texts(rest@).to_multiset() =~= Multiset::empty());
        assert(texts(out@).to_multiset().add(Multiset::empty()) =~= texts(out@).to_multiset());
    }
    *topics = out;
}

/// The views of some insights.
pub open spec fn insight_views(v: Seq<Insight>) -> Seq<InsightView> {
    v.map_values(|i: Insight| i@)
}

/// Whether no insight of a sequence has a name before one that precedes it.
pub open spec fn sorted_by_name(s: Seq<InsightView>) -> bool {
    forall|i: int, j: int| 0 <= i < j < s.len() ==> !text_lt(#[trigger] s[j].name, #[trigger] s[i].name)
}

/// Below `b` whatever is below something `b` is not below.
proof fn lemma_below_what_is_not_below(a: Seq<char>, b: Seq<char>, c: Seq<char>)
    requires
        text_lt(c, a),
        !text_lt(b, a),
    ensures
        text_lt(c, b),
{
    assert(a.subrange(0, 0) =~= b.subrange(0, 0));
    lemma_text_lt_from_total(a, b, 0);
    if a != b {
        lemma_text_lt_from_transitive(c, a, b, 0);
    }
}

/// The index of the first insight whose name no other name precedes.
fn first_least_name(v: &Vec<Insight>) -> (m: usize)
    requires
        v@.len() > 0,
    ensures
        m < v@.len(),
        forall|k: int| 0 <= k < v@.len() ==> !text_lt(#[trigger] insight_views(v@)[k].name, insight_views(v@)[m as int].name),
        forall|k: int| 0 <= k < m ==> text_lt(insight_views(v@)[m as int].name, #[trigger] insight_views(v@)[k].name),
{
    let mut m: usize = 0;
    let mut j: usize = 1;
    proof {
        lemma_text_lt_from_irreflexive(v@[0]@.name, 0);
    }
    while j < v.len()
        invariant
            1 <= j <= v@.len(),
            m < j,
            forall|k: int| 0 <= k < j ==> !text_lt(#[trigger] insight_views(v@)[k].name, insight_views(v@)[m as int].name),
            forall|k: int| 0 <= k < m ==> text_lt(insight_views(v@)[m as int].name, #[trigger] insight_views(v@)[k].name),
        decreases v@.len() - j,
    {
        if text_lt_exec(v[j].name.as_str(), v[m].name.as_str()) {
            proof {
                let vs = insight_views(v@);
                assert forall|k: int| 0 <= k < j implies !text_lt(#[trigger] vs[k].name, vs[j as int].name) by {
                    if text_lt(vs[k].name, vs[j as int].name) {
                        lemma_text_lt_from_transitive(vs[k].name, vs[j as int].name, vs[m as int].name, 0);
                    }
                }
                assert forall|k: int| 0 <= k < j implies text_lt(vs[j as int].name, #[trigger] vs[k].name) by {
                    if k < m {
                        lemma_text_lt_from_transitive(vs[j as int].name, vs[m as int].name, vs[k].name, 0);
                    } else if k > m {
                        lemma_below_what_is_not_below(vs[m as int].name, vs[k].name, vs[j as int].name);
                    }
                }
                lemma_text_lt_from_irreflexive(v@[j as int]@.name, 0);
            }
            m = j;
        }
        j = j + 1;
    }
    m
}

/// Whether `out` is `orig` reordered as `p` says, `out[i]` being `orig[p[i]]`,
/// with insights of the same name kept in the order they had.
pub open spec fn stable_reorder(orig: Seq<InsightView>, out: Seq<InsightView>, p: Seq<int>) -> bool {
    &&& p.len() == out.len()
    &&& out.len() == orig.len()
    &&& forall|i: int| 0 <= i < p.len() ==> 0 <= #[trigger] p[i] < orig.len() && out[i] == orig[p[i]]
    &&& forall|i: int, j: int| 0 <= i < j < p.len() ==> #[trigger] p[i] != #[trigger] p[j]
    &&& forall|i: int, j: int|
        0 <= i < j < p.len() && out[i].name == out[j].name ==> #[trigger] p[i] < #[trigger] p[j]
}

/// Sorts insights by name. Insights of the same name keep the order they
/// came in.
pub fn sort_by_name(insights: &mut Vec<Insight>)
    ensures
        insight_views(final(insights)@).to_multiset() == insight_views(old(insights)@).to_multiset(),
        sorted_by_name(insight_views(final(insights)@)),
        exists|p: Seq<int>| stable_reorder(insight_views(old(insights)@), insight_views(final(insights)@), p),
{
    broadcast use vstd::seq_lib::group_to_multiset_ensures;
    broadcast use vstd::multiset::group_multiset_axioms;

    let mut rest: Vec<Insight> = Vec::new();
    std::mem::swap(&mut rest, insights);
    let ghost start = insight_views(rest@);
    let ghost n = start.len();
    let ghost mut rpos: Seq<int> = Seq::new(n, |k: int| k);
    let ghost mut opos: Seq<int> = Seq::empty();
    let mut out: Vec<Insight> = Vec::new();
    while rest.len() > 0
        invariant
            n == start.len(),
            insight_views(out@).to_multiset().add(insight_views(rest@).to_multiset()) == start.to_multiset(),
            sorted_by_name(insight_views(out@)),
            forall|i: int, k: int|
                0 <= i < out@.len() && 0 <= k < rest@.len() ==> !text_lt(
                    #[trigger] insight_views(rest@)[k].name,
                    #[trigger] insight_views(out@)[i].name,
                ),
            rpos.len() == rest@.len(),
            opos.len() == out@.len(),
            out@.len() + rest@.len() == n,
            forall|k: int| 0 <= k < rpos.len() ==> 0 <= #[trigger] rpos[k] < n && insight_views(rest@)[k] == start[rpos[k]],
            forall|k1: int, k2: int| 0 <= k1 < k2 < rpos.len() ==> #[trigger] rpos[k1] < #[trigger] rpos[k2],
            forall|i: int| 0 <= i < opos.len() ==> 0 <= #[trigger] opos[i] < n && insight_views(out@)[i] == start[opos[i]],
            forall|i: int, j: int| 0 <= i < j < opos.len() ==> #[trigger] opos[i] != #[trigger] opos[j],
            forall|i: int, k: int| 0 <= i < opos.len() && 0 <= k < rpos.len() ==> #[trigger] opos[i] != #[trigger] rpos[k],
            forall|i: int, j: int|
                0 <= i < j < opos.len() && insight_views(out@)[i].name == insight_views(out@)[j].name
                    ==> #[trigger] opos[i] < #[trigger] opos[j],
            forall|i: int, k: int|
                0 <= i < opos.len() && 0 <= k < rpos.len() && insight_views(out@)[i].name == insight_views(rest@)[k].name
                    ==> #[trigger] opos[i] < #[trigger] rpos[k],
        decreases rest@.len(),
    {
        let m = first_least_name(&rest);
        let ghost before_rest = insight_views(rest@);
        let ghost before_out = insight_views(out@);
        let ghost old_rpos = rpos;
        let ghost old_opos = opos;
        let x = rest.remove(m);
        proof {
            assert(insight_views(rest@) =~= before_rest.remove(m as int));
        }
        out.push(x);
        proof {
            rpos = old_rpos.remove(m as int);
            opos = old_opos.push(old_rpos[m as int]);
            assert(insight_views(out@) =~= before_out.push(x@));
            assert(before_rest[m as int] == x@);
            vstd::seq_lib::to_multiset_remove(before_rest, m as int);
            vstd::seq_lib::to_multiset_build(before_out, x@);
            assert(before_rest.contains(x@));
            vstd::seq_lib::to_multiset_contains(before_rest, x@);
            assert(insight_views(out@).to_multiset().add(insight_views(rest@).to_multiset()) =~= before_out.to_multiset().add(
                before_rest.to_multiset(),
            ));
            assert forall|i: int, j: int| 0 <= i < j < insight_views(out@).len() implies !text_lt(
                #[trigger] insight_views(out@)[j].name,
                #[trigger] insight_views(out@)[i].name,
            ) by {
                if j < before_out.len() {
                    assert(insight_views(out@)[j] == before_out[j]);
                    assert(insight_views(out@)[i] == before_out[i]);
                } else {
                    assert(insight_views(out@)[j] == before_rest[m as int]);
                    assert(insight_views(out@)[i] == before_out[i]);
                }
            }
            assert forall|i: int, k: int|
                0 <= i < out@.len() && 0 <= k < rest@.len() implies !text_lt(
                #[trigger] insight_views(rest@)[k].name,
                #[trigger] insight_views(out@)[i].name,
            ) by {
                let kk = if k < m { k } else { k + 1 };
                assert(insight_views(rest@)[k] == before_rest[kk]);
                if i < before_out.len() {
                    assert(insight_views(out@)[i] == before_out[i]);
                } else {
                    assert(insight_views(out@)[i] == before_rest[m as int]);
                }
            }
            assert forall|k: int| 0 <= k < rpos.len() implies 0 <= #[trigger] rpos[k] < n && insight_views(rest@)[k] == start[rpos[k]] by {
                let kk = if k < m { k } else { k + 1 };
                assert(rpos[k] == old_rpos[kk]);
                assert(insight_views(rest@)[k] == before_rest[kk]);
            }
            assert forall|k1: int, k2: int| 0 <= k1 < k2 < rpos.len() implies #[trigger] rpos[k1] < #[trigger] rpos[k2] by {
                let kk1 = if k1 < m { k1 } else { k1 + 1 };
                let kk2 = if k2 < m { k2 } else { k2 + 1 };
                assert(rpos[k1] == old_rpos[kk1]);
                assert(rpos[k2] == old_rpos[kk2]);
            }
            assert forall|i: int| 0 <= i < opos.len() implies 0 <= #[trigger] opos[i] < n && insight_views(out@)[i] == start[opos[i]] by {
                if i < old_opos.len() {
                    assert(opos[i] == old_opos[i]);
                    assert(insight_views(out@)[i] == before_out[i]);
                } else {
                    assert(opos[i] == old_rpos[m as int]);
                    assert(insight_views(out@)[i] == before_rest[m as int]);
                }
            }
            assert forall|i: int, j: int| 0 <= i < j < opos.len() implies #[trigger] opos[i] != #[trigger] opos[j] by {
                if j < old_opos.len() {
                    assert(opos[i] == old_opos[i]);
                    assert(opos[j] == old_opos[j]);
                } else {
                    assert(opos[i] == old_opos[i]);
                    assert(opos[j] == old_rpos[m as int]);
                }
            }
            assert forall|i: int, k: int| 0 <= i < opos.len() && 0 <= k < rpos.len() implies #[trigger] opos[i] != #[trigger] rpos[k] by {
                let kk = if k < m { k } else { k + 1 };
                assert(rpos[k] == old_rpos[kk]);
                if i < old_opos.len() {
                    assert(opos[i] == old_opos[i]);
                } else {
                    assert(opos[i] == old_rpos[m as int]);
                }
            }
            assert forall|i: int, j: int|
                0 <= i < j < opos.len() && insight_views(out@)[i].name == insight_views(out@)[j].name implies #[trigger] opos[i]
                < #[trigger] opos[j] by {
                assert(opos[i] == old_opos[i]);
                assert(insight_views(out@)[i] == before_out[i]);
                if j < old_opos.len() {
                    assert(opos[j] == old_opos[j]);
                    assert(insight_views(out@)[j] == before_out[j]);
                } else {
                    assert(opos[j] == old_rpos[m as int]);
                    assert(insight_views(out@)[j] == before_rest[m as int]);
                }
            }
            assert forall|i: int, k: int|
                0 <= i < opos.len() && 0 <= k < rpos.len() && insight_views(out@)[i].name == insight_views(rest@)[k].name
                    implies #[trigger] opos[i] < #[trigger] rpos[k] by {
                let kk = if k < m { k } else { k + 1 };
                assert(rpos[k] == old_rpos[kk]);
                assert(insight_views(rest@)[k] == before_rest[kk]);
                if i < old_opos.len() {
                    assert(opos[i] == old_opos[i]);
                    assert(insight_views(out@)[i] == before_out[i]);
                } else {
                    assert(opos[i] == old_rpos[m as int]);
                    assert(insight_views(out@)[i] == before_rest[m as int]);
                    if kk < m {
                        lemma_text_lt_from_irreflexive(before_rest[kk].name, 0);
                    }
                }
            }
        }
    }
    proof {
        assert(insight_views(rest@).to_multiset() =~= Multiset::empty());
        assert(insight_views(out@).to_multiset().add(Multiset::empty()) =~= insight_views(out@).to_multiset());
        assert(stable_reorder(start, insight_views(out@), opos));
    }
    *insights = out;
}

} // verus!
