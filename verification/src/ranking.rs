//! Search results and how they are ranked: which insight a search returns, the
//! orders results are sorted in, the highest-scoring result kept for each
//! insight, and the limit on how many are returned.

use vstd::prelude::*;
use vstd::multiset::Multiset;
use crate::insight::Insight;
use crate::matching::{excluded, in_date_range, is_excluded, matches_date_range};
use crate::search::{SearchOptions, SearchSort};
use crate::text::{chars_of, string_of};
use crate::timestamp::{Timestamp, ts_lt, ts_lt_exec};

verus! {

broadcast use vstd::string::group_string_axioms;

/// One insight found by a search.
pub struct SearchResult {
    pub topic: String,
    pub name: String,
    pub overview: String,
    pub details: String,
    /// The score, as an integer that orders as the score does: results
    /// with a greater `score` rank higher.
    pub score: u32,
    pub created_at: Timestamp,
    pub updated_at: Timestamp,
    /// Whether the insight is pinned.
    pub pinned: bool,
    /// How often this machine reached the insight: its retrievals and
    /// search hits together.
    pub accesses: u64,
}

/// The mathematical content of a search result.
pub struct ResultView {
    pub topic: Seq<char>,
    pub name: Seq<char>,
    pub overview: Seq<char>,
    pub details: Seq<char>,
    pub score: u32,
    pub created_at: Timestamp,
    pub updated_at: Timestamp,
    pub pinned: bool,
    pub accesses: u64,
}

impl View for SearchResult {
    type V = ResultView;

    open spec fn view(&self) -> ResultView {
        ResultView {
            topic: self.topic@,
            name: self.name@,
            overview: self.overview@,
            details: self.details@,
            score: self.score,
            created_at: self.created_at,
            updated_at: self.updated_at,
            pinned: self.pinned,
            accesses: self.accesses,
        }
    }
}

/// The views of a sequence of results.
pub open spec fn views(s: Seq<SearchResult>) -> Seq<ResultView> {
    s.map_values(|r: SearchResult| r@)
}

/// The result an insight gives a search, or none: none when it was last
/// updated outside the search's dates, when the search's exclusions rule it
/// out, or when its score is not above the threshold.
pub open spec fn result_of(
    i: crate::insight::InsightView,
    score: u32,
    threshold: u32,
    options: SearchOptions,
) -> Option<ResultView> {
    if in_date_range(i.last_updated, options.since, options.until) && !excluded(i, options) && score
        > threshold {
        Some(
            ResultView {
                topic: i.topic,
                name: i.name,
                overview: i.overview,
                details: i.details,
                score,
                created_at: i.created_at,
                updated_at: i.last_updated,
                pinned: i.pinned,
                accesses: (i.retrieval_count + i.search_hit_count) as u64,
            },
        )
    } else {
        None
    }
}

/// The view of an optional result.
pub open spec fn opt_view(r: Option<SearchResult>) -> Option<ResultView> {
    match r {
        Some(x) => Some(x@),
        None => None,
    }
}

/// The result an insight gives a search, given its score and the
/// threshold the score must pass.
pub fn search_insight(insight: &Insight, score: u32, threshold: u32, options: &SearchOptions) -> (r:
    Option<SearchResult>)
    ensures
        opt_view(r) == result_of(insight@, score, threshold, *options),
{
    if !matches_date_range(insight, options) {
        return None;
    }
    if is_excluded(insight, options) {
        return None;
    }
    if score > threshold {
        Some(
            SearchResult {
                topic: string_of(chars_of(insight.topic.as_str()).as_slice()),
                name: string_of(chars_of(insight.name.as_str()).as_slice()),
                overview: string_of(chars_of(insight.overview.as_str()).as_slice()),
                details: string_of(chars_of(insight.details.as_str()).as_slice()),
                score,
                created_at: insight.created_at,
                updated_at: insight.last_updated,
                pinned: insight.pinned,
                accesses: insight.retrieval_count as u64 + insight.search_hit_count as u64,
            },
        )
    } else {
        None
    }
}

// ---------------------------------------------------------------------------
// Orders
// ---------------------------------------------------------------------------

/// Whether `a` comes strictly before `b` in the order of `String`: character
/// by character from index `i`, a proper prefix first.
pub open spec fn text_lt_from(a: Seq<char>, b: Seq<char>, i: int) -> bool
    decreases a.len() - i,
{
    if i >= a.len() {
        i < b.len()
    } else if i >= b.len() {
        false
    } else if a[i] != b[i] {
        a[i] < b[i]
    } else {
        text_lt_from(a, b, i + 1)
    }
}

/// Whether `a` comes strictly before `b` in the order of `String` (which
/// orders UTF-8 bytes as the characters they encode are ordered).
pub open spec fn text_lt(a: Seq<char>, b: Seq<char>) -> bool {
    text_lt_from(a, b, 0)
}

/// The order of strings is transitive.
pub proof fn lemma_text_lt_from_transitive(a: Seq<char>, b: Seq<char>, c: Seq<char>, i: int)
    requires
        0 <= i,
        text_lt_from(a, b, i),
        text_lt_from(b, c, i),
    ensures
        text_lt_from(a, c, i),
    decreases a.len() - i,
{
    if i < a.len() && i < b.len() && i < c.len() && a[i] == b[i] && b[i] == c[i] {
        lemma_text_lt_from_transitive(a, b, c, i + 1);
    }
}

/// No string comes before itself.
pub proof fn lemma_text_lt_from_irreflexive(a: Seq<char>, i: int)
    requires
        0 <= i,
    ensures
        !text_lt_from(a, a, i),
    decreases a.len() - i,
{
    if i < a.len() {
        lemma_text_lt_from_irreflexive(a, i + 1);
    }
}

/// Of two different strings, one comes before the other.
pub proof fn lemma_text_lt_from_total(a: Seq<char>, b: Seq<char>, i: int)
    requires
        0 <= i <= a.len(),
        i <= b.len(),
        a.subrange(0, i) == b.subrange(0, i),
    ensures
        a == b || text_lt_from(a, b, i) || text_lt_from(b, a, i),
    decreases a.len() - i,
{
    if i < a.len() && i < b.len() && a[i] == b[i] {
        assert(a.subrange(0, i + 1) =~= a.subrange(0, i).push(a[i]));
        assert(b.subrange(0, i + 1) =~= b.subrange(0, i).push(b[i]));
        lemma_text_lt_from_total(a, b, i + 1);
    } else if i == a.len() && i == b.len() {
        assert(a =~= a.subrange(0, i));
        assert(b =~= b.subrange(0, i));
    }
}

/// `a < b` on strings.
pub fn text_lt_exec(a: &str, b: &str) -> (r: bool)
    ensures
        r == text_lt(a@, b@),
{
    let x = chars_of(a);
    let y = chars_of(b);
    let mut i: usize = 0;
    while i < x.len() && i < y.len() && x[i] == y[i]
        invariant
            i <= x@.len(),
            i <= y@.len(),
            x@ == a@,
            y@ == b@,
            text_lt_from(a@, b@, 0) == text_lt_from(a@, b@, i as int),
        decreases x@.len() - i,
    {
        i = i + 1;
    }
    if i >= x.len() {
        i < y.len()
    } else if i >= y.len() {
        false
    } else {
        x[i] < y[i]
    }
}

/// Whether `a` comes strictly before `b` by topic, then by name.
pub open spec fn key_lt(a: ResultView, b: ResultView) -> bool {
    text_lt(a.topic, b.topic) || (a.topic == b.topic && text_lt(a.name, b.name))
}

/// Whether two results are of the same insight: the same topic and name.
pub open spec fn same_key(a: ResultView, b: ResultView) -> bool {
    a.topic == b.topic && a.name == b.name
}

/// Whether `a` goes strictly before `b` in the order a search asks for:
/// by relevance, pinned insights first, then the higher score first; by
/// update or creation, the later instant first; least accessed, the fewer
/// retrievals and search hits first; ties broken by topic, then by name.
pub open spec fn goes_before(sort: SearchSort, a: ResultView, b: ResultView) -> bool {
    match sort {
        SearchSort::Updated => ts_lt(b.updated_at, a.updated_at) || (a.updated_at == b.updated_at
            && key_lt(a, b)),
        SearchSort::Created => ts_lt(b.created_at, a.created_at) || (a.created_at == b.created_at
            && key_lt(a, b)),
        SearchSort::LeastAccessed => a.accesses < b.accesses || (a.accesses == b.accesses && key_lt(a, b)),
        SearchSort::Relevance => (a.pinned && !b.pinned) || (a.pinned == b.pinned && (a.score > b.score || (
        a.score == b.score && key_lt(a, b)))),
    }
}

/// Whether no result of a sequence goes before one that precedes it.
pub open spec fn sorted_for(sort: SearchSort, s: Seq<ResultView>) -> bool {
    forall|i: int, j: int| 0 <= i < j < s.len() ==> !goes_before(sort, #[trigger] s[j], #[trigger] s[i])
}

proof fn lemma_key_lt_transitive(a: ResultView, b: ResultView, c: ResultView)
    requires
        key_lt(a, b),
        key_lt(b, c),
    ensures
        key_lt(a, c),
{
    if text_lt(a.topic, b.topic) && text_lt(b.topic, c.topic) {
        lemma_text_lt_from_transitive(a.topic, b.topic, c.topic, 0);
    }
    if a.topic == b.topic && b.topic == c.topic {
        lemma_text_lt_from_irreflexive(a.topic, 0);
        lemma_text_lt_from_transitive(a.name, b.name, c.name, 0);
    }
}

/// The orders a search sorts by are transitive.
pub proof fn lemma_goes_before_transitive(sort: SearchSort, a: ResultView, b: ResultView, c: ResultView)
    requires
        goes_before(sort, a, b),
        goes_before(sort, b, c),
    ensures
        goes_before(sort, a, c),
{
    if key_lt(a, b) && key_lt(b, c) {
        lemma_key_lt_transitive(a, b, c);
    }
}

/// Whether `a` goes strictly before `b` in the order a search asks for.
fn goes_before_exec(sort: SearchSort, a: &SearchResult, b: &SearchResult) -> (r: bool)
    ensures
        r == goes_before(sort, a@, b@),
{
    let key = text_lt_exec(a.topic.as_str(), b.topic.as_str()) || (a.topic == b.topic
        && text_lt_exec(a.name.as_str(), b.name.as_str()));
    match sort {
        SearchSort::Updated => ts_lt_exec(b.updated_at, a.updated_at) || (a.updated_at
            == b.updated_at && key),
        SearchSort::Created => ts_lt_exec(b.created_at, a.created_at) || (a.created_at
            == b.created_at && key),
        SearchSort::LeastAccessed => a.accesses < b.accesses || (a.accesses == b.accesses && key),
        SearchSort::Relevance => (a.pinned && !b.pinned) || (a.pinned == b.pinned && (a.score > b.score || (
        a.score == b.score && key))),
    }
}

/// Whether two results tie in the order a search asks for: neither goes
/// before the other.
pub open spec fn ties(sort: SearchSort, a: ResultView, b: ResultView) -> bool {
    !goes_before(sort, a, b) && !goes_before(sort, b, a)
}

/// Two texts neither of which comes before the other are the same.
proof fn lemma_text_not_lt_either_way(a: Seq<char>, b: Seq<char>)
    requires
        !text_lt(a, b),
        !text_lt(b, a),
    ensures
        a == b,
{
    assert(a.subrange(0, 0) =~= b.subrange(0, 0));
    lemma_text_lt_from_total(a, b, 0);
}

/// Results that tie share the order's key, their topic and their name.
proof fn lemma_ties_share_keys(sort: SearchSort, a: ResultView, b: ResultView)
    requires
        ties(sort, a, b),
    ensures
        a.topic == b.topic,
        a.name == b.name,
        sort == SearchSort::Updated ==> a.updated_at == b.updated_at,
        sort == SearchSort::Created ==> a.created_at == b.created_at,
        sort == SearchSort::LeastAccessed ==> a.accesses == b.accesses,
        sort == SearchSort::Relevance ==> a.score == b.score && a.pinned == b.pinned,
{
    if !text_lt(a.topic, b.topic) && !text_lt(b.topic, a.topic) {
        lemma_text_not_lt_either_way(a.topic, b.topic);
        if !text_lt(a.name, b.name) && !text_lt(b.name, a.name) {
            lemma_text_not_lt_either_way(a.name, b.name);
        }
    }
}

/// Whatever goes before `a` goes before anything `a` does not come after.
proof fn lemma_before_what_does_not_precede(sort: SearchSort, a: ResultView, b: ResultView, c: ResultView)
    requires
        goes_before(sort, c, a),
        !goes_before(sort, b, a),
    ensures
        goes_before(sort, c, b),
{
    if goes_before(sort, a, b) {
        lemma_goes_before_transitive(sort, c, a, b);
    } else {
        lemma_ties_share_keys(sort, a, b);
    }
}

/// The index of the first result that no other goes before.
fn first_least(v: &Vec<SearchResult>, sort: SearchSort) -> (m: usize)
    requires
        v@.len() > 0,
    ensures
        m < v@.len(),
        forall|k: int| 0 <= k < v@.len() ==> !goes_before(sort, #[trigger] views(v@)[k], views(v@)[m as int]),
        forall|k: int| 0 <= k < m ==> goes_before(sort, views(v@)[m as int], #[trigger] views(v@)[k]),
{
    let mut m: usize = 0;
    let mut j: usize = 1;
    proof {
        lemma_text_lt_from_irreflexive(v@[0]@.topic, 0);
        lemma_text_lt_from_irreflexive(v@[0]@.name, 0);
    }
    while j < v.len()
        invariant
            1 <= j <= v@.len(),
            m < j,
            forall|k: int| 0 <= k < j ==> !goes_before(sort, #[trigger] views(v@)[k], views(v@)[m as int]),
            forall|k: int| 0 <= k < m ==> goes_before(sort, views(v@)[m as int], #[trigger] views(v@)[k]),
        decreases v@.len() - j,
    {
        if goes_before_exec(sort, &v[j], &v[m]) {
            proof {
                let vs = views(v@);
                assert forall|k: int| 0 <= k < j implies !goes_before(sort, #[trigger] vs[k], vs[j as int]) by {
                    if goes_before(sort, vs[k], vs[j as int]) {
                        lemma_goes_before_transitive(sort, vs[k], vs[j as int], vs[m as int]);
                    }
                }
                assert forall|k: int| 0 <= k < j implies goes_before(sort, vs[j as int], #[trigger] vs[k]) by {
                    if k < m {
                        lemma_goes_before_transitive(sort, vs[j as int], vs[m as int], vs[k]);
                    } else if k > m {
                        lemma_before_what_does_not_precede(sort, vs[m as int], vs[k], vs[j as int]);
                    }
                }
                lemma_text_lt_from_irreflexive(v@[j as int]@.topic, 0);
                lemma_text_lt_from_irreflexive(v@[j as int]@.name, 0);
            }
            m = j;
        }
        j = j + 1;
    }
    m
}

/// Whether `out` is `orig` reordered as `p` says, `out[i]` being `orig[p[i]]`,
/// with results that tie in the order `sort` kept in the order they had.
pub open spec fn stable_sorted(sort: SearchSort, orig: Seq<ResultView>, out: Seq<ResultView>, p: Seq<int>) -> bool {
    &&& p.len() == out.len()
    &&& out.len() == orig.len()
    &&& forall|i: int| 0 <= i < p.len() ==> 0 <= #[trigger] p[i] < orig.len() && out[i] == orig[p[i]]
    &&& forall|i: int, j: int| 0 <= i < j < p.len() ==> #[trigger] p[i] != #[trigger] p[j]
    &&& forall|i: int, j: int| 0 <= i < j < p.len() && ties(sort, out[i], out[j]) ==> #[trigger] p[i] < #[trigger] p[j]
}

/// Sorts results into the order a search asks for. Results that tie keep
/// the order they came in.
pub fn sort_by_requested_order(results: &mut Vec<SearchResult>, sort: SearchSort)
    ensures
        views(final(results)@).to_multiset() == views(old(results)@).to_multiset(),
        sorted_for(sort, views(final(results)@)),
        exists|p: Seq<int>| stable_sorted(sort, views(old(results)@), views(final(results)@), p),
{
    broadcast use vstd::seq_lib::group_to_multiset_ensures;
    broadcast use vstd::multiset::group_multiset_axioms;

    let mut rest: Vec<SearchResult> = Vec::new();
    std::mem::swap(&mut rest, results);
    let ghost start = views(rest@);
    let ghost n = start.len();
    let ghost mut rpos: Seq<int> = Seq::new(n, |k: int| k);
    let ghost mut opos: Seq<int> = Seq::empty();
    let mut out: Vec<SearchResult> = Vec::new();
    while rest.len() > 0
        invariant
            n == start.len(),
            views(out@).to_multiset().add(views(rest@).to_multiset()) == start.to_multiset(),
            sorted_for(sort, views(out@)),
            forall|i: int, k: int|
                0 <= i < out@.len() && 0 <= k < rest@.len() ==> !goes_before(
                    sort,
                    #[trigger] views(rest@)[k],
                    #[trigger] views(out@)[i],
                ),
            rpos.len() == rest@.len(),
            opos.len() == out@.len(),
            out@.len() + rest@.len() == n,
            forall|k: int| 0 <= k < rpos.len() ==> 0 <= #[trigger] rpos[k] < n && views(rest@)[k] == start[rpos[k]],
            forall|k1: int, k2: int| 0 <= k1 < k2 < rpos.len() ==> #[trigger] rpos[k1] < #[trigger] rpos[k2],
            forall|i: int| 0 <= i < opos.len() ==> 0 <= #[trigger] opos[i] < n && views(out@)[i] == start[opos[i]],
            forall|i: int, j: int| 0 <= i < j < opos.len() ==> #[trigger] opos[i] != #[trigger] opos[j],
            forall|i: int, k: int| 0 <= i < opos.len() && 0 <= k < rpos.len() ==> #[trigger] opos[i] != #[trigger] rpos[k],
            forall|i: int, j: int|
                0 <= i < j < opos.len() && ties(sort, views(out@)[i], views(out@)[j]) ==> #[trigger] opos[i]
                    < #[trigger] opos[j],
            forall|i: int, k: int|
                0 <= i < opos.len() && 0 <= k < rpos.len() && ties(sort, views(out@)[i], views(rest@)[k])
                    ==> #[trigger] opos[i] < #[trigger] rpos[k],
        decreases rest@.len(),
    {
        let m = first_least(&rest, sort);
        let ghost before_rest = views(rest@);
        let ghost before_out = views(out@);
        let ghost old_rpos = rpos;
        let ghost old_opos = opos;
        let x = rest.remove(m);
        proof {
            assert(views(rest@) =~= before_rest.remove(m as int));
        }
        out.push(x);
        proof {
            rpos = old_rpos.remove(m as int);
            opos = old_opos.push(old_rpos[m as int]);
            assert(views(out@) =~= before_out.push(x@));
            assert(before_rest[m as int] == x@);
            vstd::seq_lib::to_multiset_remove(before_rest, m as int);
            vstd::seq_lib::to_multiset_build(before_out, x@);
            assert(before_rest.contains(x@));
            vstd::seq_lib::to_multiset_contains(before_rest, x@);
            assert(views(out@).to_multiset().add(views(rest@).to_multiset()) =~= before_out.to_multiset().add(
                before_rest.to_multiset(),
            ));
            assert forall|i: int, j: int| 0 <= i < j < views(out@).len() implies !goes_before(
                sort,
                #[trigger] views(out@)[j],
                #[trigger] views(out@)[i],
            ) by {
                if j < before_out.len() {
                    assert(views(out@)[j] == before_out[j]);
                    assert(views(out@)[i] == before_out[i]);
                } else {
                    assert(views(out@)[j] == before_rest[m as int]);
                    assert(views(out@)[i] == before_out[i]);
                }
            }
            assert forall|i: int, k: int|
                0 <= i < out@.len() && 0 <= k < rest@.len() implies !goes_before(
                sort,
                #[trigger] views(rest@)[k],
                #[trigger] views(out@)[i],
            ) by {
                let kk = if k < m { k } else { k + 1 };
                assert(views(rest@)[k] == before_rest[kk]);
                if i < before_out.len() {
                    assert(views(out@)[i] == before_out[i]);
                } else {
                    assert(views(out@)[i] == before_rest[m as int]);
                }
            }
            assert forall|k: int| 0 <= k < rpos.len() implies 0 <= #[trigger] rpos[k] < n && views(rest@)[k] == start[rpos[k]] by {
                let kk = if k < m { k } else { k + 1 };
                assert(rpos[k] == old_rpos[kk]);
                assert(views(rest@)[k] == before_rest[kk]);
            }
            assert forall|k1: int, k2: int| 0 <= k1 < k2 < rpos.len() implies #[trigger] rpos[k1] < #[trigger] rpos[k2] by {
                let kk1 = if k1 < m { k1 } else { k1 + 1 };
                let kk2 = if k2 < m { k2 } else { k2 + 1 };
                assert(rpos[k1] == old_rpos[kk1]);
                assert(rpos[k2] == old_rpos[kk2]);
            }
            assert forall|i: int| 0 <= i < opos.len() implies 0 <= #[trigger] opos[i] < n && views(out@)[i] == start[opos[i]] by {
                if i < old_opos.len() {
                    assert(opos[i] == old_opos[i]);
                    assert(views(out@)[i] == before_out[i]);
                } else {
                    assert(opos[i] == old_rpos[m as int]);
                    assert(views(out@)[i] == before_rest[m as int]);
                }
            }
            assert forall|i: int, j: int| 0 <= i < j < opos.len() implies #[trigger] opos[i] != #[trigger] opos[j] by {
                if j < old_opos.len() {
                    assert(opos[i] == old_opos[i]);
                    assert(opos[j] == old_opos[j]);
                } else {
                    assert(opos[i] == old_opos[i]);
                    assert(opos[j] == old_rpos[m as int]);
                }
            }
            assert forall|i: int, k: int| 0 <= i < opos.len() && 0 <= k < rpos.len() implies #[trigger] opos[i] != #[trigger] rpos[k] by {
                let kk = if k < m { k } else { k + 1 };
                assert(rpos[k] == old_rpos[kk]);
                if i < old_opos.len() {
                    assert(opos[i] == old_opos[i]);
                } else {
                    assert(opos[i] == old_rpos[m as int]);
                }
            }
            assert forall|i: int, j: int|
                0 <= i < j < opos.len() && ties(sort, views(out@)[i], views(out@)[j]) implies #[trigger] opos[i]
                < #[trigger] opos[j] by {
                assert(opos[i] == old_opos[i]);
                assert(views(out@)[i] == before_out[i]);
                if j < old_opos.len() {
                    assert(opos[j] == old_opos[j]);
                    assert(views(out@)[j] == before_out[j]);
                } else {
                    assert(opos[j] == old_rpos[m as int]);
                    assert(views(out@)[j] == before_rest[m as int]);
                }
            }
            assert forall|i: int, k: int|
                0 <= i < opos.len() && 0 <= k < rpos.len() && ties(sort, views(out@)[i], views(rest@)[k])
                    implies #[trigger] opos[i] < #[trigger] rpos[k] by {
                let kk = if k < m { k } else { k + 1 };
                assert(rpos[k] == old_rpos[kk]);
                assert(views(rest@)[k] == before_rest[kk]);
                if i < old_opos.len() {
                    assert(opos[i] == old_opos[i]);
                    assert(views(out@)[i] == before_out[i]);
                } else {
                    assert(opos[i] == old_rpos[m as int]);
                    assert(views(out@)[i] == before_rest[m as int]);
                }
            }
        }
    }
    proof {
        assert(views(rest@).to_multiset() =~= Multiset::empty());
        assert(views(out@).to_multiset().add(Multiset::empty()) =~= views(out@).to_multiset());
        assert(stable_sorted(sort, start, views(out@), opos));
    }
    *results = out;
}

/// Sorts results by relevance: the highest score first, ties by topic and
/// then name.
pub fn sort_by_relevance(results: &mut Vec<SearchResult>)
    ensures
        views(final(results)@).to_multiset() == views(old(results)@).to_multiset(),
        sorted_for(SearchSort::Relevance, views(final(results)@)),
        exists|p: Seq<int>| stable_sorted(SearchSort::Relevance, views(old(results)@), views(final(results)@), p),
{
    sort_by_requested_order(results, SearchSort::Relevance);
}

// ---------------------------------------------------------------------------
// One result per insight
// ---------------------------------------------------------------------------

/// Whether no two results of a sequence are of the same insight.
pub open spec fn distinct_keys(s: Seq<ResultView>) -> bool {
    forall|a: int, b: int| 0 <= a < s.len() && 0 <= b < s.len() && a != b ==> !same_key(#[trigger] s[a], #[trigger] s[b])
}

/// Whether the result at index `j` has, among the first `n` results of its
/// insight, the highest score, and a strictly higher one than any before it.
pub open spec fn best_at(s: Seq<ResultView>, n: int, j: int) -> bool {
    &&& forall|k: int| 0 <= k < n && same_key(#[trigger] s[k], s[j]) ==> s[k].score <= s[j].score
    &&& forall|k: int| 0 <= k < j && same_key(#[trigger] s[k], s[j]) ==> s[k].score < s[j].score
}

/// Whether `x` is, among the first `n` results of its insight, the first of
/// those with the highest score.
pub open spec fn first_highest_in(s: Seq<ResultView>, n: int, x: ResultView) -> bool {
    exists|j: int| #![trigger best_at(s, n, j)] 0 <= j < n && s[j] == x && best_at(s, n, j)
}

/// Whether `d` holds a result of the same insight as `x`.
pub open spec fn covers(d: Seq<ResultView>, x: ResultView) -> bool {
    exists|a: int| 0 <= a < d.len() && same_key(#[trigger] d[a], x)
}

/// What keeping one result per insight leaves of `s`: `d` has one result for
/// each insight `s` has results of, and it is the first of that insight's
/// highest-scoring results.
pub open spec fn deduplicated(s: Seq<ResultView>, d: Seq<ResultView>) -> bool {
    &&& distinct_keys(d)
    &&& forall|a: int| 0 <= a < d.len() ==> first_highest_in(s, s.len() as int, #[trigger] d[a])
    &&& forall|k: int| 0 <= k < s.len() ==> covers(d, #[trigger] s[k])
}

proof fn lemma_extend_other(s: Seq<ResultView>, n: int, x: ResultView)
    requires
        0 <= n < s.len(),
        first_highest_in(s, n, x),
        !same_key(s[n], x),
    ensures
        first_highest_in(s, n + 1, x),
{
    let j = choose|j: int| #![trigger best_at(s, n, j)] 0 <= j < n && s[j] == x && best_at(s, n, j);
    assert(best_at(s, n + 1, j));
}

proof fn lemma_extend_lower(s: Seq<ResultView>, n: int, x: ResultView)
    requires
        0 <= n < s.len(),
        first_highest_in(s, n, x),
        same_key(s[n], x),
        s[n].score <= x.score,
    ensures
        first_highest_in(s, n + 1, x),
{
    let j = choose|j: int| #![trigger best_at(s, n, j)] 0 <= j < n && s[j] == x && best_at(s, n, j);
    assert(best_at(s, n + 1, j));
}

proof fn lemma_new_best(s: Seq<ResultView>, n: int)
    requires
        0 <= n < s.len(),
        forall|k: int| 0 <= k < n && same_key(#[trigger] s[k], s[n]) ==> s[k].score < s[n].score,
    ensures
        first_highest_in(s, n + 1, s[n]),
{
    assert(best_at(s, n + 1, n));
}

proof fn lemma_deduplicated_permutation(s: Seq<ResultView>, d: Seq<ResultView>, e: Seq<ResultView>)
    requires
        deduplicated(s, d),
        d.to_multiset() == e.to_multiset(),
    ensures
        deduplicated(s, e),
{
    broadcast use vstd::seq_lib::group_to_multiset_ensures;

    assert forall|a: int| 0 <= a < e.len() implies first_highest_in(s, s.len() as int, #[trigger] e[a]) by {
        assert(e.contains(e[a]));
        vstd::seq_lib::to_multiset_contains(e, e[a]);
        vstd::seq_lib::to_multiset_contains(d, e[a]);
        let b = choose|b: int| 0 <= b < d.len() && d[b] == e[a];
        assert(first_highest_in(s, s.len() as int, d[b]));
    }
    assert forall|k: int| 0 <= k < s.len() implies covers(e, #[trigger] s[k]) by {
        assert(covers(d, s[k]));
        let a = choose|a: int| 0 <= a < d.len() && same_key(#[trigger] d[a], s[k]);
        assert(d.contains(d[a]));
        vstd::seq_lib::to_multiset_contains(d, d[a]);
        vstd::seq_lib::to_multiset_contains(e, d[a]);
        let a2 = choose|a2: int| 0 <= a2 < e.len() && e[a2] == d[a];
        assert(same_key(e[a2], s[k]));
    }
    assert(d.no_duplicates());
    d.lemma_multiset_has_no_duplicates();
    e.lemma_multiset_has_no_duplicates_conv();
    assert forall|p: int, q: int| 0 <= p < e.len() && 0 <= q < e.len() && p != q implies !same_key(
        #[trigger] e[p],
        #[trigger] e[q],
    ) by {
        assert(e.contains(e[p]));
        assert(e.contains(e[q]));
        vstd::seq_lib::to_multiset_contains(e, e[p]);
        vstd::seq_lib::to_multiset_contains(d, e[p]);
        vstd::seq_lib::to_multiset_contains(e, e[q]);
        vstd::seq_lib::to_multiset_contains(d, e[q]);
        let pa = choose|pa: int| 0 <= pa < d.len() && d[pa] == e[p];
        let qa = choose|qa: int| 0 <= qa < d.len() && d[qa] == e[q];
        assert(!same_key(d[pa], d[qa]));
    }
    assert(distinct_keys(e));
    assert(forall|a: int| 0 <= a < e.len() ==> first_highest_in(s, s.len() as int, #[trigger] e[a]));
}

/// The index of the result of the same insight as `x`, if there is one.
fn find_key(out: &Vec<SearchResult>, x: &SearchResult) -> (r: Option<usize>)
    ensures
        match r {
            Some(a) => a < out@.len() && same_key(views(out@)[a as int], x@),
            None => forall|a: int| 0 <= a < out@.len() ==> !same_key(#[trigger] views(out@)[a], x@),
        },
{
    let mut a: usize = 0;
    while a < out.len()
        invariant
            a <= out@.len(),
            forall|b: int| 0 <= b < a ==> !same_key(#[trigger] views(out@)[b], x@),
        decreases out@.len() - a,
    {
        if out[a].topic == x.topic && out[a].name == x.name {
            return Some(a);
        }
        a = a + 1;
    }
    None
}

/// Keeps one result per insight, the first of its highest-scoring ones,
/// and leaves them sorted by relevance.
pub fn deduplicate_highest_scoring(results: &mut Vec<SearchResult>)
    ensures
        deduplicated(views(old(results)@), views(final(results)@)),
        sorted_for(SearchSort::Relevance, views(final(results)@)),
{
    let mut rest: Vec<SearchResult> = Vec::new();
    std::mem::swap(&mut rest, results);
    let ghost s = views(rest@);
    let ghost n = s.len() as int;
    let mut out: Vec<SearchResult> = Vec::new();
    let ghost mut i: int = 0;
    while rest.len() > 0
        invariant
            0 <= i <= n,
            n == s.len(),
            i + rest@.len() == n,
            views(rest@) == s.subrange(i, n),
            distinct_keys(views(out@)),
            forall|a: int| 0 <= a < out@.len() ==> first_highest_in(s, i, #[trigger] views(out@)[a]),
            forall|k: int| 0 <= k < i ==> covers(views(out@), #[trigger] s[k]),
        decreases rest@.len(),
    {
        let ghost before = views(out@);
        let ghost before_rest = views(rest@);
        let x = rest.remove(0);
        proof {
            assert(before_rest[0] == x@);
            assert(before_rest[0] == s[i]);
            assert(views(rest@) =~= before_rest.remove(0));
            assert(views(rest@) =~= s.subrange(i + 1, n));
        }
        match find_key(&out, &x) {
            None => {
                proof {
                    assert forall|k: int| 0 <= k < i && same_key(#[trigger] s[k], s[i]) implies s[k].score < s[i].score by {
                        assert(covers(before, s[k]));
                        let a = choose|a: int| 0 <= a < before.len() && same_key(#[trigger] before[a], s[k]);
                        assert(same_key(before[a], x@));
                    }
                    lemma_new_best(s, i);
                    assert forall|a: int| 0 <= a < before.len() implies first_highest_in(s, i + 1, #[trigger] before[a]) by {
                        lemma_extend_other(s, i, before[a]);
                    }
                }
                out.push(x);
                proof {
                    assert(views(out@) =~= before.push(s[i]));
                    assert forall|k: int| 0 <= k < i + 1 implies covers(views(out@), #[trigger] s[k]) by {
                        if k < i {
                            assert(covers(before, s[k]));
                            let b = choose|b: int| 0 <= b < before.len() && same_key(#[trigger] before[b], s[k]);
                            assert(same_key(views(out@)[b], s[k]));
                        } else {
                            assert(same_key(views(out@)[before.len() as int], s[k]));
                        }
                    }
                }
            },
            Some(a) => {
                if x.score > out[a].score {
                    proof {
                        assert forall|k: int| 0 <= k < i && same_key(#[trigger] s[k], s[i]) implies s[k].score < s[i].score by {
                            let j = choose|j: int| #![trigger best_at(s, i, j)] 0 <= j < i && s[j] == before[a as int] && best_at(s, i, j);
                            assert(same_key(s[k], s[j]));
                        }
                        lemma_new_best(s, i);
                        assert forall|b: int| 0 <= b < before.len() && b != a implies first_highest_in(s, i + 1, #[trigger] before[b]) by {
                            assert(!same_key(before[b], before[a as int]));
                            lemma_extend_other(s, i, before[b]);
                        }
                    }
                    out.set(a, x);
                    proof {
                        assert(views(out@) =~= before.update(a as int, s[i]));
                        assert forall|k: int| 0 <= k < i + 1 implies covers(views(out@), #[trigger] s[k]) by {
                            if k < i {
                                assert(covers(before, s[k]));
                                let b = choose|b: int| 0 <= b < before.len() && same_key(#[trigger] before[b], s[k]);
                                assert(same_key(views(out@)[b], s[k]));
                            } else {
                                assert(same_key(views(out@)[a as int], s[k]));
                            }
                        }
                    }
                } else {
                    proof {
                        lemma_extend_lower(s, i, before[a as int]);
                        assert forall|k: int| 0 <= k < i + 1 implies covers(views(out@), #[trigger] s[k]) by {
                            if k < i {
                                assert(covers(before, s[k]));
                            } else {
                                assert(same_key(views(out@)[a as int], s[k]));
                            }
                        }
                        assert forall|b: int| 0 <= b < before.len() && b != a implies first_highest_in(s, i + 1, #[trigger] before[b]) by {
                            assert(!same_key(before[b], before[a as int]));
                            lemma_extend_other(s, i, before[b]);
                        }
                    }
                }
            },
        }
        proof {
            i = i + 1;
        }
    }
    let ghost deduped = views(out@);
    sort_by_relevance(&mut out);
    proof {
        lemma_deduplicated_permutation(s, deduped, views(out@));
    }
    *results = out;
}

/// What is left of a sorted ranking under a limit on the number of results.
pub open spec fn limited(full: Seq<ResultView>, max_results: Option<usize>) -> Seq<ResultView> {
    match max_results {
        Some(n) => if n < full.len() {
            full.take(n as int)
        } else {
            full
        },
        None => full,
    }
}

/// Whether `r` is what a search returns of the results `s`: one result per
/// insight, the first of its highest-scoring ones, in the order the search
/// asks for, cut to its limit.
pub open spec fn ranked(s: Seq<ResultView>, sort: SearchSort, max_results: Option<usize>, r: Seq<ResultView>) -> bool {
    exists|full: Seq<ResultView>|
        #![trigger deduplicated(s, full), sorted_for(sort, full)]
        deduplicated(s, full) && sorted_for(sort, full) && r == limited(full, max_results)
}

/// Ranks the results a search gathered: one per insight, sorted as the
/// search asks, cut to its limit.
pub fn rank_results(results: Vec<SearchResult>, sort: SearchSort, max_results: Option<usize>) -> (r: Vec<
    SearchResult,
>)
    ensures
        ranked(views(results@), sort, max_results, views(r@)),
{
    let ghost s = views(results@);
    let mut out = results;
    deduplicate_highest_scoring(&mut out);
    let ghost deduped = views(out@);
    sort_by_requested_order(&mut out, sort);
    proof {
        lemma_deduplicated_permutation(s, deduped, views(out@));
    }
    let ghost full = views(out@);
    if let Some(limit) = max_results {
        out.truncate(limit);
    }
    proof {
        assert(views(out@) =~= limited(full, max_results));
        assert(deduplicated(s, full) && sorted_for(sort, full));
    }
    out
}

} // verus!
