//! Exact term matching: which insights a search's dates admit, the text an
//! insight is searched in, the terms as they are looked for, and how often
//! they occur.

use vstd::prelude::*;
use crate::insight::{Insight, InsightView};
use crate::search::SearchOptions;
use crate::text::{
    chars_of, contains, extend, find_exec, lemma_find_from, lowercase, occurs_at, occurs_at_exec, string_of,
    to_lowercase,
};
use crate::timestamp::{Timestamp, ts_le, ts_le_exec};

verus! {

broadcast use vstd::string::group_string_axioms;

/// Whether an instant lies within a search's date bounds, both inclusive.
pub open spec fn in_date_range(t: Timestamp, since: Option<Timestamp>, until: Option<Timestamp>) -> bool {
    &&& (since matches Some(s) ==> ts_le(s, t))
    &&& (until matches Some(u) ==> ts_le(t, u))
}

/// Whether an insight was last updated within the search's date bounds.
pub fn matches_date_range(insight: &Insight, options: &SearchOptions) -> (r: bool)
    ensures
        r == in_date_range(insight.last_updated, options.since, options.until),
{
    if let Some(since) = options.since {
        if !ts_le_exec(since, insight.last_updated) {
            return false;
        }
    }
    if let Some(until) = options.until {
        if !ts_le_exec(insight.last_updated, until) {
            return false;
        }
    }
    true
}

/// The text an insight is searched in: topic, name and overview, then the
/// details unless the search is over overviews only, separated by spaces.
pub open spec fn searched_text(i: InsightView, overview_only: bool) -> Seq<char> {
    let head = i.topic + seq![' '] + i.name + seq![' '] + i.overview;
    if overview_only {
        head
    } else {
        head + seq![' '] + i.details
    }
}

/// The text an insight is searched in.
pub fn get_normalized_content(insight: &Insight, options: &SearchOptions) -> (r: String)
    ensures
        r@ == searched_text(insight@, options.overview_only),
{
    let space = [' '];
    let mut out = chars_of(insight.topic.as_str());
    extend(&mut out, &space);
    extend(&mut out, chars_of(insight.name.as_str()).as_slice());
    extend(&mut out, &space);
    extend(&mut out, chars_of(insight.overview.as_str()).as_slice());
    if !options.overview_only {
        extend(&mut out, &space);
        extend(&mut out, chars_of(insight.details.as_str()).as_slice());
    }
    proof {
        assert(space@ =~= seq![' ']);
    }
    string_of(out.as_slice())
}

/// A term as it is looked for: lower-cased unless the search is
/// case-sensitive. The searched text itself is never lower-cased.
pub open spec fn search_term(t: Seq<char>, case_sensitive: bool) -> Seq<char> {
    if case_sensitive {
        t
    } else {
        lowercase(t)
    }
}

/// The terms as they are looked for, in the order given.
pub fn get_normalized_terms(terms: &[String], options: &SearchOptions) -> (r: Vec<String>)
    ensures
        r@.len() == terms@.len(),
        forall|i: int| 0 <= i < terms@.len() ==> #[trigger] r@[i]@ == search_term(terms@[i]@, options.case_sensitive),
{
    let mut r: Vec<String> = Vec::new();
    let mut i: usize = 0;
    while i < terms.len()
        invariant
            i <= terms@.len(),
            r@.len() == i,
            forall|k: int| 0 <= k < i ==> #[trigger] r@[k]@ == search_term(terms@[k]@, options.case_sensitive),
        decreases terms@.len() - i,
    {
        let t = if options.case_sensitive {
            string_of(chars_of(terms[i].as_str()).as_slice())
        } else {
            to_lowercase(terms[i].as_str())
        };
        r.push(t);
        i = i + 1;
    }
    r
}

/// Whether a search's exclusions rule an insight out: some excluded term,
/// not empty, occurs in the text the insight is searched in, both taken in
/// lower case unless the search is case-sensitive.
pub open spec fn excluded(i: InsightView, options: SearchOptions) -> bool {
    exists|k: int|
        0 <= k < options.exclude@.len() && options.exclude@[k]@.len() > 0 && contains(
            search_term(searched_text(i, options.overview_only), options.case_sensitive),
            #[trigger] search_term(options.exclude@[k]@, options.case_sensitive),
        )
}

/// Whether a search's exclusions rule an insight out.
pub fn is_excluded(insight: &Insight, options: &SearchOptions) -> (r: bool)
    ensures
        r == excluded(insight@, *options),
{
    let content = get_normalized_content(insight, options);
    let folded = if options.case_sensitive {
        content
    } else {
        to_lowercase(content.as_str())
    };
    let text = chars_of(folded.as_str());
    let ghost t = search_term(searched_text(insight@, options.overview_only), options.case_sensitive);
    assert(text@ == t);
    let mut k: usize = 0;
    while k < options.exclude.len()
        invariant
            k <= options.exclude@.len(),
            text@ == t,
            t == search_term(searched_text(insight@, options.overview_only), options.case_sensitive),
            forall|j: int|
                0 <= j < k ==> !(options.exclude@[j]@.len() > 0 && contains(
                    t,
                    #[trigger] search_term(options.exclude@[j]@, options.case_sensitive),
                )),
        decreases options.exclude@.len() - k,
    {
        let term = &options.exclude[k];
        if chars_of(term.as_str()).len() > 0 {
            let folded_term = if options.case_sensitive {
                string_of(chars_of(term.as_str()).as_slice())
            } else {
                to_lowercase(term.as_str())
            };
            let p = chars_of(folded_term.as_str());
            proof {
                lemma_find_from(text@, p@, 0);
            }
            match find_exec(text.as_slice(), p.as_slice()) {
                Some(i) => {
                    proof {
                        assert(occurs_at(text@, p@, i as int));
                        assert(p@ == search_term(options.exclude@[k as int]@, options.case_sensitive));
                        assert(contains(t, search_term(options.exclude@[k as int]@, options.case_sensitive)));
                    }
                    return true;
                },
                None => {},
            }
        }
        k = k + 1;
    }
    false
}

/// How many times `p` occurs in `s` at or after index `i`, matches taken
/// left to right and never overlapping.
pub open spec fn matches_from(s: Seq<char>, p: Seq<char>, i: int) -> nat
    decreases s.len() - i,
{
    if p.len() == 0 || i < 0 || i + p.len() > s.len() {
        0
    } else if occurs_at(s, p, i) {
        1 + matches_from(s, p, i + p.len())
    } else {
        matches_from(s, p, i + 1)
    }
}

/// How many times `str::matches` finds `p` in `s`: non-overlapping matches
/// from the left, and for an empty pattern, one at each character boundary.
pub open spec fn match_count(s: Seq<char>, p: Seq<char>) -> nat {
    if p.len() == 0 {
        s.len() + 1
    } else {
        matches_from(s, p, 0)
    }
}

proof fn lemma_matches_from_bound(s: Seq<char>, p: Seq<char>, i: int)
    requires
        0 <= i <= s.len(),
    ensures
        matches_from(s, p, i) <= s.len() - i,
    decreases s.len() - i,
{
    if p.len() == 0 || i + p.len() > s.len() {
    } else if occurs_at(s, p, i) {
        lemma_matches_from_bound(s, p, i + p.len());
    } else {
        lemma_matches_from_bound(s, p, i + 1);
    }
}

/// How many times `p` occurs in `s`, as `str::matches(..).count()` counts.
pub fn count_matches(s: &[char], p: &[char]) -> (r: usize)
    requires
        s@.len() < usize::MAX,
    ensures
        r == match_count(s@, p@),
{
    if p.len() == 0 {
        return s.len() + 1;
    }
    let mut count: usize = 0;
    let mut i: usize = 0;
    while p.len() <= s.len() - i
        invariant
            p@.len() > 0,
            i <= s@.len(),
            s@.len() < usize::MAX,
            count + matches_from(s@, p@, i as int) == matches_from(s@, p@, 0),
            count <= i,
        decreases s@.len() - i,
    {
        if occurs_at_exec(s, p, i) {
            count = count + 1;
            i = i + p.len();
        } else {
            i = i + 1;
        }
    }
    count
}

/// How many times all the terms occur in a text, added up.
pub open spec fn total_matches(text: Seq<char>, terms: Seq<Seq<char>>) -> nat
    decreases terms.len(),
{
    if terms.len() == 0 {
        0
    } else {
        total_matches(text, terms.drop_last()) + match_count(text, terms.last())
    }
}

/// The terms as they are looked for, as sequences of characters.
pub open spec fn search_terms(terms: Seq<String>, case_sensitive: bool) -> Seq<Seq<char>> {
    terms.map_values(|t: String| search_term(t@, case_sensitive))
}

/// An insight's exact-match score: how many times the search's terms occur
/// in the text it is searched in, added up over the terms.
pub open spec fn exact_score(i: InsightView, terms: Seq<String>, options: SearchOptions) -> nat {
    total_matches(searched_text(i, options.overview_only), search_terms(terms, options.case_sensitive))
}

/// An insight's exact-match score.
pub fn get_exact_match(insight: &Insight, terms: &[String], options: &SearchOptions) -> (r: u128)
    requires
        searched_text(insight@, options.overview_only).len() < usize::MAX,
    ensures
        r == exact_score(insight@, terms@, *options),
{
    let content = get_normalized_content(insight, options);
    let normalized = get_normalized_terms(terms, options);
    let text = chars_of(content.as_str());
    let ghost want = search_terms(terms@, options.case_sensitive);
    let mut total: u128 = 0;
    let mut i: usize = 0;
    while i < normalized.len()
        invariant
            i <= normalized@.len(),
            normalized@.len() == terms@.len(),
            want.len() == terms@.len(),
            forall|k: int| 0 <= k < terms@.len() ==> #[trigger] normalized@[k]@ == want[k],
            text@ == searched_text(insight@, options.overview_only),
            text@.len() < usize::MAX,
            total == total_matches(text@, want.take(i as int)),
            total <= i * (text@.len() + 1),
        decreases normalized@.len() - i,
    {
        let term = chars_of(normalized[i].as_str());
        let c = count_matches(text.as_slice(), term.as_slice());
        proof {
            if term@.len() > 0 {
                lemma_matches_from_bound(text@, term@, 0);
            }
            assert(want.take(i + 1).drop_last() =~= want.take(i as int));
            assert(want.take(i + 1).last() == want[i as int]);
            assert(total + c <= (i + 1) * (text@.len() + 1)) by (nonlinear_arith)
                requires
                    total <= i * (text@.len() + 1),
                    c <= text@.len() + 1,
            ;
            assert((i + 1) * (text@.len() + 1) <= 0xffff_ffff_ffff_ffff * 0xffff_ffff_ffff_ffff)
                by (nonlinear_arith)
                requires
                    i + 1 <= 0xffff_ffff_ffff_ffff,
                    text@.len() + 1 <= 0xffff_ffff_ffff_ffff,
            ;
        }
        total = total + c as u128;
        i = i + 1;
    }
    proof {
        assert(want.take(terms@.len() as int) =~= want);
    }
    total
}

} // verus!
