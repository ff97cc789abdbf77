//! Colouring the search terms where they occur in a result, ignoring case.
//!
//! Terms are applied longest first (by bytes, ties in the order given). Each
//! occurrence is found in the lowercased text and the same stretch of the
//! text, as long in bytes as the term itself, is painted. The positions are
//! byte offsets in the lowercased copy; they carry over to the text only
//! where lowercasing keeps every character's width in bytes, and a stretch
//! that ends inside a character, or past the end, cannot be cut.

use vstd::prelude::*;
use crate::report::{reset_seq, styled, yellow_bold};
use crate::text::{
    all_ascii, ascii_lowered, char_utf8_len, chars_of, contains, extend, find_from, lemma_find_from, lowercase, occurs_at,
    slice_vec, string_of, to_lowercase, utf8_len, utf8_len_exec,
};

verus! {

broadcast use vstd::string::group_string_axioms;

/// How a run of highlighting ends, given the painted forms of the matches in
/// order.
pub enum HighlightRun {
    /// The highlighted text, and the painted forms not used.
    Done(Seq<char>, Seq<Seq<char>>),
    /// A match cannot be cut out of the text.
    Overruns,
    /// Lowercasing changes the width of a character, so positions found in
    /// the lowercased copy do not carry over to the text.
    WidthChanges,
    /// The painted forms given are not what painting a match can give.
    Unfit,
}

/// What painting a match yellow and bold can hand back (see `yellow_bold`).
pub open spec fn painted_as(m: Seq<char>, p: Seq<char>) -> bool {
    !contains(m, reset_seq()) ==> (p == m || p == styled("1;33"@, m))
}

/// How many bytes one character takes in UTF-8.
pub open spec fn width(c: char) -> nat {
    utf8_len(seq![c])
}

/// Whether two texts have the same characters' widths, one for one.
pub open spec fn aligned(a: Seq<char>, b: Seq<char>) -> bool {
    a.len() == b.len() && forall|i: int| 0 <= i < a.len() ==> width(#[trigger] a[i]) == width(b[i])
}

/// The index at which `w` bytes of `s`, counted from index `i`, end, or -1
/// when they end inside a character or run past the end.
pub open spec fn end_after_bytes(s: Seq<char>, i: int, w: int) -> int
    decreases s.len() - i,
{
    if w == 0 {
        i
    } else if w < 0 || i < 0 || i >= s.len() {
        -1
    } else {
        end_after_bytes(s, i + 1, w - width(s[i]))
    }
}

/// One term's pass over `res` (lowercased: `rl`) from index `at`, the term
/// lowercased being `tl` and `w` bytes long, with `acc` built so far and the
/// painted forms `ps` still to use.
pub open spec fn pass_from(
    res: Seq<char>,
    rl: Seq<char>,
    tl: Seq<char>,
    w: int,
    at: int,
    acc: Seq<char>,
    ps: Seq<Seq<char>>,
) -> HighlightRun
    decreases res.len() + 1 - at,
{
    if at < 0 || at > res.len() || w <= 0 {
        HighlightRun::Overruns
    } else {
        let p = find_from(rl, tl, at);
        if p < 0 {
            HighlightRun::Done(acc + res.subrange(at, res.len() as int), ps)
        } else if p > res.len() {
            HighlightRun::Overruns
        } else {
            let q = end_after_bytes(res, p, w);
            if q <= at || q > res.len() {
                HighlightRun::Overruns
            } else if ps.len() == 0 || !painted_as(res.subrange(p, q), ps[0]) {
                HighlightRun::Unfit
            } else {
                pass_from(res, rl, tl, w, q, acc + res.subrange(at, p) + ps[0], ps.drop_first())
            }
        }
    }
}

/// A text lowercased: ASCII text by lowering its capitals, any other as
/// `str::to_lowercase` does.
pub open spec fn lowered(s: Seq<char>) -> Seq<char> {
    if all_ascii(s) {
        ascii_lowered(s)
    } else {
        lowercase(s)
    }
}

/// The terms applied in turn to `res`: an empty term is passed over.
pub open spec fn highlight_all(res: Seq<char>, ts: Seq<Seq<char>>, ps: Seq<Seq<char>>) -> HighlightRun
    decreases ts.len(),
{
    if ts.len() == 0 {
        HighlightRun::Done(res, ps)
    } else if ts[0].len() == 0 {
        highlight_all(res, ts.drop_first(), ps)
    } else if !aligned(res, lowered(res)) {
        HighlightRun::WidthChanges
    } else {
        match pass_from(res, lowered(res), lowered(ts[0]), utf8_len(ts[0]) as int, 0, seq![], ps) {
            HighlightRun::Done(out, rest) => highlight_all(out, ts.drop_first(), rest),
            other => other,
        }
    }
}

/// The first index at or after `i` whose term is narrower than `w` bytes, or
/// the length.
pub open spec fn first_narrower(s: Seq<Seq<char>>, w: nat, i: int) -> int
    decreases s.len() - i,
{
    if i >= s.len() {
        s.len() as int
    } else if utf8_len(s[i]) < w {
        i
    } else {
        first_narrower(s, w, i + 1)
    }
}

/// The terms, widest first in bytes, terms of one width in the order given.
pub open spec fn sorted_by_width(ts: Seq<Seq<char>>) -> Seq<Seq<char>>
    decreases ts.len(),
{
    if ts.len() == 0 {
        seq![]
    } else {
        let s = sorted_by_width(ts.drop_last());
        s.insert(first_narrower(s, utf8_len(ts.last()), 0), ts.last())
    }
}

/// The texts of the terms.
pub open spec fn term_views(terms: Seq<String>) -> Seq<Seq<char>> {
    terms.map_values(|t: String| t@)
}

/// The texts of character vectors.
pub open spec fn char_views(vs: Seq<Vec<char>>) -> Seq<Seq<char>> {
    vs.map_values(|v: Vec<char>| v@)
}

/// Highlighting `text` with `terms`, the matches painted as `ps` gives.
pub open spec fn highlighted(text: Seq<char>, terms: Seq<Seq<char>>, ps: Seq<Seq<char>>) -> HighlightRun {
    highlight_all(text, sorted_by_width(terms), ps)
}

/// What highlighting gave.
pub enum Highlighting {
    /// The text with its matches painted.
    Text(String),
    /// A match cannot be cut out of the text.
    Overruns,
    /// Lowercasing changes the width of a character of the text.
    WidthChanges,
}

/// Whether what highlighting gave is the run's outcome.
pub open spec fn gives(run: HighlightRun, r: Highlighting) -> bool {
    match run {
        HighlightRun::Done(s, _) => r matches Highlighting::Text(t) && t@ == s,
        HighlightRun::Overruns => r is Overruns,
        HighlightRun::WidthChanges => r is WidthChanges,
        HighlightRun::Unfit => false,
    }
}

proof fn lemma_first_narrower(s: Seq<Seq<char>>, w: nat, i: int)
    requires
        0 <= i <= s.len(),
    ensures
        i <= first_narrower(s, w, i) <= s.len(),
    decreases s.len() - i,
{
    if i < s.len() && utf8_len(s[i]) >= w {
        lemma_first_narrower(s, w, i + 1);
    }
}

/// The terms' characters, widest first (see `sorted_by_width`).
fn sort_by_width(terms: &[String]) -> (r: Vec<Vec<char>>)
    ensures
        char_views(r@) == sorted_by_width(term_views(terms@)),
{
    let ghost ts = term_views(terms@);
    let mut sorted: Vec<Vec<char>> = Vec::new();
    let mut widths: Vec<u128> = Vec::new();
    let mut j: usize = 0;
    proof {
        assert(ts.take(0) =~= Seq::<Seq<char>>::empty());
        assert(char_views(sorted@) =~= Seq::<Seq<char>>::empty());
    }
    while j < terms.len()
        invariant
            j <= terms@.len(),
            ts == term_views(terms@),
            char_views(sorted@) == sorted_by_width(ts.take(j as int)),
            widths@.len() == sorted@.len(),
            forall|k: int| 0 <= k < sorted@.len() ==> widths@[k] as nat == utf8_len(#[trigger] sorted@[k]@),
        decreases terms@.len() - j,
    {
        let t = chars_of(terms[j].as_str());
        let w = utf8_len_exec(t.as_slice());
        let ghost sv = char_views(sorted@);
        let mut i: usize = 0;
        while i < sorted.len() && !(widths[i] < w)
            invariant
                i <= sorted@.len(),
                widths@.len() == sorted@.len(),
                sv == char_views(sorted@),
                forall|k: int| 0 <= k < sorted@.len() ==> widths@[k] as nat == utf8_len(#[trigger] sorted@[k]@),
                first_narrower(sv, w as nat, 0) == first_narrower(sv, w as nat, i as int),
            decreases sorted@.len() - i,
        {
            proof {
                assert(sv[i as int] == sorted@[i as int]@);
            }
            i = i + 1;
        }
        proof {
            if i < sorted@.len() {
                assert(sv[i as int] == sorted@[i as int]@);
            }
            assert(first_narrower(sv, w as nat, i as int) == i);
            assert(ts.take(j + 1).drop_last() =~= ts.take(j as int));
            assert(ts.take(j + 1).last() == ts[j as int]);
            assert(ts[j as int] == terms@[j as int]@);
        }
        let ghost before = sorted@;
        let ghost wbefore = widths@;
        sorted.insert(i, t);
        widths.insert(i, w);
        proof {
            assert(char_views(sorted@) =~= sv.insert(i as int, ts[j as int]));
            assert forall|k: int| 0 <= k < sorted@.len() implies widths@[k] as nat == utf8_len(
                #[trigger] sorted@[k]@,
            ) by {
                if k < i {
                    assert(sorted@[k] == before[k]);
                    assert(widths@[k] == wbefore[k]);
                } else if k > i {
                    assert(sorted@[k] == before[k - 1]);
                    assert(widths@[k] == wbefore[k - 1]);
                }
            }
        }
        j = j + 1;
    }
    proof {
        assert(ts.take(terms@.len() as int) =~= ts);
    }
    sorted
}

/// The first index at or after `from` where `p` occurs in `s`.
fn find_from_exec(s: &[char], p: &[char], from: usize) -> (r: Option<usize>)
    ensures
        match r {
            Some(i) => find_from(s@, p@, from as int) == i as int,
            None => find_from(s@, p@, from as int) == -1,
        },
{
    if from > s.len() || p.len() > s.len() - from {
        return None;
    }
    let last = s.len() - p.len();
    let mut i = from;
    loop
        invariant
            last + p@.len() == s@.len(),
            from <= i <= last,
            find_from(s@, p@, from as int) == find_from(s@, p@, i as int),
        decreases last - i,
    {
        if crate::text::occurs_at_exec(s, p, i) {
            return Some(i);
        }
        if i == last {
            proof {
                assert(find_from(s@, p@, i + 1) == -1);
            }
            return None;
        }
        i = i + 1;
    }
}

/// Where `w` bytes of `s` from `i` end (see `end_after_bytes`).
fn end_after_bytes_exec(s: &[char], i: usize, w: u128) -> (r: Option<usize>)
    requires
        i <= s@.len(),
        w > 0,
    ensures
        match r {
            Some(q) => end_after_bytes(s@, i as int, w as int) == q as int && i < q <= s@.len(),
            None => end_after_bytes(s@, i as int, w as int) == -1,
        },
{
    let mut j = i;
    let mut rem = w;
    loop
        invariant
            i <= j <= s@.len(),
            w > 0,
            j == i ==> rem == w,
            end_after_bytes(s@, i as int, w as int) == end_after_bytes(s@, j as int, rem as int),
        decreases s@.len() - j,
    {
        if rem == 0 {
            proof {
                assert(end_after_bytes(s@, j as int, 0) == j as int);
                assert(j != i);
            }
            return Some(j);
        }
        if j >= s.len() {
            return None;
        }
        let c = char_utf8_len(s[j]);
        if (c as u128) > rem {
            proof {
                assert(end_after_bytes(s@, j + 1, rem - c) == -1);
            }
            return None;
        }
        rem = rem - c as u128;
        j = j + 1;
    }
}

/// Whether `a` and `b` have the same characters' widths, one for one.
fn aligned_exec(a: &[char], b: &[char]) -> (r: bool)
    ensures
        r == aligned(a@, b@),
{
    if a.len() != b.len() {
        return false;
    }
    let mut i: usize = 0;
    while i < a.len()
        invariant
            a@.len() == b@.len(),
            i <= a@.len(),
            forall|k: int| 0 <= k < i ==> width(#[trigger] a@[k]) == width(b@[k]),
        decreases a@.len() - i,
    {
        if char_utf8_len(a[i]) != char_utf8_len(b[i]) {
            return false;
        }
        i = i + 1;
    }
    true
}

/// One term's pass over `res`: the text with the term's matches painted, or
/// nothing where a match cannot be cut out, and the painted forms used.
fn highlight_pass(res: &Vec<char>, rl: &Vec<char>, tl: &Vec<char>, w: u128) -> (r: (
    Option<Vec<char>>,
    Ghost<Seq<Seq<char>>>,
))
    requires
        w > 0,
    ensures
        forall|rest: Seq<Seq<char>>|
            #![trigger pass_from(res@, rl@, tl@, w as int, 0, seq![], r.1@ + rest)]
            pass_from(res@, rl@, tl@, w as int, 0, seq![], r.1@ + rest) == match r.0 {
                Some(o) => HighlightRun::Done(o@, rest),
                None => HighlightRun::Overruns,
            },
{
    let mut acc: Vec<char> = Vec::new();
    let mut at: usize = 0;
    let ghost mut used: Seq<Seq<char>> = seq![];
    proof {
        assert forall|rest: Seq<Seq<char>>|
            #![trigger pass_from(res@, rl@, tl@, w as int, 0, acc@, rest)]
            pass_from(res@, rl@, tl@, w as int, 0, seq![], used + rest) == pass_from(
                res@,
                rl@,
                tl@,
                w as int,
                0,
                acc@,
                rest,
            ) by {
            assert(used + rest =~= rest);
            assert(acc@ =~= Seq::<char>::empty());
        }
    }
    loop
        invariant
            at <= res@.len(),
            w > 0,
            forall|rest: Seq<Seq<char>>|
                #![trigger pass_from(res@, rl@, tl@, w as int, at as int, acc@, rest)]
                pass_from(res@, rl@, tl@, w as int, 0, seq![], used + rest) == pass_from(
                    res@,
                    rl@,
                    tl@,
                    w as int,
                    at as int,
                    acc@,
                    rest,
                ),
        decreases res@.len() + 1 - at,
    {
        proof {
            lemma_find_from(rl@, tl@, at as int);
        }
        let found = find_from_exec(rl.as_slice(), tl.as_slice(), at);
        let p = match found {
            None => {
                let tail = slice_vec(res.as_slice(), at, res.len());
                let ghost acc0 = acc@;
                extend(&mut acc, tail.as_slice());
                proof {
                    assert forall|rest: Seq<Seq<char>>|
                        #![trigger pass_from(res@, rl@, tl@, w as int, 0, seq![], used + rest)]
                        pass_from(res@, rl@, tl@, w as int, 0, seq![], used + rest)
                            == HighlightRun::Done(acc@, rest) by {
                        assert(pass_from(res@, rl@, tl@, w as int, at as int, acc0, rest)
                            == HighlightRun::Done(acc@, rest));
                    }
                }
                return (Some(acc), Ghost(used));
            },
            Some(p) => p,
        };
        if p > res.len() {
            proof {
                assert forall|rest: Seq<Seq<char>>|
                    #![trigger pass_from(res@, rl@, tl@, w as int, 0, seq![], used + rest)]
                    pass_from(res@, rl@, tl@, w as int, 0, seq![], used + rest) == HighlightRun::Overruns by {
                    assert(pass_from(res@, rl@, tl@, w as int, at as int, acc@, rest) == HighlightRun::Overruns);
                }
            }
            return (None, Ghost(used));
        }
        let q = match end_after_bytes_exec(res.as_slice(), p, w) {
            None => {
                proof {
                    assert forall|rest: Seq<Seq<char>>|
                        #![trigger pass_from(res@, rl@, tl@, w as int, 0, seq![], used + rest)]
                        pass_from(res@, rl@, tl@, w as int, 0, seq![], used + rest) == HighlightRun::Overruns by {
                        assert(pass_from(res@, rl@, tl@, w as int, at as int, acc@, rest) == HighlightRun::Overruns);
                    }
                }
                return (None, Ghost(used));
            },
            Some(q) => q,
        };
        let m = slice_vec(res.as_slice(), p, q);
        let ms = string_of(m.as_slice());
        let painted = yellow_bold(ms.as_str());
        let pv = chars_of(painted.as_str());
        let before = slice_vec(res.as_slice(), at, p);
        let ghost acc0 = acc@;
        let ghost used0 = used;
        let ghost at0 = at as int;
        extend(&mut acc, before.as_slice());
        extend(&mut acc, pv.as_slice());
        proof {
            used = used.push(pv@);
            assert forall|rest: Seq<Seq<char>>|
                #![trigger pass_from(res@, rl@, tl@, w as int, q as int, acc@, rest)]
                pass_from(res@, rl@, tl@, w as int, 0, seq![], used + rest) == pass_from(
                    res@,
                    rl@,
                    tl@,
                    w as int,
                    q as int,
                    acc@,
                    rest,
                ) by {
                let rest1 = seq![pv@] + rest;
                assert(used + rest =~= used0 + rest1);
                assert(rest1.drop_first() =~= rest);
                assert(rest1[0] == pv@);
                assert(acc@ =~= acc0 + res@.subrange(at0, p as int) + pv@);
                assert(pass_from(res@, rl@, tl@, w as int, at0, acc0, rest1) == pass_from(
                    res@,
                    rl@,
                    tl@,
                    w as int,
                    q as int,
                    acc@,
                    rest,
                ));
            }
        }
        at = q;
    }
}

/// Colours each occurrence of the terms in `text`, longest term first,
/// ignoring case, yellow and bold: the text with its matches painted, or
/// which way the text cannot be highlighted. Each painted match is one of
/// the forms painting can give, as the terminal decides.
pub fn highlight_keywords(text: &str, terms: &[String]) -> (r: Highlighting)
    ensures
        exists|ps: Seq<Seq<char>>| gives(highlighted(text@, term_views(terms@), ps), r),
{
    let sorted = sort_by_width(terms);
    let ghost ts = sorted_by_width(term_views(terms@));
    let mut res = chars_of(text);
    let ghost mut used: Seq<Seq<char>> = seq![];
    proof {
        assert forall|rest: Seq<Seq<char>>| #![trigger highlight_all(res@, ts.skip(0), rest)]
            highlight_all(text@, ts, used + rest) == highlight_all(res@, ts.skip(0), rest) by {
            assert(used + rest =~= rest);
            assert(ts.skip(0) =~= ts);
        }
    }
    let mut j: usize = 0;
    while j < sorted.len()
        invariant
            j <= sorted@.len(),
            char_views(sorted@) == ts,
            ts == sorted_by_width(term_views(terms@)),
            forall|rest: Seq<Seq<char>>| #![trigger highlight_all(res@, ts.skip(j as int), rest)]
                highlight_all(text@, ts, used + rest) == highlight_all(res@, ts.skip(j as int), rest),
        decreases sorted@.len() - j,
    {
        let ghost rest_ts = ts.skip(j as int);
        proof {
            assert(rest_ts[0] == ts[j as int]);
            assert(ts[j as int] == sorted@[j as int]@);
            assert(rest_ts.drop_first() =~= ts.skip(j + 1));
        }
        let t = &sorted[j];
        if t.len() == 0 {
            proof {
                assert forall|rest: Seq<Seq<char>>| #![trigger highlight_all(res@, ts.skip(j + 1), rest)]
                    highlight_all(text@, ts, used + rest) == highlight_all(res@, ts.skip(j + 1), rest) by {
                    assert(highlight_all(res@, rest_ts, rest) == highlight_all(res@, ts.skip(j + 1), rest));
                }
            }
        } else {
            let rs = string_of(res.as_slice());
            let low_s = to_lowercase(rs.as_str());
            let rl = chars_of(low_s.as_str());
            assert(rl@ == lowered(res@));
            if !aligned_exec(res.as_slice(), rl.as_slice()) {
                proof {
                    assert(used + seq![] =~= used);
                    assert(highlight_all(res@, rest_ts, seq![]) == HighlightRun::WidthChanges);
                    assert(gives(highlighted(text@, term_views(terms@), used), Highlighting::WidthChanges));
                }
                return Highlighting::WidthChanges;
            }
            let ts_str = string_of(t.as_slice());
            let tlow = to_lowercase(ts_str.as_str());
            let tl = chars_of(tlow.as_str());
            assert(tl@ == lowered(t@));
            let w = utf8_len_exec(t.as_slice());
            proof {
                if w == 0 {
                    assert(t@.len() > 0);
                    assert(vstd::utf8::encode_utf8(t@).len() > 0) by {
                        reveal_with_fuel(vstd::utf8::encode_utf8, 2);
                    }
                }
            }
            let (out, Ghost(pu)) = highlight_pass(&res, &rl, &tl, w);
            match out {
                None => {
                    proof {
                        let ps = used + pu;
                        assert(pu + seq![] =~= pu);
                        assert(pass_from(res@, rl@, tl@, w as int, 0, seq![], pu + seq![]) == HighlightRun::Overruns);
                        assert(highlight_all(res@, rest_ts, pu) == HighlightRun::Overruns);
                        assert(used + pu =~= ps);
                        assert(gives(highlighted(text@, term_views(terms@), ps), Highlighting::Overruns));
                    }
                    return Highlighting::Overruns;
                },
                Some(o) => {
                    proof {
                        assert forall|rest: Seq<Seq<char>>| #![trigger highlight_all(o@, ts.skip(j + 1), rest)]
                            highlight_all(text@, ts, (used + pu) + rest) == highlight_all(o@, ts.skip(j + 1), rest) by {
                            assert((used + pu) + rest =~= used + (pu + rest));
                            assert(pass_from(res@, rl@, tl@, w as int, 0, seq![], pu + rest) == HighlightRun::Done(o@, rest));
                            assert(highlight_all(res@, rest_ts, pu + rest) == highlight_all(o@, ts.skip(j + 1), rest));
                        }
                        used = used + pu;
                    }
                    res = o;
                },
            }
        }
        j = j + 1;
    }
    let out = string_of(res.as_slice());
    proof {
        assert(used + seq![] =~= used);
        assert(ts.skip(j as int) =~= Seq::<Seq<char>>::empty());
        assert(highlight_all(res@, ts.skip(j as int), seq![]) == HighlightRun::Done(res@, seq![]));
        assert(gives(highlighted(text@, term_views(terms@), used), Highlighting::Text(out)));
    }
    Highlighting::Text(out)
}

} // verus!
