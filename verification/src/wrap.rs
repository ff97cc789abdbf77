//! Wrapping text to a terminal's width: paragraphs at newlines, words at
//! whitespace, and lines filled greedily up to a byte width.

use vstd::prelude::*;
use crate::text::{
    all_ws, chars_of, extend, index_of, index_of_from, is_blank, is_whitespace, is_ws,
    lemma_encode_utf8_concat, lemma_index_of_from, lemma_utf8_len_bound, slice_vec, string_of, utf8_len, utf8_len_exec,
};

verus! {

broadcast use vstd::string::group_string_axioms;

/// The pieces of `s` between the `c`s in it, `str::split` on a character:
/// one more piece than there are `c`s, empty pieces included.
pub open spec fn split_on(s: Seq<char>, c: char) -> Seq<Seq<char>>
    decreases s.len(),
{
    let i = index_of(s, c);
    if 0 <= i < s.len() {
        seq![s.take(i)] + split_on(s.skip(i + 1), c)
    } else {
        seq![s]
    }
}

/// How many characters the run of non-whitespace at the start of `s` is.
pub open spec fn word_len(s: Seq<char>) -> nat
    decreases s.len(),
{
    if s.len() == 0 || is_ws(s[0]) {
        0
    } else {
        1 + word_len(s.drop_first())
    }
}

/// A word is no longer than the text it starts.
pub proof fn lemma_word_len_bound(s: Seq<char>)
    ensures
        word_len(s) <= s.len(),
    decreases s.len(),
{
    if s.len() > 0 && !is_ws(s[0]) {
        lemma_word_len_bound(s.drop_first());
    }
}

/// The words of `s`, its maximal runs of non-whitespace in order:
/// `str::split_whitespace`.
pub open spec fn words(s: Seq<char>) -> Seq<Seq<char>>
    decreases s.len(),
{
    if s.len() == 0 {
        seq![]
    } else if is_ws(s[0]) {
        words(s.drop_first())
    } else {
        proof {
            lemma_word_len_bound(s);
        }
        seq![s.take(word_len(s) as int)] + words(s.skip(word_len(s) as int))
    }
}

proof fn lemma_word_len_at(s: Seq<char>, k: int)
    requires
        0 <= k <= s.len(),
        forall|m: int| 0 <= m < k ==> !is_ws(#[trigger] s[m]),
        k == s.len() || is_ws(s[k]),
    ensures
        word_len(s) == k,
    decreases k,
{
    if k > 0 {
        let t = s.drop_first();
        assert forall|m: int| 0 <= m < k - 1 implies !is_ws(#[trigger] t[m]) by {
            assert(t[m] == s[m + 1]);
        }
        if k < s.len() {
            assert(t[k - 1] == s[k]);
        }
        lemma_word_len_at(t, k - 1);
    }
}

/// The lines greedy filling makes of a paragraph's words: a word joins the
/// line being filled, after a space, while that line stays within `width`
/// bytes; otherwise the line is finished and the word starts the next.
/// The finished lines, and the line being filled.
pub open spec fn fill(ws: Seq<Seq<char>>, width: int) -> (Seq<Seq<char>>, Seq<char>)
    decreases ws.len(),
{
    if ws.len() == 0 {
        (seq![], seq![])
    } else {
        let prev = fill(ws.drop_last(), width);
        let w = ws.last();
        if prev.1.len() == 0 {
            (prev.0, w)
        } else if utf8_len(prev.1) + 1 + utf8_len(w) <= width {
            (prev.0, prev.1 + seq![' '] + w)
        } else {
            (prev.0.push(prev.1), w)
        }
    }
}

/// The lines a paragraph wraps to: one empty line for a blank paragraph,
/// else its words filled greedily.
pub open spec fn wrap_paragraph(p: Seq<char>, width: int) -> Seq<Seq<char>> {
    if all_ws(p) {
        seq![seq![]]
    } else {
        let f = fill(words(p), width);
        if f.1.len() == 0 {
            f.0
        } else {
            f.0.push(f.1)
        }
    }
}

/// The lines paragraphs wrap to, one paragraph after another.
pub open spec fn wrap_paragraphs(ps: Seq<Seq<char>>, width: int) -> Seq<Seq<char>>
    decreases ps.len(),
{
    if ps.len() == 0 {
        seq![]
    } else {
        wrap_paragraphs(ps.drop_last(), width) + wrap_paragraph(ps.last(), width)
    }
}

/// The lines text wraps to at a width: each paragraph between newlines
/// wrapped on its own.
pub open spec fn wrapped(text: Seq<char>, width: int) -> Seq<Seq<char>> {
    wrap_paragraphs(split_on(text, '\n'), width)
}

/// The views of a sequence of character vectors.
pub open spec fn char_views(v: Seq<Vec<char>>) -> Seq<Seq<char>> {
    v.map_values(|x: Vec<char>| x@)
}

/// The pieces of `s` between the `c`s in it.
fn split_exec(s: &[char], c: char) -> (r: Vec<Vec<char>>)
    ensures
        char_views(r@) == split_on(s@, c),
{
    let mut out: Vec<Vec<char>> = Vec::new();
    let mut start: usize = 0;
    let mut i: usize = 0;
    proof {
        assert(s@.skip(0) =~= s@);
        assert(char_views(out@) + split_on(s@, c) =~= split_on(s@, c));
    }
    while i < s.len()
        invariant
            start <= i <= s@.len(),
            split_on(s@, c) == char_views(out@) + split_on(s@.skip(start as int), c),
            forall|j: int| start <= j < i ==> s@[j] != c,
        decreases s@.len() - i,
    {
        if s[i] == c {
            let piece = slice_vec(s, start, i);
            proof {
                let rest = s@.skip(start as int);
                let k = (i - start) as int;
                lemma_index_of_from(rest, c, 0);
                assert forall|j: int| 0 <= j < k implies rest[j] != c by {
                    assert(rest[j] == s@[start + j]);
                }
                assert(rest[k] == c);
                assert(index_of(rest, c) == k);
                assert(rest.skip(k + 1) =~= s@.skip(i + 1));
                assert(piece@ =~= rest.take(k));
                let before = char_views(out@);
                assert(char_views(out@.push(piece)) =~= before.push(piece@));
                assert(split_on(s@, c) =~= before.push(piece@) + split_on(s@.skip(i + 1), c));
            }
            out.push(piece);
            start = i + 1;
        }
        i = i + 1;
    }
    let piece = slice_vec(s, start, s.len());
    proof {
        let rest = s@.skip(start as int);
        lemma_index_of_from(rest, c, 0);
        assert forall|j: int| 0 <= j < rest.len() implies rest[j] != c by {
            assert(rest[j] == s@[start + j]);
        }
        assert(piece@ =~= rest);
        let before = char_views(out@);
        assert(char_views(out@.push(piece)) =~= before.push(piece@));
        assert(split_on(s@, c) =~= before.push(piece@));
    }
    out.push(piece);
    out
}

/// The words of `s`.
fn words_exec(s: &[char]) -> (r: Vec<Vec<char>>)
    ensures
        char_views(r@) == words(s@),
{
    let mut out: Vec<Vec<char>> = Vec::new();
    let mut i: usize = 0;
    proof {
        assert(s@.skip(0) =~= s@);
        assert(char_views(out@) + words(s@) =~= words(s@));
    }
    while i < s.len()
        invariant
            i <= s@.len(),
            words(s@) == char_views(out@) + words(s@.skip(i as int)),
        decreases s@.len() - i,
    {
        let rest = Ghost(s@.skip(i as int));
        if is_whitespace(s[i]) {
            proof {
                assert(rest@[0] == s@[i as int]);
                assert(rest@.drop_first() =~= s@.skip(i + 1));
            }
            i = i + 1;
        } else {
            let mut j = i;
            while j < s.len() && !is_whitespace(s[j])
                invariant
                    i <= j <= s@.len(),
                    forall|m: int| i <= m < j ==> !is_ws(#[trigger] s@[m]),
                decreases s@.len() - j,
            {
                j = j + 1;
            }
            let word = slice_vec(s, i, j);
            proof {
                let k = (j - i) as int;
                assert forall|m: int| 0 <= m < k implies !is_ws(#[trigger] rest@[m]) by {
                    assert(rest@[m] == s@[i + m]);
                }
                if j < s.len() {
                    assert(rest@[k] == s@[j as int]);
                }
                lemma_word_len_at(rest@, k);
                assert(rest@[0] == s@[i as int]);
                assert(word@ =~= rest@.take(k));
                assert(rest@.skip(k) =~= s@.skip(j as int));
                let before = char_views(out@);
                assert(char_views(out@.push(word)) =~= before.push(word@));
                assert(words(s@) =~= before.push(word@) + words(s@.skip(j as int)));
            }
            out.push(word);
            i = j;
        }
    }
    proof {
        assert(s@.skip(i as int).len() == 0);
        assert(words(s@) =~= char_views(out@));
    }
    out
}

proof fn lemma_utf8_join(a: Seq<char>, w: Seq<char>)
    ensures
        utf8_len(a + seq![' '] + w) == utf8_len(a) + 1 + utf8_len(w),
{
    lemma_encode_utf8_concat(a, seq![' ']);
    lemma_encode_utf8_concat(a + seq![' '], w);
    assert(seq![' '].drop_first() =~= Seq::<char>::empty());
    assert(vstd::utf8::encode_utf8(Seq::<char>::empty()) =~= Seq::<u8>::empty());
    assert(vstd::utf8::encode_utf8(seq![' ']) =~= vstd::utf8::encode_scalar(' ' as u32));
}

/// Every word is non-empty.
proof fn lemma_words_nonempty(s: Seq<char>)
    ensures
        forall|k: int| 0 <= k < words(s).len() ==> #[trigger] words(s)[k].len() > 0,
    decreases s.len(),
{
    if s.len() == 0 {
    } else if is_ws(s[0]) {
        lemma_words_nonempty(s.drop_first());
        assert(words(s) == words(s.drop_first()));
    } else {
        lemma_word_len_bound(s);
        lemma_words_nonempty(s.skip(word_len(s) as int));
        let ws = words(s);
        let tail = words(s.skip(word_len(s) as int));
        assert(word_len(s) >= 1);
        assert(ws == seq![s.take(word_len(s) as int)] + tail);
        assert(ws[0] == s.take(word_len(s) as int));
        assert(ws[0].len() == word_len(s));
        assert forall|k: int| 0 <= k < ws.len() implies #[trigger] ws[k].len() > 0 by {
            if k > 0 {
                assert(ws[k] == tail[k - 1]);
            }
        }
    }
}

/// The lines one paragraph wraps to.
fn wrap_paragraph_exec(p: &[char], width: usize) -> (r: Vec<Vec<char>>)
    ensures
        char_views(r@) == wrap_paragraph(p@, width as int),
{
    if is_blank(p) {
        let mut out: Vec<Vec<char>> = Vec::new();
        out.push(Vec::new());
        proof {
            assert(char_views(out@) =~= seq![Seq::<char>::empty()]);
        }
        return out;
    }
    let ws = words_exec(p);
    let ghost all = char_views(ws@);
    proof {
        lemma_words_nonempty(p@);
    }
    let mut done: Vec<Vec<char>> = Vec::new();
    let mut cur: Vec<char> = Vec::new();
    let mut cur_bytes: u128 = 0;
    let mut i: usize = 0;
    while i < ws.len()
        invariant
            i <= ws@.len(),
            all == char_views(ws@),
            all == words(p@),
            forall|k: int| 0 <= k < all.len() ==> #[trigger] all[k].len() > 0,
            fill(all.take(i as int), width as int) == (char_views(done@), cur@),
            cur_bytes == utf8_len(cur@),
            cur_bytes <= 4 * cur@.len(),
        decreases ws@.len() - i,
    {
        let w = ws[i].as_slice();
        let wb = utf8_len_exec(w);
        let wl = w.len();
        let cl = cur.len();
        proof {
            lemma_utf8_len_bound(w@);
            assert(all.take(i + 1).drop_last() =~= all.take(i as int));
            assert(all.take(i + 1).last() == w@);
            assert(w@ == all[i as int]);
        }
        if cur.len() == 0 {
            cur = slice_vec(w, 0, w.len());
            cur_bytes = wb;
            proof {
                assert(cur@ =~= w@);
            }
        } else if cur_bytes + 1 + wb <= width as u128 {
            proof {
                lemma_utf8_join(cur@, w@);
            }
            cur.push(' ');
            extend(&mut cur, w);
            cur_bytes = cur_bytes + 1 + wb;
            proof {
                assert(cur@ =~= (fill(all.take(i as int), width as int).1 + seq![' '] + w@));
            }
        } else {
            let ghost before = char_views(done@);
            let finished = cur;
            done.push(finished);
            cur = slice_vec(w, 0, w.len());
            cur_bytes = wb;
            proof {
                assert(char_views(done@) =~= before.push(finished@));
                assert(cur@ =~= w@);
            }
        }
        i = i + 1;
    }
    proof {
        assert(all.take(ws@.len() as int) =~= all);
    }
    if cur.len() > 0 {
        let ghost before = char_views(done@);
        done.push(cur);
        proof {
            assert(char_views(done@) =~= before.push(cur@));
        }
    }
    done
}

/// Wraps text to `width` bytes: each paragraph between newlines on its
/// own, a blank one as an empty line, words joined by single spaces while a
/// line stays within the width. A word longer than the width has a line to
/// itself.
pub fn wrap_text(text: &str, width: usize) -> (r: Vec<String>)
    ensures
        r@.map_values(|l: String| l@) == wrapped(text@, width as int),
{
    let cs = chars_of(text);
    let paragraphs = split_exec(cs.as_slice(), '\n');
    let ghost ps = char_views(paragraphs@);
    let mut out: Vec<String> = Vec::new();
    let mut i: usize = 0;
    while i < paragraphs.len()
        invariant
            i <= paragraphs@.len(),
            ps == char_views(paragraphs@),
            ps == split_on(text@, '\n'),
            out@.map_values(|l: String| l@) == wrap_paragraphs(ps.take(i as int), width as int),
        decreases paragraphs@.len() - i,
    {
        let lines = wrap_paragraph_exec(paragraphs[i].as_slice(), width);
        let ghost before = out@.map_values(|l: String| l@);
        let mut j: usize = 0;
        while j < lines.len()
            invariant
                j <= lines@.len(),
                out@.map_values(|l: String| l@) == before + char_views(lines@).take(j as int),
            decreases lines@.len() - j,
        {
            let ghost prev = out@;
            out.push(string_of(lines[j].as_slice()));
            proof {
                assert(out@.map_values(|l: String| l@) =~= prev.map_values(|l: String| l@).push(
                    lines@[j as int]@,
                ));
                assert(char_views(lines@).take(j + 1) =~= char_views(lines@).take(j as int).push(
                    lines@[j as int]@,
                ));
            }
            j = j + 1;
        }
        proof {
            assert(char_views(lines@).take(lines@.len() as int) =~= char_views(lines@));
            assert(ps.take(i + 1).drop_last() =~= ps.take(i as int));
            assert(ps.take(i + 1).last() == paragraphs@[i as int]@);
        }
        i = i + 1;
    }
    proof {
        assert(ps.take(paragraphs@.len() as int) =~= ps);
    }
    out
}

// ---------------------------------------------------------------------------
// What wrapping keeps to
// ---------------------------------------------------------------------------

/// Whether a wrapped line keeps to the width: it takes no more than `width`
/// bytes, or it is one word (no whitespace in it) too long to break.
pub open spec fn keeps_to(line: Seq<char>, width: int) -> bool {
    utf8_len(line) <= width || forall|i: int| 0 <= i < line.len() ==> !is_ws(#[trigger] line[i])
}

proof fn lemma_word_len_no_ws(s: Seq<char>)
    ensures
        forall|m: int| 0 <= m < word_len(s) ==> !is_ws(#[trigger] s[m]),
    decreases s.len(),
{
    lemma_word_len_bound(s);
    if s.len() > 0 && !is_ws(s[0]) {
        lemma_word_len_no_ws(s.drop_first());
        assert forall|m: int| 0 <= m < word_len(s) implies !is_ws(#[trigger] s[m]) by {
            if m > 0 {
                assert(s[m] == s.drop_first()[m - 1]);
            }
        }
    }
}

/// Every word holds no whitespace.
proof fn lemma_words_have_no_ws(s: Seq<char>)
    ensures
        forall|k: int, i: int|
            0 <= k < words(s).len() && 0 <= i < words(s)[k].len() ==> !is_ws(#[trigger] words(s)[k][i]),
    decreases s.len(),
{
    if s.len() == 0 {
    } else if is_ws(s[0]) {
        lemma_words_have_no_ws(s.drop_first());
        assert(words(s) == words(s.drop_first()));
    } else {
        lemma_word_len_bound(s);
        lemma_word_len_no_ws(s);
        lemma_words_have_no_ws(s.skip(word_len(s) as int));
        let ws = words(s);
        let tail = words(s.skip(word_len(s) as int));
        assert(ws == seq![s.take(word_len(s) as int)] + tail);
        assert forall|k: int, i: int| 0 <= k < ws.len() && 0 <= i < ws[k].len() implies !is_ws(#[trigger] ws[k][i]) by {
            if k == 0 {
                assert(ws[0][i] == s[i]);
            } else {
                assert(ws[k] == tail[k - 1]);
            }
        }
    }
}

proof fn lemma_fill_keeps_to(ws: Seq<Seq<char>>, width: int)
    requires
        width >= 0,
        forall|k: int, i: int| 0 <= k < ws.len() && 0 <= i < ws[k].len() ==> !is_ws(#[trigger] ws[k][i]),
    ensures
        forall|k: int| 0 <= k < fill(ws, width).0.len() ==> keeps_to(#[trigger] fill(ws, width).0[k], width),
        keeps_to(fill(ws, width).1, width),
    decreases ws.len(),
{
    if ws.len() > 0 {
        let p = ws.drop_last();
        assert forall|k: int, i: int| 0 <= k < p.len() && 0 <= i < p[k].len() implies !is_ws(#[trigger] p[k][i]) by {
            assert(p[k] == ws[k]);
        }
        lemma_fill_keeps_to(p, width);
        let prev = fill(p, width);
        let w = ws.last();
        assert(forall|i: int| 0 <= i < w.len() ==> !is_ws(#[trigger] w[i])) by {
            assert forall|i: int| 0 <= i < w.len() implies !is_ws(#[trigger] w[i]) by {
                assert(w[i] == ws[ws.len() - 1][i]);
            }
        }
        if prev.1.len() != 0 && utf8_len(prev.1) + 1 + utf8_len(w) <= width {
            lemma_utf8_join(prev.1, w);
        }
        if prev.1.len() != 0 && !(utf8_len(prev.1) + 1 + utf8_len(w) <= width) {
            let done = prev.0.push(prev.1);
            assert forall|k: int| 0 <= k < done.len() implies keeps_to(#[trigger] done[k], width) by {
                if k < prev.0.len() {
                    assert(done[k] == prev.0[k]);
                }
            }
        }
    }
}

proof fn lemma_wrap_paragraphs_keep_to(ps: Seq<Seq<char>>, width: int)
    requires
        width >= 0,
    ensures
        forall|k: int| 0 <= k < wrap_paragraphs(ps, width).len() ==> keeps_to(#[trigger] wrap_paragraphs(ps, width)[k], width),
    decreases ps.len(),
{
    if ps.len() > 0 {
        lemma_wrap_paragraphs_keep_to(ps.drop_last(), width);
        let before = wrap_paragraphs(ps.drop_last(), width);
        let p = ps.last();
        let here = wrap_paragraph(p, width);
        if all_ws(p) {
            assert(utf8_len(Seq::<char>::empty()) == 0) by {
                assert(vstd::utf8::encode_utf8(Seq::<char>::empty()) =~= Seq::<u8>::empty());
            }
            assert(keeps_to(here[0], width));
        } else {
            lemma_words_have_no_ws(p);
            lemma_fill_keeps_to(words(p), width);
            let f = fill(words(p), width);
            if f.1.len() != 0 {
                assert forall|k: int| 0 <= k < here.len() implies keeps_to(#[trigger] here[k], width) by {
                    if k < f.0.len() {
                        assert(here[k] == f.0[k]);
                    }
                }
            }
        }
        let all = before + here;
        assert forall|k: int| 0 <= k < all.len() implies keeps_to(#[trigger] all[k], width) by {
            if k < before.len() {
                assert(all[k] == before[k]);
            } else {
                assert(all[k] == here[k - before.len()]);
            }
        }
    }
}

/// Wrapped text keeps to its width: every line takes no more bytes than the
/// width, unless it is a single word too long to break.
pub proof fn law_wrapped_lines_keep_to_width(text: Seq<char>, width: nat)
    ensures
        forall|k: int| 0 <= k < wrapped(text, width as int).len() ==> keeps_to(#[trigger] wrapped(text, width as int)[k], width as int),
{
    lemma_wrap_paragraphs_keep_to(split_on(text, '\n'), width as int);
}

} // verus!
