//! An insight file reads back as it was written: framing a rendered file
//! gives back the frontmatter, the details and the metadata block that went
//! into it.

use vstd::prelude::*;
use crate::insight::{parsed_as, with_footer, InsightTemporalMetadata, MetaDataView};
use crate::insight_format::{
    clean_body_spec, details_heading, fm_close, fm_open, is_blank_or_heading,
    metadata_candidate_spec, newline, render_spec, skip_blank_or_heading, split_frontmatter_spec,
};
use crate::text::{
    contains, find, index_of, is_ws, join, lemma_find_is, lemma_index_of_from,
    lemma_lines_split, lemma_rfind_upto, lemma_trim_end_at, lemma_trim_end_nonempty,
    lemma_trim_start_at, lines, occurs_at, rfind, starts_with, strip_cr, trim, trim_end,
};

verus! {

/// Where the frontmatter closes in a rendered file: at the newline that ends
/// the frontmatter YAML.
proof fn lemma_frontmatter_closes(fy: Seq<char>, tail: Seq<char>)
    requires
        fy.len() > 0,
        fy.last() == '\n',
        !contains(fy, fm_close()),
        tail.len() >= 4,
        tail.take(4) == fm_open(),
    ensures
        find(fy + tail, fm_close()) == fy.len() - 1,
{
    let s = fy + tail;
    let k = fy.len() - 1;
    assert(s.subrange(k, k + 5) =~= fm_close()) by {
        assert(s[k] == '\n');
        assert(s[k + 1] == tail[0]);
        assert(s[k + 2] == tail[1]);
        assert(s[k + 3] == tail[2]);
        assert(s[k + 4] == tail[3]);
        assert(tail[0] == fm_open()[0]);
        assert(tail[1] == fm_open()[1]);
        assert(tail[2] == fm_open()[2]);
        assert(tail[3] == fm_open()[3]);
    }
    assert forall|j: int| 0 <= j < k implies !occurs_at(s, fm_close(), j) by {
        if occurs_at(s, fm_close(), j) {
            if j + 5 <= fy.len() {
                assert(fy.subrange(j, j + 5) =~= s.subrange(j, j + 5));
                assert(occurs_at(fy, fm_close(), j));
            } else {
                let off = k - j;
                assert(1 <= off <= 3);
                assert(s.subrange(j, j + 5)[off] == s[k]);
                assert(fm_close()[off] == '-');
            }
        }
    }
    lemma_find_is(s, fm_close(), k);
}

/// `trim_end` keeps a prefix: the text up to its last non-whitespace
/// character.
proof fn lemma_trim_end_shape(s: Seq<char>)
    ensures
        trim_end(s).len() <= s.len(),
        trim_end(s) == s.take(trim_end(s).len() as int),
        forall|i: int| trim_end(s).len() <= i < s.len() ==> is_ws(#[trigger] s[i]),
        trim_end(s).len() == 0 || !is_ws(s[trim_end(s).len() - 1]),
    decreases s.len(),
{
    if s.len() > 0 && is_ws(s.last()) {
        let t = s.drop_last();
        lemma_trim_end_shape(t);
        assert(trim_end(s) == trim_end(t));
        assert(t.take(trim_end(t).len() as int) =~= s.take(trim_end(t).len() as int));
        assert forall|i: int| trim_end(s).len() <= i < s.len() implies is_ws(#[trigger] s[i]) by {
            if i < t.len() {
                assert(s[i] == t[i]);
            }
        }
        if trim_end(t).len() > 0 {
            assert(s[trim_end(t).len() - 1] == t[trim_end(t).len() - 1]);
        }
    } else {
        assert(s.take(s.len() as int) =~= s);
    }
}

/// Where the metadata block opens in a file body: at the one `\n---\n` left
/// once the details are written, with the block's own trailing whitespace
/// trimmed.
proof fn lemma_footer_found(a: Seq<char>, m: Seq<char>)
    requires
        trim_end(m).len() > 0,
        !contains(seq!['\n'] + m, fm_close()),
    ensures
        metadata_candidate_spec(a + fm_close() + m) == Some((a, trim_end(m))),
{
    let body = a + fm_close() + m;
    let mt = trim_end(m);
    let kk = mt.len() as int;
    lemma_trim_end_shape(m);
    let cut = a.len() + 5 + kk;
    assert forall|i: int| cut <= i < body.len() implies is_ws(#[trigger] body[i]) by {
        assert(body[i] == m[i - a.len() - 5]);
    }
    assert(!is_ws(body[cut - 1])) by {
        assert(body[cut - 1] == m[kk - 1]);
    }
    lemma_trim_end_at(body, cut);
    let t = trim_end(body);
    assert(t =~= a + fm_close() + mt);
    let p = fm_close();
    let at = a.len() as int;
    assert(t.subrange(at, at + 5) =~= p);
    assert(occurs_at(t, p, at));
    assert forall|j: int| at < j <= t.len() - 5 implies !occurs_at(t, p, j) by {
        if occurs_at(t, p, j) {
            if j < at + 4 {
                assert(t.subrange(j, j + 5)[0] == t[j]);
                assert(t[j] == p[j - at]);
            } else {
                let u = seq!['\n'] + m;
                let q = j - at - 4;
                assert(t.skip(at + 4) =~= u.take(kk + 1));
                assert(t.subrange(j, j + 5) =~= t.skip(at + 4).subrange(q, q + 5));
                assert(u.take(kk + 1).subrange(q, q + 5) =~= u.subrange(q, q + 5));
                assert(occurs_at(u, p, q));
            }
        }
    }
    lemma_rfind_upto(t, p, t.len() - 5);
    let r = rfind(t, p);
    assert(r == at);
    assert(t.take(at) =~= a);
    assert(t.skip(at + 5) =~= mt);
}

proof fn lemma_trim_start_len(s: Seq<char>)
    ensures
        crate::text::trim_start(s).len() <= s.len(),
    decreases s.len(),
{
    if s.len() > 0 && is_ws(s[0]) {
        lemma_trim_start_len(s.drop_first());
    }
}

/// Whether no carriage return in `s` ends a line: none before a newline,
/// and none last.
pub open spec fn no_cr_line_ends(s: Seq<char>) -> bool {
    forall|i: int| 0 <= i < s.len() && #[trigger] s[i] == '\r' ==> i + 1 < s.len() && s[i + 1] != '\n'
}

/// Text whose lines end in no carriage return reads back from its lines:
/// split into lines once a final newline is added, and joined by newlines.
proof fn lemma_join_lines(d: Seq<char>)
    requires
        d.len() > 0,
        no_cr_line_ends(d),
    ensures
        lines(d + seq!['\n']).len() > 0,
        join(lines(d + seq!['\n']), seq!['\n']) == d,
    decreases d.len(),
{
    let s = d + seq!['\n'];
    lemma_index_of_from(d, '\n', 0);
    let k = index_of(d, '\n');
    if k < 0 {
        assert forall|j: int| 0 <= j < d.len() implies s[j] != '\n' by {
            assert(s[j] == d[j]);
        }
        assert(s[d.len() as int] == '\n');
        lemma_lines_split(s, d.len() as int);
        assert(s.take(d.len() as int) =~= d);
        assert(strip_cr(d) == d);
        assert(s.skip(d.len() as int + 1).len() == 0);
        assert(lines(s.skip(d.len() as int + 1)) =~= Seq::<Seq<char>>::empty());
        assert(lines(s) =~= seq![d]);
    } else {
        assert forall|j: int| 0 <= j < k implies s[j] != '\n' by {
            assert(s[j] == d[j]);
        }
        assert(s[k] == '\n');
        lemma_lines_split(s, k);
        let head = d.take(k);
        assert(s.take(k) =~= head);
        if k > 0 {
            assert(d[k - 1] != '\r');
            assert(head.last() == d[k - 1]);
        }
        assert(strip_cr(head) == head);
        let r = d.skip(k + 1);
        assert(s.skip(k + 1) =~= r + seq!['\n']);
        if r.len() == 0 {
            let nl = seq!['\n'];
            lemma_lines_split(nl, 0);
            assert(nl.take(0) =~= Seq::<char>::empty());
            assert(nl.skip(1).len() == 0);
            assert(lines(nl.skip(1)) =~= Seq::<Seq<char>>::empty());
            assert(strip_cr(Seq::<char>::empty()) =~= Seq::<char>::empty());
            assert(lines(nl) =~= seq![Seq::<char>::empty()]);
            assert(r + seq!['\n'] =~= nl);
            let ls = lines(s);
            assert(ls =~= seq![head, Seq::<char>::empty()]);
            assert(ls.drop_first() =~= seq![Seq::<char>::empty()]);
            assert(join(ls.drop_first(), seq!['\n']) == Seq::<char>::empty());
            assert(d =~= head + seq!['\n'] + Seq::<char>::empty());
        } else {
            assert forall|i: int| 0 <= i < r.len() && #[trigger] r[i] == '\r' implies i + 1 < r.len() && r[i + 1] != '\n' by {
                assert(r[i] == d[k + 1 + i]);
                if i + 1 < r.len() {
                    assert(r[i + 1] == d[k + 2 + i]);
                }
            }
            lemma_join_lines(r);
            let rest = lines(r + seq!['\n']);
            let ls = lines(s);
            assert(ls =~= seq![head] + rest);
            assert(ls.drop_first() =~= rest);
            assert(ls.len() > 1);
            assert(join(ls, seq!['\n']) == head + seq!['\n'] + join(rest, seq!['\n']));
            assert(d =~= head + seq!['\n'] + r);
        }
    }
}

/// The details written into a file are what reading its body gives back,
/// when they are trimmed, do not open with a heading, and end no line with a
/// carriage return.
proof fn lemma_clean_details(d: Seq<char>)
    requires
        trim(d) == d,
        d.len() == 0 || d[0] != '#',
        no_cr_line_ends(d),
    ensures
        clean_body_spec(details_heading() + d + newline()) == d,
{
    let s = details_heading() + d + newline();
    lemma_lines_split(s, 0);
    assert(s.take(0) =~= Seq::<char>::empty());
    assert(strip_cr(Seq::<char>::empty()) =~= Seq::<char>::empty());
    let s1 = s.skip(1);
    assert forall|j: int| 0 <= j < 9 implies s1[j] != '\n' by {
        assert(s1[j] == details_heading()[j + 1]);
    }
    assert(s1[9] == '\n');
    lemma_lines_split(s1, 9);
    let heading = s1.take(9);
    assert(heading[0] == '#');
    assert(strip_cr(heading) == heading);
    let s2 = s1.skip(10);
    assert(s2 =~= d + seq!['\n']);
    assert(lines(s) =~= seq![Seq::<char>::empty(), heading] + lines(s2));
    assert(is_blank_or_heading(Seq::<char>::empty()));
    assert(is_blank_or_heading(heading)) by {
        assert(heading.subrange(0, 1) =~= seq!['#']);
    }
    let l = lines(s2);
    assert(lines(s).drop_first().drop_first() =~= l);
    let ls = lines(s);
    assert(ls[0] == Seq::<char>::empty());
    assert(skip_blank_or_heading(ls) == skip_blank_or_heading(ls.drop_first()));
    assert(ls.drop_first()[0] == heading);
    assert(skip_blank_or_heading(ls.drop_first()) == skip_blank_or_heading(ls.drop_first().drop_first()));
    assert(skip_blank_or_heading(lines(s)) == skip_blank_or_heading(l));
    if d.len() == 0 {
        let nl = seq!['\n'];
        assert(s2 =~= nl);
        lemma_lines_split(nl, 0);
        assert(nl.take(0) =~= Seq::<char>::empty());
        assert(lines(nl.skip(1)) =~= Seq::<Seq<char>>::empty());
        assert(l =~= seq![Seq::<char>::empty()]);
        assert(skip_blank_or_heading(l.drop_first()) =~= Seq::<Seq<char>>::empty());
        assert(skip_blank_or_heading(l) =~= Seq::<Seq<char>>::empty());
        assert(trim(Seq::<char>::empty()) =~= Seq::<char>::empty()) by {
            lemma_trim_start_at(Seq::<char>::empty(), 0);
        }
    } else {
        assert(!is_ws(d[0])) by {
            if is_ws(d[0]) {
                lemma_trim_start_len(d.drop_first());
                lemma_trim_end_shape(crate::text::trim_start(d));
                assert(crate::text::trim_start(d) == crate::text::trim_start(d.drop_first()));
            }
        }
        assert(no_cr_line_ends(d));
        lemma_join_lines(d);
        lemma_index_of_from(s2, '\n', 0);
        let k = index_of(s2, '\n');
        assert(s2[d.len() as int] == '\n');
        assert(0 <= k <= d.len());
        assert(k != 0) by {
            assert(s2[0] == d[0]);
        }
        lemma_lines_split(s2, k);
        let first = strip_cr(s2.take(k));
        assert(l[0] == first);
        assert(first.len() > 0 && first[0] == d[0]) by {
            assert(s2.take(k)[0] == d[0]);
            if s2.take(k).last() == '\r' {
                assert(s2.take(k).last() == d[k - 1]);
                assert(k - 1 + 1 < d.len() + 1);
                assert(s2[k] == '\n');
                if k < d.len() {
                    assert(d[k] == s2[k]);
                }
                assert(k > 1);
            }
        }
        assert(!is_blank_or_heading(first)) by {
            lemma_trim_start_at(first, 0);
            lemma_trim_end_nonempty(first);
            assert(first.subrange(0, 1)[0] == d[0]);
            assert(first.subrange(0, 1) != seq!['#']);
        }
        assert(skip_blank_or_heading(l) == l);
    }
}

/// An insight file reads back as it was written. Render a file from its
/// frontmatter YAML (which serde ends with a newline), its details and its
/// metadata YAML; reading it finds the frontmatter YAML (without that final
/// newline) and the metadata YAML (without trailing whitespace) to hand to
/// serde, and, whatever those read as, gives back the details as they were
/// and the metadata block's fields over the frontmatter's.
///
/// This holds when neither YAML text holds a `---` line of its own (the
/// metadata text may not open with one either), the metadata text holds
/// more than whitespace, and the details are trimmed, do not open with a
/// `#` heading, and end no line with a carriage return.
pub proof fn law_rendered_file_reads_back(
    fy: Seq<char>,
    d: Seq<char>,
    m: Seq<char>,
    fm: MetaDataView,
    footer: InsightTemporalMetadata,
    r: (MetaDataView, Seq<char>),
)
    requires
        fy.len() > 0,
        fy.last() == '\n',
        !contains(fy, fm_close()),
        trim_end(m).len() > 0,
        !contains(seq!['\n'] + m, fm_close()),
        trim(d) == d,
        d.len() == 0 || d[0] != '#',
        no_cr_line_ends(d),
        parsed_as(render_spec(fy, d, m), Some(fm), Some(footer), r),
    ensures
        split_frontmatter_spec(render_spec(fy, d, m)) == Ok::<(Seq<char>, Seq<char>), crate::insight_format::FrontmatterError>(
            (fy.drop_last(), details_heading() + d + newline() + fm_close() + m),
        ),
        metadata_candidate_spec(details_heading() + d + newline() + fm_close() + m) == Some(
            (details_heading() + d + newline(), trim_end(m)),
        ),
        r.1 == d,
        r.0 == with_footer(fm, footer),
{
    let content = render_spec(fy, d, m);
    let body = details_heading() + d + newline() + fm_close() + m;
    let tail = fm_open() + body;
    assert(content =~= fm_open() + (fy + tail));
    assert(starts_with(content, fm_open())) by {
        assert(content.subrange(0, 4) =~= fm_open());
    }
    assert(content.skip(4) =~= fy + tail);
    assert(tail.take(4) =~= fm_open());
    lemma_frontmatter_closes(fy, tail);
    let end = fy.len() - 1;
    assert((fy + tail).take(end) =~= fy.drop_last());
    assert((fy + tail).skip(end + 5) =~= body);
    assert(split_frontmatter_spec(content) == Ok::<(Seq<char>, Seq<char>), crate::insight_format::FrontmatterError>(
        (fy.drop_last(), body),
    ));
    lemma_footer_found(details_heading() + d + newline(), m);
    assert(body =~= (details_heading() + d + newline()) + fm_close() + m);
    lemma_clean_details(d);
}

} // verus!
