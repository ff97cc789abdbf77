//! How insights are named on disk: `<topic>/<name>.insight.md`, both parts
//! lowercased, and how such a file is recognised and its insight named again.

use vstd::prelude::*;
use crate::text::{
    chars_of, contains, ends_with, ends_with_exec, extend, lemma_rfind_upto, lowercase, occurs_at,
    rfind, rfind_exec, rfind_upto, slice_vec, string_of, to_lowercase,
};

verus! {

broadcast use vstd::string::group_string_axioms;

/// `".insight"`.
pub open spec fn insight_suffix() -> Seq<char> {
    seq!['.', 'i', 'n', 's', 'i', 'g', 'h', 't']
}

/// `".insight.md"`.
pub open spec fn insight_file_suffix() -> Seq<char> {
    insight_suffix() + seq!['.', 'm', 'd']
}

fn insight_suffix_vec() -> (r: Vec<char>)
    ensures
        r@ == insight_suffix(),
{
    let r = vec!['.', 'i', 'n', 's', 'i', 'g', 'h', 't'];
    assert(r@ =~= insight_suffix());
    r
}

/// What `Path::file_name` gives for a path: its last component, when that is
/// a name.
pub uninterp spec fn path_file_name(p: Seq<char>) -> Option<Seq<char>>;

/// The view of an optional name.
pub open spec fn opt_name(o: Option<String>) -> Option<Seq<char>> {
    match o {
        Some(s) => Some(s@),
        None => None,
    }
}

/// `Path::file_name`: the path's final component, when it is a normal one.
/// Its result is named, since it depends on the target's path syntax.
#[verifier::external_body]
pub(crate) fn file_name_of(path: &str) -> (r: Option<String>)
    ensures
        opt_name(r) == path_file_name(path@),
{
    std::path::Path::new(path).file_name().and_then(|n| n.to_str()).map(|n| n.to_string())
}

/// The index of a file name's last `.`, or -1.
pub open spec fn last_dot(f: Seq<char>) -> int {
    rfind(f, seq!['.'])
}

/// `Path::file_stem` of a file name: before its last `.`, unless that `.` is
/// its first character or it has none (or it is `..`), when it is the whole
/// name.
pub open spec fn file_stem_of(f: Seq<char>) -> Seq<char> {
    if f == seq!['.', '.'] || last_dot(f) <= 0 {
        f
    } else {
        f.take(last_dot(f))
    }
}

/// `Path::extension` of a file name: after its last `.`, when that `.` is not
/// its first character (and it is not `..`).
pub open spec fn extension_of(f: Seq<char>) -> Option<Seq<char>> {
    if f == seq!['.', '.'] || last_dot(f) <= 0 {
        None
    } else {
        Some(f.skip(last_dot(f) + 1))
    }
}

/// Whether a path names an insight file: extension `md`, stem ending `.insight`.
pub open spec fn is_insight_file_spec(path: Seq<char>) -> bool {
    match path_file_name(path) {
        Some(f) => extension_of(f) == Some(seq!['m', 'd']) && ends_with(
            file_stem_of(f),
            insight_suffix(),
        ),
        None => false,
    }
}

/// `s` with every trailing `p` removed: `str::trim_end_matches`.
pub open spec fn strip_all_suffix(s: Seq<char>, p: Seq<char>) -> Seq<char>
    decreases s.len(),
{
    if p.len() > 0 && ends_with(s, p) {
        strip_all_suffix(s.take(s.len() - p.len()), p)
    } else {
        s
    }
}

/// The insight name a path holds: its stem without the `.insight` suffix.
pub open spec fn insight_name_spec(path: Seq<char>) -> Option<Seq<char>> {
    match path_file_name(path) {
        Some(f) => if ends_with(file_stem_of(f), insight_suffix()) {
            Some(strip_all_suffix(file_stem_of(f), insight_suffix()))
        } else {
            None
        },
        None => None,
    }
}

fn is_dot_dot(f: &[char]) -> (r: bool)
    ensures
        r == (f@ == seq!['.', '.']),
{
    let r = f.len() == 2 && f[0] == '.' && f[1] == '.';
    if r {
        assert(f@ =~= seq!['.', '.']);
    }
    r
}

/// The stem and extension of a file name.
pub(crate) fn stem_and_extension(f: &[char]) -> (r: (Vec<char>, Option<Vec<char>>))
    ensures
        r.0@ == file_stem_of(f@),
        match r.1 {
            Some(e) => extension_of(f@) == Some(e@),
            None => extension_of(f@) is None,
        },
{
    let dot = vec!['.'];
    assert(dot@ =~= seq!['.']);
    let d = rfind_exec(f, dot.as_slice());
    if is_dot_dot(f) {
        return (slice_vec(f, 0, f.len()), None);
    }
    match d {
        Some(k) if k > 0 => {
            proof {
                lemma_rfind_upto(f@, seq!['.'], f@.len() - 1);
                assert(occurs_at(f@, seq!['.'], k as int));
            }
            let n = f.len();
            assert(k < n);
            (slice_vec(f, 0, k), Some(slice_vec(f, k + 1, n)))
        },
        _ => {
            assert(f@.subrange(0, f@.len() as int) =~= f@);
            (slice_vec(f, 0, f.len()), None)
        },
    }
}

/// Whether a path names an insight file.
pub fn is_insight_file(path: &str) -> (r: bool)
    ensures
        r == is_insight_file_spec(path@),
{
    match file_name_of(path) {
        None => false,
        Some(f) => {
            let fc = chars_of(f.as_str());
            let (stem, ext) = stem_and_extension(fc.as_slice());
            let md = vec!['m', 'd'];
            assert(md@ =~= seq!['m', 'd']);
            match ext {
                Some(e) => {
                    if !crate::text::chars_eq(e.as_slice(), md.as_slice()) {
                        return false;
                    }
                    ends_with_exec(stem.as_slice(), insight_suffix_vec().as_slice())
                },
                None => false,
            }
        },
    }
}

/// `s` with every trailing `p` removed.
fn strip_all_suffix_exec(s: &[char], p: &[char]) -> (r: Vec<char>)
    ensures
        r@ == strip_all_suffix(s@, p@),
{
    let mut end = s.len();
    let ghost target = strip_all_suffix(s@, p@);
    assert(s@.take(end as int) =~= s@);
    loop
        invariant
            end <= s@.len(),
            target == strip_all_suffix(s@.take(end as int), p@),
        ensures
            end <= s@.len(),
            target == s@.take(end as int),
        decreases end,
    {
        if p.len() == 0 || end < p.len() {
            proof {
                let cur = s@.take(end as int);
                assert(p@.len() == 0 || !ends_with(cur, p@));
            }
            break;
        }
        let cur = slice_vec(s, 0, end);
        if !ends_with_exec(cur.as_slice(), p) {
            assert(cur@ =~= s@.take(end as int));
            break;
        }
        proof {
            assert(cur@.take(cur@.len() - p@.len()) =~= s@.take(end - p@.len()));
        }
        end = end - p.len();
    }
    slice_vec(s, 0, end)
}

/// The name of the insight a path holds: its stem without the `.insight`
/// suffix, when it has one.
pub fn extract_insight_name(path: &str) -> (r: Option<String>)
    ensures
        match r {
            Some(n) => insight_name_spec(path@) == Some(n@),
            None => insight_name_spec(path@) is None,
        },
{
    let f = file_name_of(path)?;
    let fc = chars_of(f.as_str());
    let (stem, _) = stem_and_extension(fc.as_slice());
    let suffix = insight_suffix_vec();
    if !ends_with_exec(stem.as_slice(), suffix.as_slice()) {
        return None;
    }
    let name = strip_all_suffix_exec(stem.as_slice(), suffix.as_slice());
    Some(string_of(name.as_slice()))
}

/// The name of an insight's file: its name lowercased, then `.insight.md`.
pub open spec fn insight_file_name_spec(name: Seq<char>) -> Seq<char> {
    lowercase(name) + insight_file_suffix()
}

/// The name of an insight's file, from the insight's name.
pub fn insight_file_name(name: &str) -> (r: String)
    ensures
        r@ == insight_file_name_spec(name@),
{
    let lower = to_lowercase(name);
    let mut out = chars_of(lower.as_str());
    extend(&mut out, insight_suffix_vec().as_slice());
    out.push('.');
    out.push('m');
    out.push('d');
    assert(out@ =~= lowercase(name@) + insight_file_suffix());
    string_of(out.as_slice())
}

/// An insight's file name is recognised as one, and names the insight again:
/// for any stem, `<stem>.insight.md` has extension `md` and a stem ending in
/// `.insight`, and stripping that suffix gives the stem back, unless the stem
/// itself ends in `.insight`.
pub proof fn law_insight_file_name_round_trip(stem: Seq<char>)
    ensures
        extension_of(stem + insight_file_suffix()) == Some(seq!['m', 'd']),
        ends_with(file_stem_of(stem + insight_file_suffix()), insight_suffix()),
        file_stem_of(stem + insight_file_suffix()) == stem + insight_suffix(),
        !ends_with(stem, insight_suffix()) ==> strip_all_suffix(
            file_stem_of(stem + insight_file_suffix()),
            insight_suffix(),
        ) == stem,
{
    let f = stem + insight_file_suffix();
    let n = f.len() as int;
    let dot = seq!['.'];
    assert(f[n - 3] == '.');
    assert(f[n - 2] == 'm');
    assert(f[n - 1] == 'd');
    assert(f.subrange(n - 3, n - 2) =~= dot);
    assert(!occurs_at(f, dot, n - 2)) by {
        assert(f.subrange(n - 2, n - 1)[0] == 'm');
    }
    assert(!occurs_at(f, dot, n - 1)) by {
        assert(f.subrange(n - 1, n)[0] == 'd');
    }
    assert(occurs_at(f, dot, n - 3));
    lemma_rfind_upto(f, dot, n - 1);
    assert(dot.len() == 1);
    let r = rfind_upto(f, dot, n - 1);
    if r != n - 3 {
        if r < n - 3 {
            assert(!occurs_at(f, dot, n - 3));
        }
    }
    assert(last_dot(f) == n - 3);
    assert(f != seq!['.', '.']) by {
        assert(f.len() >= 11);
    }
    assert(f.skip(n - 2) =~= seq!['m', 'd']);
    let st = f.take(n - 3);
    assert(st =~= stem + insight_suffix());
    assert(st.subrange(st.len() - 8, st.len() as int) =~= insight_suffix());
    if !ends_with(stem, insight_suffix()) {
        assert(st.take(st.len() - 8) =~= stem);
        assert(strip_all_suffix(stem, insight_suffix()) == stem);
    }
}

/// What `Path::join` followed by `display` gives for a base and a part.
pub uninterp spec fn joined_path(base: Seq<char>, part: Seq<char>) -> Seq<char>;

/// `Path::join`, shown with `display`: the part appended to the base after
/// a separator, or in its place when the part is absolute. Nothing more is
/// stated of it; its result is named.
#[verifier::external_body]
pub(crate) fn join_path(base: &str, part: &str) -> (r: String)
    ensures
        r@ == joined_path(base@, part@),
{
    std::path::Path::new(base).join(part).display().to_string()
}

} // verus!
