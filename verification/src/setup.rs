//! Setting up agent tooling: where the rule file can go, which shell files
//! can take the shim, what the files become once the rule or shim is added,
//! and how answers to the setup questions are read.

use vstd::prelude::*;
use crate::report::{lines_view, piece, piece_of, push_line, pv, Paint, Piece, PieceView};
use crate::store_path::{extension_of, file_name_of, join_path, joined_path, path_file_name, stem_and_extension};
use crate::text::{
    chars_eq, chars_of, contains, ends_with, extend, find_exec, join, join_exec, lines, lines_exec,
    slice_vec, string_of, trim_start, utf8_len,
};

verus! {

broadcast use vstd::string::group_string_axioms;

/// A labelled choice: what the operator is shown, and what it stands for.
pub open spec fn choice(label: Seq<char>, value: Seq<char>) -> (Seq<char>, Seq<char>) {
    (label, value)
}

/// The views of labelled choices.
pub open spec fn choices(v: Seq<(String, String)>) -> Seq<(Seq<char>, Seq<char>)> {
    v.map_values(|c: (String, String)| (c.0@, c.1@))
}

/// The places the rule file can be installed, in the order the catalogue
/// lists them: each place whose tool was found, and none without a home
/// directory.
pub open spec fn rule_destinations_spec(
    has_home: bool,
    found: Seq<bool>,
    catalogue: Seq<(Seq<char>, Seq<char>)>,
) -> Seq<(Seq<char>, Seq<char>)>
    decreases found.len(),
{
    if !has_home || found.len() == 0 || catalogue.len() == 0 {
        seq![]
    } else {
        let rest = rule_destinations_spec(has_home, found.drop_last(), catalogue.drop_last());
        if found.last() {
            rest.push(catalogue.last())
        } else {
            rest
        }
    }
}

fn push_choice(v: &mut Vec<(String, String)>, label: &str, value: &str)
    ensures
        choices(final(v)@) == choices(old(v)@).push((label@, value@)),
{
    v.push((label.to_string(), value.to_string()));
    proof {
        assert(choices(v@) =~= choices(old(v)@).push((label@, value@)));
    }
}

/// Where each agent tool takes the rule, in the order the setup offers
/// them: Cursor globally and per project, Windsurf per project, and Zed.
pub open spec fn rule_catalogue_spec() -> Seq<(Seq<char>, Seq<char>)> {
    seq![
        choice("Cursor (global)"@, "~/.cursor/rules/use-insights.mdc"@),
        choice("Cursor (project)"@, ".cursor/rules/use-insights.mdc"@),
        choice("Windsurf (project)"@, ".windsurf/rules/use-insights.md"@),
        choice("Zed"@, ".zed/rules"@),
    ]
}

/// Where each agent tool takes the rule, in the order the setup offers them.
pub fn rule_catalogue() -> (r: Vec<(String, String)>)
    ensures
        choices(r@) == rule_catalogue_spec(),
{
    let mut v: Vec<(String, String)> = Vec::new();
    proof {
        assert(choices(v@) =~= seq![]);
    }
    push_choice(&mut v, "Cursor (global)", "~/.cursor/rules/use-insights.mdc");
    push_choice(&mut v, "Cursor (project)", ".cursor/rules/use-insights.mdc");
    push_choice(&mut v, "Windsurf (project)", ".windsurf/rules/use-insights.md");
    push_choice(&mut v, "Zed", ".zed/rules");
    proof {
        assert(choices(v@) =~= rule_catalogue_spec());
    }
    v
}

/// The places the rule file can be installed, given whether there is a home
/// directory and which of the catalogue's tools were found (one flag per
/// entry of `rule_catalogue`, in order).
pub fn rule_destinations(has_home: bool, found: &[bool]) -> (r: Vec<(String, String)>)
    requires
        found@.len() == rule_catalogue_spec().len(),
    ensures
        choices(r@) == rule_destinations_spec(has_home, found@, rule_catalogue_spec()),
{
    let catalogue = rule_catalogue();
    destinations_among(has_home, found, catalogue.as_slice())
}

fn destinations_among(has_home: bool, found: &[bool], catalogue: &[(String, String)]) -> (r: Vec<(String, String)>)
    requires
        found@.len() == catalogue@.len(),
    ensures
        choices(r@) == rule_destinations_spec(has_home, found@, choices(catalogue@)),
{
    let mut options: Vec<(String, String)> = Vec::new();
    proof {
        assert(choices(options@) =~= seq![]);
    }
    if !has_home {
        return options;
    }
    let ghost cat = choices(catalogue@);
    let mut i: usize = 0;
    while i < found.len()
        invariant
            i <= found@.len(),
            found@.len() == catalogue@.len(),
            has_home,
            cat == choices(catalogue@),
            choices(options@) == rule_destinations_spec(has_home, found@.take(i as int), cat.take(i as int)),
        decreases found@.len() - i,
    {
        proof {
            assert(found@.take(i + 1).drop_last() =~= found@.take(i as int));
            assert(cat.take(i + 1).drop_last() =~= cat.take(i as int));
            assert(found@.take(i + 1).last() == found@[i as int]);
            assert(cat.take(i + 1).last() == cat[i as int]);
        }
        if found[i] {
            push_choice(&mut options, catalogue[i].0.as_str(), catalogue[i].1.as_str());
        }
        i = i + 1;
    }
    proof {
        assert(found@.take(found@.len() as int) =~= found@);
        assert(cat.take(found@.len() as int) =~= cat);
    }
    options
}

/// The shell start-up files that can take the shim, of those found in the
/// home directory: `~/.zshrc`, then `~/.bashrc`.
pub open spec fn shell_rcs_spec(has_home: bool, zshrc: bool, bashrc: bool) -> Seq<(Seq<char>, Seq<char>)> {
    if !has_home {
        seq![]
    } else {
        let z = if zshrc {
            seq![choice("~/.zshrc"@, "~/.zshrc"@)]
        } else {
            seq![]
        };
        if bashrc {
            z.push(choice("~/.bashrc"@, "~/.bashrc"@))
        } else {
            z
        }
    }
}

/// The shell start-up files that can take the shim.
pub fn shell_rcs(has_home: bool, zshrc: bool, bashrc: bool) -> (r: Vec<(String, String)>)
    ensures
        choices(r@) == shell_rcs_spec(has_home, zshrc, bashrc),
{
    let mut found: Vec<(String, String)> = Vec::new();
    proof {
        assert(choices(found@) =~= seq![]);
    }
    if !has_home {
        return found;
    }
    if zshrc {
        push_choice(&mut found, "~/.zshrc", "~/.zshrc");
    }
    if bashrc {
        push_choice(&mut found, "~/.bashrc", "~/.bashrc");
    }
    found
}

// ---------------------------------------------------------------------------
// Rule and shim files
// ---------------------------------------------------------------------------

/// The index of the first line at or after `i` that is `---`, or the number
/// of lines when there is none.
pub open spec fn closing_line(ls: Seq<Seq<char>>, i: int) -> int
    decreases ls.len() - i,
{
    if i < 0 || i >= ls.len() {
        ls.len() as int
    } else if ls[i] == "---"@ {
        i
    } else {
        closing_line(ls, i + 1)
    }
}

/// Text without its frontmatter: when its first line is `---`, everything
/// up to and including the next `---` line is dropped, the remaining lines
/// are joined by newlines, and leading whitespace is trimmed. Text that does
/// not open with `---` is kept as it is.
pub open spec fn strip_frontmatter_spec(content: Seq<char>) -> Seq<char> {
    let ls = lines(content);
    if ls.len() == 0 || ls[0] != "---"@ {
        content
    } else {
        let close = closing_line(ls, 1);
        let rest = if close < ls.len() {
            ls.skip(close + 1)
        } else {
            seq![]
        };
        trim_start(join(rest, "\n"@))
    }
}

proof fn lemma_closing_line(ls: Seq<Seq<char>>, i: int)
    requires
        0 <= i <= ls.len(),
    ensures
        i <= closing_line(ls, i) <= ls.len(),
        closing_line(ls, i) < ls.len() ==> ls[closing_line(ls, i)] == "---"@,
        forall|j: int| i <= j < closing_line(ls, i) ==> ls[j] != "---"@,
    decreases ls.len() - i,
{
    if i < ls.len() && ls[i] != "---"@ {
        lemma_closing_line(ls, i + 1);
    }
}

/// `s` without leading whitespace.
fn trim_start_exec(s: &[char]) -> (r: Vec<char>)
    ensures
        r@ == trim_start(s@),
{
    let mut a: usize = 0;
    while a < s.len() && crate::text::is_whitespace(s[a])
        invariant
            a <= s@.len(),
            forall|i: int| 0 <= i < a ==> crate::text::is_ws(#[trigger] s@[i]),
        decreases s@.len() - a,
    {
        a = a + 1;
    }
    proof {
        crate::text::lemma_trim_start_at(s@, a as int);
    }
    let r = slice_vec(s, a, s.len());
    proof {
        assert(r@ =~= s@.skip(a as int));
    }
    r
}

/// Text without its frontmatter.
pub fn strip_frontmatter(content: &str) -> (r: String)
    ensures
        r@ == strip_frontmatter_spec(content@),
{
    let cs = chars_of(content);
    let ls = lines_exec(cs.as_slice());
    let ghost lv = lines(content@);
    let dashes = chars_of("---");
    if ls.len() == 0 || !chars_eq(ls[0].as_slice(), dashes.as_slice()) {
        return string_of(cs.as_slice());
    }
    let mut close: usize = 1;
    proof {
        lemma_closing_line(lv, 1);
    }
    while close < ls.len() && !chars_eq(ls[close].as_slice(), dashes.as_slice())
        invariant
            1 <= close <= ls@.len(),
            ls@.len() == lv.len(),
            forall|k: int| 0 <= k < ls@.len() ==> #[trigger] ls@[k]@ == lv[k],
            dashes@ == "---"@,
            closing_line(lv, 1) == closing_line(lv, close as int),
        decreases ls@.len() - close,
    {
        close = close + 1;
    }
    let mut rest: Vec<Vec<char>> = Vec::new();
    let start = if close < ls.len() {
        close + 1
    } else {
        ls.len()
    };
    let ghost want = if closing_line(lv, 1) < lv.len() {
        lv.skip(closing_line(lv, 1) + 1)
    } else {
        seq![]
    };
    let mut i = start;
    while i < ls.len()
        invariant
            start <= i <= ls@.len(),
            ls@.len() == lv.len(),
            forall|k: int| 0 <= k < ls@.len() ==> #[trigger] ls@[k]@ == lv[k],
            want == lv.subrange(start as int, lv.len() as int),
            rest@.map_values(|p: Vec<char>| p@) == lv.subrange(start as int, i as int),
        decreases ls@.len() - i,
    {
        let ghost before = rest@;
        rest.push(slice_vec(ls[i].as_slice(), 0, ls[i].len()));
        proof {
            assert(ls@[i as int]@.subrange(0, ls@[i as int]@.len() as int) =~= ls@[i as int]@);
            assert(rest@.map_values(|p: Vec<char>| p@) =~= before.map_values(|p: Vec<char>| p@).push(lv[i as int]));
            assert(lv.subrange(start as int, i + 1) =~= lv.subrange(start as int, i as int).push(lv[i as int]));
        }
        i = i + 1;
    }
    let newline = ['\n'];
    let joined = join_exec(&rest, &newline);
    proof {
        reveal_strlit("\n");
        assert(newline@ =~= "\n"@);
        if closing_line(lv, 1) < lv.len() {
            assert(lv.skip(closing_line(lv, 1) + 1) =~= lv.subrange(start as int, lv.len() as int));
        } else {
            assert(lv.subrange(start as int, lv.len() as int) =~= Seq::<Seq<char>>::empty());
        }
    }
    string_of(trim_start_exec(joined.as_slice()).as_slice())
}

/// `existing` with `addition` appended as a paragraph of its own: a newline
/// to end the existing text when it does not end in one, a blank line, the
/// addition, and a closing newline.
pub open spec fn appended(existing: Seq<char>, addition: Seq<char>) -> Seq<char> {
    let ended = if existing.len() > 0 && existing.last() == '\n' {
        existing
    } else {
        existing.push('\n')
    };
    ended.push('\n') + addition.push('\n')
}

fn appended_exec(existing: &str, addition: &str) -> (r: String)
    ensures
        r@ == appended(existing@, addition@),
{
    let mut out = chars_of(existing);
    let n = out.len();
    if !(n > 0 && out[n - 1] == '\n') {
        out.push('\n');
    }
    out.push('\n');
    extend(&mut out, chars_of(addition).as_slice());
    out.push('\n');
    proof {
        assert(out@ =~= appended(existing@, addition@));
    }
    string_of(out.as_slice())
}

fn contains_exec(s: &str, p: &str) -> (r: bool)
    ensures
        r == contains(s@, p@),
{
    let found = find_exec(chars_of(s).as_slice(), chars_of(p).as_slice());
    proof {
        crate::text::lemma_find_from(s@, p@, 0);
    }
    match found {
        Some(_) => true,
        None => false,
    }
}

/// What a shell start-up file becomes once the shim is added: nothing to do
/// when it already sources the bootstrap script, else the shim appended.
pub open spec fn shim_merge_spec(existing: Seq<char>, shim: Seq<char>) -> Option<Seq<char>> {
    if contains(existing, "insights/init.sh"@) {
        None
    } else {
        Some(appended(existing, shim))
    }
}

/// What a shell start-up file becomes once the shim is added, or nothing
/// when it needs no change. (A file that cannot be read counts as empty.)
pub fn shell_shim(existing: &str, shim: &str) -> (r: Option<String>)
    ensures
        match r {
            Some(s) => shim_merge_spec(existing@, shim@) == Some(s@),
            None => shim_merge_spec(existing@, shim@) is None,
        },
{
    if contains_exec(existing, "insights/init.sh") {
        None
    } else {
        Some(appended_exec(existing, shim))
    }
}

/// A character's code, lowered for ASCII capitals.
pub open spec fn ascii_lower(c: char) -> int {
    if 'A' <= c && c <= 'Z' {
        (c as u32) + 32
    } else {
        c as u32 as int
    }
}

/// Whether two texts are equal ignoring ASCII case: `eq_ignore_ascii_case`.
pub open spec fn eq_ignore_ascii_case(a: Seq<char>, b: Seq<char>) -> bool {
    a.len() == b.len() && forall|i: int| 0 <= i < a.len() ==> ascii_lower(#[trigger] a[i]) == ascii_lower(b[i])
}

fn ascii_lower_exec(c: char) -> (r: u32)
    ensures
        r == ascii_lower(c),
{
    if 'A' <= c && c <= 'Z' {
        (c as u32) + 32
    } else {
        c as u32
    }
}

/// Whether two texts are equal ignoring ASCII case.
pub fn eq_ignore_ascii_case_exec(a: &str, b: &str) -> (r: bool)
    ensures
        r == eq_ignore_ascii_case(a@, b@),
{
    let x = chars_of(a);
    let y = chars_of(b);
    if x.len() != y.len() {
        return false;
    }
    let mut i: usize = 0;
    while i < x.len()
        invariant
            x@ == a@,
            y@ == b@,
            x@.len() == y@.len(),
            i <= x@.len(),
            forall|k: int| 0 <= k < i ==> ascii_lower(#[trigger] x@[k]) == ascii_lower(y@[k]),
        decreases x@.len() - i,
    {
        if ascii_lower_exec(x[i]) != ascii_lower_exec(y[i]) {
            return false;
        }
        i = i + 1;
    }
    true
}

/// How the rule is installed at a destination: its text, whole for a
/// `.mdc` file and without its frontmatter otherwise, and whether the
/// destination is the shared instructions file that the rule joins rather
/// than replaces.
pub struct RulePlan {
    pub content: String,
    pub joins: bool,
}

/// Whether a destination is a `.mdc` file.
pub open spec fn is_mdc(dest: Seq<char>) -> bool {
    match path_file_name(dest) {
        Some(f) => extension_of(f) == Some("mdc"@),
        None => false,
    }
}

/// Whether a destination is named `shared_name`, in any ASCII case.
pub open spec fn is_shared_file(dest: Seq<char>, shared_name: Seq<char>) -> bool {
    match path_file_name(dest) {
        Some(f) => eq_ignore_ascii_case(f, shared_name),
        None => false,
    }
}

/// How the rule is installed at `dest`, given the rule's text and the name
/// of the shared instructions file the rule joins.
pub fn rule(dest: &str, template: &str, shared_name: &str) -> (r: RulePlan)
    ensures
        r.content@ == if is_mdc(dest@) {
            template@
        } else {
            strip_frontmatter_spec(template@)
        },
        r.joins == is_shared_file(dest@, shared_name@),
{
    let (mdc, shared) = match file_name_of(dest) {
        Some(f) => {
            let fc = chars_of(f.as_str());
            let (_, ext) = stem_and_extension(fc.as_slice());
            let mdc = match ext {
                Some(e) => chars_eq(e.as_slice(), chars_of("mdc").as_slice()),
                None => false,
            };
            (mdc, eq_ignore_ascii_case_exec(f.as_str(), shared_name))
        },
        None => (false, false),
    };
    let content = if mdc {
        string_of(chars_of(template).as_slice())
    } else {
        strip_frontmatter(template)
    };
    RulePlan { content, joins: shared }
}

/// What an existing shared instructions file becomes once the rule joins it:
/// nothing to do when it already holds the rule's heading, else the rule
/// appended.
pub open spec fn rule_merge_spec(existing: Seq<char>, content: Seq<char>) -> Option<Seq<char>> {
    if contains(existing, "# Insights CLI"@) {
        None
    } else {
        Some(appended(existing, content))
    }
}

/// What an existing shared instructions file becomes once the rule joins
/// it, or nothing when it needs no change.
pub fn merge_rule(existing: &str, content: &str) -> (r: Option<String>)
    ensures
        match r {
            Some(s) => rule_merge_spec(existing@, content@) == Some(s@),
            None => rule_merge_spec(existing@, content@) is None,
        },
{
    if contains_exec(existing, "# Insights CLI") {
        None
    } else {
        Some(appended_exec(existing, content))
    }
}

// ---------------------------------------------------------------------------
// Answers
// ---------------------------------------------------------------------------

/// The views of the answers given so far.
pub open spec fn answers_view(a: Seq<(String, String)>) -> Seq<(Seq<char>, Seq<char>)> {
    a.map_values(|p: (String, String)| (p.0@, p.1@))
}

/// The answer given under `key`, the first one recorded for it.
pub open spec fn answer(answers: Seq<(Seq<char>, Seq<char>)>, key: Seq<char>) -> Option<Seq<char>>
    decreases answers.len(),
{
    if answers.len() == 0 {
        None
    } else if answers[0].0 == key {
        Some(answers[0].1)
    } else {
        answer(answers.drop_first(), key)
    }
}

/// The answer given under `key`.
pub fn answer_exec(answers: &Vec<(String, String)>, key: &str) -> (r: Option<String>)
    ensures
        match r {
            Some(v) => answer(answers_view(answers@), key@) == Some(v@),
            None => answer(answers_view(answers@), key@) is None,
        },
{
    let ghost all = answers_view(answers@);
    let mut i: usize = 0;
    proof {
        assert(all.skip(0) =~= all);
    }
    while i < answers.len()
        invariant
            i <= answers@.len(),
            all == answers_view(answers@),
            answer(all, key@) == answer(all.skip(i as int), key@),
        decreases answers@.len() - i,
    {
        proof {
            assert(all.skip(i as int)[0] == all[i as int]);
            assert(all.skip(i as int).drop_first() =~= all.skip(i + 1));
        }
        if answers[i].0 == key.to_string() {
            return Some(string_of(chars_of(answers[i].1.as_str()).as_slice()));
        }
        i = i + 1;
    }
    proof {
        assert(all.skip(i as int).len() == 0);
    }
    None
}

/// Whether the answer under `key` is yes: `y` or `yes` in any ASCII case,
/// and yes when no answer was given.
pub open spec fn is_yes_spec(answers: Seq<(Seq<char>, Seq<char>)>, key: Seq<char>) -> bool {
    match answer(answers, key) {
        Some(v) => eq_ignore_ascii_case(v, "y"@) || eq_ignore_ascii_case(v, "yes"@),
        None => true,
    }
}

/// Whether the answer under `key` is yes.
pub fn is_yes(answers: &Vec<(String, String)>, key: &str) -> (r: bool)
    ensures
        r == is_yes_spec(answers_view(answers@), key@),
{
    match answer_exec(answers, key) {
        Some(v) => eq_ignore_ascii_case_exec(v.as_str(), "y") || eq_ignore_ascii_case_exec(v.as_str(), "yes"),
        None => true,
    }
}

/// A path with a leading `~/` taken from the home directory (or from `~`
/// when there is none); any other path as it is.
pub open spec fn expand_tilde(path: Seq<char>, home: Option<Seq<char>>) -> Seq<char> {
    if path.len() >= 2 && path[0] == '~' && path[1] == '/' {
        let base = match home {
            Some(h) => h,
            None => "~"@,
        };
        joined_path(base, path.skip(2))
    } else {
        path
    }
}

/// A path with a leading `~/` taken from the home directory.
pub fn shellexpand_tilde(path: &str, home: &Option<String>) -> (r: String)
    ensures
        r@ == expand_tilde(path@, crate::git::opt_text(*home)),
{
    let cs = chars_of(path);
    if cs.len() >= 2 && cs[0] == '~' && cs[1] == '/' {
        let rest = string_of(slice_vec(cs.as_slice(), 2, cs.len()).as_slice());
        proof {
            assert(rest@ =~= path@.skip(2));
        }
        match home {
            Some(h) => join_path(h.as_str(), rest.as_str()),
            None => join_path("~", rest.as_str()),
        }
    } else {
        string_of(cs.as_slice())
    }
}

/// The path an answer names, expanded; none when the answer is missing or
/// empty.
pub open spec fn answer_path(answers: Seq<(Seq<char>, Seq<char>)>, key: Seq<char>, home: Option<Seq<char>>) -> Option<Seq<char>> {
    match answer(answers, key) {
        Some(raw) => if raw.len() == 0 {
            None
        } else {
            Some(expand_tilde(raw, home))
        },
        None => None,
    }
}

/// The path an answer names, expanded, for the setup step that acts on it.
pub fn from_answer(answers: &Vec<(String, String)>, key: &str, home: &Option<String>) -> (r: Option<String>)
    ensures
        match r {
            Some(p) => answer_path(answers_view(answers@), key@, crate::git::opt_text(*home)) == Some(p@),
            None => answer_path(answers_view(answers@), key@, crate::git::opt_text(*home)) is None,
        },
{
    match answer_exec(answers, key) {
        Some(raw) => {
            if chars_of(raw.as_str()).len() == 0 {
                None
            } else {
                Some(shellexpand_tilde(raw.as_str(), home))
            }
        },
        None => None,
    }
}

// ---------------------------------------------------------------------------
// Summary
// ---------------------------------------------------------------------------

/// What the setup says it did: the shim's shell file and the rule's path,
/// each when installed, or that nothing changed; then a hint.
pub open spec fn summary_lines(rule_path: Option<Seq<char>>, shim_path: Option<Seq<char>>) -> Seq<Seq<PieceView>> {
    let head = seq![seq![], seq![pv("Setup complete!"@, Paint::GreenBold)], seq![]];
    let a = match shim_path {
        Some(rc) => head.push(seq![pv("  "@, Paint::Plain), pv("\u{2713}"@, Paint::Green), pv(" Shell shim: "@ + rc, Paint::Plain)]),
        None => head,
    };
    let b = match rule_path {
        Some(r) => a.push(seq![pv("  "@, Paint::Plain), pv("\u{2713}"@, Paint::Green), pv(" Rule: "@ + r, Paint::Plain)]),
        None => a,
    };
    let c = if rule_path is None && shim_path is None {
        b.push(seq![pv("  No changes made."@, Paint::Plain)])
    } else {
        b
    };
    c + seq![
        seq![],
        seq![pv("Hints:"@, Paint::CyanBold)],
        seq![pv("  \u{2022} Re-run `insights setup` to regenerate with latest defaults."@, Paint::Plain)],
    ]
}

fn one(p: Piece) -> (r: Vec<Piece>)
    ensures
        r@.map_values(|x: Piece| x@) == seq![p@],
{
    let ghost v = p@;
    let mut l: Vec<Piece> = Vec::new();
    l.push(p);
    proof {
        assert(l@.map_values(|x: Piece| x@) =~= seq![v]);
    }
    l
}

fn empty_line() -> (r: Vec<Piece>)
    ensures
        r@.map_values(|x: Piece| x@) == Seq::<PieceView>::empty(),
{
    let l: Vec<Piece> = Vec::new();
    proof {
        assert(l@.map_values(|x: Piece| x@) =~= Seq::<PieceView>::empty());
    }
    l
}

fn tick_line(what: &str, path: &str) -> (r: Vec<Piece>)
    ensures
        r@.map_values(|x: Piece| x@) == seq![pv("  "@, Paint::Plain), pv("\u{2713}"@, Paint::Green), pv(what@ + path@, Paint::Plain)],
{
    let mut text = chars_of(what);
    extend(&mut text, chars_of(path).as_slice());
    let mut l: Vec<Piece> = Vec::new();
    l.push(piece("  ", Paint::Plain));
    l.push(piece("\u{2713}", Paint::Green));
    l.push(piece_of(text, Paint::Plain));
    proof {
        assert(l@.map_values(|x: Piece| x@) =~= seq![pv("  "@, Paint::Plain), pv("\u{2713}"@, Paint::Green), pv(what@ + path@, Paint::Plain)]);
    }
    l
}

/// What the setup says it did.
pub fn print_summary(rule_path: &Option<String>, shim_path: &Option<String>) -> (r: Vec<Vec<Piece>>)
    ensures
        lines_view(r@) == summary_lines(crate::git::opt_text(*rule_path), crate::git::opt_text(*shim_path)),
{
    let mut out: Vec<Vec<Piece>> = Vec::new();
    push_line(&mut out, empty_line());
    push_line(&mut out, one(piece("Setup complete!", Paint::GreenBold)));
    push_line(&mut out, empty_line());
    if let Some(rc) = shim_path {
        push_line(&mut out, tick_line(" Shell shim: ", rc.as_str()));
    }
    if let Some(rule) = rule_path {
        push_line(&mut out, tick_line(" Rule: ", rule.as_str()));
    }
    if rule_path.is_none() && shim_path.is_none() {
        push_line(&mut out, one(piece("  No changes made.", Paint::Plain)));
    }
    push_line(&mut out, empty_line());
    push_line(&mut out, one(piece("Hints:", Paint::CyanBold)));
    push_line(&mut out, one(piece("  \u{2022} Re-run `insights setup` to regenerate with latest defaults.", Paint::Plain)));
    proof {
        assert(lines_view(out@) =~= summary_lines(crate::git::opt_text(*rule_path), crate::git::opt_text(*shim_path)));
    }
    out
}

} // verus!
