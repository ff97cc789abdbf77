//! What one sync did, and how it is told to the operator: the lines of the
//! report, each a run of pieces of text in the colour the terminal shows them.

use vstd::prelude::*;
use colored::Colorize;
use crate::git::strs;
use crate::store_path::insight_file_suffix;
use crate::text::{
    chars_of, contains, decimal, decimal_exec, ends_with, ends_with_exec, extend, join, join_exec,
    slice_vec, string_of,
};

verus! {

broadcast use vstd::string::group_string_axioms;

/// How many insights a report names before it just gives the count: a first
/// sync carries the whole store, and a thousand names tell the operator less
/// than the number does.
pub const NAMED_LIMIT: usize = 8;

/// The outcome of a single sync, in the order the sync produced it. A
/// non-empty `conflicted` means the sync stopped: nothing was pulled in or
/// pushed, and the store was left as it was.
pub struct SyncReport {
    /// Insights this machine had changed since the last sync.
    pub committed: Vec<String>,
    /// Insights that arrived from another machine.
    pub pulled: Vec<String>,
    /// Insights edited on two machines, which the operator has to reconcile.
    pub conflicted: Vec<String>,
    /// Whether local commits reached the remote.
    pub pushed: bool,
    /// Where the store syncs to, absent until a remote is set.
    pub remote: Option<String>,
    /// The directory holding the insights.
    pub store: String,
}

/// The mathematical content of a sync report.
#[verifier::ext_equal]
pub struct ReportView {
    pub committed: Seq<Seq<char>>,
    pub pulled: Seq<Seq<char>>,
    pub conflicted: Seq<Seq<char>>,
    pub pushed: bool,
    pub remote: Option<Seq<char>>,
    pub store: Seq<char>,
}

/// The view of an optional string.
pub open spec fn opt_seq(o: Option<String>) -> Option<Seq<char>> {
    match o {
        Some(s) => Some(s@),
        None => None,
    }
}

impl View for SyncReport {
    type V = ReportView;

    open spec fn view(&self) -> ReportView {
        ReportView {
            committed: strs(self.committed@),
            pulled: strs(self.pulled@),
            conflicted: strs(self.conflicted@),
            pushed: self.pushed,
            remote: opt_seq(self.remote),
            store: self.store@,
        }
    }
}

/// The colour a piece of a report is shown in.
#[derive(Debug, Clone, Copy, PartialEq, Eq, Structural)]
pub enum Paint {
    Plain,
    Green,
    Cyan,
    Yellow,
    Red,
    Dimmed,
    GreenBold,
    CyanBold,
}

/// A piece of a report line, and its colour.
pub struct Piece {
    pub text: String,
    pub paint: Paint,
}

/// The mathematical content of a piece.
pub struct PieceView {
    pub text: Seq<char>,
    pub paint: Paint,
}

impl View for Piece {
    type V = PieceView;

    open spec fn view(&self) -> PieceView {
        PieceView { text: self.text@, paint: self.paint }
    }
}

/// A piece of text in a colour.
pub open spec fn pv(text: Seq<char>, paint: Paint) -> PieceView {
    PieceView { text, paint }
}

/// The views of report lines.
pub open spec fn lines_view(ls: Seq<Vec<Piece>>) -> Seq<Seq<PieceView>> {
    ls.map_values(|l: Vec<Piece>| l@.map_values(|p: Piece| p@))
}

/// The insight a store path holds: the path without `.insight.md`.
pub open spec fn insight_label(path: Seq<char>) -> Seq<char> {
    if ends_with(path, insight_file_suffix()) {
        path.take(path.len() - insight_file_suffix().len())
    } else {
        path
    }
}

/// The insight a store path holds:
/// `insight_label("rust/async-patterns.insight.md")` is `"rust/async-patterns"`.
pub fn insight_label_exec(path: &str) -> (r: String)
    ensures
        r@ == insight_label(path@),
{
    let p = chars_of(path);
    let suffix = chars_of(".insight.md");
    proof {
        reveal_strlit(".insight.md");
        assert(suffix@ =~= insight_file_suffix());
    }
    if ends_with_exec(p.as_slice(), suffix.as_slice()) {
        string_of(slice_vec(p.as_slice(), 0, p.len() - suffix.len()).as_slice())
    } else {
        string_of(p.as_slice())
    }
}

/// `""` or `"s"`, as a count needs.
pub open spec fn plural(n: nat) -> Seq<char> {
    if n == 1 {
        Seq::<char>::empty()
    } else {
        "s"@
    }
}

/// Lines naming each of some insights, indented and dimmed, the first
/// `NAMED_LIMIT` of them, and how many more there are when there are more.
pub open spec fn named_lines(paths: Seq<Seq<char>>) -> Seq<Seq<PieceView>> {
    let shown = if paths.len() <= NAMED_LIMIT {
        paths
    } else {
        paths.take(NAMED_LIMIT as int)
    };
    let names = shown.map_values(|p: Seq<char>| seq![pv("    "@, Paint::Plain), pv(insight_label(p), Paint::Dimmed)]);
    if paths.len() > NAMED_LIMIT {
        names.push(
            seq![
                pv("    "@, Paint::Plain),
                pv("and "@ + decimal((paths.len() - NAMED_LIMIT) as nat) + " more"@, Paint::Dimmed),
            ],
        )
    } else {
        names
    }
}

/// The lines telling what moved: a tick, the action, and the count in
/// `color`, then the insights by name. Nothing when nothing moved.
pub open spec fn insight_lines(action: Seq<char>, paths: Seq<Seq<char>>, color: Paint) -> Seq<Seq<PieceView>> {
    if paths.len() == 0 {
        seq![]
    } else {
        seq![
            seq![
                pv("\u{2713}"@, Paint::Green),
                pv(" "@ + action + " "@, Paint::Plain),
                pv(decimal(paths.len()), color),
                pv(" insight"@ + plural(paths.len()), Paint::Plain),
            ],
        ] + named_lines(paths)
    }
}

/// The lines explaining a conflict, and the commands that settle it.
pub open spec fn conflict_lines(paths: Seq<Seq<char>>, store: Seq<char>) -> Seq<Seq<PieceView>> {
    let verb = if paths.len() == 1 {
        "has"@
    } else {
        "have"@
    };
    seq![
        seq![
            pv("\u{2717}"@, Paint::Red),
            pv(
                " Conflict: "@ + decimal(paths.len()) + " insight"@ + plural(paths.len())
                    + " you've updated "@ + verb + " also recently changed on the remote:"@,
                Paint::Plain,
            ),
        ],
    ] + paths.map_values(|p: Seq<char>| seq![pv("    "@, Paint::Plain), pv(insight_label(p), Paint::Yellow)])
        + seq![
        seq![
            pv(
                "\nThe store was left untouched. Reconcile them by hand, then sync again:\n  "@,
                Paint::Plain,
            ),
            pv("git -C "@ + store + " pull --rebase"@, Paint::Cyan),
            pv("\n  resolve the conflicts, commit, then\n  "@, Paint::Plain),
            pv("insights sync"@, Paint::Cyan),
        ],
    ]
}

/// The line saying how a sync ended: in step with the remote, or committed
/// here only.
pub open spec fn outcome_line(remote: Option<Seq<char>>) -> Seq<PieceView> {
    match remote {
        Some(url) => seq![
            pv("\u{2713}"@, Paint::Green),
            pv(" In sync with "@, Paint::Plain),
            pv(url, Paint::Cyan),
        ],
        None => seq![
            pv("!"@, Paint::Yellow),
            pv(" Committed locally. Set a remote with "@, Paint::Plain),
            pv("insights sync --remote <url>"@, Paint::Cyan),
            pv(" to share these."@, Paint::Plain),
        ],
    }
}

/// The lines of a report, in the order the sync did things: what was sent,
/// what was received, then the conflict or how the sync ended.
pub open spec fn report_lines(r: ReportView) -> Seq<Seq<PieceView>> {
    let moved = insight_lines("Sent"@, r.committed, Paint::Green) + insight_lines(
        "Received"@,
        r.pulled,
        Paint::Cyan,
    );
    if r.conflicted.len() > 0 {
        moved + conflict_lines(r.conflicted, r.store)
    } else {
        moved.push(outcome_line(r.remote))
    }
}

/// A piece of text in a colour.
pub fn piece(text: &str, paint: Paint) -> (r: Piece)
    ensures
        r@ == pv(text@, paint),
{
    Piece { text: string_of(chars_of(text).as_slice()), paint }
}

/// A piece of text, given as characters, in a colour.
pub fn piece_of(text: Vec<char>, paint: Paint) -> (r: Piece)
    ensures
        r@ == pv(text@, paint),
{
    Piece { text: string_of(text.as_slice()), paint }
}

fn concat_chars(a: &str, b: &[char], c: &str) -> (r: Vec<char>)
    ensures
        r@ == a@ + b@ + c@,
{
    let mut out = chars_of(a);
    extend(&mut out, b);
    extend(&mut out, chars_of(c).as_slice());
    out
}

fn plural_exec(n: usize) -> (r: Vec<char>)
    ensures
        r@ == plural(n as nat),
{
    if n == 1 {
        Vec::new()
    } else {
        chars_of("s")
    }
}

pub(crate) fn push_line(out: &mut Vec<Vec<Piece>>, line: Vec<Piece>)
    ensures
        lines_view(final(out)@) == lines_view(old(out)@).push(line@.map_values(|p: Piece| p@)),
{
    out.push(line);
    proof {
        assert(lines_view(out@) =~= lines_view(old(out)@).push(line@.map_values(|p: Piece| p@)));
    }
}

fn two(a: Piece, b: Piece) -> (r: Vec<Piece>)
    ensures
        r@.map_values(|p: Piece| p@) == seq![a@, b@],
{
    let mut v: Vec<Piece> = Vec::new();
    let ghost (va, vb) = (a@, b@);
    v.push(a);
    v.push(b);
    proof {
        assert(v@.map_values(|p: Piece| p@) =~= seq![va, vb]);
    }
    v
}

fn named_lines_exec(out: &mut Vec<Vec<Piece>>, paths: &Vec<String>)
    ensures
        lines_view(final(out)@) == lines_view(old(out)@) + named_lines(strs(paths@)),
{
    let ghost ps = strs(paths@);
    let ghost shown = if ps.len() <= NAMED_LIMIT {
        ps
    } else {
        ps.take(NAMED_LIMIT as int)
    };
    let ghost names = shown.map_values(|p: Seq<char>| seq![pv("    "@, Paint::Plain), pv(insight_label(p), Paint::Dimmed)]);
    let n = if paths.len() <= NAMED_LIMIT {
        paths.len()
    } else {
        NAMED_LIMIT
    };
    let mut i: usize = 0;
    while i < n
        invariant
            i <= n,
            n == shown.len(),
            n <= paths@.len(),
            ps == strs(paths@),
            forall|k: int| 0 <= k < n ==> #[trigger] shown[k] == ps[k],
            names == shown.map_values(|p: Seq<char>| seq![pv("    "@, Paint::Plain), pv(insight_label(p), Paint::Dimmed)]),
            lines_view(out@) == lines_view(old(out)@) + names.take(i as int),
        decreases n - i,
    {
        let line = two(piece("    ", Paint::Plain), piece_of(chars_of(insight_label_exec(paths[i].as_str()).as_str()), Paint::Dimmed));
        push_line(out, line);
        proof {
            assert(names.take(i + 1) =~= names.take(i as int).push(names[i as int]));
            assert(lines_view(out@) =~= lines_view(old(out)@) + names.take(i + 1));
        }
        i = i + 1;
    }
    proof {
        assert(names.take(n as int) =~= names);
    }
    if paths.len() > NAMED_LIMIT {
        let more = concat_chars("and ", decimal_exec(paths.len() - NAMED_LIMIT).as_slice(), " more");
        let line = two(piece("    ", Paint::Plain), piece_of(more, Paint::Dimmed));
        push_line(out, line);
        proof {
            assert(lines_view(out@) =~= lines_view(old(out)@) + named_lines(ps));
        }
    }
}

fn insight_lines_exec(out: &mut Vec<Vec<Piece>>, action: &str, paths: &Vec<String>, color: Paint)
    ensures
        lines_view(final(out)@) == lines_view(old(out)@) + insight_lines(action@, strs(paths@), color),
{
    if paths.len() == 0 {
        proof {
            assert(lines_view(out@) =~= lines_view(out@) + insight_lines(action@, strs(paths@), color));
        }
        return;
    }
    let mut first: Vec<Piece> = Vec::new();
    first.push(piece("\u{2713}", Paint::Green));
    first.push(piece_of(concat_chars(" ", chars_of(action).as_slice(), " "), Paint::Plain));
    first.push(piece_of(decimal_exec(paths.len()), color));
    first.push(piece_of(concat_chars(" insight", plural_exec(paths.len()).as_slice(), ""), Paint::Plain));
    proof {
        reveal_strlit("");
        assert(first@.map_values(|p: Piece| p@) =~= insight_lines(action@, strs(paths@), color)[0]);
    }
    push_line(out, first);
    named_lines_exec(out, paths);
    proof {
        assert(lines_view(out@) =~= lines_view(old(out)@) + insight_lines(action@, strs(paths@), color));
    }
}

fn conflict_lines_exec(out: &mut Vec<Vec<Piece>>, paths: &Vec<String>, store: &str)
    ensures
        lines_view(final(out)@) == lines_view(old(out)@) + conflict_lines(strs(paths@), store@),
{
    let ghost ps = strs(paths@);
    let verb = if paths.len() == 1 {
        chars_of("has")
    } else {
        chars_of("have")
    };
    let mut head = concat_chars(" Conflict: ", decimal_exec(paths.len()).as_slice(), " insight");
    extend(&mut head, plural_exec(paths.len()).as_slice());
    extend(&mut head, chars_of(" you've updated ").as_slice());
    extend(&mut head, verb.as_slice());
    extend(&mut head, chars_of(" also recently changed on the remote:").as_slice());
    let first = two(piece("\u{2717}", Paint::Red), piece_of(head, Paint::Plain));
    push_line(out, first);
    let ghost after_first = lines_view(out@);
    let ghost labels = ps.map_values(|p: Seq<char>| seq![pv("    "@, Paint::Plain), pv(insight_label(p), Paint::Yellow)]);
    let mut i: usize = 0;
    while i < paths.len()
        invariant
            i <= paths@.len(),
            ps == strs(paths@),
            labels == ps.map_values(|p: Seq<char>| seq![pv("    "@, Paint::Plain), pv(insight_label(p), Paint::Yellow)]),
            lines_view(out@) == after_first + labels.take(i as int),
        decreases paths@.len() - i,
    {
        let line = two(piece("    ", Paint::Plain), piece_of(chars_of(insight_label_exec(paths[i].as_str()).as_str()), Paint::Yellow));
        push_line(out, line);
        proof {
            assert(labels.take(i + 1) =~= labels.take(i as int).push(labels[i as int]));
            assert(lines_view(out@) =~= after_first + labels.take(i + 1));
        }
        i = i + 1;
    }
    proof {
        assert(labels.take(paths@.len() as int) =~= labels);
    }
    let mut last: Vec<Piece> = Vec::new();
    last.push(piece("\nThe store was left untouched. Reconcile them by hand, then sync again:\n  ", Paint::Plain));
    last.push(piece_of(concat_chars("git -C ", chars_of(store).as_slice(), " pull --rebase"), Paint::Cyan));
    last.push(piece("\n  resolve the conflicts, commit, then\n  ", Paint::Plain));
    last.push(piece("insights sync", Paint::Cyan));
    let ghost lastv = last@.map_values(|p: Piece| p@);
    push_line(out, last);
    proof {
        assert(lastv =~= conflict_lines(ps, store@).last());
        assert(lines_view(out@) =~= lines_view(old(out)@) + conflict_lines(ps, store@));
    }
}

fn outcome_line_exec(remote: &Option<String>) -> (r: Vec<Piece>)
    ensures
        r@.map_values(|p: Piece| p@) == outcome_line(opt_seq(*remote)),
{
    let mut line: Vec<Piece> = Vec::new();
    match remote {
        Some(url) => {
            line.push(piece("\u{2713}", Paint::Green));
            line.push(piece(" In sync with ", Paint::Plain));
            line.push(piece(url.as_str(), Paint::Cyan));
        },
        None => {
            line.push(piece("!", Paint::Yellow));
            line.push(piece(" Committed locally. Set a remote with ", Paint::Plain));
            line.push(piece("insights sync --remote <url>", Paint::Cyan));
            line.push(piece(" to share these.", Paint::Plain));
        },
    }
    proof {
        assert(line@.map_values(|p: Piece| p@) =~= outcome_line(opt_seq(*remote)));
    }
    line
}

impl SyncReport {
    /// The lines of the report, piece by piece.
    pub fn lines(&self) -> (r: Vec<Vec<Piece>>)
        ensures
            lines_view(r@) == report_lines(self@),
    {
        let mut out: Vec<Vec<Piece>> = Vec::new();
        insight_lines_exec(&mut out, "Sent", &self.committed, Paint::Green);
        insight_lines_exec(&mut out, "Received", &self.pulled, Paint::Cyan);
        if self.conflicted.len() > 0 {
            conflict_lines_exec(&mut out, &self.conflicted, self.store.as_str());
        } else {
            let line = outcome_line_exec(&self.remote);
            push_line(&mut out, line);
        }
        proof {
            assert(lines_view(out@) =~= report_lines(self@));
        }
        out
    }
}

// ---------------------------------------------------------------------------
// Colour
// ---------------------------------------------------------------------------

/// The escape sequence that ends a coloured piece.
pub open spec fn reset_seq() -> Seq<char> {
    "\u{1b}[0m"@
}

/// A piece in colour: the escape sequence of its style, the text, the reset.
pub open spec fn styled(code: Seq<char>, text: Seq<char>) -> Seq<char> {
    "\u{1b}["@ + code + "m"@ + text + reset_seq()
}

/// The ANSI code of a colour.
pub open spec fn paint_code(p: Paint) -> Seq<char> {
    match p {
        Paint::Green => "32"@,
        Paint::Cyan => "36"@,
        Paint::Yellow => "33"@,
        Paint::Red => "31"@,
        Paint::Dimmed => "2"@,
        Paint::GreenBold => "1;32"@,
        Paint::CyanBold => "1;36"@,
        Paint::Plain => Seq::<char>::empty(),
    }
}

/// Whether `out` is how a piece may reach the terminal: a plain piece as it
/// is; a coloured one as it is when colours are off, or in its colour when
/// they are on. (A piece that itself holds a reset sequence is shown with
/// that sequence re-styled, which is not spelled out here.)
pub open spec fn shown_as(out: Seq<char>, p: PieceView) -> bool {
    if p.paint == Paint::Plain {
        out == p.text
    } else {
        contains(p.text, reset_seq()) || out == p.text || out == styled(paint_code(p.paint), p.text)
    }
}

/// `colored`'s `green`, as the terminal is handed it: whether it is coloured
/// depends on the terminal and the environment, so only the two outcomes are
/// stated, and only for text without a reset sequence of its own.
#[verifier::external_body]
fn green(text: &str) -> (r: String)
    ensures
        !contains(text@, reset_seq()) ==> (r@ == text@ || r@ == styled("32"@, text@)),
{
    text.green().to_string()
}

/// `colored`'s `cyan`, as the terminal is handed it (see `green`).
#[verifier::external_body]
fn cyan(text: &str) -> (r: String)
    ensures
        !contains(text@, reset_seq()) ==> (r@ == text@ || r@ == styled("36"@, text@)),
{
    text.cyan().to_string()
}

/// `colored`'s `yellow`, as the terminal is handed it (see `green`).
#[verifier::external_body]
fn yellow(text: &str) -> (r: String)
    ensures
        !contains(text@, reset_seq()) ==> (r@ == text@ || r@ == styled("33"@, text@)),
{
    text.yellow().to_string()
}

/// `colored`'s `red`, as the terminal is handed it (see `green`).
#[verifier::external_body]
fn red(text: &str) -> (r: String)
    ensures
        !contains(text@, reset_seq()) ==> (r@ == text@ || r@ == styled("31"@, text@)),
{
    text.red().to_string()
}

/// `colored`'s `dimmed`, as the terminal is handed it (see `green`).
#[verifier::external_body]
fn dimmed(text: &str) -> (r: String)
    ensures
        !contains(text@, reset_seq()) ==> (r@ == text@ || r@ == styled("2"@, text@)),
{
    text.dimmed().to_string()
}

/// `colored`'s `green` then `bold`, as the terminal is handed it (see
/// `green`).
#[verifier::external_body]
fn green_bold(text: &str) -> (r: String)
    ensures
        !contains(text@, reset_seq()) ==> (r@ == text@ || r@ == styled("1;32"@, text@)),
{
    text.green().bold().to_string()
}

/// `colored`'s `yellow` then `bold`, as the terminal is handed it (see
/// `green`).
#[verifier::external_body]
pub(crate) fn yellow_bold(text: &str) -> (r: String)
    ensures
        !contains(text@, reset_seq()) ==> (r@ == text@ || r@ == styled("1;33"@, text@)),
{
    text.yellow().bold().to_string()
}

/// `colored`'s `cyan` then `bold`, as the terminal is handed it (see
/// `green`).
#[verifier::external_body]
fn cyan_bold(text: &str) -> (r: String)
    ensures
        !contains(text@, reset_seq()) ==> (r@ == text@ || r@ == styled("1;36"@, text@)),
{
    text.cyan().bold().to_string()
}

/// A piece as the terminal is handed it.
pub fn show_piece(p: &Piece) -> (r: String)
    ensures
        shown_as(r@, p@),
{
    proof {
        reveal_strlit("32");
        reveal_strlit("36");
        reveal_strlit("33");
        reveal_strlit("31");
        reveal_strlit("2");
        reveal_strlit("1;32");
        reveal_strlit("1;36");
    }
    match p.paint {
        Paint::Plain => string_of(chars_of(p.text.as_str()).as_slice()),
        Paint::Green => green(p.text.as_str()),
        Paint::Cyan => cyan(p.text.as_str()),
        Paint::Yellow => yellow(p.text.as_str()),
        Paint::Red => red(p.text.as_str()),
        Paint::Dimmed => dimmed(p.text.as_str()),
        Paint::GreenBold => green_bold(p.text.as_str()),
        Paint::CyanBold => cyan_bold(p.text.as_str()),
    }
}

/// Pieces of text one after another.
pub open spec fn concat_all(parts: Seq<Seq<char>>) -> Seq<char>
    decreases parts.len(),
{
    if parts.len() == 0 {
        Seq::<char>::empty()
    } else {
        concat_all(parts.drop_last()) + parts.last()
    }
}

/// Whether `shown` holds, piece by piece, how each piece of the lines may
/// reach the terminal.
pub open spec fn shown_all(shown: Seq<Seq<Seq<char>>>, lines: Seq<Seq<PieceView>>) -> bool {
    &&& shown.len() == lines.len()
    &&& forall|i: int| 0 <= i < lines.len() ==> (#[trigger] shown[i]).len() == lines[i].len()
    &&& forall|i: int, j: int|
        0 <= i < lines.len() && 0 <= j < lines[i].len() ==> shown_as(#[trigger] shown[i][j], lines[i][j])
}

/// Whether `out` is the lines as the terminal may be handed them: each
/// line its pieces one after another, the lines joined by newlines.
pub open spec fn renders(out: Seq<char>, lines: Seq<Seq<PieceView>>) -> bool {
    exists|shown: Seq<Seq<Seq<char>>>|
        #![trigger shown_all(shown, lines)]
        shown_all(shown, lines) && out == join(shown.map_values(|l: Seq<Seq<char>>| concat_all(l)), "\n"@)
}

impl SyncReport {
    /// Says what the sync did, in the order it did it, one line per fact.
    pub fn render(&self) -> (r: String)
        ensures
            renders(r@, report_lines(self@)),
    {
        let lines = self.lines();
        let ghost lv = lines_view(lines@);
        let mut rendered: Vec<Vec<char>> = Vec::new();
        let ghost mut shown: Seq<Seq<Seq<char>>> = seq![];
        let mut i: usize = 0;
        while i < lines.len()
            invariant
                i <= lines@.len(),
                lv == lines_view(lines@),
                shown.len() == i,
                rendered@.len() == i,
                forall|k: int| 0 <= k < i ==> (#[trigger] shown[k]).len() == lv[k].len(),
                forall|k: int, j: int|
                    0 <= k < i && 0 <= j < lv[k].len() ==> shown_as(#[trigger] shown[k][j], lv[k][j]),
                forall|k: int| 0 <= k < i ==> #[trigger] rendered@[k]@ == concat_all(shown[k]),
            decreases lines@.len() - i,
        {
            let line = &lines[i];
            let ghost pieces = line@.map_values(|p: Piece| p@);
            let mut out: Vec<char> = Vec::new();
            let ghost mut parts: Seq<Seq<char>> = seq![];
            let mut j: usize = 0;
            while j < line.len()
                invariant
                    j <= line@.len(),
                    pieces == line@.map_values(|p: Piece| p@),
                    parts.len() == j,
                    forall|m: int| 0 <= m < j ==> shown_as(#[trigger] parts[m], pieces[m]),
                    out@ == concat_all(parts),
                decreases line@.len() - j,
            {
                let text = show_piece(&line[j]);
                extend(&mut out, chars_of(text.as_str()).as_slice());
                proof {
                    let before = parts;
                    parts = parts.push(text@);
                    assert(parts.drop_last() =~= before);
                    assert forall|m: int| 0 <= m < j + 1 implies shown_as(#[trigger] parts[m], pieces[m]) by {
                        if m < j {
                            assert(parts[m] == before[m]);
                        }
                    }
                }
                j = j + 1;
            }
            proof {
                let before = shown;
                shown = shown.push(parts);
                assert forall|k: int| 0 <= k < i + 1 implies (#[trigger] shown[k]).len() == lv[k].len() by {
                    if k < i {
                        assert(shown[k] == before[k]);
                    }
                }
                assert forall|k: int, m: int| 0 <= k < i + 1 && 0 <= m < lv[k].len() implies shown_as(
                    #[trigger] shown[k][m],
                    lv[k][m],
                ) by {
                    if k < i {
                        assert(shown[k] == before[k]);
                    }
                }
            }
            rendered.push(out);
            i = i + 1;
        }
        let newline = ['\n'];
        let joined = join_exec(&rendered, &newline);
        proof {
            reveal_strlit("\n");
            assert(newline@ =~= "\n"@);
            assert(rendered@.map_values(|p: Vec<char>| p@) =~= shown.map_values(
                |l: Seq<Seq<char>>| concat_all(l),
            ));
            assert(shown_all(shown, lv));
        }
        string_of(joined.as_slice())
    }
}

} // verus!
