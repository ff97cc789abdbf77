use insights::report::{piece, show_piece, Paint};

#[test]
fn pieces_reach_the_terminal_in_their_colour() {
    colored::control::set_override(true);
    assert_eq!(show_piece(&piece("ok", Paint::Green)), "\u{1b}[32mok\u{1b}[0m");
    assert_eq!(show_piece(&piece("url", Paint::Cyan)), "\u{1b}[36murl\u{1b}[0m");
    assert_eq!(show_piece(&piece("!", Paint::Yellow)), "\u{1b}[33m!\u{1b}[0m");
    assert_eq!(show_piece(&piece("x", Paint::Red)), "\u{1b}[31mx\u{1b}[0m");
    assert_eq!(show_piece(&piece("n", Paint::Dimmed)), "\u{1b}[2mn\u{1b}[0m");
    assert_eq!(show_piece(&piece("Done", Paint::GreenBold)), "\u{1b}[1;32mDone\u{1b}[0m");
    assert_eq!(show_piece(&piece("Hints:", Paint::CyanBold)), "\u{1b}[1;36mHints:\u{1b}[0m");
    assert_eq!(show_piece(&piece("plain", Paint::Plain)), "plain");
    colored::control::set_override(false);
    assert_eq!(show_piece(&piece("ok", Paint::Green)), "ok");
    colored::control::unset_override();
}
