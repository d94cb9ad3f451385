//! Styles and what they cost.

use offcut::style::{color_for_stream, TextStyle};

#[test]
fn styles_wrap_the_text_in_their_sequences() {
    let all = [
        (TextStyle::Red, "\u{1b}[31m"),
        (TextStyle::Yellow, "\u{1b}[33m"),
        (TextStyle::Green, "\u{1b}[32m"),
        (TextStyle::RedBold, "\u{1b}[31;1m"),
        (TextStyle::YellowBold, "\u{1b}[33;1m"),
        (TextStyle::GreenBold, "\u{1b}[32;1m"),
        (TextStyle::CyanBold, "\u{1b}[36;1m"),
        (TextStyle::Bold, "\u{1b}[1m"),
        (TextStyle::Dimmed, "\u{1b}[2m"),
    ];
    for (style, on) in all {
        assert_eq!(color_for_stream("wip", style, true), format!("{on}wip\u{1b}[0m"));
        assert_eq!(color_for_stream("wip", style, false), "wip");
        assert_eq!(color_for_stream("", style, true), format!("{on}\u{1b}[0m"));
    }
}
