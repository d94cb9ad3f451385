//! Terminal styles.

use vstd::prelude::*;

use owo_colors::OwoColorize;

verus! {

/// The styles that output is written in.
#[derive(Debug, Clone, Copy, PartialEq, Eq, Structural)]
pub enum TextStyle {
    Red,
    Yellow,
    Green,
    RedBold,
    YellowBold,
    GreenBold,
    CyanBold,
    Bold,
    Dimmed,
}

/// The escape sequence that turns a style on.
pub open spec fn style_on(style: TextStyle) -> Seq<char> {
    match style {
        TextStyle::Red => "\u{1b}[31m"@,
        TextStyle::Yellow => "\u{1b}[33m"@,
        TextStyle::Green => "\u{1b}[32m"@,
        TextStyle::RedBold => "\u{1b}[31;1m"@,
        TextStyle::YellowBold => "\u{1b}[33;1m"@,
        TextStyle::GreenBold => "\u{1b}[32;1m"@,
        TextStyle::CyanBold => "\u{1b}[36;1m"@,
        TextStyle::Bold => "\u{1b}[1m"@,
        TextStyle::Dimmed => "\u{1b}[2m"@,
    }
}

/// The escape sequence that turns every style off.
pub open spec fn style_off() -> Seq<char> {
    "\u{1b}[0m"@
}

/// `text` in `style`, or plain.
pub open spec fn painted(text: Seq<char>, style: TextStyle, emit_colors: bool) -> Seq<char> {
    if emit_colors {
        style_on(style) + text + style_off()
    } else {
        text
    }
}

/// `OwoColorize::style` and the display of what it returns: the escape
/// sequence of the style, the text as it is, and the sequence that ends it.
#[verifier::external_body]
fn styled(text: &str, style: TextStyle) -> (out: String)
    ensures
        out@ == style_on(style) + text@ + style_off(),
{
    let style = match style {
        TextStyle::Red => owo_colors::Style::new().red(),
        TextStyle::Yellow => owo_colors::Style::new().yellow(),
        TextStyle::Green => owo_colors::Style::new().green(),
        TextStyle::RedBold => owo_colors::Style::new().red().bold(),
        TextStyle::YellowBold => owo_colors::Style::new().yellow().bold(),
        TextStyle::GreenBold => owo_colors::Style::new().green().bold(),
        TextStyle::CyanBold => owo_colors::Style::new().cyan().bold(),
        TextStyle::Bold => owo_colors::Style::new().bold(),
        TextStyle::Dimmed => owo_colors::Style::new().dimmed(),
    };
    format!("{}", text.style(style))
}

/// `text` in `style` where colors are wanted, else `text`.
pub fn color_for_stream(text: &str, style: TextStyle, emit_colors: bool) -> (out: String)
    ensures
        out@ == painted(text@, style, emit_colors),
{
    if emit_colors {
        styled(text, style)
    } else {
        text.to_owned()
    }
}

/// Color is put around a text and changes nothing in it: an escape sequence of the style
/// before it, the one that ends every style behind it. Each style has its own.
pub proof fn paint_is_put_around_the_text(text: Seq<char>, style: TextStyle, other: TextStyle)
    ensures
        painted(text, style, false) == text,
        painted(text, style, true) == style_on(style) + text + "\u{1b}[0m"@,
        style_on(style).len() >= 4,
        style_on(style)[0] == '\u{1b}',
        style_on(style)[1] == '[',
        style_on(style).last() == 'm',
        style != other ==> style_on(style) != style_on(other),
{
    reveal_strlit("\u{1b}[31m");
    reveal_strlit("\u{1b}[33m");
    reveal_strlit("\u{1b}[32m");
    reveal_strlit("\u{1b}[31;1m");
    reveal_strlit("\u{1b}[33;1m");
    reveal_strlit("\u{1b}[32;1m");
    reveal_strlit("\u{1b}[36;1m");
    reveal_strlit("\u{1b}[1m");
    reveal_strlit("\u{1b}[2m");
    assert(style_on(style) == style_on(other) ==> style_on(style).len() == style_on(other).len()
        && style_on(style)[2] == style_on(other)[2] && style_on(style)[3] == style_on(other)[3]);
}

} // verus!
