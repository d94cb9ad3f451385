//! Display columns of text.

use offcut::columns::{take_left, take_right, width};
use offcut::layout::{
    clip_cols, pad_or_truncate, pad_path, pad_start, prefix_budget, truncate_cols,
    truncate_path_cols, wrap_plain,
};
use unicode_width::UnicodeWidthChar;

/// Characters of many scripts and widths, none of which combines with its
/// neighbours into something wider or narrower.
const SAMPLE: [u32; 40] = [
    0x61, 0x20, 0x30, 0x23, 0x3c, 0x338, 0x300, 0x20e3, 0x1f600, 0x231a, 0x263a, 0x2764, 0x1f468,
    0x1f3f4, 0x5d0, 0xa4fb, 0xa4fe, 0x1a15, 0x1a17, 0x17d2, 0x17b0, 0x16d63, 0x10c32, 0x2d7f,
    0x200b, 0x2060, 0xfeff, 0x115f, 0x1160, 0x11a8, 0xac00, 0x4e00, 0x3099, 0xff9e, 0x1f200, 0x94d,
    0x915, 0x61c, 0x2026, 0xfe00,
];

fn sample() -> Vec<char> {
    SAMPLE.iter().filter_map(|n| char::from_u32(*n)).collect()
}

#[test]
fn characters_that_stand_alone_add_up() {
    let alone = sample();
    for a in &alone {
        for b in &alone {
            for c in &alone {
                let text: String = [a, b, c].into_iter().collect();
                let sum: usize = text.chars().filter_map(|c| c.width()).sum();
                assert_eq!(width(&text), sum, "{text:?}");
            }
        }
    }
}

#[test]
fn what_is_taken_fits_and_is_as_much_as_fits() {
    assert_eq!(take_left("工程ab", 5), "工程a");
    assert_eq!(take_left("工程ab", 3), "工");
    assert_eq!(take_right("工程ab", 3), "ab");
    assert_eq!(take_right("工程ab", 4), "程ab");
    assert_eq!(take_left("ab", 0), "");
    assert_eq!(take_right("ab", 9), "ab");
}

#[test]
fn cuts_leave_an_ellipsis_where_they_cut() {
    assert_eq!(truncate_cols("abcdef", 4), "abc…");
    assert_eq!(truncate_cols("abcd", 4), "abcd");
    assert_eq!(truncate_cols("abcd", 1), "…");
    assert_eq!(truncate_cols("abcd", 0), "");
    assert_eq!(truncate_path_cols("/a/b/c", 4), "…b/c");
    assert_eq!(truncate_path_cols("/a/b/c", 1), "…");
    assert_eq!(clip_cols("abcdef", 4), "abcd");
}

#[test]
fn padding_counts_columns() {
    assert_eq!(pad_or_truncate("工", 4), "工  ");
    assert_eq!(pad_start("工", 4), "  工");
    assert_eq!(pad_path("/long/path", 6), "…/path");
    assert_eq!(width(&pad_or_truncate("工程工程", 5)), 5);
    assert_eq!(prefix_budget("status ", 10), ("status ".to_string(), 3));
    assert_eq!(prefix_budget("status ", 4), ("stat".to_string(), 0));
}

#[test]
fn wrapping_breaks_between_words() {
    assert_eq!(wrap_plain("one two  three", 7), vec!["one two", "three"]);
    assert_eq!(wrap_plain("unbreakable", 5), vec!["unbr…"]);
    assert!(wrap_plain("", 5).is_empty());
}

#[test]
fn the_symbols_that_output_is_drawn_with_take_one_column() {
    for symbol in ["…", "·", "●", "▸", "⟩", "→", "✓", "✗", "—"] {
        assert_eq!(width(symbol), 1, "{symbol}");
    }
    for frame in ["⠋", "⠙", "⠹", "⠸", "⠼", "⠴", "⠦", "⠧", "⠇", "⠏"] {
        assert_eq!(width(frame), 1, "{frame}");
        assert_eq!(frame.chars().next().and_then(|c| c.width()), Some(1));
    }
}
