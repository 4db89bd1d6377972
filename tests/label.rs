use chad_llm::label::{
    cursor_column, display_width, format_row, label_width, sanitize_label, truncate_string,
};
use chad_llm::text::{chars_of, is_space_char, string_of, word_left, word_right};

#[test]
fn truncate_keeps_short_strings() {
    assert_eq!(truncate_string("hello", 5), "hello");
    assert_eq!(truncate_string("", 0), "");
}

#[test]
fn truncate_ends_long_strings_with_ellipsis() {
    assert_eq!(truncate_string("hello world", 8), "hello...");
    assert_eq!(truncate_string("héllo wörld", 7), "héll...");
    assert_eq!(truncate_string("abcd", 3), "...");
}

#[test]
fn sanitize_flattens_strips_and_cuts() {
    assert_eq!(sanitize_label("a\nb\rc\td", 20), "a b c d");
    assert_eq!(sanitize_label("\x1b[32mfoo\x1b[m bar", 20), "foo bar");
    assert_eq!(sanitize_label("\x1b[31mabcdefghij\x1b[0m", 6), "abc...");
}

#[test]
fn label_width_leaves_room_for_markers() {
    assert_eq!(label_width(80), 70);
    assert_eq!(label_width(13), 3);
    assert_eq!(label_width(5), 3);
}

#[test]
fn rows_show_highlight_and_choice() {
    assert_eq!(format_row(true, true, "apple", 80), "> [x] apple");
    assert_eq!(format_row(false, false, "a\tb", 80), "  [ ] a b");
    assert_eq!(format_row(false, true, "abcdefgh", 15), "  [x] ab...");
}

#[test]
fn prompt_width_ignores_escape_sequences() {
    assert_eq!(display_width("\x1b[32mme \x1b[0m> "), 5);
    assert_eq!(display_width("ab"), 2);
    assert_eq!(cursor_column("\x1b[32mme\x1b[0m> ", 3), 7);
    assert_eq!(cursor_column("", 70000), u16::MAX);
}

#[test]
fn whitespace_is_unicode_white_space() {
    for c in [' ', '\t', '\n', '\r', '\u{0b}', '\u{0c}', '\u{85}', '\u{a0}', '\u{2003}', '\u{3000}'] {
        assert!(is_space_char(c));
        assert_eq!(is_space_char(c), c.is_whitespace());
    }
    for c in ['a', '_', '\u{200b}', '0', '\u{1f600}'] {
        assert!(!is_space_char(c));
        assert_eq!(is_space_char(c), c.is_whitespace());
    }
}

#[test]
fn every_char_agrees_with_std_whitespace() {
    for u in 0u32..0x3100 {
        if let Some(c) = char::from_u32(u) {
            assert_eq!(is_space_char(c), c.is_whitespace(), "{:x}", u);
        }
    }
}

#[test]
fn word_boundaries() {
    let s = chars_of("foo bar  baz");
    assert_eq!(word_left(&s, 12), 9);
    assert_eq!(word_left(&s, 9), 4);
    assert_eq!(word_left(&s, 2), 0);
    assert_eq!(word_right(&s, 0), 3);
    assert_eq!(word_right(&s, 3), 7);
    assert_eq!(word_right(&s, 7), 12);
}

#[test]
fn chars_round_trip() {
    let s = "añb€";
    let cs = chars_of(s);
    assert_eq!(cs, vec!['a', 'ñ', 'b', '€']);
    assert_eq!(string_of(&cs), s);
}
