use datex_cli::position::{byte_offset_to_position, line_char_to_byte_index, Position};
use datex_cli::store::LanguageServerBackend;

#[test]
fn first_line_start() {
    let text = b"let x = 1\nlet y = 2";
    assert_eq!(line_char_to_byte_index(text, 0, 0), Some(0));
}

#[test]
fn second_line_char() {
    let text = b"let x = 1\nlet y = 2";
    // line 1 starts at byte 10; character 4 is the 'y'.
    assert_eq!(line_char_to_byte_index(text, 1, 4), Some(14));
}

#[test]
fn line_out_of_range_fails() {
    let text = b"let x = 1\nlet y = 2";
    assert_eq!(line_char_to_byte_index(text, 2, 0), None);
}

#[test]
fn character_clamps_to_line_end() {
    // A single 5-character line: a huge character index degrades to the
    // line's end, not an error.
    let text = b"hello";
    assert_eq!(line_char_to_byte_index(text, 0, 9999), Some(5));
}

#[test]
fn clamp_stops_at_line_feed() {
    let text = b"ab\ncd";
    assert_eq!(line_char_to_byte_index(text, 0, 9999), Some(2));
}

#[test]
fn multibyte_characters_count_as_one() {
    // "héllo": the é takes two bytes, so character 2 sits at byte 3.
    let text = "h\u{e9}llo".as_bytes();
    assert_eq!(line_char_to_byte_index(text, 0, 2), Some(3));
}

#[test]
fn offset_to_position_basic() {
    let text = b"let x = 1\nlet y = 2";
    assert_eq!(
        byte_offset_to_position(14, text),
        Some(Position { line: 1, character: 4 })
    );
}

#[test]
fn offset_beyond_buffer_fails() {
    let text = b"abc";
    assert_eq!(byte_offset_to_position(4, text), None);
    assert_eq!(
        byte_offset_to_position(3, text),
        Some(Position { line: 0, character: 3 })
    );
}

#[test]
fn offset_at_line_feed_belongs_to_its_line() {
    let text = b"ab\ncd";
    assert_eq!(
        byte_offset_to_position(2, text),
        Some(Position { line: 0, character: 2 })
    );
    assert_eq!(
        byte_offset_to_position(3, text),
        Some(Position { line: 1, character: 0 })
    );
}

#[test]
fn offset_to_position_counts_characters_not_bytes() {
    // "héllo": byte 3 is the first l, the third character (index 2).
    let text = "h\u{e9}llo".as_bytes();
    assert_eq!(
        byte_offset_to_position(3, text),
        Some(Position { line: 0, character: 2 })
    );
}

#[test]
fn round_trip_positions() {
    let text = "a\nbc\u{e9}d\n\nxyz".as_bytes();
    for line in 0..4usize {
        for character in 0..4usize {
            let off = line_char_to_byte_index(text, line, character).unwrap();
            let back = byte_offset_to_position(off, text).unwrap();
            assert_eq!(back.line, line);
            // Within bounds the character survives; beyond the line's end it
            // clamps to the line's character count.
            assert!(back.character <= character);
            if back.character < character {
                assert_eq!(line_char_to_byte_index(text, line, back.character), Some(off));
            }
        }
    }
}

#[test]
fn conversion_is_also_reachable_through_the_backend() {
    assert_eq!(
        LanguageServerBackend::line_char_to_byte_index(b"ab\ncd", 1, 1),
        Some(4)
    );
}
