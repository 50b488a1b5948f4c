use uniquote::escape::code_point::CodePoint;
use uniquote::escape::is_printable;
use uniquote::escape::table_contains;
use uniquote::escape::tables::unprintable;
use uniquote::escape::tables::UNPRINTABLE;
use uniquote::escape::tables::UNPRINTABLE_LEN;
use uniquote::escape::EscapedCodePoint;

#[test]
fn table_is_ordered() {
    let table = unprintable();
    assert_eq!(UNPRINTABLE_LEN, table.len());
    assert_eq!(&UNPRINTABLE[..], table);
    assert_eq!((0x80, 0xA0), table[0]);
    assert_eq!((0xAD, 0xAD), table[1]);
    for range in table {
        assert!(range.0 <= range.1);
        assert!(0x80 <= range.0 && range.1 <= 0x10FFFF);
    }
    for pair in table.windows(2) {
        assert!(pair[0].1 < pair[1].0);
    }
}

#[test]
fn empty_table_holds_nothing() {
    assert!(!table_contains(&[], CodePoint(0)));
    assert!(!table_contains(&[], CodePoint(u32::MAX)));
}

#[test]
fn table_holds_what_lies_in_a_range() {
    let table = [(2, 4), (5, 5), (9, 20), (22, u32::MAX)];
    let inside = [2, 3, 4, 5, 9, 10, 19, 20, 22, 23, u32::MAX];
    let outside = [0, 1, 6, 7, 8, 21];
    for value in inside {
        assert!(table_contains(&table, CodePoint(value)), "{}", value);
    }
    for value in outside {
        assert!(!table_contains(&table, CodePoint(value)), "{}", value);
    }
}

#[test]
fn table_of_one_range() {
    let table = [(10, 12)];
    for value in 0..20 {
        assert_eq!((10..=12).contains(&value), table_contains(&table, CodePoint(value)));
    }
}

#[test]
fn search_agrees_with_a_scan() {
    let table = unprintable();
    for value in (0..0x11_0000).step_by(7) {
        let expected = table.iter().any(|range| range.0 <= value && value <= range.1);
        assert_eq!(expected, table_contains(table, CodePoint(value)), "{:x}", value);
    }
    for range in table {
        assert!(table_contains(table, CodePoint(range.0)));
        assert!(table_contains(table, CodePoint(range.1)));
        assert!(!table_contains(table, CodePoint(range.0 - 1)));
        if range.1 < 0x10FFFF {
            assert!(!table_contains(table, CodePoint(range.1 + 1)));
        }
    }
}

#[test]
fn ascii_is_printable_from_space_to_tilde() {
    for byte in 0..0x80u8 {
        assert_eq!((0x20..=0x7E).contains(&byte), is_printable(byte as char), "{:x}", byte);
    }
}

#[test]
fn printable_above_ascii() {
    for ch in ['¡', 'é', 'ÿ', 'Ā', 'က', '文', '\u{FFFD}', '😀'] {
        assert!(is_printable(ch), "{:?}", ch);
    }
    for ch in [
        '\u{80}', '\u{9F}', '\u{A0}', '\u{AD}', '\u{200B}', '\u{2028}', '\u{3000}', '\u{E000}',
        '\u{FFFF}', '\u{10D4EA}', '\u{10FFFF}',
    ] {
        assert!(!is_printable(ch), "{:?}", ch);
    }
}

#[test]
fn rules_apply_in_order() {
    assert_eq!(EscapedCodePoint::Sequence("t"), EscapedCodePoint::from('\t'));
    assert_eq!(EscapedCodePoint::Sequence("n"), EscapedCodePoint::from('\n'));
    assert_eq!(EscapedCodePoint::Sequence("r"), EscapedCodePoint::from('\r'));
    assert_eq!(EscapedCodePoint::Quote, EscapedCodePoint::from('"'));
    assert_eq!(EscapedCodePoint::Literal { ch: '{', escape: true }, EscapedCodePoint::from('{'));
    assert_eq!(EscapedCodePoint::Literal { ch: '}', escape: true }, EscapedCodePoint::from('}'));
    assert_eq!(EscapedCodePoint::Literal { ch: '\\', escape: false }, EscapedCodePoint::from('\\'));
    assert_eq!(EscapedCodePoint::Literal { ch: '~', escape: false }, EscapedCodePoint::from('~'));
    assert_eq!(EscapedCodePoint::Literal { ch: ' ', escape: false }, EscapedCodePoint::from(' '));
    assert_eq!(EscapedCodePoint::Hex(CodePoint(0)), EscapedCodePoint::from('\0'));
    assert_eq!(EscapedCodePoint::Hex(CodePoint(0x0B)), EscapedCodePoint::from('\x0B'));
    assert_eq!(EscapedCodePoint::Hex(CodePoint(0x7F)), EscapedCodePoint::from('\x7F'));
    assert_eq!(EscapedCodePoint::Hex(CodePoint(0xA0)), EscapedCodePoint::from('\u{A0}'));
    assert_eq!(EscapedCodePoint::Literal { ch: 'é', escape: false }, EscapedCodePoint::from('é'));
}

#[test]
fn bytes_are_classified_as_their_code_points() {
    for byte in 0..=u8::MAX {
        assert_eq!(EscapedCodePoint::from(byte as char), EscapedCodePoint::from(byte));
        assert_eq!(
            EscapedCodePoint::from(byte as char),
            EscapedCodePoint::from(CodePoint(byte as u32)),
        );
    }
    assert_eq!(EscapedCodePoint::Hex(CodePoint(0x80)), EscapedCodePoint::from(0x80u8));
    assert_eq!(EscapedCodePoint::Literal { ch: 'é', escape: false }, EscapedCodePoint::from(0xE9u8));
}

#[test]
fn surrogates_are_written_in_hex() {
    for value in [0xD800, 0xDBFF, 0xDC00, 0xDFFF] {
        assert_eq!(
            EscapedCodePoint::Hex(CodePoint(value)),
            EscapedCodePoint::from(CodePoint(value)),
        );
    }
    assert_eq!(
        EscapedCodePoint::Hex(CodePoint(0x11_0000)),
        EscapedCodePoint::from(CodePoint(0x11_0000)),
    );
    assert_eq!(
        EscapedCodePoint::Hex(CodePoint(u32::MAX)),
        EscapedCodePoint::from(CodePoint(u32::MAX)),
    );
}

#[test]
fn code_points_and_characters() {
    assert_eq!(CodePoint(0x41), CodePoint::from('A'));
    assert_eq!(CodePoint(0x10FFFF), CodePoint::from('\u{10FFFF}'));
    assert_eq!(0x41, u32::from(CodePoint(0x41)));
    assert_eq!(0xD800, u32::from(CodePoint(0xD800)));
    assert_eq!(Some('A'), CodePoint(0x41).to_char());
    assert_eq!(Some('\u{D7FF}'), CodePoint(0xD7FF).to_char());
    assert_eq!(None, CodePoint(0xD800).to_char());
    assert_eq!(None, CodePoint(0xDFFF).to_char());
    assert_eq!(Some('\u{E000}'), CodePoint(0xE000).to_char());
    assert_eq!(Some('\u{10FFFF}'), CodePoint(0x10FFFF).to_char());
    assert_eq!(None, CodePoint(0x11_0000).to_char());
}

#[test]
fn only_single_literals_are_literal() {
    assert!(EscapedCodePoint::from('a').is_literal());
    assert!(!EscapedCodePoint::from('{').is_literal());
    assert!(!EscapedCodePoint::from('"').is_literal());
    assert!(!EscapedCodePoint::from('\n').is_literal());
    assert!(!EscapedCodePoint::from('\0').is_literal());
}
