use uniquote::escape::code_point::CodePoint;
use uniquote::escape::utf16;
use uniquote::escape::utf8::decode_char;
use uniquote::escape::utf8::sequence_at;
use uniquote::escape::utf8::validate;
use uniquote::escape::utf8::InvalidUtf8;
use uniquote::escape::wide::decode_utf16_at;
use uniquote::Formatter;
use uniquote::Quote;

fn same_as_std(bytes: &[u8]) {
    match (std::str::from_utf8(bytes), validate(bytes)) {
        (Ok(_), Ok(())) => {}
        (Err(expected), Err(error)) => {
            assert_eq!(expected.valid_up_to(), error.valid_up_to, "{:x?}", bytes);
            assert_eq!(expected.error_len(), error.error_len, "{:x?}", bytes);
        }
        (expected, result) => panic!("{:x?}: {:?}, not {:?}", bytes, result, expected),
    }
}

#[test]
fn validation_of_short_inputs() {
    same_as_std(b"");
    for first in 0..=u8::MAX {
        same_as_std(&[first]);
        for second in 0..=u8::MAX {
            same_as_std(&[first, second]);
            same_as_std(&[b'a', first, second]);
        }
    }
}

#[test]
fn validation_of_longer_sequences() {
    let edges = [0x00, 0x7F, 0x80, 0x8F, 0x90, 0x9F, 0xA0, 0xBF, 0xC0, 0xC2, 0xE0, 0xF0, 0xFF];
    for first in 0xC0..=u8::MAX {
        for second in edges {
            for third in edges {
                same_as_std(&[first, second, third]);
                for fourth in edges {
                    same_as_std(&[first, second, third, fourth]);
                    same_as_std(&[first, second, third, fourth, b'z']);
                    same_as_std(&[0xE2, 0x82, 0xAC, first, second, third, fourth]);
                }
            }
        }
    }
}

#[test]
fn validation_tells_where_text_ends() {
    assert_eq!(Ok(()), validate("grüße, 世界 😀".as_bytes()));
    assert_eq!(Err(InvalidUtf8 { valid_up_to: 0, error_len: Some(1) }), validate(b"\xC0\x80"));
    assert_eq!(Err(InvalidUtf8 { valid_up_to: 2, error_len: Some(1) }), validate(b"fo\x80o"));
    assert_eq!(Err(InvalidUtf8 { valid_up_to: 1, error_len: None }), validate(b"a\xE2\x82"));
    assert_eq!(Err(InvalidUtf8 { valid_up_to: 1, error_len: Some(2) }), validate(b"a\xE2\x82a"));
    assert_eq!(
        Err(InvalidUtf8 { valid_up_to: 0, error_len: Some(3) }),
        validate(b"\xF0\x9F\x98a"),
    );
    assert_eq!(Err(InvalidUtf8 { valid_up_to: 0, error_len: None }), validate(b"\xF0\x9F\x98"));
    assert_eq!(Err(InvalidUtf8 { valid_up_to: 0, error_len: Some(1) }), validate(b"\xED\xA0\x80"));
    assert_eq!(
        Err(InvalidUtf8 { valid_up_to: 0, error_len: Some(1) }),
        validate(b"\xF4\x90\x80\x80"),
    );
    assert_eq!(Err(InvalidUtf8 { valid_up_to: 3, error_len: Some(1) }), validate(b"\xE2\x82\xAC\xFF"));
}

#[test]
fn sequences_are_measured() {
    let bytes = "a¢€😀".as_bytes();
    assert_eq!(Ok(1), sequence_at(bytes, 0));
    assert_eq!(Ok(2), sequence_at(bytes, 1));
    assert_eq!(Err(Some(1)), sequence_at(bytes, 2));
    assert_eq!(Ok(3), sequence_at(bytes, 3));
    assert_eq!(Err(Some(1)), sequence_at(bytes, 4));
    assert_eq!(Ok(4), sequence_at(bytes, 6));
    assert_eq!(Err(Some(1)), sequence_at(bytes, 9));
    assert_eq!(Err(None), sequence_at(&bytes[..9], 6));
    assert_eq!(Err(None), sequence_at(&bytes[..7], 6));
    assert_eq!(Err(Some(2)), sequence_at(b"\xE2\x82\x41", 0));
}

#[test]
fn characters_are_decoded() {
    for value in (0..0x11_0000u32).step_by(13).chain([0x7F, 0x80, 0x7FF, 0x800, 0xFFFF, 0x1_0000, 0x10_FFFF]) {
        if let Some(ch) = char::from_u32(value) {
            let mut bytes = vec![b'x'];
            bytes.extend_from_slice(ch.encode_utf8(&mut [0; 4]).as_bytes());
            bytes.push(b'y');
            assert_eq!((ch, ch.len_utf8()), decode_char(&bytes, 1), "{:x}", value);
        }
    }
}

#[test]
fn units_are_decoded_like_the_standard_library_does() {
    let edges = [0x0000, 0x0041, 0xD7FF, 0xD800, 0xDBFF, 0xDC00, 0xDFFF, 0xE000, 0xFFFF];
    for first in edges {
        for second in edges {
            for third in edges {
                let units = [first, second, third];
                let mut at = 0;
                for expected in char::decode_utf16(units) {
                    let (decoded, width) = decode_utf16_at(&units, at);
                    match expected {
                        Ok(ch) => {
                            assert_eq!(Ok(ch), decoded);
                            assert_eq!(ch.len_utf16(), width);
                        }
                        Err(error) => {
                            let found = decoded.expect_err("an unpaired surrogate");
                            assert_eq!(error.unpaired_surrogate(), found.unpaired_surrogate());
                            assert_eq!(
                                CodePoint(error.unpaired_surrogate() as u32),
                                CodePoint::from(found),
                            );
                            assert_eq!(1, width);
                        }
                    }
                    at += width;
                }
                assert_eq!(units.len(), at);
            }
        }
    }
}

#[test]
fn pairs_become_one_character() {
    assert_eq!((Ok('😀'), 2), {
        let (decoded, width) = decode_utf16_at(&[0xD83D, 0xDE00], 0);
        (decoded.map_err(|error| error.unpaired_surrogate()), width)
    });
    assert_eq!((Ok('\u{10000}'), 2), {
        let (decoded, width) = decode_utf16_at(&[0xD800, 0xDC00], 0);
        (decoded.map_err(|error| error.unpaired_surrogate()), width)
    });
    assert_eq!((Ok('\u{10FFFF}'), 2), {
        let (decoded, width) = decode_utf16_at(&[0xDBFF, 0xDFFF], 0);
        (decoded.map_err(|error| error.unpaired_surrogate()), width)
    });
    assert_eq!((Err(0xDE00), 1), {
        let (decoded, width) = decode_utf16_at(&[0xD83D, 0xDE00], 1);
        (decoded.map_err(|error| error.unpaired_surrogate()), width)
    });
}

#[test]
fn wide_strings_are_escaped() {
    let cases: [(&[u16], &str); 8] = [
        (&[0x66, 0x6F, 0xD800, 0x6F], "fo{~ud800}o"),
        (&[0xD83D, 0xDE00], "😀"),
        (&[0xDE00, 0xD83D], "{~ude00}{~ud83d}"),
        (&[0xD83D, 0xD83D, 0xDE00], "{~ud83d}😀"),
        (&[0xDBFF, 0xDFFF], "{~u10ffff}"),
        (&[0x22, 0x7B, 0x7D, 0x5C], "{\"}{{}}\\"),
        (&[0x09, 0x0A, 0x0D, 0x00], "{~t}{~n}{~r}{~u0}"),
        (&[0x6587, 0x4EF6, 0xFFFF], "文件{~uffff}"),
    ];
    for (units, expected) in cases {
        let mut f = Formatter::new();
        assert!(f.escape_utf16(units).is_ok());
        assert_eq!(expected, f.as_str());

        let mut f = Formatter::new();
        assert!(utf16(units, &mut f).is_ok());
        assert_eq!(expected, f.as_str());
    }
}

#[test]
fn well_formed_units_are_escaped_like_the_text() {
    for text in ["foo bar", "a\nb\"c{d}e\x7Ff", "grüße, 世界 😀\u{200B}", ""] {
        let units: Vec<u16> = text.encode_utf16().collect();
        let mut wide = Formatter::new();
        assert!(wide.escape_utf16(&units).is_ok());
        let mut narrow = Formatter::new();
        assert!(text.escape(&mut narrow).is_ok());
        assert_eq!(narrow.as_str(), wide.as_str());
    }
}

#[test]
fn broken_bytes_are_skipped_one_sequence_at_a_time() {
    let cases: [(&[u8], &str); 9] = [
        (b"a\xE2\x82", "a\u{E2}{~u82}"),
        (b"\xE2\x82\xACa", "€a"),
        (b"\xE2\x82a", "\u{E2}{~u82}a"),
        (b"\xF0\x9F\x98", "\u{F0}{~u9f}{~u98}"),
        (b"\xF0\x9F\x98\x80", "😀"),
        (b"\xC0\x80", "À{~u80}"),
        (b"\xED\xA0\x80", "í{~ua0}{~u80}"),
        (b"\xFF\xFE", "ÿþ"),
        (b"ok\x80\x80ok\n", "ok{~u80}{~u80}ok{~n}"),
    ];
    for (bytes, expected) in cases {
        let mut f = Formatter::new();
        assert!(bytes.escape(&mut f).is_ok());
        assert_eq!(expected, f.as_str(), "{:x?}", bytes);
    }
}

#[test]
fn text_as_bytes_is_escaped_like_the_text() {
    for text in ["foo bar", "a\nb\"c{d}e\x7Ff", "grüße, 世界 😀\u{200B}", ""] {
        assert_eq!(text.quote().to_string(), text.as_bytes().quote().to_string());
    }
}
