use uniquote::escape::EscapedCodePoint;
use uniquote::Formatter;
use uniquote::Quote;

fn quoted<T: Quote + ?Sized>(value: &T) -> String {
    value.quote().to_string()
}

/// Reads an escaped body back into code points.
fn read_back(body: &str) -> Option<Vec<u32>> {
    let chars: Vec<char> = body.chars().collect();
    let mut points = Vec::new();
    let mut at = 0;
    while at < chars.len() {
        let ch = chars[at];
        if ch == '"' {
            return None;
        } else if ch == '}' {
            if chars.get(at + 1) != Some(&'}') {
                return None;
            }
            points.push('}' as u32);
            at += 2;
        } else if ch != '{' {
            points.push(ch as u32);
            at += 1;
        } else if chars.get(at + 1) == Some(&'{') {
            points.push('{' as u32);
            at += 2;
        } else if chars.get(at + 1) == Some(&'"') && chars.get(at + 2) == Some(&'}') {
            points.push('"' as u32);
            at += 3;
        } else if chars.get(at + 1) == Some(&'~') && chars.get(at + 2) == Some(&'u') {
            let mut end = at + 3;
            while end < chars.len() && (chars[end].is_ascii_digit() || ('a'..='f').contains(&chars[end])) {
                end += 1;
            }
            if end == at + 3 || chars.get(end) != Some(&'}') {
                return None;
            }
            let digits: String = chars[at + 3..end].iter().collect();
            points.push(u32::from_str_radix(&digits, 16).ok()?);
            at = end + 1;
        } else if chars.get(at + 1) == Some(&'~') && chars.get(at + 3) == Some(&'}') {
            points.push(match chars[at + 2] {
                't' => 0x09,
                'n' => 0x0A,
                'r' => 0x0D,
                _ => return None,
            });
            at += 4;
        } else {
            return None;
        }
    }
    Some(points)
}

fn body_of(quoted: &str) -> &str {
    assert!(quoted.len() >= 2);
    assert!(quoted.starts_with('"') && quoted.ends_with('"'));
    &quoted[1..quoted.len() - 1]
}

#[test]
fn plain_text_is_only_quoted() {
    assert_eq!(r#""foo bar""#, quoted("foo bar"));
}

#[test]
fn newline_gets_its_name() {
    assert_eq!(r#""f{~n}o""#, quoted("f\no"));
    assert_eq!(r#""foo{~n}bar""#, quoted("foo\nbar"));
}

#[test]
fn delete_is_written_in_hex() {
    assert_eq!(r#""{~u7f}""#, quoted("\x7F"));
    assert_eq!(r#""{~u7f}""#, quoted(&'\x7F'));
    assert_eq!(r#""foo{~u7f}bar""#, quoted("foo\x7Fbar"));
}

#[test]
fn quote_is_wrapped() {
    assert_eq!(r#""{"}""#, quoted("\""));
    assert_eq!(r#""foo{"}bar""#, quoted("foo\"bar"));
}

#[test]
fn braces_are_doubled() {
    assert_eq!(r#""{{}}""#, quoted("{}"));
    assert_eq!(r#""a{{b}}c""#, quoted("a{b}c"));
}

#[test]
fn invalid_byte_between_letters() {
    assert_eq!(r#""f{~u80}o""#, quoted(&b"f\x80o"[..]));
    assert_eq!(r#""fo{~u80}o""#, quoted(&b"\x66\x6F\x80\x6F"[..]));
}

#[test]
fn backslash_is_never_escaped() {
    assert_eq!(r#""C:\Users\me""#, quoted(r"C:\Users\me"));
    assert_eq!(r#""\n""#, quoted(r"\n"));
}

#[test]
fn empty_input_gives_empty_quotes() {
    assert_eq!(r#""""#, quoted(""));
    assert_eq!(r#""""#, quoted(&b""[..]));
    assert_eq!(r#""""#, quoted(&Vec::<u8>::new()));
    assert_eq!(r#""""#, quoted(&String::new()));
    let mut f = Formatter::new();
    assert!(f.escape_utf16(&[]).is_ok());
    assert_eq!("", f.as_str());
}

#[test]
fn owned_values_quote_like_borrowed_ones() {
    assert_eq!(quoted("a\tb"), quoted(&String::from("a\tb")));
    assert_eq!(quoted(&b"a\xFFb"[..]), quoted(&b"a\xFFb".to_vec()));
    assert_eq!(quoted(&b"a\xFFb"[..]), quoted(b"a\xFFb"));
    assert_eq!(r#""a{~t}b""#, quoted(&String::from("a\tb")));
}

#[test]
fn every_byte_string_of_two_bytes_is_escaped() {
    for first in 0..=u8::MAX {
        for second in 0..=u8::MAX {
            let bytes = [first, second];
            let out = quoted(&bytes[..]);
            let points = read_back(body_of(&out)).expect("escaped form can be read");
            match std::str::from_utf8(&bytes) {
                Ok(text) => {
                    let expected: Vec<u32> = text.chars().map(|ch| ch as u32).collect();
                    assert_eq!(expected, points);
                    assert_eq!(quoted(text), out);
                }
                Err(_) => assert!(points.iter().any(|&point| point >= 0x80)),
            }
        }
    }
}

#[test]
fn every_unit_is_escaped() {
    for unit in 0..=u16::MAX {
        let mut f = Formatter::new();
        assert!(f.escape_utf16(&[unit]).is_ok());
        assert_eq!(Some(vec![unit as u32]), read_back(f.as_str()));
    }
}

#[test]
fn text_is_read_back() {
    for text in [
        "foo bar",
        "f\no",
        "\x7F",
        "\"{}\\~u7f}",
        "{~n}",
        "{{~u41}}",
        "é\u{A0}\u{AD}\u{200B}\u{FFFF}\u{10FFFF}文件",
        "\0\x01\t\r\n",
    ] {
        let expected: Vec<u32> = text.chars().map(|ch| ch as u32).collect();
        assert_eq!(Some(expected), read_back(body_of(&quoted(text))), "{:?}", text);
    }
}

#[test]
fn utf16_is_read_back() {
    let inputs: [&[u16]; 6] = [
        &[0x66, 0x6F, 0xD800, 0x6F],
        &[0xD83D, 0xDE00],
        &[0xDE00, 0xD83D],
        &[0xD83D, 0xD83D, 0xDE00, 0xDE00],
        &[0xD83D],
        &[0x7B, 0x22, 0x7D, 0x0A],
    ];
    for units in inputs {
        let mut f = Formatter::new();
        assert!(f.escape_utf16(units).is_ok());
        let points = read_back(f.as_str()).expect("escaped form can be read");
        let mut again = Vec::new();
        for point in points {
            match char::from_u32(point) {
                Some(ch) => again.extend_from_slice(ch.encode_utf16(&mut [0; 2])),
                None => again.push(point as u16),
            }
        }
        assert_eq!(units, &again[..]);
    }
}

#[test]
fn bytes_that_are_not_text_can_look_like_text() {
    // A byte outside any character is written like the character of the
    // same value, so these two are told apart only by their length.
    assert_eq!(r#""{~u80}""#, quoted(&b"\x80"[..]));
    assert_eq!(r#""{~u80}""#, quoted(&b"\xC2\x80"[..]));
    assert_eq!("\"é\"", quoted(&b"\xE9"[..]));
    assert_eq!("\"é\"", quoted(&b"\xC3\xA9"[..]));
}

#[test]
fn escaped_text_is_printable() {
    let mut inputs: Vec<Vec<u8>> = vec![(0..=u8::MAX).collect()];
    inputs.push("\u{A0}\u{AD}\u{200B}\u{2028}\u{FFFF}\u{10FFFF}文件\r\n".as_bytes().to_vec());
    inputs.push(b"\xF0\x9F\x98\xE2\x82\xC0\x80".to_vec());
    for bytes in inputs {
        for ch in quoted(&bytes).chars() {
            assert!(uniquote::escape::is_printable(ch), "{:?}", ch);
        }
    }
    let mut f = Formatter::new();
    assert!(f.escape_utf16(&[0xD800, 0x0A, 0xDFFF, 0x2028, 0x41]).is_ok());
    assert!(f.as_str().chars().all(uniquote::escape::is_printable));
}

#[test]
fn printable_ascii_is_kept() {
    for byte in 0x20..=0x7Eu8 {
        let ch = byte as char;
        if ch == '"' || ch == '{' || ch == '}' {
            continue;
        }
        assert_eq!(format!("\"{}\"", ch), quoted(&ch));
        assert_eq!(EscapedCodePoint::Literal { ch, escape: false }, EscapedCodePoint::from(ch));
        assert_eq!(EscapedCodePoint::Literal { ch, escape: false }, EscapedCodePoint::from(byte));
    }
}

#[test]
fn ascii_controls_are_escaped() {
    for byte in (0x00..0x20u8).chain([0x7F]) {
        let expected = match byte {
            0x09 => String::from("\"{~t}\""),
            0x0A => String::from("\"{~n}\""),
            0x0D => String::from("\"{~r}\""),
            _ => format!("\"{{~u{:x}}}\"", byte),
        };
        assert_eq!(expected, quoted(&(byte as char)));
        assert_eq!(expected, quoted(&[byte][..]));
    }
}

#[test]
fn classifying_twice_gives_the_same_form() {
    for value in (0..0x11_0000u32).step_by(0x101) {
        if let Some(ch) = char::from_u32(value) {
            assert_eq!(EscapedCodePoint::from(ch), EscapedCodePoint::from(ch));
        }
    }
}

#[test]
fn runs_are_written_like_single_characters() {
    for text in ["foo bar", "a\nb\"c{d}e\x7Ff", "\n\n", "日本語\u{200B}テキスト", "", "x"] {
        let mut one_by_one = String::from("\"");
        for ch in text.chars() {
            let mut f = Formatter::new();
            assert!(ch.escape(&mut f).is_ok());
            one_by_one.push_str(f.as_str());
        }
        one_by_one.push('"');
        assert_eq!(one_by_one, quoted(text));
    }
}
