use uniquote::escape::code_point::CodePoint;
use uniquote::escape::EscapedCodePoint;
use uniquote::Error;
use uniquote::Formatter;
use uniquote::Quote;

#[test]
fn new_formatter_is_empty() {
    assert_eq!("", Formatter::new().as_str());
    assert_eq!("", Formatter::with_limit(0).as_str());
    assert_eq!(String::new(), Formatter::with_limit(7).into_string());
}

#[test]
fn unbounded_formatter_takes_everything() {
    let mut f = Formatter::new();
    assert_eq!(Ok(()), f.write_char('a'));
    assert_eq!(Ok(()), f.write_str("bc"));
    assert_eq!(Ok(()), f.write_str(""));
    assert_eq!(Ok(()), f.write_char('é'));
    assert_eq!("abcé", f.as_str());
    assert_eq!("abcé", f.into_string());
}

#[test]
fn write_char_appends_the_character() {
    let mut f = Formatter::new();
    assert!(f.write_char('x').is_ok());
    assert!(f.write_char('y').is_ok());
    assert_eq!("xy", f.as_str());
}

#[test]
fn full_formatter_refuses() {
    let mut f = Formatter::with_limit(3);
    assert_eq!(Ok(()), f.write_str("abc"));
    assert_eq!(Err(Error), f.write_char('d'));
    assert_eq!(Err(Error), f.write_str("d"));
    assert_eq!(Ok(()), f.write_str(""));
    assert_eq!("abc", f.as_str());
}

#[test]
fn failed_write_fills_the_formatter() {
    let mut f = Formatter::with_limit(3);
    assert_eq!(Err(Error), f.write_str("abcdef"));
    assert_eq!("abc", f.as_str());

    let mut f = Formatter::with_limit(4);
    assert_eq!(Ok(()), f.write_str("ab"));
    assert_eq!(Err(Error), f.write_str("cde"));
    assert_eq!("abcd", f.as_str());
}

#[test]
fn limit_counts_characters() {
    let mut f = Formatter::with_limit(2);
    assert_eq!(Err(Error), f.write_str("éèê"));
    assert_eq!("éè", f.as_str());

    let mut f = Formatter::with_limit(3);
    assert_eq!(Ok(()), f.write_str("éèê"));
    assert_eq!("éèê", f.as_str());
}

#[test]
fn zero_limit_refuses_any_character() {
    let mut f = Formatter::with_limit(0);
    assert_eq!(Err(Error), f.write_char('a'));
    assert_eq!(Err(Error), "a".escape(&mut f));
    assert_eq!(Ok(()), "".escape(&mut f));
    assert_eq!(Ok(()), f.escape_utf16(&[]));
    assert_eq!(Err(Error), f.escape_utf16(&[0x61]));
    assert_eq!("", f.as_str());
}

#[test]
fn escaping_stops_where_the_formatter_is_full() {
    // In full: a{~n}b
    for (limit, expected) in
        [(0, ""), (1, "a"), (2, "a{"), (3, "a{~"), (4, "a{~n"), (5, "a{~n}")]
    {
        let mut f = Formatter::with_limit(limit);
        assert_eq!(Err(Error), "a\nb".escape(&mut f), "limit {}", limit);
        assert_eq!(expected, f.as_str());

        let mut f = Formatter::with_limit(limit);
        assert_eq!(Err(Error), b"a\nb".escape(&mut f), "limit {}", limit);
        assert_eq!(expected, f.as_str());

        let mut f = Formatter::with_limit(limit);
        assert_eq!(Err(Error), f.escape_utf16(&[0x61, 0x0A, 0x62]), "limit {}", limit);
        assert_eq!(expected, f.as_str());
    }
    for limit in [6, 7, 100] {
        let mut f = Formatter::with_limit(limit);
        assert_eq!(Ok(()), "a\nb".escape(&mut f));
        assert_eq!("a{~n}b", f.as_str());
    }
}

#[test]
fn long_run_is_cut_at_the_limit() {
    let mut f = Formatter::with_limit(4);
    assert_eq!(Err(Error), "plain text\n".escape(&mut f));
    assert_eq!("plai", f.as_str());
}

#[test]
fn invalid_bytes_stop_where_the_formatter_is_full() {
    // In full: {~u80}{~u81}
    let mut f = Formatter::with_limit(8);
    assert_eq!(Err(Error), b"\x80\x81".escape(&mut f));
    assert_eq!("{~u80}{~", f.as_str());
}

#[test]
fn display_writes_between_quotes() {
    let mut f = Formatter::new();
    assert_eq!(Ok(()), f.write_str("path: "));
    assert_eq!(Ok(()), "a b".quote().fmt(&mut f));
    assert_eq!("path: \"a b\"", f.as_str());
}

#[test]
fn display_stops_where_the_formatter_is_full() {
    for (limit, expected) in [(0, ""), (1, "\""), (2, "\"a"), (3, "\"ab")] {
        let mut f = Formatter::with_limit(limit);
        assert_eq!(Err(Error), "ab".quote().fmt(&mut f));
        assert_eq!(expected, f.as_str());
    }
    let mut f = Formatter::with_limit(4);
    assert_eq!(Ok(()), "ab".quote().fmt(&mut f));
    assert_eq!("\"ab\"", f.as_str());
}

#[test]
fn forms_are_written_as_they_should() {
    let cases = [
        (EscapedCodePoint::Literal { ch: 'a', escape: false }, "a"),
        (EscapedCodePoint::Literal { ch: '{', escape: true }, "{{"),
        (EscapedCodePoint::Literal { ch: '}', escape: true }, "}}"),
        (EscapedCodePoint::Quote, "{\"}"),
        (EscapedCodePoint::Sequence("t"), "{~t}"),
        (EscapedCodePoint::Sequence("n"), "{~n}"),
        (EscapedCodePoint::Sequence("r"), "{~r}"),
        (EscapedCodePoint::Hex(CodePoint(0)), "{~u0}"),
        (EscapedCodePoint::Hex(CodePoint(0xF)), "{~uf}"),
        (EscapedCodePoint::Hex(CodePoint(0x10)), "{~u10}"),
        (EscapedCodePoint::Hex(CodePoint(0x9AF)), "{~u9af}"),
        (EscapedCodePoint::Hex(CodePoint(0xABCDEF)), "{~uabcdef}"),
        (EscapedCodePoint::Hex(CodePoint(0x10FFFF)), "{~u10ffff}"),
        (EscapedCodePoint::Hex(CodePoint(0x1000_0000)), "{~u10000000}"),
        (EscapedCodePoint::Hex(CodePoint(u32::MAX)), "{~uffffffff}"),
    ];
    for (form, expected) in cases {
        let mut f = Formatter::new();
        assert_eq!(Ok(()), form.format(&mut f));
        assert_eq!(expected, f.as_str());
        for limit in 0..expected.chars().count() {
            let mut f = Formatter::with_limit(limit);
            assert_eq!(Err(Error), form.format(&mut f));
            assert_eq!(expected.chars().take(limit).collect::<String>(), f.as_str());
        }
    }
}

#[test]
fn hex_matches_the_standard_formatting() {
    for value in (0..=u32::MAX).step_by(0x1_0001).chain([15, 16, 255, 256, u32::MAX]) {
        let mut f = Formatter::new();
        assert_eq!(Ok(()), EscapedCodePoint::Hex(CodePoint(value)).format(&mut f));
        assert_eq!(format!("{{~u{:x}}}", value), f.as_str());
    }
}
