use format_escape_default::{
    format_escape_default, to_escaped_string, BoundedSink, CharSink, StringSink, WriteError,
};

fn unescape(s: &str) -> Option<Vec<u8>> {
    let cs: Vec<char> = s.chars().collect();
    let mut out = Vec::new();
    let mut i = 0;
    while i < cs.len() {
        if cs[i] != '\\' {
            out.push(cs[i] as u8);
            i += 1;
        } else if i + 1 < cs.len() && cs[i + 1] != 'x' {
            out.push(match cs[i + 1] {
                '\\' => b'\\',
                '\'' => b'\'',
                '"' => b'"',
                't' => b'\t',
                'r' => b'\r',
                'n' => b'\n',
                _ => return None,
            });
            i += 2;
        } else if i + 3 < cs.len() {
            let hi = cs[i + 2].to_digit(16)?;
            let lo = cs[i + 3].to_digit(16)?;
            out.push((hi * 16 + lo) as u8);
            i += 4;
        } else {
            return None;
        }
    }
    Some(out)
}

#[test]
fn smoke() {
    assert_eq!(format_escape_default(b"\t\r\ntest\\").to_string(), "\\t\\r\\ntest\\\\");
}

#[test]
fn doc_example() {
    let unescaped = b"\t\nsometext\r\n";
    let escaped = "\\t\\nsometext\\r\\n";
    assert_eq!(escaped, format_escape_default(unescaped).to_string());
}

#[test]
fn empty_input() {
    assert_eq!(to_escaped_string(&[]), "");
}

#[test]
fn tab_cr_lf() {
    assert_eq!(to_escaped_string(&[0x09, 0x0D, 0x0A]), "\\t\\r\\n");
}

#[test]
fn backslash() {
    assert_eq!(to_escaped_string(&[0x5C]), "\\\\");
}

#[test]
fn quotes() {
    assert_eq!(to_escaped_string(b"'\""), "\\'\\\"");
}

#[test]
fn printable_passes_through() {
    assert_eq!(to_escaped_string(b"sometext"), "sometext");
    assert_eq!(to_escaped_string(b" ~"), " ~");
}

#[test]
fn nul_byte() {
    assert_eq!(to_escaped_string(&[0x00]), "\\x00");
}

#[test]
fn hex_escapes_are_lowercase() {
    assert_eq!(to_escaped_string(&[0x1f, 0x7f, 0x80, 0xab, 0xff]), "\\x1f\\x7f\\x80\\xab\\xff");
}

#[test]
fn matches_std_escape_default() {
    for b in 0u8..=255 {
        let expected: String = std::ascii::escape_default(b).map(|c| c as char).collect();
        assert_eq!(to_escaped_string(&[b]), expected);
    }
}

#[test]
fn every_byte_is_printable() {
    let all: Vec<u8> = (0u8..=255).collect();
    let text = to_escaped_string(&all);
    assert!(text.chars().all(|c| (' '..='~').contains(&c)));
}

#[test]
fn every_byte_round_trips() {
    let all: Vec<u8> = (0u8..=255).rev().chain(0u8..=255).collect();
    assert_eq!(unescape(&to_escaped_string(&all)), Some(all));
}

#[test]
fn renders_are_deterministic() {
    let bytes = b"\x00a\\\xfe\n";
    let first = format_escape_default(bytes);
    let second = format_escape_default(bytes);
    assert_eq!(first.to_string(), second.to_string());
    assert_eq!(first.to_string(), first.to_string());
}

#[test]
fn render_into_string_sink() {
    let mut sink = StringSink::new();
    assert_eq!(format_escape_default(b"a\tb").render(&mut sink), Ok(()));
    assert_eq!(format_escape_default(&[0x01]).render(&mut sink), Ok(()));
    assert_eq!(sink.into_string(), "a\\tb\\x01");
}

#[test]
fn render_stops_at_refused_write() {
    let mut sink = BoundedSink::new(3);
    assert_eq!(format_escape_default(b"a\tb\n").render(&mut sink), Err(WriteError));
    assert_eq!(sink.received(), "a\\t");
    assert!(sink.is_full());
}

#[test]
fn render_fails_on_first_write() {
    let mut sink = BoundedSink::new(0);
    assert_eq!(format_escape_default(b"x").render(&mut sink), Err(WriteError));
    assert_eq!(sink.received(), "");
}

#[test]
fn render_fits_exactly() {
    let mut sink = BoundedSink::new(4);
    assert_eq!(format_escape_default(&[0xff]).render(&mut sink), Ok(()));
    assert_eq!(sink.received(), "\\xff");
    assert!(sink.is_full());
    assert_eq!(sink.write_char('z'), Err(WriteError));
}

#[test]
fn render_of_empty_writes_nothing() {
    let mut sink = BoundedSink::new(0);
    assert_eq!(format_escape_default(&[]).render(&mut sink), Ok(()));
    assert!(sink.is_full());
    assert_eq!(sink.received(), "");
}
