use blogview::log_rend_json::{build_needs_escape, push_json_string_content, render_json_string, render_safe_json_string};

#[test]
fn test_render_json_string() {
    let mut dst = Vec::new();
    render_json_string(&mut dst, b"abcd\"ef");
    assert_eq!(dst.as_slice(), b"\"abcd\\\"ef\"");
}

#[test]
fn escapes_like_json_escape_simd() {
    let samples: [&str; 5] = ["plain", "tab\there", "ctl\u{1}\u{1f}", "back\\slash \"q\"", "nl\n cr\r ff\u{c} bs\u{8}"];
    for s in samples {
        let mut ours = Vec::new();
        render_json_string(&mut ours, s.as_bytes());
        let mut theirs = Vec::new();
        json_escape_simd::escape_into(s, &mut theirs);
        assert_eq!(ours, theirs, "{s:?}");
    }
}

#[test]
fn plain_bytes_pass_unchanged() {
    let mut dst = Vec::new();
    push_json_string_content(&mut dst, b"nothing to escape here");
    assert_eq!(dst, b"nothing to escape here".to_vec());
    let mut dst = Vec::new();
    render_safe_json_string(&mut dst, b"a\"b");
    assert_eq!(dst, b"\"a\"b\"".to_vec());
}

#[test]
fn needs_escape_table() {
    let t = build_needs_escape();
    assert_eq!(t.len(), 256);
    for i in 0..256usize {
        let want = if i < 0x20 || i == 0x22 || i == 0x5c { 1 } else { 0 };
        assert_eq!(t[i], want, "{i}");
    }
}

fn decode_json_content(t: &[u8]) -> Option<Vec<u8>> {
    let mut out = Vec::new();
    let mut i = 0;
    while i < t.len() {
        let c = t[i];
        if c == b'\\' {
            let e = *t.get(i + 1)?;
            match e {
                b'"' | b'\\' | b'/' => out.push(e),
                b'b' => out.push(8),
                b'f' => out.push(12),
                b'n' => out.push(10),
                b'r' => out.push(13),
                b't' => out.push(9),
                b'u' => {
                    let hex = std::str::from_utf8(t.get(i + 2..i + 6)?).ok()?;
                    let v = u32::from_str_radix(hex, 16).ok()?;
                    if v >= 0x80 {
                        return None;
                    }
                    out.push(v as u8);
                    i += 4;
                },
                _ => return None,
            }
            i += 2;
        } else if c < 0x20 || c == b'"' {
            return None;
        } else {
            out.push(c);
            i += 1;
        }
    }
    Some(out)
}

#[test]
fn escaped_content_decodes_back() {
    let all: Vec<u8> = (0u8..=255).collect();
    let mut dst = Vec::new();
    push_json_string_content(&mut dst, &all);
    assert_eq!(decode_json_content(&dst), Some(all));
    let mut dst = Vec::new();
    push_json_string_content(&mut dst, b"\x01\x1f\"\\/x");
    assert_eq!(dst, b"\\u0001\\u001f\\\"\\\\/x".to_vec());
}
