use std::io::Write;
use blogview::crc32custom::fast_crc32c;
use blogview::log_parse::{
    log_parse_header, read_uvarint, read_uvarint_safe, write_record_header, write_uvarint, write_varint, zigzag_decode, zigzag_encode,
    ErrorLogParse,
};
use blogview::log_parser::LogParser;
use blogview::log_rend::render_time;
use blogview::log_parser_node::NodeKind;
use blogview::log_render::{fill_slots, Fill, LogRender, Slot};
use blogview::log_render_color::ColorProfile;
use blogview::log_transfomer_into_json::LogTransfomer;
use blogview::log_transformer_repack::LogTransformerRepack;

fn str_field(out: &mut Vec<u8>, s: &[u8]) {
    write_uvarint(s.len() as u64, out);
    out.extend_from_slice(s);
}

fn record(level: u8, loc: Option<(&[u8], u64)>, msg: &[u8], ctx: &[u8]) -> Vec<u8> {
    let mut r = vec![1, 0];
    r.extend_from_slice(&0u64.to_le_bytes());
    r.push(level);
    match loc {
        None => r.push(0),
        Some((f, line)) => {
            str_field(&mut r, f);
            write_uvarint(line, &mut r);
        },
    }
    str_field(&mut r, msg);
    r.extend_from_slice(ctx);
    r
}

fn frame(rec: &[u8]) -> Vec<u8> {
    let mut f = Vec::new();
    write_record_header(&mut f, rec);
    f.extend_from_slice(rec);
    f
}

fn flat_ctx() -> Vec<u8> {
    let mut c = vec![26, 1, b'k', 1, b'v'];
    c.extend_from_slice(&[11, 1, b'b', 1]);
    c.extend_from_slice(&[20, 1, b'n', 7]);
    c
}

/// Renders the record and puts `F` in each float place; the line's leading time,
/// the record's instant as local civil time, is checked and shown as `T`.
fn render_line(parser: &LogParser, r: &mut LogRender, rec: &[u8]) -> Vec<u8> {
    parser.make_record(r);
    let mut out = Vec::new();
    r.render(&mut out, rec);
    let fills: Vec<Vec<u8>> = r.slots.iter().map(|_| b"F".to_vec()).collect();
    let filled = fill_slots(&out, &r.slots, &fills).unwrap();
    let mut time = Vec::new();
    render_time(&mut time, parser.time as i64);
    assert!(filled.starts_with(&time));
    let mut line = b"T".to_vec();
    line.extend_from_slice(&filled[time.len()..]);
    line
}

#[test]
fn parse_and_render_flat_record() {
    let rec = record(30, None, b"hello", &flat_ctx());
    let f = frame(&rec);
    let mut parser = LogParser::new();
    let (got, rest) = parser.parse_log_data(&f).unwrap();
    assert_eq!(got, rec.as_slice());
    assert!(rest.is_empty());
    assert_eq!(parser.level, 30);
    assert_eq!(parser.ctx_size, 3);
    let mut r = LogRender::new(ColorProfile::noansi());
    let line = render_line(&parser, &mut r, got);
    assert_eq!(String::from_utf8(line).unwrap(), "T  INFO hello {\"k\": \"v\", \"b\": true, \"n\": 7}\n");
}

#[test]
fn render_as_tree() {
    let rec = record(30, Some((b"main.go", 42)), b"hello", &flat_ctx());
    let mut parser = LogParser::new();
    parser.parse_log_record(&rec).unwrap();
    let mut r = LogRender::new(ColorProfile::noansi());
    r.tree_only();
    let line = render_line(&parser, &mut r, &rec);
    assert_eq!(
        String::from_utf8(line).unwrap(),
        "T  INFO (main.go:42) hello \n├─ k: v\n├─ b: true\n└─ n: 7\n"
    );
}

#[test]
fn render_float_and_bytes() {
    let mut ctx = vec![25, 1, b'f'];
    ctx.extend_from_slice(&1.5f64.to_bits().to_le_bytes());
    ctx.extend_from_slice(&[27, 1, b'x', 5, b'h', b'e', b'l', b'l', b'o']);
    let rec = record(20, None, b"m", &ctx);
    let mut parser = LogParser::new();
    parser.parse_log_record(&rec).unwrap();
    let mut r = LogRender::new(ColorProfile::noansi());
    parser.make_record(&mut r);
    let mut out = Vec::new();
    r.render_json(&mut out, &rec);
    assert_eq!(r.slots, vec![Slot { at: 6, fill: Fill::F64(1.5f64.to_bits()) }]);
    let mut b = ryu::Buffer::new();
    let text = b.format(1.5f64).as_bytes().to_vec();
    let out = fill_slots(&out, &r.slots, &[text]).unwrap();
    assert_eq!(String::from_utf8(out).unwrap(), "{\"f\": 1.5, \"x\": \"aGVsbG8=\"}\n");
}

#[test]
fn render_error_object() {
    let ctx = vec![8, 1, b'e', 1, 4, b'b', b'o', b'o', b'm', 10, 10];
    let rec = record(50, None, b"failed", &ctx);
    let mut parser = LogParser::new();
    parser.parse_log_record(&rec).unwrap();
    assert!(parser.has_errors);
    assert_eq!(parser.ctx_size, 1);
    let mut r = LogRender::new(ColorProfile::noansi());
    parser.make_record(&mut r);
    assert!(r.need_tree);
    let mut out = Vec::new();
    r.render_json(&mut out, &rec);
    assert_eq!(
        String::from_utf8(out).unwrap(),
        "{\"e\": {\"@context\": {\"NEW: \"boom\"\": {}}, \"@text\": \"\"boom\"\"}}\n"
    );
}

#[test]
fn empty_context_renders_braces() {
    let rec = record(30, None, b"m", &[]);
    let mut parser = LogParser::new();
    parser.parse_log_record(&rec).unwrap();
    let mut r = LogRender::new(ColorProfile::noansi());
    parser.make_record(&mut r);
    let mut out = Vec::new();
    r.render_json(&mut out, &rec);
    assert_eq!(out, b"{}\n".to_vec());
}

#[test]
fn header_errors() {
    let rec = record(30, None, b"hello", &flat_ctx());
    let good = frame(&rec);
    assert_eq!(log_parse_header(&good[..3], 1024).unwrap_err(), ErrorLogParse::NoHeader);
    let mut bad = good.clone();
    bad[0] = 0;
    assert_eq!(log_parse_header(&bad, 1024).unwrap_err(), ErrorLogParse::StartMarkerInvalid(0));
    let mut bad = good.clone();
    bad[5] = 7;
    assert_eq!(log_parse_header(&bad, 1024).unwrap_err(), ErrorLogParse::TailMarkerInvalid(7));
    let mut bad = good.clone();
    let last = bad.len() - 1;
    bad[last] ^= 1;
    assert_eq!(log_parse_header(&bad, 1024).unwrap_err(), ErrorLogParse::RecordCRCMismatch);
    assert_eq!(log_parse_header(&good[..good.len() - 1], 1024).unwrap_err(), ErrorLogParse::RecordNeedMore);
    assert_eq!(log_parse_header(&good, 4).unwrap_err(), ErrorLogParse::RecordLengthTooLarge);
    let lenless = [0xFF, 0, 0, 0, 0, 0xFE, 0x80];
    assert_eq!(log_parse_header(&lenless, 1024).unwrap_err(), ErrorLogParse::RecordLengthInvalid);
}

#[test]
fn record_errors_leave_parser_alone() {
    let mut parser = LogParser::new();
    let mut rec = record(30, None, b"m", &[]);
    rec[0] = 2;
    assert_eq!(parser.parse_log_record(&rec).unwrap_err(), ErrorLogParse::RecordVersionNotSupported(2));
    let rec = record(30, None, b"m", &[99]);
    assert_eq!(parser.parse_log_record(&rec).unwrap_err(), ErrorLogParse::RecordContextNodeType(99));
    let rec = record(30, None, b"m", &[26, 1, b'k']);
    assert_eq!(parser.parse_log_record(&rec).unwrap_err(), ErrorLogParse::RecordTruncated);
    assert_eq!(parser.level, 0);
    assert_eq!(parser.ctrl_len(), 0);
}

#[test]
fn levels_below_interest_pass() {
    let mut parser = LogParser::new();
    parser.with_show_since_level(40).with_max_log_record_size(4096).with_show_tree_after(3);
    let rec = record(30, None, b"m", &flat_ctx());
    parser.parse_log_record(&rec).unwrap();
    assert!(parser.should_pass());
    assert_eq!(parser.ctrl_len(), 0);
    assert_eq!(parser.max_log_size, 4096);
}

#[test]
fn transform_into_json() {
    let rec = record(30, None, b"hello", &[26, 1, b'k', 1, b'v', 20, 1, b'n', 7]);
    let f = frame(&rec);
    let mut t = LogTransfomer::new();
    let mut dst = b"prefix".to_vec();
    let rest = t.transform_json(&mut dst, &f).unwrap();
    assert!(rest.is_empty());
    assert_eq!(
        String::from_utf8(dst).unwrap(),
        "prefix{\"time\":0,\"level\":\"info\",\"message\":\"hello\",\"k\":\"v\",\"n\":7}"
    );
    assert!(t.slots.is_empty());
}

#[test]
fn transform_formats_time_and_nan() {
    let mut ctx = vec![25, 1, b'f'];
    ctx.extend_from_slice(&f64::NAN.to_bits().to_le_bytes());
    let rec = record(99, None, b"m", &ctx);
    let f = frame(&rec);
    let mut t = LogTransfomer::new();
    t.format_time = true;
    let mut dst = Vec::new();
    t.transform_json(&mut dst, &f).unwrap();
    assert!(t.slots.is_empty());
    let mut time = Vec::new();
    render_time(&mut time, 0);
    let time = String::from_utf8(time).unwrap();
    assert_eq!(
        String::from_utf8(dst).unwrap(),
        format!("{{\"time\":\"{time}\",\"level\":\"unknown(99)\",\"message\":\"m\",\"f\":\"NaN\"}}")
    );
}

#[test]
fn transform_error_writes_nothing() {
    let rec = record(30, None, b"m", &[26, 1, b'k']);
    let f = frame(&rec);
    let mut t = LogTransfomer::new();
    let mut dst = b"x".to_vec();
    assert_eq!(t.transform_json(&mut dst, &f).unwrap_err(), ErrorLogParse::RecordTruncated);
    assert_eq!(dst, b"x".to_vec());
    assert_eq!(t.transform_json(&mut dst, &f[..2]).unwrap_err(), ErrorLogParse::NoHeader);
    let rec = record(30, None, b"m", &[26, 0, 5, 1, b'v']);
    assert_eq!(
        t.transform_json(&mut dst, &frame(&rec)).unwrap_err(),
        ErrorLogParse::RecordContextNodePredefinedKeyUnknown(5)
    );
    let rec = record(30, None, b"m", &[99, 1, b'k', 1, b'v']);
    assert_eq!(
        t.transform_json(&mut dst, &frame(&rec)).unwrap_err(),
        ErrorLogParse::RecordContextNodeType(99)
    );
    assert_eq!(dst, b"x".to_vec());
}

#[test]
fn repack_keeps_header_and_message() {
    let rec = record(40, Some((b"a.go", 7)), b"msg", &flat_ctx());
    let mut f = frame(&rec);
    f.extend_from_slice(b"tail");
    let mut t = LogTransformerRepack::new();
    let mut dst = b"xx".to_vec();
    let ((start, end), rest) = t.transform(&mut dst, &f).unwrap();
    assert_eq!(rest, b"tail");
    assert_eq!(start, 2);
    assert_eq!(end, dst.len());
    let mut parser = LogParser::new();
    let (packed, after) = parser.parse_log_data(&dst[start..end]).unwrap();
    assert!(after.is_empty());
    assert_eq!(packed, &rec[..rec.len() - flat_ctx().len()]);
    assert_eq!(parser.level, 40);
    assert_eq!(parser.ctrl_len(), 0);
    assert_eq!(parser.ctx_size, 0);
    let mut first = LogParser::new();
    first.parse_log_record(&rec).unwrap();
    assert_eq!(parser.time, first.time);
    assert_eq!(parser.location, first.location);
    assert_eq!(parser.msg, first.msg);
    assert_eq!(first.ctx_size, 3);
}

#[test]
fn stack_trace_lines() {
    let mut enc = flate2::write::GzEncoder::new(Vec::new(), flate2::Compression::default());
    enc.write_all(b"line1\nline2").unwrap();
    let gz = enc.finish().unwrap();
    let rec = record(60, None, &gz, &[]);
    let mut parser = LogParser::new();
    parser.parse_log_record(&rec).unwrap();
    let mut r = LogRender::new(ColorProfile::noansi());
    let line = render_line(&parser, &mut r, &rec);
    assert_eq!(String::from_utf8(line).unwrap(), "T PANIC {}\n.... line1\n.... line2\n");
    assert_eq!(r.buf, b"line1\nline2".to_vec());
}

#[test]
fn broken_stack_trace_shows_error() {
    let rec = record(60, None, b"not gzip", &[]);
    let mut parser = LogParser::new();
    parser.parse_log_record(&rec).unwrap();
    let mut r = LogRender::new(ColorProfile::noansi());
    let line = render_line(&parser, &mut r, &rec);
    let text = String::from_utf8(line).unwrap();
    assert!(text.starts_with("T PANIC {}\n.... "));
    assert!(!r.buf.is_empty());
}

#[test]
fn crc_matches_crate() {
    assert_eq!(fast_crc32c(0, b"123456789"), 0xE3069283);
    assert_eq!(fast_crc32c(0, b"hello world"), crc32c::crc32c(b"hello world"));
}

#[test]
fn uvarint_and_zigzag_roundtrip() {
    for v in [0u64, 1, 127, 128, 300, 1 << 35, u64::MAX] {
        let mut b = Vec::new();
        write_uvarint(v, &mut b);
        assert_eq!(read_uvarint(&b, 0), (v, b.len()));
    }
    for v in [0i64, -1, 1, -64, 63, i64::MIN, i64::MAX] {
        assert_eq!(zigzag_decode(zigzag_encode(v)), v);
        let mut b = Vec::new();
        write_varint(v, &mut b);
        assert_eq!(blogview::log_parse::read_varint(&b, 0).0, v);
    }
}

#[test]
fn frame_roundtrip() {
    let rec = record(30, None, b"m", &[]);
    let mut f = frame(&rec);
    f.extend_from_slice(b"rest");
    let (r, rest) = log_parse_header(&f, 1024).unwrap();
    assert_eq!(r, rec.as_slice());
    assert_eq!(rest, b"rest");
}

#[test]
fn parsed_nodes_lie_inside_record() {
    // a string, bytes, a []uint16 of two items, a []string of two items, inside a group
    let mut ctx = vec![7, 1, b'g'];
    ctx.extend_from_slice(&[26, 1, b's', 3, b'a', b'b', b'c']);
    ctx.extend_from_slice(&[27, 2, b'b', b'y', 2, 0xff, 0x00]);
    ctx.extend_from_slice(&[35, 1, b'u', 2, 1, 0, 2, 0]);
    ctx.extend_from_slice(&[40, 1, b'l', 2, 1, b'x', 2, b'y', b'z']);
    ctx.push(10);
    let rec = record(30, Some((b"f.go", 9)), b"msg", &ctx);
    let mut parser = LogParser::new();
    parser.parse_log_record(&rec).unwrap();
    let len = rec.len() as u64;
    let nodes = &parser.ctx.ctrl;
    assert_eq!(nodes.len(), 6);
    assert_eq!(parser.ctx_size, 5);
    assert!(!parser.has_errors);
    for n in nodes.iter() {
        if n.key_len != 0 {
            assert!(n.key_off as u64 + n.key_len as u64 <= len);
        }
        match n.kind {
            NodeKind::Str | NodeKind::Bytes => assert!(n.val_off as u64 + n.val_len as u64 <= len),
            NodeKind::U16s => assert!(n.val_off as u64 + 2 * n.val_len as u64 <= len),
            _ => {},
        }
    }
    assert_eq!(&rec[nodes[1].val_off as usize..(nodes[1].val_off + nodes[1].val_len) as usize], b"abc");
    assert_eq!(&rec[nodes[2].key_off as usize..(nodes[2].key_off + nodes[2].key_len) as usize], b"by");
    assert_eq!(nodes[4].kind, NodeKind::Strs);
    assert_eq!(nodes[4].val_len, 2);
    let (flen, foff, line) = parser.location.unwrap();
    assert_eq!(&rec[foff..foff + flen], b"f.go");
    assert_eq!(line, 9);
    assert_eq!(&rec[parser.msg.1..parser.msg.1 + parser.msg.0], b"msg");
}

#[test]
fn bounded_uvarint_reads() {
    for v in [0u64, 1, 127, 128, 300, 16_384, u64::MAX] {
        let mut buf = Vec::new();
        write_uvarint(v, &mut buf);
        let n = buf.len();
        assert_eq!(read_uvarint_safe(&buf, 0, usize::MAX), (v, n));
        assert_eq!(read_uvarint_safe(&buf, 0, n), (v, n));
        buf.extend_from_slice(&[1, 2, 3]);
        assert_eq!(read_uvarint_safe(&buf, 0, 10), (v, n));
    }
    assert_eq!(read_uvarint_safe(&[0x80, 0x81], 0, 10).1, usize::MAX);
    assert_eq!(read_uvarint_safe(&[0x80, 0x01], 0, 1).1, usize::MAX);
}

#[test]
fn stack_lines_of_decompressed_text() {
    let r = LogRender::new(ColorProfile::noansi());
    let mut out = Vec::new();
    r.write_stack_lines(&mut out, b"a\n\nb");
    assert_eq!(out, b".... a\n.... \n.... b\n".to_vec());
    let mut out = Vec::new();
    r.write_stack_lines(&mut out, b"x\n");
    assert_eq!(out, b".... x\n".to_vec());
    let mut out = Vec::new();
    r.write_stack_lines(&mut out, b"");
    assert!(out.is_empty());
}

#[test]
fn node_dump_lines() {
    let rec = record(30, None, b"hello", &flat_ctx());
    let mut parser = LogParser::new();
    parser.parse_log_record(&rec).unwrap();
    let text = blogview::log_parser_tree_builder::dump_nodes(&parser.ctx.ctrl);
    let mut want = String::new();
    for (i, node) in parser.ctx.ctrl.iter().enumerate() {
        want.push_str(&format!(
            "{:03X} {:10} last[{}] key.len[{:03}] key.off[{:03}] val[{:03}] val.off[{:03}]\n",
            i,
            node.kind.string(),
            node.is_last != 0,
            node.key_len,
            node.key_off,
            node.val_len,
            node.val_off,
        ));
    }
    assert_eq!(String::from_utf8(text).unwrap(), want);
    assert!(want.starts_with("000 str        last[false] key.len[001]"));
}

#[test]
fn transform_consumes_one_record_at_a_time() {
    let a = frame(&record(30, None, b"one", &[]));
    let b = frame(&record(40, None, b"two", &[]));
    let mut all = a.clone();
    all.extend_from_slice(&b);
    let mut t = LogTransfomer::new();
    let mut dst = Vec::new();
    let rest = t.transform_json(&mut dst, &all).unwrap();
    assert_eq!(rest, b.as_slice());
    let rest = t.transform_json(&mut dst, rest).unwrap();
    assert!(rest.is_empty());
}

#[test]
fn tree_slice_returns_to_its_level() {
    let ctx = vec![35, 1, b'u', 2, 1, 0, 2, 0, 11, 1, b'b', 1];
    let rec = record(30, None, b"hello", &ctx);
    let mut parser = LogParser::new();
    parser.parse_log_record(&rec).unwrap();
    let mut r = LogRender::new(ColorProfile::noansi());
    r.tree_only();
    r.show_arrays_as_tree_since_size(1);
    let text = String::from_utf8(render_line(&parser, &mut r, &rec)).unwrap();
    let lines: Vec<&str> = text.lines().collect();
    let items: Vec<&&str> = lines.iter().filter(|l| l.contains("0: 1") || l.contains("1: 2")).collect();
    assert_eq!(items.len(), 2);
    assert!(items[0].starts_with("│  ├─ 0: 1"));
    assert!(items[1].starts_with("│  └─ 1: 2"));
    assert_eq!(*lines.last().unwrap(), "└─ b: true");
    assert_eq!(r.tree_depth, 0);
}

#[test]
fn parser_tree_threshold_decides() {
    let rec = record(30, None, b"m", &flat_ctx());
    let mut parser = LogParser::new();
    parser.parse_log_record(&rec).unwrap();
    let mut r = LogRender::new(ColorProfile::noansi());
    parser.make_record(&mut r);
    assert!(!r.need_tree);
    parser.with_show_tree_after(3);
    parser.make_record(&mut r);
    assert!(r.need_tree);
    parser.with_show_tree_after(4);
    parser.make_record(&mut r);
    assert!(!r.need_tree);
    assert_eq!(parser.use_tree_since, Some(4));
}

#[test]
fn malformed_contexts_give_errors() {
    let mut parser = LogParser::new();
    let rec = record(30, None, b"m", &[10]);
    assert_eq!(parser.parse_log_record(&rec).unwrap_err(), ErrorLogParse::RecordTruncated);
    let rec = record(30, None, b"m", &[99, 1, b'k']);
    assert_eq!(parser.parse_log_record(&rec).unwrap_err(), ErrorLogParse::RecordContextNodeType(99));
}
