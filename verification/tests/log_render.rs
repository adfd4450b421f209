use blogview::log_rend::{render_time, render_time_parts, TimeParts};
use blogview::log_render::{fill_slots, Fill, LogRender, Slot};
use blogview::log_render_color::ColorProfile;

#[test]
fn test_duration() {
    let v = 1_234_567_890_101_121u64;

    let r = LogRender::new(ColorProfile::noansi());
    let mut out: Vec<u8> = Vec::new();
    r.render_go_duration(&mut out, v, false);

    assert_eq!(out, b"342h56m7.890101121s");
}

#[test]
fn test_time() {
    let t = 1773974798041168000i64;

    let mut r = LogRender::new(ColorProfile::noansi());
    let mut out: Vec<u8> = Vec::new();
    r.render_time(&mut out, t, false);
    let mut plain = Vec::new();
    render_time(&mut plain, t);
    assert_eq!(out, plain);

    // The time is shown in the machine's time zone; the expected text is that of a
    // machine in UTC+3. On a machine in another zone the same instant is checked
    // against its civil time there.
    let instant = jiff::Timestamp::from_nanosecond(t as i128).unwrap();
    let zone = jiff::tz::TimeZone::system();
    if zone.to_offset(instant) == jiff::tz::offset(3) {
        assert_eq!(out, b"2026-03-20 05:46:38.041");
    } else {
        let z = instant.to_zoned(zone);
        let want = format!(
            "{:04}-{:02}-{:02} {:02}:{:02}:{:02}.{:03}",
            z.year(),
            z.month(),
            z.day(),
            z.hour(),
            z.minute(),
            z.second(),
            z.millisecond()
        );
        assert_eq!(String::from_utf8(out).unwrap(), want);
    }
    assert!(r.slots.is_empty());
}

#[test]
fn civil_fields_in_utc_plus_three() {
    let t = 1773974798041168000i64;
    let z = jiff::Timestamp::from_nanosecond(t as i128).unwrap().to_zoned(jiff::tz::TimeZone::fixed(jiff::tz::offset(3)));
    let parts = TimeParts {
        year: z.year(),
        month: z.month(),
        day: z.day(),
        hour: z.hour(),
        minute: z.minute(),
        second: z.second(),
        millisecond: z.millisecond(),
    };
    let mut text = Vec::new();
    render_time_parts(&mut text, parts);
    assert_eq!(text, b"2026-03-20 05:46:38.041");
}

#[test]
fn durations_of_each_size() {
    let r = LogRender::new(ColorProfile::noansi());
    let cases: [(u64, &[u8]); 9] = [
        (0, b"0s"),
        (15, b"15ns"),
        (7_000, "7µs".as_bytes()),
        (1_500, &[0x31, 0xC2, 0xB5, 0x73]),
        (12_000_000, b"12ms"),
        (1_000_000_000, b"1s"),
        (3_600_000_000_000, b"1h"),
        (3_661_500_000_000, b"1h1m1.5s"),
        (60_000_000_000, b"1m"),
    ];
    for (v, want) in cases {
        let mut out = Vec::new();
        r.render_go_duration(&mut out, v, true);
        assert_eq!(out, want.to_vec());
    }
}

#[test]
fn civil_fields_text() {
    let mut text = Vec::new();
    render_time_parts(&mut text, TimeParts { year: 1970, month: 1, day: 1, hour: 0, minute: 0, second: 0, millisecond: 0 });
    assert_eq!(text, b"1970-01-01 00:00:00.000".to_vec());
    let mut text = Vec::new();
    render_time_parts(&mut text, TimeParts { year: 999, month: 12, day: 31, hour: 23, minute: 59, second: 59, millisecond: 999 });
    assert_eq!(text, b"999-12-31 23:59:59.999".to_vec());
}

#[test]
fn fill_slots_puts_texts_in_place() {
    let text = b"ab cd";
    let slots = vec![Slot { at: 0, fill: Fill::F64(0) }, Slot { at: 2, fill: Fill::F32(0) }, Slot { at: 5, fill: Fill::Time(0) }];
    let fills = vec![b"X".to_vec(), b"YY".to_vec(), b"Z".to_vec()];
    assert_eq!(fill_slots(text, &slots, &fills), Some(b"XabYY cdZ".to_vec()));
    assert_eq!(fill_slots(text, &[], &[]), Some(text.to_vec()));
}

#[test]
fn fill_slots_refuses_bad_places() {
    let text = b"abc";
    let out_of_order = vec![Slot { at: 2, fill: Fill::F64(0) }, Slot { at: 1, fill: Fill::F64(0) }];
    assert_eq!(fill_slots(text, &out_of_order, &[vec![], vec![]]), None);
    let past_end = vec![Slot { at: 4, fill: Fill::F64(0) }];
    assert_eq!(fill_slots(text, &past_end, &[vec![]]), None);
    let one = vec![Slot { at: 1, fill: Fill::F64(0) }];
    assert_eq!(fill_slots(text, &one, &[]), None);
}

#[test]
fn level_columns() {
    let mut r = LogRender::new(ColorProfile::noansi());
    let cases: [(u8, &[u8], bool); 8] = [
        (10, b" TRACE ", false),
        (20, b" DEBUG ", false),
        (30, b"  INFO ", false),
        (40, b"  WARN ", false),
        (50, b" ERROR ", false),
        (60, b" PANIC ", true),
        (7, b"   !7 ", false),
        (200, b" !200 ", false),
    ];
    for (lvl, want, panic) in cases {
        r.level = lvl;
        let mut out = Vec::new();
        assert_eq!(r.render_level(&mut out), panic);
        assert_eq!(out, want.to_vec());
    }
    r.level = 42;
    let mut out = Vec::new();
    r.render_level(&mut out);
    assert_eq!(out, b"  !42 ".to_vec());
}

#[test]
fn level_column_in_color() {
    let mut r = LogRender::new(ColorProfile::dark());
    r.level = 30;
    let mut out = Vec::new();
    r.render_level(&mut out);
    assert_eq!(out, b"  \x1b[32mINFO\x1b[0m ".to_vec());
}

#[test]
fn builders_set_their_fields() {
    let mut r = LogRender::new(ColorProfile::noansi());
    r.tree_only().show_as_tree_since(3).show_arrays_as_tree_since_size(2);
    assert!(r.tree_always);
    assert_eq!(r.expand_context_since, 3);
    assert_eq!(r.expand_array_since, 2);
}
