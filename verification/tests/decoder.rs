use quotefeed::collect::csv_header;
use quotefeed::collect::process_frames;
use quotefeed::collect::render_quotes;
use quotefeed::collect::sort_by_accept_time;
use quotefeed::digest;
use quotefeed::fmt_two_dec;
use quotefeed::is_valid_quote;
use quotefeed::two_dec;
use quotefeed::accept_dt;
use quotefeed::build_quote;
use quotefeed::DecodeError;
use quotefeed::Quote;
use quotefeed::build_bidasks;

/// Builds a 214-byte payload window in the canonical layout.
fn window(
    issue: &str,
    bids: &[(&str, &str)],
    asks: &[(&str, &str)],
    accept: &str,
) -> Vec<u8> {
    assert_eq!(issue.len(), 12);
    assert_eq!(bids.len(), 5);
    assert_eq!(asks.len(), 5);
    assert_eq!(accept.len(), 8);
    let mut s = String::new();
    s.push_str("B6034");
    s.push_str(issue);
    s.push_str(&"x".repeat(12));
    for (p, q) in bids {
        assert_eq!(p.len(), 5);
        assert_eq!(q.len(), 7);
        s.push_str(p);
        s.push_str(q);
    }
    s.push_str(&"y".repeat(7));
    for (p, q) in asks {
        assert_eq!(p.len(), 5);
        assert_eq!(q.len(), 7);
        s.push_str(p);
        s.push_str(q);
    }
    s.push_str(&"z".repeat(50));
    s.push_str(accept);
    let out = s.into_bytes();
    assert_eq!(out.len(), 214);
    out
}

/// Wraps a payload window into a whole frame: 42 header bytes, then the
/// window, so the marker sits at offset 42.
fn frame(win: &[u8]) -> Vec<u8> {
    let mut f = vec![0u8; 42];
    f.extend_from_slice(win);
    f
}

fn sample_window() -> Vec<u8> {
    window(
        "KR4301F32705",
        &[
            ("00500", "0000050"),
            ("00400", "0000040"),
            ("00300", "0000030"),
            ("00200", "0000020"),
            ("00100", "0000010"),
        ],
        &[
            ("00600", "0000060"),
            ("00700", "0000070"),
            ("00800", "0000080"),
            ("00900", "0000090"),
            ("01000", "0000100"),
        ],
        "09301234",
    )
}

#[test]
fn filter_accepts_marked_frame() {
    let f = frame(&sample_window());
    assert!(f.len() > 225);
    assert!(is_valid_quote(&f));
}

#[test]
fn filter_rejects_wrong_marker() {
    let mut f = frame(&sample_window());
    f[46] = b'5'; // marker becomes B6035
    assert!(!is_valid_quote(&f));
}

#[test]
fn filter_rejects_short_frame() {
    let f = frame(&sample_window());
    let short = &f[..225];
    assert!(!is_valid_quote(short));
    assert!(is_valid_quote(&f[..226]));
}

#[test]
fn extractor_yields_22_fields() {
    let win = sample_window();
    let text = std::str::from_utf8(&win).unwrap();
    let layout: Vec<i32> = vec![
        -5, 12, -12, 5, 7, 5, 7, 5, 7, 5, 7, 5, 7, -7, 5, 7, 5, 7, 5, 7, 5, 7, 5, 7, -50, 8,
    ];
    let fields = digest(text, layout).unwrap();
    assert_eq!(fields.len(), 22);
    assert_eq!(fields[0], "KR4301F32705");
    assert_eq!(fields[1], "00500");
    assert_eq!(fields[2], "0000050");
    assert_eq!(fields[11], "00600");
    assert_eq!(fields[21], "09301234");
}

#[test]
fn extractor_fails_on_short_text() {
    let layout: Vec<i32> = vec![-5, 12];
    assert!(digest("B6034abc", layout).is_none());
}

#[test]
fn extractor_is_layout_agnostic() {
    assert_eq!(digest("abcdef", vec![-1, 2, 3]).unwrap(), vec!["bc", "def"]);
    // A trailing skip may run past the end without failing.
    assert_eq!(digest("ab", vec![2, -5]).unwrap(), vec!["ab"]);
    assert!(digest("ab", vec![-5, 1]).is_none());
    let none: Vec<i32> = vec![];
    assert_eq!(digest("ab", none).unwrap().len(), 0);
}

#[test]
fn price_field_decodes_and_formats_back() {
    // "12345" decodes to 123.45 and formats back to "12345"-derived text.
    let v = two_dec("12345").unwrap();
    assert_eq!(v, 12345);
    assert_eq!(fmt_two_dec(v), "123.45");
    // Two-decimal fixed precision, never scientific notation.
    assert_eq!(fmt_two_dec(0), "0.00");
    assert_eq!(fmt_two_dec(5), "0.05");
    assert_eq!(fmt_two_dec(120), "1.20");
    assert_eq!(fmt_two_dec(u64::MAX), "184467440737095516.15");
}

#[test]
fn price_field_rejects_bad_text() {
    assert!(two_dec("").is_none());
    assert!(two_dec("12a45").is_none());
    assert!(two_dec("-1234").is_none());
    assert!(two_dec(" 1234").is_none());
    assert_eq!(two_dec("00120"), Some(120));
}

#[test]
fn accept_time_arithmetic() {
    // 09:30:12 with trailing unit 34, shifted from UTC+9 down to UTC.
    let total: i64 = 9 * 3_600_000_000 + 30 * 60_000_000 + 12 * 1_000_000 + 34;
    assert_eq!(accept_dt("09301234"), Some(total - 9 * 3_600_000_000));
    assert_eq!(accept_dt("09301234"), Some(1_812_000_034));
    // Adding the shift back reconstructs 09:30:12.
    let back = 1_812_000_034i64 + 32_400_000_000;
    assert_eq!(back / 3_600_000_000, 9);
    assert_eq!(back % 3_600_000_000 / 60_000_000, 30);
    assert_eq!(back % 3_600_000_000 % 60_000_000 / 1_000_000, 12);
    assert_eq!(back % 3_600_000_000 % 60_000_000 % 1_000_000, 34);
}

#[test]
fn accept_time_rejects_bad_fields() {
    assert!(accept_dt("0930123").is_none());
    assert!(accept_dt("0930123x").is_none());
    assert!(accept_dt("").is_none());
    // Longer fields are read through their first eight digits.
    assert_eq!(accept_dt("000000009999"), Some(-32_400_000_000));
}

#[test]
fn bidasks_reverse_bids_and_keep_asks() {
    let fields: Vec<&str> = vec![
        "pad", "00100", "0000010", "00200", "0000020", "00300", "0000030", "00400", "0000040",
    ];
    // Two bid levels then two ask levels, starting at field 1.
    let (bids, asks) = build_bidasks(&fields, 2, 1).unwrap();
    assert_eq!(bids, vec![(200, 20), (100, 10)]);
    assert_eq!(asks, vec![(300, 30), (400, 40)]);

    let bad: Vec<&str> = vec!["pad", "001x0", "0000010", "00200", "0000020"];
    assert!(build_bidasks(&bad, 1, 1).is_none());
}

#[test]
fn decode_builds_five_levels_each_side() {
    let q = build_quote(7, &sample_window()).unwrap();
    assert_eq!(q.pkt_time, 7);
    assert_eq!(q.issue_code, "KR4301F32705");
    assert_eq!(q.accept_time, 1_812_000_034);
    assert_eq!(q.bids.len(), 5);
    assert_eq!(q.asks.len(), 5);
    // Bids are stored farthest level first: encounter order reversed.
    assert_eq!(q.bids, vec![(100, 10), (200, 20), (300, 30), (400, 40), (500, 50)]);
    // Asks keep encounter order: best level first.
    assert_eq!(q.asks, vec![(600, 60), (700, 70), (800, 80), (900, 90), (1000, 100)]);
}

#[test]
fn decode_rejects_short_window() {
    let win = sample_window();
    assert_eq!(build_quote(0, &win[..213]).unwrap_err(), DecodeError::TooShort);
}

#[test]
fn decode_rejects_non_text_window() {
    let mut win = sample_window();
    win[10] = 0xFF;
    assert_eq!(build_quote(0, &win).unwrap_err(), DecodeError::NotText);
}

#[test]
fn decode_rejects_bad_number() {
    let mut win = sample_window();
    // First bid price field starts at offset 29 in the window.
    win[29] = b'a';
    assert_eq!(build_quote(0, &win).unwrap_err(), DecodeError::BadNumber);
}

#[test]
fn decode_rejects_bad_time() {
    let mut win = sample_window();
    // The accept-time field fills the last 8 bytes of the window.
    win[206] = b'x';
    assert_eq!(build_quote(0, &win).unwrap_err(), DecodeError::BadTime);
}

#[test]
fn quote_renders_plain_line() {
    let q = build_quote(0, &sample_window()).unwrap();
    let line = q.to_string(false);
    assert_eq!(
        line,
        "1970-01-01T00:00:00 2011-02-16T00:30:12.000034 KR4301F32705 \
         0.10@1.00 0.20@2.00 0.30@3.00 0.40@4.00 0.50@5.00 \
         0.60@6.00 0.70@7.00 0.80@8.00 0.90@9.00 1.00@10.00"
    );
}

#[test]
fn quote_renders_delimited_line() {
    let q = build_quote(3600, &sample_window()).unwrap();
    let line = q.to_string(true);
    assert_eq!(
        line,
        "1970-01-01T01:00:00,2011-02-16T00:30:12.000034,KR4301F32705,\
         0.10@1.00,0.20@2.00,0.30@3.00,0.40@4.00,0.50@5.00,\
         0.60@6.00,0.70@7.00,0.80@8.00,0.90@9.00,1.00@10.00"
    );
}

fn plain_quote(accept_time: i64, issue: &str) -> Quote {
    Quote {
        pkt_time: 0,
        accept_time,
        issue_code: issue.to_string(),
        bids: vec![(100, 10); 5],
        asks: vec![(200, 20); 5],
    }
}

#[test]
fn sort_orders_by_accept_time_stably() {
    let mut qs = vec![
        plain_quote(5, "e"),
        plain_quote(1, "a1"),
        plain_quote(3, "c"),
        plain_quote(1, "a2"),
    ];
    sort_by_accept_time(&mut qs);
    let order: Vec<(i64, &str)> =
        qs.iter().map(|q| (q.accept_time, q.issue_code.as_str())).collect();
    // Ascending by accept time; the two equal keys keep encounter order.
    assert_eq!(order, vec![(1, "a1"), (1, "a2"), (3, "c"), (5, "e")]);
    for w in qs.windows(2) {
        assert!(w[0].accept_time <= w[1].accept_time);
    }
}

#[test]
fn sort_keeps_already_sorted_input() {
    let mut qs = vec![plain_quote(1, "a"), plain_quote(2, "b")];
    sort_by_accept_time(&mut qs);
    assert_eq!(qs.len(), 2);
    assert_eq!(qs[0].issue_code, "a");
    assert_eq!(qs[1].issue_code, "b");
}

#[test]
fn csv_header_names_all_columns() {
    let h = csv_header();
    assert_eq!(
        h,
        "Packet Time,Accept Time,Issue Code,\
         BidQuantity@BidPrice 5th,BidQuantity@BidPrice 4th,BidQuantity@BidPrice 3rd,\
         BidQuantity@BidPrice 2nd,BidQuantity@BidPrice 1st,\
         AskQuantity@AskPrice 1st,AskQuantity@AskPrice 2nd,AskQuantity@AskPrice 3rd,\
         AskQuantity@AskPrice 4th,AskQuantity@AskPrice 5th"
    );
    assert_eq!(h.split(',').count(), 13);
}

#[test]
fn marked_but_truncated_frame_is_skipped() {
    // Long enough to pass the filter, too short for the 214-character
    // window: the frame is dropped, the run goes on.
    let mut f = frame(&sample_window());
    f.truncate(240);
    assert!(is_valid_quote(&f));
    let quotes = process_frames(&vec![(1, f), (2, frame(&sample_window()))]);
    assert_eq!(quotes.len(), 1);
    assert_eq!(quotes[0].pkt_time, 2);
}

#[test]
fn three_frame_capture_end_to_end() {
    let late = window(
        "KR4301F32705",
        &[
            ("00500", "0000050"),
            ("00400", "0000040"),
            ("00300", "0000030"),
            ("00200", "0000020"),
            ("00100", "0000010"),
        ],
        &[
            ("00600", "0000060"),
            ("00700", "0000070"),
            ("00800", "0000080"),
            ("00900", "0000090"),
            ("01000", "0000100"),
        ],
        "10000000",
    );
    let early = window(
        "KR4301F32713",
        &[
            ("00500", "0000050"),
            ("00400", "0000040"),
            ("00300", "0000030"),
            ("00200", "0000020"),
            ("00100", "0000010"),
        ],
        &[
            ("00600", "0000060"),
            ("00700", "0000070"),
            ("00800", "0000080"),
            ("00900", "0000090"),
            ("01000", "0000100"),
        ],
        "09000000",
    );
    let mut bad = frame(&late);
    bad[46] = b'5'; // wrong marker: contributes no quote
    let frames: Vec<(u32, Vec<u8>)> = vec![(10, bad), (11, frame(&late)), (12, frame(&early))];

    let mut quotes = process_frames(&frames);
    assert_eq!(quotes.len(), 2);
    // Without sorting, output order is encounter order.
    assert_eq!(quotes[0].issue_code, "KR4301F32705");
    assert_eq!(quotes[1].issue_code, "KR4301F32713");

    sort_by_accept_time(&mut quotes);
    assert_eq!(quotes[0].issue_code, "KR4301F32713");
    assert_eq!(quotes[1].issue_code, "KR4301F32705");

    let lines = render_quotes(&quotes, true);
    assert_eq!(lines.len(), 3);
    assert!(lines[0].starts_with("Packet Time,Accept Time,Issue Code,"));
    assert_eq!(lines[1].split(',').count(), 13);
    assert!(lines[1].contains(",2011-02-16T00:00:00,KR4301F32713,"));
    assert!(lines[2].contains(",2011-02-16T01:00:00,KR4301F32705,"));

    let plain = render_quotes(&quotes, false);
    assert_eq!(plain.len(), 2);
    assert!(plain[0].contains(" KR4301F32713 "));
}
