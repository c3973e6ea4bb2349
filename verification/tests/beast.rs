use readsb::net::protocols::beast::{
    beast_analysis, decode_record, decode_records, destuff_beast, encode_beast_output,
    encode_record, escape_beast, parse_beast_frame, parse_timestamp, scan_beast_frames,
    BeastFrame,
};

fn frame(ts: i64, ty: u8, payload: Vec<u8>) -> BeastFrame {
    BeastFrame { timestamp: ts, frame_type: ty, payload, rssi: 0x40 }
}

#[test]
fn escape_doubles_marker() {
    assert_eq!(escape_beast(&[0x01, 0x1a, 0x02]), vec![0x01, 0x1a, 0x1a, 0x02]);
    assert_eq!(escape_beast(&[]), Vec::<u8>::new());
}

#[test]
fn destuff_collapses_pairs() {
    assert_eq!(destuff_beast(&[0x1a, 0x1a, 0x05, 0x1a]), vec![0x1a, 0x05, 0x1a]);
    assert_eq!(destuff_beast(&[0x1a, 0x1a, 0x1a, 0x1a]), vec![0x1a, 0x1a]);
}

#[test]
fn destuff_undoes_escape() {
    let data = vec![0x1a, 0x1a, 0x00, 0x1a, 0xff, 0x1a];
    assert_eq!(destuff_beast(&escape_beast(&data)), data);
}

#[test]
fn output_frame_layout() {
    let out = encode_beast_output(&[0x5d, 0x1a, 0x03], 0x22, 0x0102_0304_0506);
    assert_eq!(
        out,
        vec![0x1a, 0x32, 0x01, 0x02, 0x03, 0x04, 0x05, 0x06, 0x22, 0x5d, 0x1a, 0x1a, 0x03]
    );
    let long = encode_beast_output(&[0u8; 14], 0xff, 1);
    assert_eq!(long[1], 0x33);
    assert_eq!(long.len(), 9 + 14);
}

#[test]
fn output_frame_parses_back() {
    let data = vec![0x8d, 0x1a, 0x40, 0xd6, 0x1a, 0x1a, 0xc3, 0x71, 0xc3, 0x2c, 0xe0, 0x57, 0x60, 0x98];
    let out = encode_beast_output(&data, 0x7f, 123_456_789);
    let f = parse_beast_frame(&out).unwrap();
    assert_eq!(f.payload, data);
    assert_eq!(f.rssi, 0x7f);
    assert_eq!(f.timestamp, 123_456_789);
    assert_eq!(f.frame_type, 0x33);
}

#[test]
fn negative_timestamp_keeps_low_48_bits() {
    let out = encode_beast_output(&[1, 2, 3, 4, 5, 6, 7], 0, -1);
    let f = parse_beast_frame(&out).unwrap();
    assert_eq!(f.timestamp, 0xFFFF_FFFF_FFFF);
}

#[test]
fn parse_rejects_bad_frames() {
    assert!(parse_beast_frame(&[0x1a, 0x32, 0, 0, 0, 0, 0, 0, 0]).is_none());
    assert!(parse_beast_frame(&[0x1b, 0x32, 0, 0, 0, 0, 0, 0, 0, 1]).is_none());
    assert!(parse_beast_frame(&[0x1a, 0x31, 0, 0, 0, 0, 0, 0, 0, 1]).is_none());
    assert!(parse_beast_frame(&[0x1a, 0x32, 0, 0, 0, 0, 0, 0, 0, 1]).is_some());
}

#[test]
fn parse_truncates_short_payload() {
    let mut data = vec![0x1a, 0x32, 0, 0, 0, 0, 0, 9, 0x10];
    data.extend_from_slice(&[1, 2, 3, 4, 5, 6, 7, 8, 9, 10]);
    let f = parse_beast_frame(&data).unwrap();
    assert_eq!(f.payload, vec![1, 2, 3, 4, 5, 6, 7]);
    assert_eq!(f.timestamp, 9);
    assert_eq!(f.rssi, 0x10);
}

#[test]
fn record_round_trip() {
    let f = frame(0x0000_1234_5678_9abc, 0x33, vec![1, 2, 3]);
    let rec = encode_record(&f);
    assert_eq!(rec, vec![0x12, 0x34, 0x56, 0x78, 0x9a, 0xbc, 0x00, 0x33, 3, 1, 2, 3]);
    let back = decode_record(&rec).unwrap();
    assert_eq!(back.timestamp, f.timestamp);
    assert_eq!(back.frame_type, 0x33);
    assert_eq!(back.payload, vec![1, 2, 3]);
    assert_eq!(back.rssi, 0xff);
}

#[test]
fn decode_record_rejects_short_input() {
    assert!(decode_record(&[0u8; 8]).is_none());
    assert!(decode_record(&[0, 0, 0, 0, 0, 0, 0, 0x32, 2, 1]).is_none());
}

#[test]
fn records_back_to_back() {
    let mut data = encode_record(&frame(1, 0x32, vec![0xaa; 7]));
    data.extend(encode_record(&frame(2, 0x33, vec![0xbb; 14])));
    data.extend_from_slice(&[0, 0, 0, 0, 0, 3, 0, 0x32, 7, 1]);
    let frames = decode_records(&data);
    assert_eq!(frames.len(), 2);
    assert_eq!(frames[0].timestamp, 1);
    assert_eq!(frames[1].payload, vec![0xbb; 14]);
}

#[test]
fn timestamp_needs_six_bytes() {
    assert_eq!(parse_timestamp(&[0, 0, 0, 0, 1]), None);
    assert_eq!(parse_timestamp(&[0, 0, 0, 0, 1, 0]), Some(256));
}

#[test]
fn analysis_counts_and_gaps() {
    let frames = vec![
        frame(0, 0x32, vec![0x5d, 0]),
        frame(500_000, 0x33, vec![0x8d, 0]),
        frame(2_600_000, 0x33, vec![0x8d]),
        frame(2_000_000, 0x32, vec![]),
    ];
    let a = beast_analysis(&frames);
    assert_eq!(a.total_frames, 4);
    assert_eq!(a.short_frames, 2);
    assert_eq!(a.long_frames, 2);
    assert_eq!(a.stuffing_errors, 0);
    assert_eq!(a.df_counts[11], 1);
    assert_eq!(a.df_counts[17], 2);
    assert_eq!(a.max_gap_ms, 2100);
    assert_eq!(a.mean_gap_ms, (500 + 2100 - 600) / 3);
    assert_eq!(a.gaps_gt_1000ms, 1);
}

#[test]
fn analysis_of_nothing() {
    let a = beast_analysis(&[]);
    assert_eq!(a.total_frames, 0);
    assert_eq!(a.max_gap_ms, 0);
    assert_eq!(a.mean_gap_ms, 0);
}

#[test]
fn scan_finds_frames_and_consumes() {
    let mut buf = encode_beast_output(&[0x5d, 1, 2, 3, 4, 5, 6], 1, 10);
    buf.extend(encode_beast_output(&[0x5d, 9, 9, 9, 9, 9, 9], 2, 20));
    buf.extend_from_slice(&[0x1a, 0x32, 0, 0]);
    let total = buf.len();
    let mut frames = Vec::new();
    let consumed = scan_beast_frames(&buf, total, 1000, &mut frames);
    assert_eq!(frames.len(), 2);
    assert_eq!(frames[1].timestamp, 20);
    assert_eq!(consumed, total - 4);
}

#[test]
fn scan_stops_at_max_frames() {
    let mut buf = encode_beast_output(&[0x5d, 1, 2, 3, 4, 5, 6], 1, 10);
    buf.extend(encode_beast_output(&[0x5d, 9, 9, 9, 9, 9, 9], 2, 20));
    let total = buf.len();
    let mut frames = Vec::new();
    let consumed = scan_beast_frames(&buf, total, 1, &mut frames);
    assert_eq!(frames.len(), 1);
    assert_eq!(consumed, 16);
}

#[test]
fn fragment_is_kept_for_the_next_read() {
    let whole = encode_beast_output(&[0x5d, 1, 2, 3, 4, 5, 6], 0xff, 1);
    assert_eq!(whole.len(), 16);
    let mut once = Vec::new();
    assert_eq!(scan_beast_frames(&whole, 16, 10, &mut once), 16);
    assert_eq!(once.len(), 1);

    let mut buf = vec![0u8; 64];
    buf[..5].copy_from_slice(&whole[..5]);
    let mut frames = Vec::new();
    let consumed = scan_beast_frames(&buf, 5, 10, &mut frames);
    assert!(frames.is_empty());
    assert_eq!(consumed, 0);

    buf[5..16].copy_from_slice(&whole[5..]);
    let consumed = scan_beast_frames(&buf, 16, 10, &mut frames);
    assert_eq!(consumed, 16);
    assert_eq!(frames.len(), 1);
    assert_eq!(frames[0].timestamp, once[0].timestamp);
    assert_eq!(frames[0].rssi, 0xff);
    assert_eq!(frames[0].payload, once[0].payload);
    assert_eq!(frames[0].payload, vec![0x5d, 1, 2, 3, 4, 5, 6]);
}

#[test]
fn frame_missing_payload_bytes_waits() {
    let whole = encode_beast_output(&[0x8d, 1, 2, 3, 4, 5, 6, 7, 8, 9, 10, 11, 12, 13], 7, 3);
    let mut frames = Vec::new();
    let consumed = scan_beast_frames(&whole, 20, 10, &mut frames);
    assert!(frames.is_empty());
    assert_eq!(consumed, 0);
}

#[test]
fn bytes_without_a_frame_are_kept() {
    let buf = [0x00u8, 0x1a, 0x40, 0x07, 0x08];
    let mut frames = Vec::new();
    assert_eq!(scan_beast_frames(&buf, 5, 10, &mut frames), 0);
    assert!(frames.is_empty());
}

#[test]
fn bytes_after_the_last_frame_are_kept_from_its_next_marker() {
    let mut buf = encode_beast_output(&[0x5d, 1, 2, 3, 4, 5, 6], 1, 10);
    buf.extend_from_slice(&[0x00, 0x07]);
    let mut frames = Vec::new();
    assert_eq!(scan_beast_frames(&buf, 18, 10, &mut frames), 18);
    assert_eq!(frames.len(), 1);

    buf.extend_from_slice(&[0x1a, 0x40, 0x01]);
    let mut frames = Vec::new();
    assert_eq!(scan_beast_frames(&buf, 21, 10, &mut frames), 18);
    assert_eq!(frames.len(), 1);
}
