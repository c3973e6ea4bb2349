//! The Beast binary protocol: frames on the wire (0x1a-stuffed), timestamped records for
//! files, and statistics over a batch of frames.
use vstd::prelude::*;

verus! {

/// The frame start marker, doubled when it occurs inside a payload.
pub const BEAST_ESCAPE: u8 = 0x1a;

/// Frame type of a short (56-bit) Mode S frame.
pub const BEAST_SHORT: u8 = 0x32;

/// Frame type of a long (112-bit) Mode S frame.
pub const BEAST_LONG: u8 = 0x33;

/// A Beast frame.
#[derive(Debug, Clone)]
pub struct BeastFrame {
    pub timestamp: i64,
    pub frame_type: u8,
    pub payload: Vec<u8>,
    pub rssi: u8,
}

// ---------------------------------------------------------------------------
// Timestamps
// ---------------------------------------------------------------------------

/// The 48-bit big-endian value of the first six bytes of `b`.
pub open spec fn be48(b: Seq<u8>) -> i64 {
    (((b[0] as u64) << 40u64) | ((b[1] as u64) << 32u64) | ((b[2] as u64) << 24u64) | ((
    b[3] as u64) << 16u64) | ((b[4] as u64) << 8u64) | (b[5] as u64)) as i64
}

/// The low 48 bits of a timestamp (of its two's complement form when negative).
pub open spec fn low48(ts: i64) -> i64 {
    ((ts as u64) & 0xFFFF_FFFF_FFFFu64) as i64
}

/// The six bytes of the low 48 bits of a timestamp, most significant first.
pub open spec fn ts_bytes(ts: i64) -> Seq<u8> {
    let u = ts as u64;
    seq![
        (u >> 40u64) as u8,
        (u >> 32u64) as u8,
        (u >> 24u64) as u8,
        (u >> 16u64) as u8,
        (u >> 8u64) as u8,
        u as u8,
    ]
}

fn be48_of(b: &[u8]) -> (v: i64)
    requires
        b@.len() >= 6,
    ensures
        v == be48(b@),
        0 <= v < 0x1_0000_0000_0000,
{
    let (b0, b1, b2, b3, b4, b5) = (b[0], b[1], b[2], b[3], b[4], b[5]);
    let u: u64 = ((b0 as u64) << 40) | ((b1 as u64) << 32) | ((b2 as u64) << 24) | ((b3 as u64)
        << 16) | ((b4 as u64) << 8) | (b5 as u64);
    assert(u < 0x1_0000_0000_0000u64) by (bit_vector)
        requires
            u == ((b0 as u64) << 40u64) | ((b1 as u64) << 32u64) | ((b2 as u64) << 24u64) | ((
            b3 as u64) << 16u64) | ((b4 as u64) << 8u64) | (b5 as u64),
    ;
    u as i64
}

fn push_ts_bytes(out: &mut Vec<u8>, ts: i64)
    ensures
        final(out)@ == old(out)@ + ts_bytes(ts),
{
    let u = ts as u64;
    out.push((u >> 40) as u8);
    out.push((u >> 32) as u8);
    out.push((u >> 24) as u8);
    out.push((u >> 16) as u8);
    out.push((u >> 8) as u8);
    out.push(u as u8);
    assert(out@ =~= old(out)@ + ts_bytes(ts));
}

/// The six timestamp bytes read back give the low 48 bits of the timestamp.
pub proof fn lemma_ts_round_trip(ts: i64)
    ensures
        be48(ts_bytes(ts)) == low48(ts),
        0 <= low48(ts) < 0x1_0000_0000_0000,
        0 <= ts < 0x1_0000_0000_0000 ==> low48(ts) == ts,
{
    let u = ts as u64;
    let (b0, b1, b2, b3, b4, b5) = (
        (u >> 40u64) as u8,
        (u >> 32u64) as u8,
        (u >> 24u64) as u8,
        (u >> 16u64) as u8,
        (u >> 8u64) as u8,
        u as u8,
    );
    assert((((b0 as u64) << 40u64) | ((b1 as u64) << 32u64) | ((b2 as u64) << 24u64) | ((
    b3 as u64) << 16u64) | ((b4 as u64) << 8u64) | (b5 as u64)) == u & 0xFFFF_FFFF_FFFFu64)
        by (bit_vector)
        requires
            b0 == (u >> 40u64) as u8,
            b1 == (u >> 32u64) as u8,
            b2 == (u >> 24u64) as u8,
            b3 == (u >> 16u64) as u8,
            b4 == (u >> 8u64) as u8,
            b5 == u as u8,
    ;
    assert((u & 0xFFFF_FFFF_FFFFu64) < 0x1_0000_0000_0000u64) by (bit_vector);
    assert(0 <= ts < 0x1_0000_0000_0000i64 ==> ((ts as u64) & 0xFFFF_FFFF_FFFFu64) as i64 == ts)
        by (bit_vector);
}

/// Read a 48-bit big-endian timestamp from the first six bytes.
pub fn parse_timestamp(data: &[u8]) -> (ts: Option<i64>)
    ensures
        data@.len() < 6 ==> ts is None,
        data@.len() >= 6 ==> ts == Some(be48(data@)),
{
    if data.len() < 6 {
        return None;
    }
    Some(be48_of(data))
}

// ---------------------------------------------------------------------------
// Byte stuffing
// ---------------------------------------------------------------------------

/// The wire form of one payload byte: the escape byte is doubled.
pub open spec fn escaped_byte(b: u8) -> Seq<u8> {
    if b == BEAST_ESCAPE {
        seq![BEAST_ESCAPE, BEAST_ESCAPE]
    } else {
        seq![b]
    }
}

/// The wire form of a payload: every escape byte doubled.
pub open spec fn escaped(s: Seq<u8>) -> Seq<u8>
    decreases s.len(),
{
    if s.len() == 0 {
        Seq::<u8>::empty()
    } else {
        escaped_byte(s[0]) + escaped(s.subrange(1, s.len() as int))
    }
}

/// A payload read from the wire: each doubled escape byte collapsed to one.
pub open spec fn destuffed(s: Seq<u8>) -> Seq<u8>
    decreases s.len(),
{
    if s.len() == 0 {
        Seq::<u8>::empty()
    } else if s.len() >= 2 && s[0] == BEAST_ESCAPE && s[1] == BEAST_ESCAPE {
        seq![BEAST_ESCAPE] + destuffed(s.subrange(2, s.len() as int))
    } else {
        seq![s[0]] + destuffed(s.subrange(1, s.len() as int))
    }
}

/// Escape 0x1a bytes by doubling them.
pub fn escape_beast(data: &[u8]) -> (out: Vec<u8>)
    ensures
        out@ == escaped(data@),
{
    let n = data.len();
    let mut out: Vec<u8> = Vec::new();
    let mut i: usize = 0;
    assert(data@.subrange(0, n as int) =~= data@);
    while i < n
        invariant
            i <= n == data@.len(),
            out@ + escaped(data@.subrange(i as int, n as int)) == escaped(data@),
        decreases n - i,
    {
        let b = data[i];
        let ghost rest = data@.subrange(i as int, n as int);
        assert(rest.subrange(1, rest.len() as int) =~= data@.subrange(i + 1, n as int));
        let ghost before = out@;
        out.push(b);
        if b == BEAST_ESCAPE {
            out.push(BEAST_ESCAPE);
        }
        assert(out@ =~= before + escaped_byte(b));
        assert(before + escaped(rest) =~= out@ + escaped(data@.subrange(i + 1, n as int)));
        i = i + 1;
    }
    assert(out@ + escaped(data@.subrange(n as int, n as int)) =~= out@);
    out
}

/// Collapse each 0x1a 0x1a pair back to one 0x1a.
pub fn destuff_beast(data: &[u8]) -> (out: Vec<u8>)
    ensures
        out@ == destuffed(data@),
{
    let n = data.len();
    let mut out: Vec<u8> = Vec::new();
    let mut i: usize = 0;
    assert(data@.subrange(0, n as int) =~= data@);
    while i < n
        invariant
            i <= n == data@.len(),
            out@ + destuffed(data@.subrange(i as int, n as int)) == destuffed(data@),
        decreases n - i,
    {
        let ghost rest = data@.subrange(i as int, n as int);
        let ghost before = out@;
        out.push(data[i]);
        if data[i] == BEAST_ESCAPE && i + 1 < n && data[i + 1] == BEAST_ESCAPE {
            assert(rest.subrange(2, rest.len() as int) =~= data@.subrange(i + 2, n as int));
            assert(before + destuffed(rest) =~= out@ + destuffed(data@.subrange(i + 2, n as int)));
            i = i + 2;
        } else {
            assert(rest.subrange(1, rest.len() as int) =~= data@.subrange(i + 1, n as int));
            assert(before + destuffed(rest) =~= out@ + destuffed(data@.subrange(i + 1, n as int)));
            i = i + 1;
        }
    }
    assert(out@ + destuffed(data@.subrange(n as int, n as int)) =~= out@);
    out
}

/// Escaping doubles at most every byte, and drops none.
pub proof fn lemma_escaped_len(s: Seq<u8>)
    ensures
        s.len() <= escaped(s).len() <= 2 * s.len(),
    decreases s.len(),
{
    if s.len() > 0 {
        lemma_escaped_len(s.subrange(1, s.len() as int));
    }
}

/// Destuffing undoes escaping.
pub proof fn lemma_destuff_escaped(s: Seq<u8>)
    ensures
        destuffed(escaped(s)) == s,
    decreases s.len(),
{
    if s.len() > 0 {
        let rest = s.subrange(1, s.len() as int);
        lemma_destuff_escaped(rest);
        let e = escaped(s);
        let u = escaped_byte(s[0]);
        assert(e == u + escaped(rest));
        if s[0] == BEAST_ESCAPE {
            assert(e.subrange(2, e.len() as int) =~= escaped(rest));
        } else {
            assert(e.subrange(1, e.len() as int) =~= escaped(rest));
        }
        assert(destuffed(e) =~= s);
    }
}

// ---------------------------------------------------------------------------
// Frames on the wire
// ---------------------------------------------------------------------------

/// Whether a buffer starts with a frame: at least ten bytes, the start marker, and a short or
/// long frame type.
pub open spec fn is_beast_frame(data: Seq<u8>) -> bool {
    &&& data.len() >= 10
    &&& data[0] == BEAST_ESCAPE
    &&& (data[1] == BEAST_SHORT || data[1] == BEAST_LONG)
}

/// The payload of a frame: the destuffed bytes after the header (at most 14 stuffed bytes
/// for a short frame, 28 for a long one), cut to 7 or 14 bytes.
pub open spec fn beast_payload(data: Seq<u8>) -> Seq<u8> {
    let short = data[1] == BEAST_SHORT;
    let max_stuffed: int = if short {
        14
    } else {
        28
    };
    let raw_end = if 9 + max_stuffed < data.len() {
        9 + max_stuffed
    } else {
        data.len() as int
    };
    let p = destuffed(data.subrange(9, raw_end));
    let max_len: int = if short {
        7
    } else {
        14
    };
    if p.len() > max_len {
        p.subrange(0, max_len)
    } else {
        p
    }
}

/// `f` is the frame at the start of `data`: its timestamp, type, RSSI and payload.
pub open spec fn frame_read_from(f: BeastFrame, data: Seq<u8>) -> bool {
    &&& f.timestamp == be48(data.subrange(2, 8))
    &&& f.frame_type == data[1]
    &&& f.rssi == data[8]
    &&& f.payload@ == beast_payload(data)
}

/// Parse a frame at the start of `data`: 0x1a, type, 6-byte timestamp, RSSI, stuffed
/// payload.
pub fn parse_beast_frame(data: &[u8]) -> (r: Option<BeastFrame>)
    ensures
        !is_beast_frame(data@) ==> r is None,
        is_beast_frame(data@) ==> (r matches Some(f) && frame_read_from(f, data@)),
{
    if data.len() < 9 {
        return None;
    }
    if data[0] != BEAST_ESCAPE {
        return None;
    }
    if data[1] != BEAST_SHORT && data[1] != BEAST_LONG {
        return None;
    }
    let timestamp = be48_of(&data[2..8]);
    let rssi = data[8];
    let max_stuffed: usize = if data[1] == BEAST_SHORT {
        14
    } else {
        28
    };
    let raw_end = if 9 + max_stuffed < data.len() {
        9 + max_stuffed
    } else {
        data.len()
    };
    if raw_end <= 9 {
        return None;
    }
    let mut payload = destuff_beast(&data[9..raw_end]);
    let max_len: usize = if data[1] == BEAST_SHORT {
        7
    } else {
        14
    };
    payload.truncate(max_len);
    let f = BeastFrame { timestamp, frame_type: data[1], payload, rssi };
    assert(data@.subrange(2, 8) =~= data@.subrange(2, 8));
    assert(f.payload@ == beast_payload(data@));
    assert(frame_read_from(f, data@));
    Some(f)
}

/// The wire form of a frame: start marker, type (short for payloads of at most 7 bytes),
/// the low 48 bits of the timestamp, the RSSI byte, and the escaped payload.
pub open spec fn beast_output(data: Seq<u8>, rssi: u8, timestamp_us: i64) -> Seq<u8> {
    seq![BEAST_ESCAPE, if data.len() <= 7 {
        BEAST_SHORT
    } else {
        BEAST_LONG
    }] + ts_bytes(timestamp_us) + seq![rssi] + escaped(data)
}

/// Encode raw Mode S bytes as a Beast frame with the given RSSI byte.
pub fn encode_beast_output(data: &[u8], rssi: u8, timestamp_us: i64) -> (out: Vec<u8>)
    ensures
        out@ == beast_output(data@, rssi, timestamp_us),
{
    let mut out: Vec<u8> = Vec::new();
    out.push(BEAST_ESCAPE);
    let msg_type = if data.len() <= 7 {
        BEAST_SHORT
    } else {
        BEAST_LONG
    };
    out.push(msg_type);
    push_ts_bytes(&mut out, timestamp_us);
    out.push(rssi);
    let mut esc = escape_beast(data);
    out.append(&mut esc);
    assert(out@ =~= beast_output(data@, rssi, timestamp_us));
    out
}

/// A Mode S frame of 1 to 14 bytes sent as a Beast frame is read back unchanged: same
/// payload and RSSI, the frame type for its length, and the low 48 bits of the timestamp.
pub proof fn lemma_frame_round_trip(data: Seq<u8>, rssi: u8, timestamp_us: i64)
    requires
        1 <= data.len() <= 14,
    ensures
        is_beast_frame(beast_output(data, rssi, timestamp_us)),
        be48(beast_output(data, rssi, timestamp_us).subrange(2, 8)) == low48(timestamp_us),
        beast_output(data, rssi, timestamp_us)[8] == rssi,
        beast_payload(beast_output(data, rssi, timestamp_us)) == data,
{
    let out = beast_output(data, rssi, timestamp_us);
    lemma_escaped_len(data);
    lemma_destuff_escaped(data);
    lemma_ts_round_trip(timestamp_us);
    assert(out.subrange(2, 8) =~= ts_bytes(timestamp_us));
    let short = out[1] == BEAST_SHORT;
    let max_stuffed: int = if short {
        14
    } else {
        28
    };
    let raw_end = if 9 + max_stuffed < out.len() {
        9 + max_stuffed
    } else {
        out.len() as int
    };
    assert(raw_end == out.len());
    assert(out.subrange(9, raw_end) =~= escaped(data));
}

// ---------------------------------------------------------------------------
// Records
// ---------------------------------------------------------------------------

/// A record: the low 48 bits of the timestamp, a zero flags byte, the frame type, the payload
/// length (its low 8 bits) and the payload.
pub open spec fn record_bytes(timestamp: i64, frame_type: u8, payload: Seq<u8>) -> Seq<u8> {
    ts_bytes(timestamp) + seq![0u8, frame_type, payload.len() as u8] + payload
}

/// Encode a frame as a timestamped record for file storage.
pub fn encode_record(frame: &BeastFrame) -> (out: Vec<u8>)
    ensures
        out@ == record_bytes(frame.timestamp, frame.frame_type, frame.payload@),
{
    let mut out: Vec<u8> = Vec::new();
    push_ts_bytes(&mut out, frame.timestamp);
    out.push(0x00);
    out.push(frame.frame_type);
    out.push(frame.payload.len() as u8);
    let mut i: usize = 0;
    let ghost head = out@;
    while i < frame.payload.len()
        invariant
            i <= frame.payload@.len(),
            out@ == head + frame.payload@.subrange(0, i as int),
        decreases frame.payload@.len() - i,
    {
        out.push(frame.payload[i]);
        assert(frame.payload@.subrange(0, i + 1) =~= frame.payload@.subrange(0, i as int).push(
            frame.payload@[i as int],
        ));
        i = i + 1;
    }
    assert(frame.payload@.subrange(0, frame.payload@.len() as int) =~= frame.payload@);
    assert(out@ =~= record_bytes(frame.timestamp, frame.frame_type, frame.payload@));
    out
}

/// Whether `data` starts with a complete record: nine header bytes and the payload its
/// length byte announces.
pub open spec fn is_record(data: Seq<u8>) -> bool {
    data.len() >= 9 && data.len() >= 9 + data[8]
}

/// Decode a timestamped record; the RSSI is not stored and reads as 0xff.
pub fn decode_record(data: &[u8]) -> (r: Option<BeastFrame>)
    ensures
        !is_record(data@) ==> r is None,
        is_record(data@) ==> (r matches Some(f) && f.timestamp == be48(data@) && f.frame_type
            == data@[7] && f.payload@ == data@.subrange(9, 9 + data@[8]) && f.rssi == 0xff),
{
    if data.len() < 9 {
        return None;
    }
    let timestamp = be48_of(data);
    let frame_type = data[7];
    let payload_len = data[8] as usize;
    if data.len() < 9 + payload_len {
        return None;
    }
    let payload = vstd::slice::slice_to_vec(&data[9..9 + payload_len]);
    Some(BeastFrame { timestamp, frame_type, payload, rssi: 0xff })
}

/// `f` is the frame stored in the record `rec`.
pub open spec fn frame_of_record(f: BeastFrame, rec: Seq<u8>) -> bool {
    &&& f.timestamp == be48(rec)
    &&& f.frame_type == rec[7]
    &&& f.payload@ == rec.subrange(9, 9 + rec[8])
    &&& f.rssi == 0xff
}

/// The start positions of the records stored back to back in `data` from position `i`,
/// up to the first incomplete one.
pub open spec fn record_starts(data: Seq<u8>, i: int) -> Seq<int>
    decreases data.len() - i,
{
    if i < 0 || i + 9 > data.len() || i + 9 + data[i + 8] > data.len() {
        Seq::<int>::empty()
    } else {
        seq![i] + record_starts(data, i + 9 + data[i + 8])
    }
}

/// The record beginning at a start position.
pub open spec fn record_at(data: Seq<u8>, start: int) -> Seq<u8> {
    data.subrange(start, start + 9 + data[start + 8])
}

/// Decode the records stored back to back in a file's bytes, stopping at the first
/// incomplete one.
pub fn decode_records(data: &[u8]) -> (frames: Vec<BeastFrame>)
    ensures
        frames@.len() == record_starts(data@, 0).len(),
        forall|k: int|
            0 <= k < frames@.len() ==> frame_of_record(
                #[trigger] frames@[k],
                record_at(data@, record_starts(data@, 0)[k]),
            ),
{
    let mut frames: Vec<BeastFrame> = Vec::new();
    let mut i: usize = 0;
    let ghost mut taken: Seq<int> = Seq::empty();
    while data.len() - i >= 9
        invariant
            i <= data@.len(),
            frames@.len() == taken.len(),
            record_starts(data@, 0) == taken + record_starts(data@, i as int),
            forall|k: int|
                0 <= k < taken.len() ==> frame_of_record(
                    #[trigger] frames@[k],
                    record_at(data@, taken[k]),
                ),
        decreases data@.len() - i,
    {
        let payload_len = data[i + 8] as usize;
        let total_len = 9 + payload_len;
        if total_len > data.len() - i {
            assert(record_starts(data@, i as int) =~= Seq::<int>::empty());
            assert(record_starts(data@, data@.len() as int) =~= Seq::<int>::empty());
            i = data.len();
            continue;
        }
        let rec = vstd::slice::slice_subrange(data, i, i + total_len);
        let r = decode_record(rec);
        assert(rec@ == record_at(data@, i as int));
        assert(is_record(rec@));
        match r {
            Some(frame) => {
                proof {
                    let old_taken = taken;
                    taken = taken.push(i as int);
                    assert(old_taken + record_starts(data@, i as int) =~= taken
                        + record_starts(data@, (i + total_len) as int));
                    assert(frame_of_record(frame, record_at(data@, i as int)));
                }
                frames.push(frame);
                proof {
                    assert forall|k: int| 0 <= k < taken.len() implies frame_of_record(
                        #[trigger] frames@[k],
                        record_at(data@, taken[k]),
                    ) by {
                        if k < taken.len() - 1 {
                            assert(frames@[k] == frames@[k]);
                        }
                    }
                }
            },
            None => {},
        }
        i = i + total_len;
    }
    proof {
        assert(record_starts(data@, i as int) =~= Seq::<int>::empty());
        assert(taken + Seq::<int>::empty() =~= taken);
    }
    frames
}

/// A frame with at most 255 payload bytes stored as a record is read back with the same type
/// and payload, the low 48 bits of its timestamp, and RSSI 0xff.
pub proof fn lemma_record_round_trip(timestamp: i64, frame_type: u8, payload: Seq<u8>)
    requires
        payload.len() <= 255,
    ensures
        is_record(record_bytes(timestamp, frame_type, payload)),
        be48(record_bytes(timestamp, frame_type, payload)) == low48(timestamp),
        record_bytes(timestamp, frame_type, payload)[7] == frame_type,
        record_bytes(timestamp, frame_type, payload).subrange(
            9,
            9 + record_bytes(timestamp, frame_type, payload)[8],
        ) == payload,
{
    let r = record_bytes(timestamp, frame_type, payload);
    lemma_ts_round_trip(timestamp);
    assert(r[8] == payload.len() as u8);
    assert(r[8] == payload.len());
    assert(r.subrange(0, 6) =~= ts_bytes(timestamp));
    assert(r.subrange(9, 9 + r[8]) =~= payload);
}

// ---------------------------------------------------------------------------
// Batch statistics
// ---------------------------------------------------------------------------

/// Protocol-level statistics for a batch of frames.
#[derive(Debug, Clone, Copy)]
pub struct BeastAnalysis {
    pub total_frames: usize,
    pub short_frames: usize,
    pub long_frames: usize,
    pub stuffing_errors: usize,
    pub df_counts: [u32; 32],
    pub max_gap_ms: i64,
    pub mean_gap_ms: i64,
    pub gaps_gt_1000ms: usize,
}

/// Integer division rounding toward zero (as machine division does), for `b > 0`.
pub open spec fn trunc_div(a: int, b: int) -> int {
    if a >= 0 {
        a / b
    } else {
        -((-a) / b)
    }
}

/// The gap in milliseconds between frame `i` and the next (timestamps in microseconds,
/// rounded toward zero).
pub open spec fn frame_gap_ms(fs: Seq<BeastFrame>, i: int) -> int {
    trunc_div(fs[i + 1].timestamp - fs[i].timestamp, 1000)
}

/// Number of short frames among the first `n`.
pub open spec fn short_count(fs: Seq<BeastFrame>, n: nat) -> nat
    decreases n,
{
    if n == 0 {
        0
    } else {
        short_count(fs, (n - 1) as nat) + if fs[n - 1].frame_type == BEAST_SHORT {
            1nat
        } else {
            0nat
        }
    }
}

/// The downlink format of a frame's payload (top five bits of its first byte), or -1 for
/// an empty payload.
pub open spec fn frame_df(f: BeastFrame) -> int {
    if f.payload@.len() > 0 {
        (f.payload@[0] >> 3u8) as int
    } else {
        -1
    }
}

/// Number of frames among the first `n` with downlink format `df`.
pub open spec fn df_count(fs: Seq<BeastFrame>, n: nat, df: int) -> nat
    decreases n,
{
    if n == 0 {
        0
    } else {
        df_count(fs, (n - 1) as nat, df) + if frame_df(fs[n - 1]) == df {
            1nat
        } else {
            0nat
        }
    }
}

/// Sum of the first `n` gaps.
pub open spec fn gap_sum(fs: Seq<BeastFrame>, n: nat) -> int
    decreases n,
{
    if n == 0 {
        0
    } else {
        gap_sum(fs, (n - 1) as nat) + frame_gap_ms(fs, n - 1)
    }
}

/// Largest of the first `n` gaps, and 0.
pub open spec fn gap_max(fs: Seq<BeastFrame>, n: nat) -> int
    decreases n,
{
    if n == 0 {
        0
    } else if frame_gap_ms(fs, n - 1) > gap_max(fs, (n - 1) as nat) {
        frame_gap_ms(fs, n - 1)
    } else {
        gap_max(fs, (n - 1) as nat)
    }
}

/// Number of the first `n` gaps longer than 1000 ms.
pub open spec fn big_gap_count(fs: Seq<BeastFrame>, n: nat) -> nat
    decreases n,
{
    if n == 0 {
        0
    } else {
        big_gap_count(fs, (n - 1) as nat) + if frame_gap_ms(fs, n - 1) > 1000 {
            1nat
        } else {
            0nat
        }
    }
}

/// Number of gaps (pairs of neighbouring frames) in a batch.
pub open spec fn gap_count(fs: Seq<BeastFrame>) -> nat {
    if fs.len() >= 2 {
        (fs.len() - 1) as nat
    } else {
        0
    }
}

/// The batches whose statistics fit the machine types the computation uses: gaps and their
/// running sums in 64 bits, counts of gaps in 32.
pub open spec fn analysis_fits(fs: Seq<BeastFrame>) -> bool {
    &&& fs.len() <= 0x8000_0000
    &&& forall|i: int|
        0 <= i < fs.len() - 1 ==> i64::MIN <= #[trigger] fs[i + 1].timestamp - fs[i].timestamp
            <= i64::MAX
    &&& forall|n: nat| n <= gap_count(fs) ==> i64::MIN <= #[trigger] gap_sum(fs, n) <= i64::MAX
}

proof fn lemma_count_bounds(fs: Seq<BeastFrame>, n: nat, df: int)
    requires
        n <= fs.len(),
    ensures
        short_count(fs, n) <= n,
        df_count(fs, n, df) <= n,
        big_gap_count(fs, n) <= n,
    decreases n,
{
    if n > 0 {
        lemma_count_bounds(fs, (n - 1) as nat, df);
    }
}

/// Compute protocol statistics from a batch of frames: frame counts by type and by
/// downlink format, and the largest, mean and over-a-second gaps between neighbours.
pub fn beast_analysis(frames: &[BeastFrame]) -> (a: BeastAnalysis)
    requires
        analysis_fits(frames@),
    ensures
        a.total_frames == frames@.len(),
        a.short_frames == short_count(frames@, frames@.len()),
        a.long_frames == frames@.len() - short_count(frames@, frames@.len()),
        a.stuffing_errors == 0,
        forall|d: int| 0 <= d < 32 ==> a.df_counts@[d] == df_count(frames@, frames@.len(), d),
        a.max_gap_ms == gap_max(frames@, gap_count(frames@)),
        a.mean_gap_ms == (if gap_count(frames@) > 0 {
            trunc_div(gap_sum(frames@, gap_count(frames@)), gap_count(frames@) as int)
        } else {
            0
        }),
        a.gaps_gt_1000ms == big_gap_count(frames@, gap_count(frames@)),
{
    let total_frames = frames.len();
    let mut short_frames: usize = 0;
    let mut long_frames: usize = 0;
    let mut df_counts = [0u32; 32];
    let mut i: usize = 0;
    while i < total_frames
        invariant
            i <= total_frames == frames@.len() <= 0x8000_0000,
            short_frames == short_count(frames@, i as nat),
            long_frames == i - short_count(frames@, i as nat),
            forall|d: int| 0 <= d < 32 ==> df_counts@[d] == df_count(frames@, i as nat, d),
        decreases total_frames - i,
    {
        proof {
            lemma_count_bounds(frames@, i as nat, 0);
        }
        if frames[i].frame_type == BEAST_SHORT {
            short_frames += 1;
        } else {
            long_frames += 1;
        }
        if frames[i].payload.len() > 0 {
            let b0 = frames[i].payload[0];
            let df = (b0 >> 3) as usize;
            assert(df < 32) by (bit_vector)
                requires
                    df == (b0 >> 3u8) as usize,
            ;
            proof {
                lemma_count_bounds(frames@, i as nat, df as int);
            }
            df_counts[df] = df_counts[df] + 1;
        }
        i += 1;
    }
    let mut max_gap_ms: i64 = 0;
    let mut sum_gaps: i64 = 0;
    let mut count_gaps: i32 = 0;
    let mut gaps_gt_1000ms: usize = 0;
    let ghost ng = gap_count(frames@);
    let mut w: usize = 0;
    while w + 1 < total_frames
        invariant
            total_frames == frames@.len() <= 0x8000_0000,
            analysis_fits(frames@),
            ng == gap_count(frames@),
            w <= ng,
            max_gap_ms == gap_max(frames@, w as nat),
            sum_gaps == gap_sum(frames@, w as nat),
            count_gaps == w,
            gaps_gt_1000ms == big_gap_count(frames@, w as nat),
        decreases total_frames - w,
    {
        let diff = frames[w + 1].timestamp - frames[w].timestamp;
        let gap_ms = diff / 1000;
        assert(gap_ms == frame_gap_ms(frames@, w as int));
        if gap_ms > max_gap_ms {
            max_gap_ms = gap_ms;
        }
        assert(gap_sum(frames@, (w + 1) as nat) == sum_gaps + gap_ms);
        assert(i64::MIN <= gap_sum(frames@, (w + 1) as nat) <= i64::MAX);
        sum_gaps += gap_ms;
        count_gaps += 1;
        proof {
            lemma_count_bounds(frames@, w as nat, 0);
        }
        if gap_ms > 1000 {
            gaps_gt_1000ms += 1;
        }
        w += 1;
    }
    let mean_gap_ms = if count_gaps > 0 {
        sum_gaps / (count_gaps as i64)
    } else {
        0
    };
    BeastAnalysis {
        total_frames,
        short_frames,
        long_frames,
        stuffing_errors: 0,
        df_counts,
        max_gap_ms,
        mean_gap_ms,
        gaps_gt_1000ms,
    }
}

// ---------------------------------------------------------------------------
// Scanning a stream buffer
// ---------------------------------------------------------------------------

/// The first position at or after `i` (and before `total`) holding the start marker, or
/// `total` when there is none.
pub open spec fn next_marker(buf: Seq<u8>, total: int, i: int) -> int
    decreases total - i,
{
    if i < total && buf[i] != BEAST_ESCAPE {
        next_marker(buf, total, i + 1)
    } else {
        i
    }
}

/// The next marker lies between the start position and the end of the scanned bytes.
pub proof fn lemma_next_marker(buf: Seq<u8>, total: int, i: int)
    ensures
        i <= total ==> i <= next_marker(buf, total, i) <= total,
        i > total ==> next_marker(buf, total, i) == i,
    decreases total - i,
{
    if i < total && buf[i] != BEAST_ESCAPE {
        lemma_next_marker(buf, total, i + 1);
    }
}

/// The payload length a frame type carries: 7 bytes for a short frame, 14 for a long one.
pub open spec fn payload_len_for(frame_type: u8) -> int {
    if frame_type == BEAST_SHORT {
        7
    } else {
        14
    }
}

/// `data` starts with a whole frame: a frame whose payload has fully arrived.
pub open spec fn is_complete_frame(data: Seq<u8>) -> bool {
    is_beast_frame(data) && beast_payload(data).len() == payload_len_for(data[1])
}

/// `data` is the beginning of a frame that has not fully arrived: a start marker followed by
/// nothing yet or by a frame type, without a whole frame.
pub open spec fn is_partial_frame(data: Seq<u8>) -> bool {
    &&& data.len() >= 1
    &&& data[0] == BEAST_ESCAPE
    &&& (data.len() < 2 || data[1] == BEAST_SHORT || data[1] == BEAST_LONG)
    &&& !is_complete_frame(data)
}

/// Scanning the first `total` bytes of `buf` from position `i` for at most `room` more frames:
/// the positions where frames start, and how far the buffer is consumed. Only the bytes
/// read so far count. At a start marker that begins a whole frame, the frame is taken and
/// the scan skips to the next marker, consumed up to there; at the beginning of a frame that
/// has not fully arrived the scan stops; anywhere else it moves on by one byte. Whether it
/// stops there, runs out of bytes or runs out of room, the buffer is consumed up to the end
/// of the last frame taken (the marker after it), so every byte since then, a frame that has
/// not fully arrived among them, is read again with the next bytes.
pub open spec fn scan_frames(buf: Seq<u8>, total: int, i: int, room: nat, consumed: int) -> (Seq<
    int,
>, int)
    decreases total - i,
{
    if i < 0 || total > buf.len() || room == 0 {
        (Seq::<int>::empty(), consumed)
    } else if i >= total {
        (Seq::<int>::empty(), consumed)
    } else if is_complete_frame(buf.subrange(i, total)) {
        proof {
            lemma_next_marker(buf, total, i + 1);
        }
        let j = next_marker(buf, total, i + 1);
        let rest = scan_frames(buf, total, j, (room - 1) as nat, j);
        (seq![i] + rest.0, rest.1)
    } else if is_partial_frame(buf.subrange(i, total)) {
        (Seq::<int>::empty(), consumed)
    } else {
        scan_frames(buf, total, i + 1, room, consumed)
    }
}

/// Bytes without a start marker among them destuff to themselves.
proof fn lemma_destuffed_plain(s: Seq<u8>)
    requires
        forall|j: int| 0 <= j < s.len() ==> s[j] != BEAST_ESCAPE,
    ensures
        destuffed(s) == s,
    decreases s.len(),
{
    if s.len() > 0 {
        let t = s.subrange(1, s.len() as int);
        lemma_destuffed_plain(t);
        assert(seq![s[0]] + t =~= s);
    }
}

/// A frame that arrives in two reads is kept whole: scanning only its first `k` bytes takes
/// nothing and consumes nothing, so those bytes stay for the next read; scanning all of it
/// takes it and consumes it. (The frame here is exactly one short or long frame with no
/// marker byte after its first, as in an unescaped frame.)
pub proof fn lemma_fragment_waits(f: Seq<u8>, k: int, room: nat)
    requires
        is_beast_frame(f),
        f.len() == 9 + payload_len_for(f[1]),
        forall|j: int| 1 <= j < f.len() ==> f[j] != BEAST_ESCAPE,
        1 <= k < f.len(),
        room > 0,
    ensures
        scan_frames(f.subrange(0, k), k, 0, room, 0) == (Seq::<int>::empty(), 0int),
        scan_frames(f, f.len() as int, 0, room, 0) == (seq![0int], f.len() as int),
{
    let n = f.len() as int;
    lemma_destuffed_plain(f.subrange(9, n));
    assert(f.subrange(0, n) =~= f);
    assert(is_complete_frame(f));
    assert forall|j: int| 1 <= j <= n implies next_marker(f, n, j) == n by {
        lemma_next_from(f, n, j);
    }
    assert(scan_frames(f, n, n, (room - 1) as nat, n) == (Seq::<int>::empty(), n));
    assert(seq![0int] + Seq::<int>::empty() =~= seq![0int]);
    let p = f.subrange(0, k);
    assert(p.subrange(0, k) =~= p);
    if k >= 10 {
        lemma_destuffed_plain(p.subrange(9, k));
    }
    assert(!is_complete_frame(p));
    assert(is_partial_frame(p));
}

/// With no marker from `j` on, the next marker is the end.
proof fn lemma_next_from(buf: Seq<u8>, total: int, j: int)
    requires
        1 <= j <= total <= buf.len(),
        forall|x: int| 1 <= x < total ==> buf[x] != BEAST_ESCAPE,
    ensures
        next_marker(buf, total, j) == total,
    decreases total - j,
{
    if j < total {
        lemma_next_from(buf, total, j + 1);
    }
}

/// Scan the first `total` bytes of a receive buffer for frames, appending them to `frames`
/// until it holds `max_frames`; return how many bytes are consumed (see `scan_frames`). The
/// bytes from there to `total` are the unconsumed tail, to be read again with what follows.
pub fn scan_beast_frames(buf: &[u8], total: usize, max_frames: usize, frames: &mut Vec<BeastFrame>) -> (consumed: usize)
    requires
        total <= buf@.len(),
    ensures
        ({
            let room = if old(frames)@.len() < max_frames {
                (max_frames - old(frames)@.len()) as nat
            } else {
                0
            };
            let (starts, c) = scan_frames(buf@, total as int, 0, room, 0);
            &&& consumed == c
            &&& final(frames)@.len() == old(frames)@.len() + starts.len()
            &&& final(frames)@.subrange(0, old(frames)@.len() as int) == old(frames)@
            &&& forall|k: int|
                0 <= k < starts.len() ==> frame_read_from(
                    #[trigger] final(frames)@[old(frames)@.len() + k],
                    buf@.subrange(starts[k], total as int),
                )
        }),
{
    let ghost n0 = frames@.len();
    let ghost room0: nat = if n0 < max_frames {
        (max_frames - n0) as nat
    } else {
        0
    };
    let ghost whole = scan_frames(buf@, total as int, 0, room0, 0);
    let mut i: usize = 0;
    let mut consumed: usize = 0;
    let ghost mut taken: Seq<int> = Seq::empty();
    while i < total && frames.len() < max_frames
        invariant
            total <= buf@.len(),
            i <= total,
            consumed <= total,
            n0 <= frames@.len(),
            frames@.subrange(0, n0 as int) == old(frames)@,
            n0 == old(frames)@.len(),
            room0 == (if n0 < max_frames {
                (max_frames - n0) as nat
            } else {
                0nat
            }),
            frames@.len() == n0 + taken.len(),
            taken.len() <= room0,
            whole == scan_frames(buf@, total as int, 0, room0, 0),
            forall|k: int|
                0 <= k < taken.len() ==> frame_read_from(
                    #[trigger] frames@[n0 + k],
                    buf@.subrange(taken[k], total as int),
                ),
            whole == ({
                let rest = scan_frames(
                    buf@,
                    total as int,
                    i as int,
                    (room0 - taken.len()) as nat,
                    consumed as int,
                );
                (taken + rest.0, rest.1)
            }),
        decreases total - i,
    {
        if buf[i] == BEAST_ESCAPE {
            let data = vstd::slice::slice_subrange(buf, i, total);
            let ghost d = buf@.subrange(i as int, total as int);
            assert(data@ == d);
            match parse_beast_frame(data) {
                Some(frame) => {
                    let want: usize = if frame.frame_type == BEAST_SHORT {
                        7
                    } else {
                        14
                    };
                    if frame.payload.len() != want {
                        proof {
                            assert(is_partial_frame(d));
                            assert(whole.0 =~= taken);
                        }
                        return consumed;
                    }
                    let ghost at = i as int;
                    frames.push(frame);
                    i += 1;
                    while i < total && buf[i] != BEAST_ESCAPE
                        invariant
                            at < i <= total <= buf@.len(),
                            next_marker(buf@, total as int, at + 1) == next_marker(
                                buf@,
                                total as int,
                                i as int,
                            ),
                        decreases total - i,
                    {
                        i += 1;
                    }
                    consumed = i;
                    proof {
                        let old_taken = taken;
                        taken = taken.push(at);
                        assert(frames@.subrange(0, n0 as int) =~= old(frames)@);
                        assert forall|k: int| 0 <= k < taken.len() implies frame_read_from(
                            #[trigger] frames@[n0 + k],
                            buf@.subrange(taken[k], total as int),
                        ) by {
                            if k < old_taken.len() {
                                assert(frames@[n0 + k] == frames@[n0 + k]);
                            }
                        }
                        let rest = scan_frames(
                            buf@,
                            total as int,
                            i as int,
                            (room0 - taken.len()) as nat,
                            consumed as int,
                        );
                        assert(old_taken + (seq![at] + rest.0) =~= taken + rest.0);
                    }
                    continue ;
                },
                None => {
                    if data.len() < 2 || data[1] == BEAST_SHORT || data[1] == BEAST_LONG {
                        proof {
                            assert(is_partial_frame(d));
                            assert(whole.0 =~= taken);
                        }
                        return consumed;
                    }
                },
            }
        }
        i += 1;
    }
    proof {
        assert(taken + Seq::<int>::empty() =~= taken);
    }
    consumed
}

} // verus!
