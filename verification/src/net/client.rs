//! What a client connection does with the bytes it receives.
use crate::net::protocols::hex::{hex_line_cuts_char, parse_line, parsed_hex_line};
use crate::text::{utf8_or_empty, utf8_text};
use vstd::prelude::*;

verus! {

/// A connected network client (its traffic is handled by the network layer).
pub struct ClientConnection;

// ---------------------------------------------------------------------------
// Beast input
// ---------------------------------------------------------------------------

/// The first position `i` at or after `from`, with `i + 9 < n`, where a DLE byte (0x10) is
/// followed by 0x02 or 0x03.
pub open spec fn dle_frame_start(buf: Seq<u8>, n: int, from: int) -> Option<int>
    decreases n - from,
{
    if from < 0 || from + 9 >= n {
        None
    } else if buf[from] == 0x10 && (buf[from + 1] == 0x02 || buf[from + 1] == 0x03) {
        Some(from)
    } else {
        dle_frame_start(buf, n, from + 1)
    }
}

/// The payload a Beast client's read of `n` bytes yields: everything from eight bytes after
/// the first DLE frame start to the end of the read, or nothing when there is no such start.
pub fn beast_input_payload(buf: &[u8], n: usize) -> (r: Option<Vec<u8>>)
    requires
        n <= buf@.len(),
    ensures
        match dle_frame_start(buf@, n as int, 0) {
            Some(i) => r matches Some(p) && p@ == buf@.subrange(i + 8, n as int),
            None => r is None,
        },
{
    let end = if n >= 9 {
        n - 9
    } else {
        0
    };
    let mut i: usize = 0;
    while i < end
        invariant
            i <= end,
            end == (if n >= 9 {
                n - 9
            } else {
                0
            }),
            n <= buf@.len(),
            dle_frame_start(buf@, n as int, 0) == dle_frame_start(buf@, n as int, i as int),
        decreases end - i,
    {
        if buf[i] == 0x10 && (buf[i + 1] == 0x02 || buf[i + 1] == 0x03) {
            let payload = vstd::slice::slice_to_vec(vstd::slice::slice_subrange(buf, i + 8, n));
            return Some(payload);
        }
        i += 1;
    }
    None
}

// ---------------------------------------------------------------------------
// Hex input
// ---------------------------------------------------------------------------

/// The pieces of `data` between newline bytes (one more piece than there are newlines).
pub open spec fn split_lines(data: Seq<u8>) -> Seq<Seq<u8>>
    decreases data.len(),
{
    if data.len() == 0 {
        seq![Seq::<u8>::empty()]
    } else {
        let prev = split_lines(data.drop_last());
        if data.last() == 0x0A {
            prev.push(Seq::<u8>::empty())
        } else {
            prev.update(prev.len() - 1, prev.last().push(data.last()))
        }
    }
}

proof fn lemma_split_lines_nonempty(data: Seq<u8>)
    ensures
        split_lines(data).len() >= 1,
    decreases data.len(),
{
    if data.len() > 0 {
        lemma_split_lines_nonempty(data.drop_last());
    }
}

/// The payloads of the lines that read as hex frames, in order (invalid UTF-8 reads as an
/// empty line).
pub open spec fn hex_payloads(lines: Seq<Seq<u8>>) -> Seq<Seq<u8>>
    decreases lines.len(),
{
    if lines.len() == 0 {
        Seq::<Seq<u8>>::empty()
    } else {
        let p = hex_payloads(lines.drop_last());
        match parsed_hex_line(utf8_text(lines.last())) {
            Some(b) => p.push(b),
            None => p,
        }
    }
}

/// Whether no line of the input would cut a character in two when read (see
/// `hex_line_cuts_char`).
pub open spec fn hex_input_readable(data: Seq<u8>) -> bool {
    forall|k: int|
        0 <= k < split_lines(data).len() ==> !hex_line_cuts_char(
            utf8_text(#[trigger] split_lines(data)[k]),
        )
}

/// Read one line and, when it is a hex frame, append its payload.
fn take_hex_line(line: &[u8], out: &mut Vec<Vec<u8>>)
    requires
        !hex_line_cuts_char(utf8_text(line@)),
    ensures
        final(out)@.len() == old(out)@.len() + (if parsed_hex_line(utf8_text(line@)) is Some {
            1int
        } else {
            0int
        }),
        forall|k: int| 0 <= k < old(out)@.len() ==> #[trigger] final(out)@[k]@ == old(out)@[k]@,
        parsed_hex_line(utf8_text(line@)) matches Some(b) ==> final(out)@.last()@ == b,
{
    let text = utf8_or_empty(line);
    match parse_line(text) {
        Some(bytes) => out.push(bytes),
        None => {},
    }
}

/// Adding bytes keeps the completed lines (all but the last) of a prefix.
proof fn lemma_split_lines_prefix(data: Seq<u8>, i: int, j: int)
    requires
        0 <= i <= j <= data.len(),
    ensures
        split_lines(data.subrange(0, j)).len() >= split_lines(data.subrange(0, i)).len(),
        forall|k: int|
            0 <= k < split_lines(data.subrange(0, i)).len() - 1 ==> #[trigger] split_lines(
                data.subrange(0, j),
            )[k] == split_lines(data.subrange(0, i))[k],
    decreases j - i,
{
    if j > i {
        lemma_split_lines_prefix(data, i, j - 1);
        let dj = data.subrange(0, j);
        assert(dj.drop_last() =~= data.subrange(0, j - 1));
        lemma_split_lines_nonempty(data.subrange(0, j - 1));
    }
}

/// The payloads of the hex lines a client sent in `data` (see `hex_payloads`).
pub fn hex_input_payloads(data: &[u8]) -> (out: Vec<Vec<u8>>)
    requires
        hex_input_readable(data@),
    ensures
        out@.len() == hex_payloads(split_lines(data@)).len(),
        forall|k: int|
            0 <= k < out@.len() ==> #[trigger] out@[k]@ == hex_payloads(split_lines(data@))[k],
{
    let n = data.len();
    let mut out: Vec<Vec<u8>> = Vec::new();
    let mut start: usize = 0;
    let mut i: usize = 0;
    let ghost mut done: Seq<Seq<u8>> = Seq::empty();
    assert(data@.subrange(0, 0) =~= Seq::<u8>::empty());
    assert(split_lines(data@.subrange(0, 0)) =~= done.push(data@.subrange(0, 0)));
    while i < n
        invariant
            start <= i <= n == data@.len(),
            hex_input_readable(data@),
            split_lines(data@.subrange(0, i as int)) == done.push(
                data@.subrange(start as int, i as int),
            ),
            out@.len() == hex_payloads(done).len(),
            forall|k: int| 0 <= k < out@.len() ==> #[trigger] out@[k]@ == hex_payloads(done)[k],
        decreases n - i,
    {
        let ghost before = data@.subrange(0, i as int);
        let ghost after = data@.subrange(0, i + 1);
        assert(after.drop_last() =~= before);
        let ghost cur = data@.subrange(start as int, i as int);
        if data[i] == 0x0A {
            let line = vstd::slice::slice_subrange(data, start, i);
            proof {
                assert(split_lines(after) == done.push(cur).push(Seq::<u8>::empty()));
                lemma_split_lines_prefix(data@, i + 1, n as int);
                assert(data@.subrange(0, n as int) =~= data@);
                assert(split_lines(after)[done.len() as int] == cur);
                assert(split_lines(data@)[done.len() as int] == cur);
                assert(!hex_line_cuts_char(utf8_text(split_lines(data@)[done.len() as int])));
            }
            let ghost out_before = out@;
            take_hex_line(line, &mut out);
            proof {
                let d2 = done.push(cur);
                assert(d2.drop_last() =~= done);
                assert(forall|k: int|
                    0 <= k < out_before.len() ==> #[trigger] out@[k]@ == hex_payloads(done)[k]);
                done = d2;
                assert(data@.subrange(i + 1, i + 1) =~= Seq::<u8>::empty());
            }
            start = i + 1;
        } else {
            assert(data@.subrange(start as int, i + 1) =~= cur.push(data@[i as int]));
            assert(split_lines(after) =~= done.push(data@.subrange(start as int, i + 1)));
        }
        i = i + 1;
    }
    let ghost cur = data@.subrange(start as int, n as int);
    proof {
        assert(data@.subrange(0, n as int) =~= data@);
        assert(split_lines(data@)[done.len() as int] == cur);
    }
    let line = vstd::slice::slice_subrange(data, start, n);
    let ghost out_before = out@;
    take_hex_line(line, &mut out);
    proof {
        let d2 = done.push(cur);
        assert(d2.drop_last() =~= done);
        assert(d2 == split_lines(data@));
        assert(forall|k: int|
            0 <= k < out_before.len() ==> #[trigger] out@[k]@ == hex_payloads(done)[k]);
    }
    out
}

} // verus!
