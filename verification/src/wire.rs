//! The wire format of one event.
//!
//! An event travels as one frame: the record of its fields, byte-stuffed so
//! that no zero byte is left in it, and closed by a single zero byte. A
//! receiver therefore finds the end of a frame without knowing its length.
//!
//! The record is the five numbers of an event in the order seconds,
//! nanoseconds, type, code, value, each as a variable-length integer; the
//! signed value is first folded onto the naturals.

use vstd::prelude::*;
use crate::event::{RawEvent, Timestamp};

verus! {

/// The most bytes a frame may take.
pub const FRAME_CAPACITY: usize = 64;

/// A natural number as a variable-length integer: its base-128 digits from
/// the lowest upwards, one per byte, each but the last with the top bit set.
pub open spec fn varint(n: nat) -> Seq<u8>
    decreases n,
{
    if n < 128 {
        seq![n as u8]
    } else {
        seq![(n % 128 + 128) as u8] + varint(n / 128)
    }
}

/// Folds the integers onto the naturals: 0, -1, 1, -2, 2, ... become
/// 0, 1, 2, 3, 4, ...
pub open spec fn zigzag(v: int) -> nat {
    if v >= 0 {
        (2 * v) as nat
    } else {
        (-2 * v - 1) as nat
    }
}

/// The inverse of [`zigzag`].
pub open spec fn unzigzag(n: nat) -> int {
    if n % 2 == 0 {
        n as int / 2
    } else {
        -(n as int / 2) - 1
    }
}

/// The record of an event: its five fields, one variable-length integer each.
pub open spec fn record_bytes(e: RawEvent) -> Seq<u8> {
    varint(e.timestamp.secs as nat) + varint(e.timestamp.nanos as nat) + varint(
        e.event_type as nat,
    ) + varint(e.code as nat) + varint(zigzag(e.value as int))
}

/// How many bytes at the start of `data` are not zero.
pub open spec fn run_len(data: Seq<u8>) -> nat
    decreases data.len(),
{
    if data.len() == 0 || data[0] == 0 {
        0
    } else {
        1 + run_len(data.skip(1))
    }
}

/// Byte stuffing of data shorter than 254 bytes. The data is cut at its zero
/// bytes; each piece is written after one byte that holds its length plus
/// one, and the zero bytes themselves are left out.
pub open spec fn stuff(data: Seq<u8>) -> Seq<u8>
    decreases data.len(),
{
    let k = run_len(data);
    if k >= data.len() {
        seq![(k + 1) as u8] + data
    } else {
        seq![(k + 1) as u8] + data.take(k as int) + stuff(data.skip(k as int + 1))
    }
}

/// The frame of an event: its stuffed record and the closing zero byte.
pub open spec fn frame_bytes(e: RawEvent) -> Seq<u8> {
    stuff(record_bytes(e)) + seq![0u8]
}

/// Reads one variable-length integer from `s` at position `i` and gives its
/// value with the position after it. There is none where `s` ends before the
/// integer does, or where the integer is written with a needless zero digit
/// at its top.
pub open spec fn parse_varint(s: Seq<u8>, i: int) -> Option<(nat, int)>
    decreases s.len() - i,
{
    if i < 0 || i >= s.len() {
        None
    } else if s[i] < 128 {
        Some((s[i] as nat, i + 1))
    } else {
        match parse_varint(s, i + 1) {
            Some((v, j)) => if v > 0 {
                Some(((s[i] - 128 + 128 * v) as nat, j))
            } else {
                None
            },
            None => None,
        }
    }
}

/// Reads one variable-length integer that may not exceed `max`.
pub open spec fn parse_field(s: Seq<u8>, i: int, max: nat) -> Option<(nat, int)> {
    match parse_varint(s, i) {
        Some((v, j)) => if v <= max {
            Some((v, j))
        } else {
            None
        },
        None => None,
    }
}

/// Reads a whole record: five fields within their types' ranges and nothing
/// after them.
pub open spec fn parse_record(s: Seq<u8>) -> Option<RawEvent> {
    match parse_field(s, 0, u64::MAX as nat) {
        None => None,
        Some((secs, i1)) => match parse_field(s, i1, u32::MAX as nat) {
            None => None,
            Some((nanos, i2)) => match parse_field(s, i2, u16::MAX as nat) {
                None => None,
                Some((event_type, i3)) => match parse_field(s, i3, u16::MAX as nat) {
                    None => None,
                    Some((code, i4)) => match parse_field(s, i4, u32::MAX as nat) {
                        None => None,
                        Some((folded, i5)) => if i5 == s.len() {
                            Some(
                                RawEvent {
                                    timestamp: Timestamp { secs: secs as u64, nanos: nanos as u32 },
                                    event_type: event_type as u16,
                                    code: code as u16,
                                    value: unzigzag(folded) as i32,
                                },
                            )
                        } else {
                            None
                        },
                    },
                },
            },
        },
    }
}

/// Whether no byte of `s` from `lo` up to, not including, `hi` is zero.
pub open spec fn no_zero(s: Seq<u8>, lo: int, hi: int) -> bool {
    forall|j: int| lo <= j < hi ==> s[j] != 0
}

/// Undoes the stuffing of the frame that starts at position `i` of `frame`
/// and ends with the last byte of `frame`. There is no result where a length
/// byte is zero or points past the end, where a piece holds a zero byte, or
/// where the closing zero byte is not the last byte.
pub open spec fn unstuff_from(frame: Seq<u8>, i: int) -> Option<Seq<u8>>
    decreases frame.len() - i,
{
    if i < 0 || i >= frame.len() {
        None
    } else {
        let c = frame[i] as int;
        if c == 0 || i + c >= frame.len() || !no_zero(frame, i + 1, i + c) {
            None
        } else if frame[i + c] == 0 {
            if i + c + 1 == frame.len() {
                Some(frame.subrange(i + 1, i + c))
            } else {
                None
            }
        } else {
            match unstuff_from(frame, i + c) {
                Some(rest) => Some(frame.subrange(i + 1, i + c) + seq![0u8] + rest),
                None => None,
            }
        }
    }
}

/// The event that `bytes` is the frame of, if there is one.
pub open spec fn parse_frame(bytes: Seq<u8>) -> Option<RawEvent> {
    if bytes.len() > FRAME_CAPACITY {
        None
    } else {
        match unstuff_from(bytes, 0) {
            Some(record) => parse_record(record),
            None => None,
        }
    }
}

/// 128 to the power `k`.
pub open spec fn pow128(k: nat) -> nat
    decreases k,
{
    if k == 0 {
        1
    } else {
        128 * pow128((k - 1) as nat)
    }
}

/// A number below `128^k` takes at most `k` bytes as a variable-length
/// integer, and never less than one.
pub proof fn lemma_varint_len(n: nat, k: nat)
    requires
        k >= 1,
        n < pow128(k),
    ensures
        1 <= varint(n).len() <= k,
    decreases k,
{
    if n >= 128 {
        assert(pow128(1) == 128) by {
            reveal_with_fuel(pow128, 2);
        }
        assert(k >= 2);
        lemma_varint_len(n / 128, (k - 1) as nat);
    }
}

/// The run of non-zero bytes at the start of `data` lies within `data`.
pub proof fn lemma_run_len_bound(data: Seq<u8>)
    ensures
        run_len(data) <= data.len(),
        run_len(data) < data.len() ==> data[run_len(data) as int] == 0,
        forall|j: int| 0 <= j < run_len(data) ==> data[j] != 0,
    decreases data.len(),
{
    if data.len() == 0 || data[0] == 0 {
    } else {
        let rest = data.skip(1);
        lemma_run_len_bound(rest);
        assert forall|j: int| 0 <= j < run_len(data) implies data[j] != 0 by {
            if j > 0 {
                assert(rest[j - 1] == data[j]);
            }
        }
        if run_len(data) < data.len() {
            assert(rest[run_len(rest) as int] == data[run_len(data) as int]);
        }
    }
}

/// Stuffing adds exactly one byte.
pub proof fn lemma_stuff_len(data: Seq<u8>)
    ensures
        stuff(data).len() == data.len() + 1,
    decreases data.len(),
{
    lemma_run_len_bound(data);
    let k = run_len(data);
    if k < data.len() {
        lemma_stuff_len(data.skip(k as int + 1));
    }
}

/// A record takes between 5 and 26 bytes.
pub proof fn lemma_record_len(e: RawEvent)
    ensures
        5 <= record_bytes(e).len() <= 26,
{
    assert(pow128(3) == 0x20_0000 && pow128(5) == 0x8_0000_0000 && pow128(10)
        == 0x40_0000_0000_0000_0000) by {
        reveal_with_fuel(pow128, 11);
    }
    lemma_varint_len(e.timestamp.secs as nat, 10);
    lemma_varint_len(e.timestamp.nanos as nat, 5);
    lemma_varint_len(e.event_type as nat, 3);
    lemma_varint_len(e.code as nat, 3);
    lemma_varint_len(zigzag(e.value as int), 5);
}

/// A frame takes between 7 and 28 bytes, so it always fits the capacity.
pub proof fn lemma_frame_len(e: RawEvent)
    ensures
        7 <= frame_bytes(e).len() <= 28,
        frame_bytes(e).len() <= FRAME_CAPACITY,
{
    lemma_record_len(e);
    lemma_stuff_len(record_bytes(e));
}

/// Folding and unfolding undo each other on the range of a signed 32-bit
/// value.
pub proof fn lemma_zigzag_inverse(v: int, n: nat)
    ensures
        i32::MIN <= v <= i32::MAX ==> zigzag(v) <= u32::MAX && unzigzag(zigzag(v)) == v,
        n <= u32::MAX ==> i32::MIN <= unzigzag(n) <= i32::MAX && zigzag(unzigzag(n)) == n,
{
}

/// Reading finds a variable-length integer where one is written.
pub proof fn lemma_parse_written_varint(s: Seq<u8>, i: int, n: nat)
    requires
        0 <= i,
        i + varint(n).len() <= s.len(),
        s.subrange(i, i + varint(n).len()) == varint(n),
    ensures
        parse_varint(s, i) == Some((n, i + varint(n).len())),
    decreases n,
{
    let written = varint(n);
    assert(s[i] == written[0]) by {
        assert(s.subrange(i, i + written.len())[0] == s[i]);
    }
    if n >= 128 {
        let rest = varint(n / 128);
        assert(written.len() == rest.len() + 1);
        assert(s.subrange(i + 1, i + 1 + rest.len()) =~= rest) by {
            assert forall|j: int| 0 <= j < rest.len() implies s[i + 1 + j] == rest[j] by {
                assert(s.subrange(i, i + written.len())[j + 1] == s[i + 1 + j]);
                assert(written[j + 1] == rest[j]);
            }
        }
        lemma_parse_written_varint(s, i + 1, n / 128);
    }
}

/// Where reading finds a variable-length integer, exactly that integer is
/// written.
pub proof fn lemma_written_parsed_varint(s: Seq<u8>, i: int)
    requires
        parse_varint(s, i) is Some,
    ensures
        ({
            let (v, j) = parse_varint(s, i).unwrap();
            i < j <= s.len() && s.subrange(i, j) == varint(v)
        }),
    decreases s.len() - i,
{
    let (v, j) = parse_varint(s, i).unwrap();
    if s[i] < 128 {
        assert(s.subrange(i, j) =~= varint(v));
    } else {
        lemma_written_parsed_varint(s, i + 1);
        let (high, _) = parse_varint(s, i + 1).unwrap();
        assert(v / 128 == high && v % 128 == s[i] - 128);
        assert(s.subrange(i, j) =~= seq![s[i]] + s.subrange(i + 1, j));
    }
}

/// The run at the start of `data` is `k` long where the first `k` bytes are
/// not zero and the next one, if there is one, is.
pub proof fn lemma_run_len_is(data: Seq<u8>, k: nat)
    requires
        k <= data.len(),
        forall|j: int| 0 <= j < k ==> data[j] != 0,
        k < data.len() ==> data[k as int] == 0,
    ensures
        run_len(data) == k,
    decreases k,
{
    if k > 0 {
        let rest = data.skip(1);
        assert forall|j: int| 0 <= j < k - 1 implies rest[j] != 0 by {
            assert(rest[j] == data[j + 1]);
        }
        lemma_run_len_is(rest, (k - 1) as nat);
    }
}

/// Unstuffing gives back what was stuffed.
pub proof fn lemma_unstuff_stuffed(frame: Seq<u8>, i: int, data: Seq<u8>)
    requires
        0 <= i <= frame.len(),
        data.len() < 254,
        frame.skip(i) == stuff(data) + seq![0u8],
    ensures
        unstuff_from(frame, i) == Some(data),
    decreases data.len(),
{
    lemma_run_len_bound(data);
    lemma_stuff_len(data);
    let k = run_len(data) as int;
    let tail = frame.skip(i);
    let c = k + 1;
    assert(tail.len() == frame.len() - i && tail.len() == stuff(data).len() + 1);
    assert(forall|j: int| 0 <= j < tail.len() ==> tail[j] == frame[i + j]);
    assert(frame[i] == c) by {
        assert(tail[0] == stuff(data)[0]);
    }
    let piece = frame.subrange(i + 1, i + c);
    assert(piece =~= data.take(k)) by {
        assert forall|j: int| 0 <= j < k implies piece[j] == data[j] by {
            assert(tail[j + 1] == stuff(data)[j + 1]);
        }
    }
    assert(no_zero(frame, i + 1, i + c)) by {
        assert forall|j: int| i + 1 <= j < i + c implies frame[j] != 0 by {
            assert(piece[j - i - 1] == frame[j]);
        }
    }
    if k >= data.len() {
        assert(data.take(k) =~= data);
        assert(frame[i + c] == 0) by {
            assert(tail[c] == 0);
        }
    } else {
        let rest = data.skip(k + 1);
        lemma_run_len_bound(rest);
        lemma_stuff_len(rest);
        assert(frame.skip(i + c) =~= stuff(rest) + seq![0u8]) by {
            assert forall|j: int| 0 <= j < rest.len() + 2 implies frame[i + c + j] == (stuff(rest)
                + seq![0u8])[j] by {
                assert(tail[c + j] == frame[i + c + j]);
            }
        }
        assert(frame[i + c] != 0) by {
            assert(frame.skip(i + c)[0] == stuff(rest)[0]);
        }
        lemma_unstuff_stuffed(frame, i + c, rest);
        assert(piece + seq![0u8] + rest =~= data);
    }
}

/// What unstuffing accepts is the stuffing of what it gives.
pub proof fn lemma_stuffed_unstuff(frame: Seq<u8>, i: int)
    requires
        unstuff_from(frame, i) is Some,
    ensures
        0 <= i < frame.len(),
        frame.skip(i) == stuff(unstuff_from(frame, i).unwrap()) + seq![0u8],
    decreases frame.len() - i,
{
    let data = unstuff_from(frame, i).unwrap();
    let c = frame[i] as int;
    let piece = frame.subrange(i + 1, i + c);
    assert(forall|j: int| 0 <= j < piece.len() ==> piece[j] == frame[i + 1 + j]);
    if frame[i + c] == 0 {
        lemma_run_len_is(data, data.len());
        assert(frame.skip(i) =~= stuff(data) + seq![0u8]);
    } else {
        lemma_stuffed_unstuff(frame, i + c);
        let rest = unstuff_from(frame, i + c).unwrap();
        assert(data == piece + seq![0u8] + rest);
        lemma_run_len_is(data, (c - 1) as nat);
        assert(data.take(c - 1) =~= piece);
        assert(data.skip(c) =~= rest);
        assert(frame.skip(i) =~= seq![frame[i]] + piece + frame.skip(i + c));
        assert(frame.skip(i) =~= stuff(data) + seq![0u8]);
    }
}

/// Reading a written record gives back the event.
pub proof fn lemma_parse_written_record(e: RawEvent)
    ensures
        parse_record(record_bytes(e)) == Some(e),
{
    let s = record_bytes(e);
    let a = varint(e.timestamp.secs as nat);
    let b = varint(e.timestamp.nanos as nat);
    let c = varint(e.event_type as nat);
    let d = varint(e.code as nat);
    let f = varint(zigzag(e.value as int));
    let i1 = a.len() as int;
    let i2 = i1 + b.len();
    let i3 = i2 + c.len();
    let i4 = i3 + d.len();
    let i5 = i4 + f.len();
    assert(s.subrange(0, i1) =~= a);
    assert(s.subrange(i1, i2) =~= b);
    assert(s.subrange(i2, i3) =~= c);
    assert(s.subrange(i3, i4) =~= d);
    assert(s.subrange(i4, i5) =~= f);
    lemma_parse_written_varint(s, 0, e.timestamp.secs as nat);
    lemma_parse_written_varint(s, i1, e.timestamp.nanos as nat);
    lemma_parse_written_varint(s, i2, e.event_type as nat);
    lemma_parse_written_varint(s, i3, e.code as nat);
    lemma_parse_written_varint(s, i4, zigzag(e.value as int));
    lemma_zigzag_inverse(e.value as int, 0);
}

/// A record that reads as an event is the record of that event.
pub proof fn lemma_written_parsed_record(s: Seq<u8>)
    requires
        parse_record(s) is Some,
    ensures
        s == record_bytes(parse_record(s).unwrap()),
{
    lemma_written_parsed_varint(s, 0);
    let (secs, i1) = parse_varint(s, 0).unwrap();
    lemma_written_parsed_varint(s, i1);
    let (nanos, i2) = parse_varint(s, i1).unwrap();
    lemma_written_parsed_varint(s, i2);
    let (event_type, i3) = parse_varint(s, i2).unwrap();
    lemma_written_parsed_varint(s, i3);
    let (code, i4) = parse_varint(s, i3).unwrap();
    lemma_written_parsed_varint(s, i4);
    let (folded, i5) = parse_varint(s, i4).unwrap();
    lemma_zigzag_inverse(0, folded);
    assert(s =~= s.subrange(0, i1) + s.subrange(i1, i2) + s.subrange(i2, i3) + s.subrange(i3, i4)
        + s.subrange(i4, i5));
}

/// Round trip: the frame of an event reads back as that event.
pub proof fn lemma_round_trip(e: RawEvent)
    ensures
        parse_frame(frame_bytes(e)) == Some(e),
{
    lemma_frame_len(e);
    lemma_record_len(e);
    let frame = frame_bytes(e);
    assert(frame.skip(0) =~= frame);
    lemma_unstuff_stuffed(frame, 0, record_bytes(e));
    lemma_parse_written_record(e);
}

/// Only the frame of an event reads as that event.
pub proof fn lemma_parsed_is_frame(bytes: Seq<u8>)
    requires
        parse_frame(bytes) is Some,
    ensures
        bytes == frame_bytes(parse_frame(bytes).unwrap()),
{
    lemma_stuffed_unstuff(bytes, 0);
    assert(bytes.skip(0) =~= bytes);
    lemma_written_parsed_record(unstuff_from(bytes, 0).unwrap());
}

/// Two events with the same frame are the same event.
pub proof fn lemma_frame_bytes_injective(a: RawEvent, b: RawEvent)
    requires
        frame_bytes(a) == frame_bytes(b),
    ensures
        a == b,
{
    lemma_round_trip(a);
    lemma_round_trip(b);
}

} // verus!
