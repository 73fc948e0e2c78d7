//! Frames: the fixed buffer that carries one encoded event.

use vstd::prelude::*;
use vstd::slice::slice_subrange;
use crate::event::{RawEvent, Timestamp};
use crate::wire::{
    frame_bytes, lemma_frame_len, lemma_parsed_is_frame, lemma_round_trip, no_zero, parse_field,
    parse_frame, parse_record, parse_varint, pow128, unstuff_from, unzigzag, FRAME_CAPACITY,
};

verus! {

/// The error type of the serializer.
#[verifier::external_type_specification]
#[verifier::external_body]
pub struct ExSerializerError(postcard::Error);

/// Why an event could not be encoded.
#[derive(Clone, Copy, Debug, PartialEq, Eq, Structural)]
pub enum EncodeError {
    /// The frame would take more than [`FRAME_CAPACITY`] bytes.
    BufferTooSmall,
}

/// A buffer of [`FRAME_CAPACITY`] bytes of which the first `len` are
/// meaningful. Only those are ever handed out.
#[derive(Clone, Copy, Debug)]
pub struct Frame {
    buf: [u8; FRAME_CAPACITY],
    len: usize,
}

impl View for Frame {
    type V = Seq<u8>;

    /// The meaningful bytes.
    closed spec fn view(&self) -> Seq<u8> {
        self.buf@.take(self.len as int)
    }
}

impl Frame {
    #[verifier::type_invariant]
    spec fn fits(self) -> bool {
        self.len <= FRAME_CAPACITY
    }

    /// A frame without meaningful bytes.
    pub fn new() -> (frame: Frame)
        ensures
            frame@ == Seq::<u8>::empty(),
    {
        Frame { buf: [0u8; FRAME_CAPACITY], len: 0 }
    }

    /// The number of meaningful bytes.
    pub fn len(&self) -> (n: usize)
        ensures
            n == self@.len(),
            n <= FRAME_CAPACITY,
    {
        proof {
            use_type_invariant(self);
        }
        self.len
    }

    /// The meaningful bytes.
    pub fn as_slice(&self) -> (bytes: &[u8])
        ensures
            bytes@ == self@,
    {
        proof {
            use_type_invariant(self);
        }
        slice_subrange(self.buf.as_slice(), 0, self.len)
    }
}

/// Calls `postcard::to_slice_cobs` on the event's fields, grouped as the
/// nested tuple `((secs, nanos), event_type, code, value)`, with `buf` as the
/// output buffer, and returns the length of the slice it hands back.
///
/// The contract is not proved. It is what the serializer documents and its
/// source shows for such a tuple:
/// - a tuple is written as its fields in order, with nothing between them;
/// - a `u16`, `u32` or `u64` is written as a variable-length integer
///   ([`crate::wire::varint`]), an `i32` likewise after zigzag folding
///   ([`crate::wire::zigzag`]);
/// - the record is byte-stuffed ([`crate::wire::stuff`]) while it is written
///   and closed by one zero byte;
/// - the call fails only where the buffer is full before the closing byte is
///   written, and the slice it returns is the start of the buffer.
#[verifier::external_body]
fn serialize_stuffed(event: &RawEvent, buf: &mut [u8; FRAME_CAPACITY]) -> (r: Result<
    usize,
    postcard::Error,
>)
    ensures
        r is Ok <==> frame_bytes(*event).len() <= FRAME_CAPACITY,
        r matches Ok(n) ==> n == frame_bytes(*event).len() && final(buf)@.take(n as int)
            == frame_bytes(*event),
{
    let instant = (event.timestamp.secs, event.timestamp.nanos);
    let fields = (instant, event.event_type, event.code, event.value);
    match postcard::to_slice_cobs(&fields, buf) {
        Ok(used) => Ok(used.len()),
        Err(error) => Err(error),
    }
}

/// Encodes `event` into `frame` and returns the number of bytes written,
/// the closing zero byte included.
///
/// The frame of an event never exceeds the capacity, so the call always
/// succeeds.
pub fn encode(event: RawEvent, frame: &mut Frame) -> (r: Result<usize, EncodeError>)
    ensures
        r == Ok::<usize, EncodeError>(frame_bytes(event).len() as usize),
        final(frame)@ == frame_bytes(event),
{
    let mut buf = [0u8; FRAME_CAPACITY];
    proof {
        lemma_frame_len(event);
    }
    match serialize_stuffed(&event, &mut buf) {
        Ok(n) => {
            *frame = Frame { buf, len: n };
            Ok(n)
        },
        Err(_) => Err(EncodeError::BufferTooSmall),
    }
}

/// `front` followed by what is still to come, if that comes at all.
spec fn prepend(front: Seq<u8>, rest: Option<Seq<u8>>) -> Option<Seq<u8>> {
    match rest {
        Some(r) => Some(front + r),
        None => None,
    }
}

/// Undoes the byte stuffing of a whole frame.
fn unstuff(bytes: &[u8]) -> (r: Option<Vec<u8>>)
    ensures
        match r {
            Some(d) => unstuff_from(bytes@, 0) == Some(d@),
            None => unstuff_from(bytes@, 0) is None,
        },
{
    let n: usize = bytes.len();
    let mut out: Vec<u8> = Vec::new();
    let mut i: usize = 0;
    assert(prepend(out@, unstuff_from(bytes@, 0)) == unstuff_from(bytes@, 0)) by {
        if unstuff_from(bytes@, 0) is Some {
            assert(out@ + unstuff_from(bytes@, 0).unwrap() =~= unstuff_from(bytes@, 0).unwrap());
        }
    }
    loop
        invariant
            i <= n,
            n == bytes@.len(),
            unstuff_from(bytes@, 0) == prepend(out@, unstuff_from(bytes@, i as int)),
        decreases n - i,
    {
        if i >= n {
            return None;
        }
        let c: usize = bytes[i] as usize;
        if c == 0 || c >= n - i {
            return None;
        }
        let end: usize = i + c;
        let ghost before = out@;
        let mut j: usize = i + 1;
        assert(before + bytes@.subrange(i + 1, j as int) =~= before);
        while j < end
            invariant
                i < j <= end,
                end < n,
                end == i + c,
                c == bytes@[i as int],
                n == bytes@.len(),
                no_zero(bytes@, i + 1, j as int),
                out@ == before + bytes@.subrange(i + 1, j as int),
                unstuff_from(bytes@, 0) == prepend(before, unstuff_from(bytes@, i as int)),
            decreases end - j,
        {
            let b: u8 = bytes[j];
            if b == 0 {
                return None;
            }
            out.push(b);
            assert(bytes@.subrange(i + 1, j as int).push(b) =~= bytes@.subrange(
                i + 1,
                j as int + 1,
            ));
            j += 1;
        }
        let ghost piece = bytes@.subrange(i + 1, end as int);
        if bytes[end] == 0 {
            if end + 1 == n {
                return Some(out);
            } else {
                return None;
            }
        }
        out.push(0);
        proof {
            let rest = unstuff_from(bytes@, end as int);
            if rest is Some {
                assert(before + (piece + seq![0u8] + rest.unwrap()) =~= (before + piece).push(0u8)
                    + rest.unwrap());
            }
        }
        i = end;
    }
}

/// The value read so far, carried on by what the rest of the integer gives.
spec fn resume(acc: nat, mult: nat, started: bool, rest: Option<(nat, int)>) -> Option<
    (nat, int),
> {
    match rest {
        Some((v, j)) => if started && v == 0 {
            None
        } else {
            Some((acc + mult * v, j))
        },
        None => None,
    }
}

/// Reading one more digit: the digit is weighed by `mult`, and what follows
/// it by 128 times as much.
proof fn lemma_resume_step(acc: nat, mult: nat, digit: nat, v: nat)
    requires
        digit < 128,
    ensures
        acc + mult * (digit + 128 * v) == (acc + mult * digit) + (128 * mult) * v,
        mult * digit + mult <= 128 * mult,
        v >= 1 ==> (128 * mult) * v >= 128 * mult,
{
    assert(acc + mult * (digit + 128 * v) == (acc + mult * digit) + (128 * mult) * v)
        by (nonlinear_arith);
    assert(mult * digit + mult <= 128 * mult) by (nonlinear_arith)
        requires
            digit < 128,
    ;
    assert(v >= 1 ==> (128 * mult) * v >= 128 * mult) by (nonlinear_arith);
}

/// The powers of 128 up to the ninth fit 64 bits.

proof fn lemma_pow128_grows(k: nat)
    requires
        k <= 9,
    ensures
        1 <= pow128(k) <= 0x8000_0000_0000_0000,
        pow128(k + 1) == 128 * pow128(k),
    decreases 9 - k,
{
    reveal_with_fuel(pow128, 2);
    if k < 9 {
        lemma_pow128_grows(k + 1);
    } else {
        assert(pow128(9) == 0x8000_0000_0000_0000) by {
            reveal_with_fuel(pow128, 10);
        }
    }
}

/// Reads one variable-length integer of at most `max` from `s` at `start`.
fn read_varint(s: &Vec<u8>, start: usize, max: u64) -> (r: Option<(u64, usize)>)
    requires
        start <= s.len(),
    ensures
        match r {
            Some((v, j)) => parse_field(s@, start as int, max as nat) == Some(
                (v as nat, j as int),
            ) && start < j <= s.len(),
            None => parse_field(s@, start as int, max as nat) is None,
        },
{
    let n: usize = s.len();
    let mut acc: u128 = 0;
    let mut mult: u128 = 1;
    let mut i: usize = start;
    let mut k: usize = 0;
    proof {
        reveal_with_fuel(pow128, 1);
        let whole = parse_varint(s@, start as int);
        if whole is Some {
            assert(0 + 1 * whole.unwrap().0 == whole.unwrap().0);
        }
    }
    loop
        invariant
            n == s.len(),
            start <= i <= n,
            i == start + k,
            k <= 9,
            mult == pow128(k as nat),
            acc < mult,
            parse_varint(s@, start as int) == resume(
                acc as nat,
                mult as nat,
                k > 0,
                parse_varint(s@, i as int),
            ),
        decreases n - i,
    {
        proof {
            lemma_pow128_grows(k as nat);
        }
        if i >= n {
            return None;
        }
        let b: u8 = s[i];
        if b < 128 {
            if b == 0 && k > 0 {
                return None;
            }
            proof {
                lemma_resume_step(acc as nat, mult as nat, b as nat, 0);
            }
            let v: u128 = acc + mult * (b as u128);
            if v > max as u128 {
                return None;
            }
            return Some((v as u64, i + 1));
        }
        let digit: u128 = (b - 128) as u128;
        proof {
            lemma_resume_step(acc as nat, mult as nat, digit as nat, 1);
            let rest = parse_varint(s@, i as int + 1);
            if rest is Some && rest.unwrap().0 > 0 {
                lemma_resume_step(acc as nat, mult as nat, digit as nat, rest.unwrap().0);
            }
        }
        if k == 9 {
            proof {
                let rest = parse_varint(s@, i as int + 1);
                if rest is Some && rest.unwrap().0 > 0 {
                    let v = rest.unwrap().0;
                    assert(pow128(9) == 0x8000_0000_0000_0000) by {
                        reveal_with_fuel(pow128, 10);
                    }
                    assert(acc + mult * (digit + 128 * v) >= 128 * mult);
                }
            }
            return None;
        }
        acc = acc + mult * digit;
        mult = mult * 128;
        i += 1;
        k += 1;
    }
}

/// Undoes the zigzag folding.
fn unfold(n: u32) -> (v: i32)
    ensures
        v == unzigzag(n as nat),
{
    if n % 2 == 0 {
        (n / 2) as i32
    } else {
        -((n / 2) as i32) - 1
    }
}

/// Reads a whole record.
fn read_record(s: &Vec<u8>) -> (r: Option<RawEvent>)
    ensures
        r == parse_record(s@),
{
    let secs: (u64, usize) = match read_varint(s, 0, u64::MAX) {
        Some(field) => field,
        None => { return None; },
    };
    let nanos: (u64, usize) = match read_varint(s, secs.1, 0xffff_ffff) {
        Some(field) => field,
        None => { return None; },
    };
    let event_type: (u64, usize) = match read_varint(s, nanos.1, 0xffff) {
        Some(field) => field,
        None => { return None; },
    };
    let code: (u64, usize) = match read_varint(s, event_type.1, 0xffff) {
        Some(field) => field,
        None => { return None; },
    };
    let folded: (u64, usize) = match read_varint(s, code.1, 0xffff_ffff) {
        Some(field) => field,
        None => { return None; },
    };
    if folded.1 != s.len() {
        return None;
    }
    Some(
        RawEvent {
            timestamp: Timestamp { secs: secs.0, nanos: nanos.0 as u32 },
            event_type: event_type.0 as u16,
            code: code.0 as u16,
            value: unfold(folded.0 as u32),
        },
    )
}

/// Decodes the frame of one event. The result is `Some(event)` exactly where
/// `bytes` is the frame of `event`, whole and with its closing zero byte;
/// anything else gives `None`.
pub fn decode(bytes: &[u8]) -> (r: Option<RawEvent>)
    ensures
        r == parse_frame(bytes@),
        r matches Some(event) ==> bytes@ == frame_bytes(event),
        forall|event: RawEvent| bytes@ == #[trigger] frame_bytes(event) ==> r == Some(event),
{
    proof {
        if parse_frame(bytes@) is Some {
            lemma_parsed_is_frame(bytes@);
        }
        assert forall|event: RawEvent| bytes@ == #[trigger] frame_bytes(event) implies parse_frame(
            bytes@,
        ) == Some(event) by {
            lemma_round_trip(event);
        }
    }
    if bytes.len() > FRAME_CAPACITY {
        return None;
    }
    match unstuff(bytes) {
        Some(record) => read_record(&record),
        None => None,
    }
}

} // verus!
