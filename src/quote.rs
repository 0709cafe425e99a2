use crate::container::{read_u32, u32_at, ContainerContext, ParseError};
use crate::stamp::{representable, Stamp};
use vstd::prelude::*;

verus! {

/// Size of the header in front of each record: seconds, sub-seconds, stored length.
pub const RECORD_HEADER_SIZE: usize = 12;
/// Size of a record body that carries a quote message.
pub const QUOTE_RECORD_SIZE: usize = 261;
/// Offsets into the record body.
pub const MARKER_OFFSET: usize = 46;
pub const ISSUE_OFFSET: usize = 51;
pub const ISSUE_LEN: usize = 12;
pub const BIDS_OFFSET: usize = 75;
pub const ASKS_OFFSET: usize = 142;
pub const ACCEPT_OFFSET: usize = 252;
/// Width of one (price, quantity) field pair, and of its price.
pub const PAIR_LEN: usize = 12;
pub const PRICE_LEN: usize = 5;
pub const SECONDS_IN_A_DAY: i64 = 86_400;
/// The exchange's offset from UTC (UTC+9).
pub const EXCHANGE_OFFSET: i64 = 32_400;
/// Largest gap, in seconds, between capture and accept time that needs no day shift.
pub const MAX_DIFF: i64 = 3;

/// One decoded quote message.
#[derive(Clone, Debug, PartialEq, Eq)]
pub struct QuoteMessage {
    pub capture: Stamp,
    pub accept: Stamp,
    pub issue_code: Vec<u8>,
    /// Five (price, quantity) pairs in file order: the best bid is last.
    pub bids: Vec<(u32, u32)>,
    /// Five (price, quantity) pairs in file order: the best ask is first.
    pub asks: Vec<(u32, u32)>,
}

/// What one record of a capture file gives.
#[derive(Debug)]
pub enum Record {
    Valid(QuoteMessage),
    Skipped,
    EndOfStream,
}

/// The outcome of one record, as a value of specification.
pub enum RecordKind {
    End,
    Fail(ParseError),
    Skip,
    Quote,
}

pub open spec fn is_digit(b: u8) -> bool {
    48 <= b <= 57
}

pub open spec fn all_digits(s: Seq<u8>) -> bool {
    forall|i: int| 0 <= i < s.len() ==> is_digit(#[trigger] s[i])
}

pub open spec fn all_ascii(s: Seq<u8>) -> bool {
    forall|i: int| 0 <= i < s.len() ==> #[trigger] s[i] < 128
}

/// The number that a string of decimal digits spells.
pub open spec fn digits_value(s: Seq<u8>) -> int
    decreases s.len(),
{
    if s.len() == 0 {
        0
    } else {
        digits_value(s.drop_last()) * 10 + (s.last() - 48)
    }
}

pub open spec fn pow10(n: nat) -> int
    decreases n,
{
    if n == 0 {
        1
    } else {
        10 * pow10((n - 1) as nat)
    }
}

/// The value of the `count` digits at `start`.
pub open spec fn field_value(data: Seq<u8>, start: int, count: int) -> int {
    digits_value(data.subrange(start, start + count))
}

pub open spec fn field_ok(data: Seq<u8>, start: int, count: int) -> bool {
    all_digits(data.subrange(start, start + count))
}

impl QuoteMessage {
    /// Five pairs each side, a twelve-byte ASCII issue code, and moments that a
    /// calendar date-time can hold.
    pub open spec fn wf(&self) -> bool {
        &&& self.bids@.len() == 5
        &&& self.asks@.len() == 5
        &&& self.issue_code@.len() == 12
        &&& all_ascii(self.issue_code@)
        &&& self.capture.valid()
        &&& self.accept.valid()
    }

    /// The message is the one that the quote record at `pos` holds.
    pub open spec fn decoded_from(&self, data: Seq<u8>, pos: int, ctx: ContainerContext) -> bool {
        let body = pos + 12;
        &&& self.wf()
        &&& self.capture == capture_of(data, pos, ctx)
        &&& self.accept == accept_of(data, pos, ctx)
        &&& self.issue_code@ == data.subrange(body + 51, body + 63)
        &&& self.bids@ == pairs_at(data, body + 75)
        &&& self.asks@ == pairs_at(data, body + 142)
    }
}

/// The i-th (price, quantity) pair of the five that start at `start`.
pub open spec fn pair_at(data: Seq<u8>, start: int, i: int) -> (u32, u32) {
    (
        field_value(data, start + 12 * i, 5) as u32,
        field_value(data, start + 12 * i + 5, 7) as u32,
    )
}

pub open spec fn pairs_at(data: Seq<u8>, start: int) -> Seq<(u32, u32)> {
    Seq::new(5, |i: int| pair_at(data, start, i))
}

pub open spec fn pair_ok(data: Seq<u8>, start: int, i: int) -> bool {
    field_ok(data, start + 12 * i, 5) && field_ok(data, start + 12 * i + 5, 7)
}

pub open spec fn pairs_ok(data: Seq<u8>, start: int) -> bool {
    forall|i: int| 0 <= i < 5 ==> #[trigger] pair_ok(data, start, i)
}

/// Seconds since local midnight that the accept-time field at `a` (HHMMSS) spells.
pub open spec fn local_seconds(data: Seq<u8>, a: int) -> int {
    field_value(data, a, 2) * 3600 + field_value(data, a + 2, 2) * 60 + field_value(data, a + 4, 2)
}

pub open spec fn accept_field_ok(data: Seq<u8>, a: int) -> bool {
    &&& field_ok(data, a, 2)
    &&& field_ok(data, a + 2, 2)
    &&& field_ok(data, a + 4, 2)
    &&& data[a + 6] < 128
    &&& field_ok(data, a + 7, 1)
}

/// The accept time in seconds: the capture second `capture_secs` moved to the
/// second of day `local_secs` (exchange time), by less than a day.
pub open spec fn reconcile_spec(capture_secs: int, local_secs: int) -> int {
    let difference = reconcile_gap(capture_secs, local_secs);
    if difference > 3 {
        capture_secs + difference - 86400
    } else if difference < -3 {
        capture_secs + difference + 86400
    } else {
        capture_secs + difference
    }
}

impl ContainerContext {
    /// The UTC offset is a four-byte unsigned field of the file header.
    pub open spec fn wf(&self) -> bool {
        0 <= self.utc_offset <= u32::MAX
    }
}

/// The gap, in seconds, between the accept time's second of day (exchange time
/// taken to UTC) and the capture second's second of day.
pub open spec fn reconcile_gap(capture_secs: int, local_secs: int) -> int {
    (86400 - 32400 + local_secs) % 86400 - capture_secs % 86400
}

/// A quote accepted `gap` seconds from its capture second, with `|gap| <= 3`
/// and on the same day, carries the second of day
/// `(capture_secs + gap + 32400) % 86400` in exchange time. For it the measured
/// gap is the true one, no day is added or taken away, and the reconciled
/// accept time is `capture_secs + gap`.
pub proof fn lemma_reconcile_exact(capture_secs: int, gap: int)
    requires
        0 <= capture_secs,
        -3 <= gap <= 3,
        0 <= capture_secs % 86400 + gap < 86400,
    ensures
        reconcile_gap(capture_secs, (capture_secs + gap + 32400) % 86400) == gap,
        reconcile_spec(capture_secs, (capture_secs + gap + 32400) % 86400) == capture_secs + gap,
{
    let r = capture_secs % 86400;
    let q = capture_secs / 86400;
    assert(capture_secs == 86400 * q + r);
    let local = (capture_secs + gap + 32400) % 86400;
    assert((86400 - 32400 + local) % 86400 == r + gap) by {
        vstd::arithmetic::div_mod::lemma_mod_multiples_vanish(q, r + gap + 32400, 86400);
        assert(capture_secs + gap + 32400 == 86400 * q + (r + gap + 32400));
    }
}

impl QuoteMessage {
    /// The two messages hold the same values.
    pub open spec fn same_content(&self, o: &QuoteMessage) -> bool {
        &&& self.capture == o.capture
        &&& self.accept == o.accept
        &&& self.issue_code@ == o.issue_code@
        &&& self.bids@ == o.bids@
        &&& self.asks@ == o.asks@
    }
}

pub open spec fn raw_seconds(data: Seq<u8>, pos: int, ctx: ContainerContext) -> int {
    u32_at(data, pos, ctx.order)
}

pub open spec fn capture_nanos(data: Seq<u8>, pos: int, ctx: ContainerContext) -> int {
    u32_at(data, pos + 4, ctx.order) * ctx.precision.scale_spec()
}

pub open spec fn capture_of(data: Seq<u8>, pos: int, ctx: ContainerContext) -> Stamp {
    Stamp {
        secs: (raw_seconds(data, pos, ctx) + ctx.utc_offset) as i64,
        nanos: capture_nanos(data, pos, ctx) as u32,
    }
}

pub open spec fn accept_of(data: Seq<u8>, pos: int, ctx: ContainerContext) -> Stamp {
    let a = pos + 12 + 252;
    Stamp {
        secs: reconcile_spec(raw_seconds(data, pos, ctx), local_seconds(data, a)) as i64,
        nanos: (field_value(data, a + 7, 1) * 100_000_000) as u32,
    }
}

pub open spec fn stored_size(data: Seq<u8>, pos: int, ctx: ContainerContext) -> int {
    u32_at(data, pos + 8, ctx.order) + 4
}

pub open spec fn marker_ok(data: Seq<u8>, m: int) -> bool {
    data[m] == 66 && data[m + 1] == 54 && data[m + 2] == 48 && data[m + 3] == 51 && data[m + 4] == 52
}

pub open spec fn fields_ok(data: Seq<u8>, body: int) -> bool {
    &&& all_ascii(data.subrange(body + 51, body + 63))
    &&& pairs_ok(data, body + 75)
    &&& pairs_ok(data, body + 142)
    &&& accept_field_ok(data, body + 252)
}

/// What the record at `pos` is, in the order in which its fields are read.
pub open spec fn record_kind(data: Seq<u8>, pos: int, ctx: ContainerContext) -> RecordKind {
    let len = data.len() as int;
    let body = pos + 12;
    let capture = capture_of(data, pos, ctx);
    if pos + 4 > len {
        RecordKind::End
    } else if pos + 8 > len {
        RecordKind::Fail(ParseError::Truncated)
    } else if !(capture_nanos(data, pos, ctx) <= u32::MAX && capture.valid()) {
        RecordKind::Fail(ParseError::InvalidTimestamp)
    } else if pos + 12 > len {
        RecordKind::Fail(ParseError::Truncated)
    } else if stored_size(data, pos, ctx) != 261 {
        RecordKind::Skip
    } else if body + 51 > len {
        RecordKind::Fail(ParseError::Truncated)
    } else if !marker_ok(data, body + 46) {
        RecordKind::Skip
    } else if body + 260 > len {
        RecordKind::Fail(ParseError::Truncated)
    } else if !fields_ok(data, body) {
        RecordKind::Fail(ParseError::MalformedField)
    } else if !accept_of(data, pos, ctx).valid() {
        RecordKind::Fail(ParseError::InvalidTimestamp)
    } else {
        RecordKind::Quote
    }
}

/// Where the record after the one at `pos` starts (the end of the data at most).
pub open spec fn record_next(data: Seq<u8>, pos: int, ctx: ContainerContext) -> int {
    let end = pos + 12 + stored_size(data, pos, ctx);
    if end > data.len() {
        data.len() as int
    } else {
        end
    }
}

proof fn lemma_pow10_bound(n: nat)
    requires
        n <= 7,
    ensures
        1 <= pow10(n) <= 10_000_000,
{
    reveal_with_fuel(pow10, 8);
}

/// Reads `count` decimal digits at `start`; `None` if one of them is no digit.
pub fn parse_digits(data: &[u8], start: usize, count: usize) -> (r: Option<u32>)
    requires
        start + count <= data@.len(),
        count <= 7,
    ensures
        r is Some <==> field_ok(data@, start as int, count as int),
        r is Some ==> r->0 == field_value(data@, start as int, count as int),
        r is Some ==> r->0 < pow10(count as nat),
{
    let n = data.len();
    let mut v: u32 = 0;
    let mut i: usize = 0;
    while i < count
        invariant
            n == data@.len(),
            start + count <= data@.len(),
            count <= 7,
            i <= count,
            all_digits(data@.subrange(start as int, start + i)),
            v == digits_value(data@.subrange(start as int, start + i)),
            v < pow10(i as nat),
        decreases count - i,
    {
        let b = data[start + i];
        if b < 48 || b > 57 {
            assert(data@.subrange(start as int, start + count)[i as int] == b);
            return None;
        }
        proof {
            lemma_pow10_bound(i as nat);
            let s = data@.subrange(start as int, start + i + 1);
            assert(s.drop_last() =~= data@.subrange(start as int, start + i));
            assert(v * 10 + (b - 48) < 10 * pow10(i as nat)) by (nonlinear_arith)
                requires
                    v < pow10(i as nat),
                    48 <= b <= 57,
            ;
        }
        v = v * 10 + (b - 48) as u32;
        i = i + 1;
    }
    Some(v)
}

/// Reconciles the capture second (before any UTC shift) with the accept time's
/// second of day in exchange time: the result differs from `capture_secs` by the
/// gap between the two, shifted by a day when that gap exceeds `MAX_DIFF`.
pub fn reconcile(capture_secs: u32, local_secs: u32) -> (r: i64)
    ensures
        r == reconcile_spec(capture_secs as int, local_secs as int),
{
    let c = capture_secs as i64;
    let remainder = c % SECONDS_IN_A_DAY;
    let difference = (SECONDS_IN_A_DAY - EXCHANGE_OFFSET + local_secs as i64) % SECONDS_IN_A_DAY
        - remainder;
    if difference > MAX_DIFF {
        c + difference - SECONDS_IN_A_DAY
    } else if difference < -MAX_DIFF {
        c + difference + SECONDS_IN_A_DAY
    } else {
        c + difference
    }
}

/// The five (price, quantity) pairs at `start`; `None` if a field holds a non-digit.
fn parse_pairs(data: &[u8], start: usize) -> (r: Option<Vec<(u32, u32)>>)
    requires
        start + 60 <= data@.len(),
    ensures
        r is Some <==> pairs_ok(data@, start as int),
        r is Some ==> r->0@ == pairs_at(data@, start as int),
{
    let n = data.len();
    let mut v: Vec<(u32, u32)> = Vec::new();
    let mut i: usize = 0;
    while i < 5
        invariant
            n == data@.len(),
            start + 60 <= data@.len(),
            i <= 5,
            v@ == Seq::new(i as nat, |j: int| pair_at(data@, start as int, j)),
            forall|j: int| 0 <= j < i ==> #[trigger] pair_ok(data@, start as int, j),
        decreases 5 - i,
    {
        let p = start + PAIR_LEN * i;
        let price = parse_digits(data, p, PRICE_LEN);
        let quantity = parse_digits(data, p + PRICE_LEN, 7);
        match (price, quantity) {
            (Some(price), Some(quantity)) => {
                v.push((price, quantity));
                assert(v@ =~= Seq::new((i + 1) as nat, |j: int| pair_at(data@, start as int, j)));
            },
            _ => {
                assert(!pair_ok(data@, start as int, i as int));
                return None;
            },
        }
        i = i + 1;
    }
    assert(v@ =~= pairs_at(data@, start as int));
    Some(v)
}

/// The `count` bytes at `start`; `None` if one of them is not ASCII.
fn ascii_text(data: &[u8], start: usize, count: usize) -> (r: Option<Vec<u8>>)
    requires
        start + count <= data@.len(),
    ensures
        r is Some <==> all_ascii(data@.subrange(start as int, start + count)),
        r is Some ==> r->0@ == data@.subrange(start as int, start + count),
{
    let n = data.len();
    let mut v: Vec<u8> = Vec::new();
    let mut i: usize = 0;
    while i < count
        invariant
            n == data@.len(),
            start + count <= data@.len(),
            i <= count,
            v@ == data@.subrange(start as int, start + i),
            all_ascii(v@),
        decreases count - i,
    {
        let b = data[start + i];
        if b >= 128 {
            assert(data@.subrange(start as int, start + count)[i as int] == b);
            return None;
        }
        v.push(b);
        assert(v@ =~= data@.subrange(start as int, start + i + 1));
        i = i + 1;
    }
    Some(v)
}

/// Decodes the record at `pos`. Gives the outcome and where the next record
/// starts: a quote message, a record to skip, or the end of the data.
pub fn parse_record(data: &[u8], pos: usize, ctx: &ContainerContext) -> (r: Result<
    (Record, usize),
    ParseError,
>)
    requires
        pos <= data@.len(),
        ctx.wf(),
    ensures
        match r {
            Err(e) => record_kind(data@, pos as int, *ctx) == RecordKind::Fail(e),
            Ok((Record::EndOfStream, next)) => record_kind(data@, pos as int, *ctx)
                == RecordKind::End && next == pos,
            Ok((Record::Skipped, next)) => record_kind(data@, pos as int, *ctx) == RecordKind::Skip
                && next == record_next(data@, pos as int, *ctx),
            Ok((Record::Valid(m), next)) => record_kind(data@, pos as int, *ctx)
                == RecordKind::Quote && next == record_next(data@, pos as int, *ctx)
                && m.decoded_from(data@, pos as int, *ctx),
        },
        r matches Ok((_, next)) ==> pos <= next <= data@.len(),
        r matches Ok((rec, next)) ==> (next == pos <==> rec is EndOfStream),
{
    let len = data.len();
    if len - pos < 4 {
        return Ok((Record::EndOfStream, pos));
    }
    let raw = read_u32(data, pos, ctx.order);
    if len - pos < 8 {
        return Err(ParseError::Truncated);
    }
    let sub = read_u32(data, pos + 4, ctx.order);
    let secs: i64 = raw as i64 + ctx.utc_offset;
    let nanos: u64 = sub as u64 * ctx.precision.scale() as u64;
    if nanos > u32::MAX as u64 || !representable(secs, nanos as u32) {
        return Err(ParseError::InvalidTimestamp);
    }
    let capture = Stamp { secs, nanos: nanos as u32 };
    if len - pos < RECORD_HEADER_SIZE {
        return Err(ParseError::Truncated);
    }
    let body = pos + RECORD_HEADER_SIZE;
    let size: u64 = read_u32(data, pos + 8, ctx.order) as u64 + 4;
    let next: usize = if size >= (len - body) as u64 {
        len
    } else {
        body + size as usize
    };
    if size != QUOTE_RECORD_SIZE as u64 {
        return Ok((Record::Skipped, next));
    }
    if len - body < MARKER_OFFSET + 5 {
        return Err(ParseError::Truncated);
    }
    let m = body + MARKER_OFFSET;
    if !(data[m] == 66 && data[m + 1] == 54 && data[m + 2] == 48 && data[m + 3] == 51 && data[m
        + 4] == 52) {
        return Ok((Record::Skipped, next));
    }
    if len - body < ACCEPT_OFFSET + 8 {
        return Err(ParseError::Truncated);
    }
    let issue_code = match ascii_text(data, body + ISSUE_OFFSET, ISSUE_LEN) {
        Some(t) => t,
        None => return Err(ParseError::MalformedField),
    };
    let bids = match parse_pairs(data, body + BIDS_OFFSET) {
        Some(p) => p,
        None => return Err(ParseError::MalformedField),
    };
    let asks = match parse_pairs(data, body + ASKS_OFFSET) {
        Some(p) => p,
        None => return Err(ParseError::MalformedField),
    };
    let a = body + ACCEPT_OFFSET;
    let hours = parse_digits(data, a, 2);
    let minutes = parse_digits(data, a + 2, 2);
    let seconds = parse_digits(data, a + 4, 2);
    let tenths = parse_digits(data, a + 7, 1);
    let (hours, minutes, seconds, tenths) = match (hours, minutes, seconds, tenths) {
        (Some(h), Some(mi), Some(s), Some(t)) => (h, mi, s, t),
        _ => return Err(ParseError::MalformedField),
    };
    if data[a + 6] >= 128 {
        return Err(ParseError::MalformedField);
    }
    proof {
        reveal_with_fuel(pow10, 3);
        assert(pow10(2) == 100 && pow10(1) == 10);
    }
    let local = hours * 3600 + minutes * 60 + seconds;
    let accept_secs = reconcile(raw, local);
    let accept_nanos = tenths * 100_000_000;
    if !representable(accept_secs, accept_nanos) {
        return Err(ParseError::InvalidTimestamp);
    }
    let accept = Stamp { secs: accept_secs, nanos: accept_nanos };
    let msg = QuoteMessage { capture, accept, issue_code, bids, asks };
    Ok((Record::Valid(msg), next))
}

} // verus!
