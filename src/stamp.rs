use chrono::NaiveDateTime;
use vstd::prelude::*;

verus! {

/// Whether chrono's `NaiveDateTime::from_timestamp_opt` accepts these seconds
/// since the Unix epoch and nanoseconds.
pub uninterp spec fn chrono_accepts(secs: int, nanos: int) -> bool;

/// The text that chrono's `Display` for `NaiveDateTime` gives for a moment.
pub uninterp spec fn stamp_text_of(secs: int, nanos: int) -> Seq<u8>;

pub const NANOS_PER_SEC: i128 = 1_000_000_000;

/// A moment: seconds since the Unix epoch and nanoseconds into that second.
#[derive(Clone, Copy, Debug, PartialEq, Eq, Structural)]
pub struct Stamp {
    pub secs: i64,
    pub nanos: u32,
}

impl Stamp {
    pub open spec fn total_nanos(self) -> int {
        self.secs * 1_000_000_000 + self.nanos
    }

    /// Whether the moment can be represented as a calendar date-time.
    pub open spec fn valid(self) -> bool {
        chrono_accepts(self.secs as int, self.nanos as int)
    }

    pub open spec fn text(self) -> Seq<u8> {
        stamp_text_of(self.secs as int, self.nanos as int)
    }

    /// The moment as nanoseconds since the Unix epoch.
    pub fn nanos_since_epoch(&self) -> (r: i128)
        ensures
            r == self.total_nanos(),
            -10_000_000_000_000_000_000_000_000_000 < r < 10_000_000_000_000_000_000_000_000_000,
    {
        assert(-0x8000_0000_0000_0000 * 1_000_000_000 <= self.secs * 1_000_000_000
            <= 0x7fff_ffff_ffff_ffff * 1_000_000_000) by (nonlinear_arith);
        self.secs as i128 * NANOS_PER_SEC + self.nanos as i128
    }

    /// The moment as date and time of day, with its fraction of a second.
    pub fn text_bytes(&self) -> (r: Vec<u8>)
        requires
            self.valid(),
        ensures
            r@ == self.text(),
    {
        datetime_text(self.secs, self.nanos)
    }
}

/// Relies on `NaiveDateTime::from_timestamp_opt`: it returns `Some` exactly on the
/// moments chrono represents, which include every whole-second moment within
/// 2^40 seconds of the epoch with nanoseconds under one second.
#[verifier::external_body]
#[allow(deprecated)]
pub(crate) fn representable(secs: i64, nanos: u32) -> (r: bool)
    ensures
        r == chrono_accepts(secs as int, nanos as int),
        (-0x100_0000_0000 <= secs <= 0x100_0000_0000 && nanos < 1_000_000_000) ==> r,
{
    NaiveDateTime::from_timestamp_opt(secs, nanos).is_some()
}

/// Relies on chrono's `Display` for `NaiveDateTime`, on a moment that
/// `from_timestamp_opt` accepts.
#[verifier::external_body]
#[allow(deprecated)]
fn datetime_text(secs: i64, nanos: u32) -> (r: Vec<u8>)
    requires
        chrono_accepts(secs as int, nanos as int),
    ensures
        r@ == stamp_text_of(secs as int, nanos as int),
{
    format!("{}", NaiveDateTime::from_timestamp_opt(secs, nanos).unwrap()).into_bytes()
}

} // verus!
