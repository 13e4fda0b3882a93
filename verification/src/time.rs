//! Instants, and the text that stands for them in the store.
//!
//! An instant is a count of seconds since 1970-01-01T00:00:00Z with a
//! nanosecond part. The store keeps instants as RFC 3339 text in UTC, cut to
//! whole seconds; reading and writing that text is left to `chrono`.

use vstd::pervasive::unreached;
use vstd::prelude::*;

verus! {

/// First second of year 0000, the earliest instant RFC 3339 can write.
pub const MIN_SECS: i64 = -62_167_219_200;

/// Last second of year 9999, the latest instant RFC 3339 can write.
pub const MAX_SECS: i64 = 253_402_300_799;

/// Last second of year 262142, the latest instant `chrono` can hold.
pub const LAST_SECS: i64 = 8_210_266_876_799;

/// Nanoseconds in a second.
pub const NANOS_PER_SEC: u32 = 1_000_000_000;

/// An instant. A nanosecond part of a full second or more marks a leap second,
/// as `chrono` reports one.
#[derive(Debug, Clone, Copy, PartialEq, Eq, Structural)]
pub struct Timestamp {
    pub secs: i64,
    pub nanos: u32,
}

/// What `chrono::DateTime::parse_from_rfc3339` makes of a text: the instant as
/// seconds and nanoseconds, or the text of its error.
pub uninterp spec fn rfc3339_instant(text: Seq<char>) -> Result<(int, int), Seq<char>>;

/// The RFC 3339 text, in UTC with a `Z` and without a fraction, that `chrono`
/// writes for an instant; `None` where `chrono` cannot hold the instant.
pub uninterp spec fn utc_seconds_text(secs: int, nanos: int) -> Option<Seq<char>>;

/// The text the store would hold for an instant.
pub open spec fn instant_text(secs: int, nanos: int) -> Seq<char> {
    match utc_seconds_text(secs, nanos) {
        Some(text) => text,
        None => Seq::empty(),
    }
}

/// Whether the instant of `secs` seconds and `nanos` nanoseconds is not after
/// `now`.
pub open spec fn instant_le(secs: int, nanos: int, now: Timestamp) -> bool {
    secs < now.secs || (secs == now.secs && nanos <= now.nanos)
}

impl Timestamp {
    /// No leap second, and a year that RFC 3339 can write.
    pub open spec fn in_range(self) -> bool {
        &&& MIN_SECS <= self.secs <= MAX_SECS
        &&& self.nanos < NANOS_PER_SEC
    }

    /// The instant as one count of nanoseconds.
    pub open spec fn as_nanos(self) -> int {
        self.secs * 1_000_000_000 + self.nanos
    }

    /// `self` is not after `other`.
    pub open spec fn le(self, other: Timestamp) -> bool {
        instant_le(self.secs as int, self.nanos as int, other)
    }

    /// No leap second, and a year from 0000 on that `chrono` can hold.
    pub open spec fn writable(self) -> bool {
        &&& MIN_SECS <= self.secs <= LAST_SECS
        &&& self.nanos < NANOS_PER_SEC
    }

    /// Adding `millis` milliseconds gives an instant that `chrono` can hold.
    pub open spec fn can_add_millis(self, millis: int) -> bool {
        &&& self.writable()
        &&& 0 <= millis
        &&& self.secs + millis / 1000 + 1 <= LAST_SECS
    }

    /// The text the store would hold for this instant.
    pub open spec fn text(self) -> Seq<char> {
        instant_text(self.secs as int, self.nanos as int)
    }

    /// Whether the instant has no leap second and a year that RFC 3339 can
    /// write.
    pub fn is_in_range(&self) -> (r: bool)
        ensures
            r == self.in_range(),
    {
        MIN_SECS <= self.secs && self.secs <= MAX_SECS && self.nanos < NANOS_PER_SEC
    }

    /// Whether `millis` milliseconds can be added.
    pub fn fits_millis(&self, millis: u64) -> (r: bool)
        ensures
            r == self.can_add_millis(millis as int),
    {
        MIN_SECS <= self.secs && self.secs <= LAST_SECS && self.nanos < NANOS_PER_SEC && (millis
            / 1000) as i128 <= LAST_SECS as i128 - 1 - self.secs as i128
    }

    /// Whether `self` is not after `other`.
    pub fn at_or_before(&self, other: &Timestamp) -> (r: bool)
        ensures
            r == self.le(*other),
    {
        self.secs < other.secs || (self.secs == other.secs && self.nanos <= other.nanos)
    }

    /// The instant `millis` milliseconds after `self`.
    pub open spec fn add_millis(self, millis: int) -> Timestamp {
        let total = self.as_nanos() + millis * 1_000_000;
        Timestamp {
            secs: (total / 1_000_000_000) as i64,
            nanos: (total % 1_000_000_000) as u32,
        }
    }

    /// The instant `millis` milliseconds later.
    pub fn plus_millis(&self, millis: u64) -> (r: Timestamp)
        requires
            self.can_add_millis(millis as int),
        ensures
            r == self.add_millis(millis as int),
            r.writable(),
            r.as_nanos() == self.as_nanos() + millis * 1_000_000,
    {
        let whole: u64 = millis / 1000;
        let part: u64 = millis % 1000;
        let nanos: u64 = self.nanos as u64 + part * 1_000_000;
        if nanos >= 1_000_000_000 {
            Timestamp { secs: self.secs + whole as i64 + 1, nanos: (nanos - 1_000_000_000) as u32 }
        } else {
            Timestamp { secs: self.secs + whole as i64, nanos: nanos as u32 }
        }
    }

}

/// Reads RFC 3339 text with `chrono::DateTime::parse_from_rfc3339` and hands
/// back the instant it denotes, whatever its offset, as
/// `DateTime::timestamp` and `DateTime::timestamp_subsec_nanos` give it.
/// On failure the text of `chrono`'s error comes back. An instant that was
/// read can be written: `DateTime::from_timestamp` rebuilds a date-time from
/// those two numbers.
#[verifier::external_body]
pub(crate) fn parse_instant(text: &str) -> (r: Result<Timestamp, String>)
    ensures
        match r {
            Ok(t) => rfc3339_instant(text@) == Ok::<(int, int), Seq<char>>(
                (t.secs as int, t.nanos as int),
            ),
            Err(e) => rfc3339_instant(text@) == Err::<(int, int), Seq<char>>(e@),
        },
        r matches Ok(t) ==> utc_seconds_text(t.secs as int, t.nanos as int) is Some,
{
    match chrono::DateTime::parse_from_rfc3339(text) {
        Ok(at) => Ok(Timestamp { secs: at.timestamp(), nanos: at.timestamp_subsec_nanos() }),
        Err(err) => Err(err.to_string()),
    }
}

/// Writes an instant with `chrono::DateTime::to_rfc3339_opts`, asking for
/// whole seconds and a `Z`. The instant is first rebuilt with
/// `DateTime::from_timestamp`, which refuses only dates beyond the year
/// 262142 or before the year -262143, and misplaced leap seconds: every
/// `writable` instant is written.
#[verifier::external_body]
pub(crate) fn write_instant(at: Timestamp) -> (r: Option<String>)
    ensures
        r.deep_view() == utc_seconds_text(at.secs as int, at.nanos as int),
        at.writable() ==> r is Some,
{
    match chrono::DateTime::from_timestamp(at.secs, at.nanos) {
        Some(utc) => Some(utc.to_rfc3339_opts(chrono::SecondsFormat::Secs, true)),
        None => None,
    }
}

/// The stored text of an instant: RFC 3339, UTC, whole seconds.
pub fn format_utc(at: Timestamp) -> (r: String)
    requires
        at.writable(),
    ensures
        r@ == at.text(),
        utc_seconds_text(at.secs as int, at.nanos as int) == Some(r@),
{
    match write_instant(at) {
        Some(text) => text,
        None => unreached(),
    }
}

/// Two to the power `n`.
pub open spec fn pow2(n: nat) -> nat
    decreases n,
{
    if n == 0 {
        1
    } else {
        2 * pow2((n - 1) as nat)
    }
}

/// Seconds to wait before attempt `attempt_no + 1`: one second after the
/// first attempt, doubling with each further one, an hour at most.
pub open spec fn backoff_secs(attempt_no: int) -> int {
    if attempt_no <= 1 {
        1
    } else if attempt_no >= 13 {
        3600
    } else {
        pow2((attempt_no - 1) as nat) as int
    }
}

/// Computes `backoff_secs`.
pub fn backoff_delay(attempt_no: i64) -> (r: u64)
    ensures
        r == backoff_secs(attempt_no as int),
        1 <= r <= 3600,
{
    if attempt_no <= 1 {
        return 1;
    }
    if attempt_no >= 13 {
        return 3600;
    }
    let mut delay: u64 = 1;
    let mut step: i64 = 1;
    while step < attempt_no
        invariant
            1 <= step <= attempt_no < 13,
            delay == pow2((step - 1) as nat),
            1 <= delay <= 2048,
        decreases attempt_no - step,
    {
        proof {
            lemma_pow2_small((step - 1) as nat);
            lemma_pow2_small(step as nat);
        }
        delay = delay * 2;
        step = step + 1;
    }
    delay
}

proof fn lemma_pow2_small(n: nat)
    requires
        n <= 11,
    ensures
        1 <= pow2(n) <= 2048,
        n <= 10 ==> pow2(n) <= 1024,
{
    reveal_with_fuel(pow2, 13);
}

} // verus!
