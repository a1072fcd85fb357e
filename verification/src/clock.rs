//! Instants in UTC, as `chrono` represents them, and their text forms.

use chrono::{DateTime, Utc};
use vstd::prelude::*;

verus! {

/// The first second that `chrono` can represent: -262143-01-01T00:00:00Z.
pub const FIRST_UNIX_SECOND: i64 = -8_334_601_228_800;

/// The last second that `chrono` can represent: 262142-12-31T23:59:59Z.
pub const LAST_UNIX_SECOND: i64 = 8_210_266_876_799;

/// Whether `DateTime::<Utc>::from_timestamp(secs, nanos)` gives an instant:
/// the second is within `chrono`'s range, and the nanoseconds are below one
/// second, or below two within the last second of a minute (a leap second).
pub open spec fn chrono_instant_valid(secs: i64, nanos: u32) -> bool {
    &&& FIRST_UNIX_SECOND <= secs <= LAST_UNIX_SECOND
    &&& nanos < 2_000_000_000
    &&& (nanos < 1_000_000_000 || secs % 60 == 59)
}

/// The decimal digits of a natural number.
pub open spec fn decimal(n: nat) -> Seq<char>
    decreases n,
{
    if n < 10 {
        seq![(n + 48) as char]
    } else {
        decimal(n / 10).push(((n % 10) + 48) as char)
    }
}

/// The decimal digits of a natural number, with zeros in front up to `width`.
pub open spec fn zero_padded(n: nat, width: nat) -> Seq<char> {
    let digits = decimal(n);
    if digits.len() < width {
        Seq::new((width - digits.len()) as nat, |_i: int| '0') + digits
    } else {
        digits
    }
}

/// A year as `chrono` writes it under `%Y`: four digits for 0 to 9999, and
/// otherwise a sign followed by at least four digits.
pub open spec fn year_text(year: int) -> Seq<char> {
    if 0 <= year <= 9999 {
        zero_padded(year as nat, 4)
    } else if year < 0 {
        seq!['-'] + zero_padded((-year) as nat, 4)
    } else {
        seq!['+'] + zero_padded(year as nat, 4)
    }
}

/// The proleptic Gregorian date (year, month, day of month) of the day that
/// is `days` days after 1970-01-01, counting eras of 400 years that start on
/// the first of March.
pub open spec fn civil_from_days(days: int) -> (int, int, int) {
    let z = days + 719468;
    let era = z / 146097;
    let doe = z - era * 146097;
    let yoe = (doe - doe / 1460 + doe / 36524 - doe / 146096) / 365;
    let doy = doe - (365 * yoe + yoe / 4 - yoe / 100);
    let mp = (5 * doy + 2) / 153;
    let day = doy - (153 * mp + 2) / 5 + 1;
    let month = if mp < 10 {
        mp + 3
    } else {
        mp - 9
    };
    (yoe + era * 400 + if month <= 2 {
        1int
    } else {
        0int
    }, month, day)
}

/// The day of a Unix second, counted from 1970-01-01.
pub open spec fn unix_day(secs: i64) -> int {
    secs / 86400
}

/// The UTC date of a Unix second, as `YYYYMMDD`.
pub open spec fn date_text(secs: i64) -> Seq<char> {
    let (year, month, day) = civil_from_days(unix_day(secs));
    year_text(year) + two_digits(month) + two_digits(day)
}

/// A number below 100 written with two decimal digits.
pub open spec fn two_digits(n: int) -> Seq<char> {
    seq![((n / 10) + 48) as char, ((n % 10) + 48) as char]
}

/// The hour and minute of the day of a Unix second, as `HHMM`.
pub open spec fn clock_text(secs: i64) -> Seq<char> {
    let of_day = secs % 86400;
    two_digits(of_day / 3600) + two_digits((of_day % 3600) / 60)
}

/// `DateTime::<Utc>::from_timestamp(secs, nanos).is_some()`: the contract
/// restates the range checks of `chrono`'s source.
#[verifier::external_body]
fn chrono_accepts(secs: i64, nanos: u32) -> (ok: bool)
    ensures
        ok == chrono_instant_valid(secs, nanos),
{
    DateTime::<Utc>::from_timestamp(secs, nanos).is_some()
}

/// `DateTime::format(pattern).to_string()` for the instant (`secs`, `nanos`).
/// Under `%Y%m%d` the text is the UTC date (year, then month and day as two
/// digits each); under `%H%M` it is the hour and minute, two digits each.
#[verifier::external_body]
fn chrono_format(secs: i64, nanos: u32, pattern: &str) -> (text: String)
    requires
        chrono_instant_valid(secs, nanos),
        pattern@ == "%Y%m%d"@ || pattern@ == "%H%M"@,
    ensures
        pattern@ == "%Y%m%d"@ ==> text@ == date_text(secs),
        pattern@ == "%H%M"@ ==> text@ == clock_text(secs),
{
    DateTime::<Utc>::from_timestamp(secs, nanos).unwrap().format(pattern).to_string()
}

/// An instant in UTC: seconds since 1970-01-01T00:00:00Z, and nanoseconds
/// past them (up to two seconds' worth during a leap second).
#[derive(Debug, Clone, Copy, PartialEq, Eq, Structural)]
pub struct Timestamp {
    secs: i64,
    nanos: u32,
}

/// Whether instant `a` is not later than instant `b`.
pub open spec fn not_later(a: Timestamp, b: Timestamp) -> bool {
    a.unix_secs() < b.unix_secs() || (a.unix_secs() == b.unix_secs() && a.subsec_nanos()
        <= b.subsec_nanos())
}

impl Timestamp {
    #[verifier::type_invariant]
    spec fn representable(self) -> bool {
        chrono_instant_valid(self.secs, self.nanos)
    }

    /// The Unix second of the instant.
    pub closed spec fn unix_secs(self) -> i64 {
        self.secs
    }

    /// The nanoseconds past the Unix second.
    pub closed spec fn subsec_nanos(self) -> u32 {
        self.nanos
    }

    /// Two instants with the same second and nanoseconds are the same.
    pub proof fn lemma_same_instant(a: Timestamp, b: Timestamp)
        requires
            a.unix_secs() == b.unix_secs(),
            a.subsec_nanos() == b.subsec_nanos(),
        ensures
            a == b,
    {
    }

    /// The instant (`secs`, `nanos`), if `chrono` can represent it.
    pub fn from_unix(secs: i64, nanos: u32) -> (t: Option<Timestamp>)
        ensures
            match t {
                Some(t) => chrono_instant_valid(secs, nanos) && t.unix_secs() == secs
                    && t.subsec_nanos() == nanos,
                None => !chrono_instant_valid(secs, nanos),
            },
    {
        if chrono_accepts(secs, nanos) {
            Some(Timestamp { secs, nanos })
        } else {
            None
        }
    }

    /// The Unix second. Every instant is one that `chrono` can represent.
    pub fn secs(&self) -> (s: i64)
        ensures
            s == self.unix_secs(),
            chrono_instant_valid(self.unix_secs(), self.subsec_nanos()),
    {
        proof {
            use_type_invariant(self);
        }
        self.secs
    }

    /// The nanoseconds past the Unix second.
    pub fn nanos(&self) -> (n: u32)
        ensures
            n == self.subsec_nanos(),
    {
        self.nanos
    }

    /// The calendar day, as `chrono` writes it under `%Y%m%d`.
    pub fn day_text(&self) -> (text: String)
        ensures
            text@ == date_text(self.unix_secs()),
    {
        proof {
            use_type_invariant(self);
        }
        chrono_format(self.secs, self.nanos, "%Y%m%d")
    }

    /// The hour and minute, as `chrono` writes them under `%H%M`.
    pub fn clock_text(&self) -> (text: String)
        ensures
            text@ == clock_text(self.unix_secs()),
    {
        proof {
            use_type_invariant(self);
        }
        chrono_format(self.secs, self.nanos, "%H%M")
    }

    /// Whether this instant is not later than `other`.
    pub fn not_later_than(&self, other: &Timestamp) -> (b: bool)
        ensures
            b == not_later(*self, *other),
    {
        self.secs < other.secs || (self.secs == other.secs && self.nanos <= other.nanos)
    }
}

} // verus!
