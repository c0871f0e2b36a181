//! Instants in UTC and the distance between them.

use vstd::prelude::*;

verus! {

/// Nanoseconds in one second.
pub const NANOS_PER_SEC: u32 = 1_000_000_000;

/// Seconds in one day.
pub const SECS_PER_DAY: i64 = 86_400;

/// The first second of the supported calendar (January 1 of the year -262143).
pub const MIN_SECS: i64 = -8_334_601_228_800;

/// The last second of the supported calendar (December 31 of the year 262142).
pub const MAX_SECS: i64 = 8_210_266_876_799;

/// A number of seconds and nanoseconds denotes an instant: the second lies in the supported
/// calendar, and only the last second of a minute is long enough to hold a leap second.
pub open spec fn is_instant(secs: int, nanos: int) -> bool {
    &&& MIN_SECS <= secs <= MAX_SECS
    &&& 0 <= nanos < 2 * NANOS_PER_SEC
    &&& nanos >= NANOS_PER_SEC ==> secs % 60 == 59
}

/// Division that rounds toward zero.
pub open spec fn quotient(n: int, d: int) -> int
    recommends
        d > 0,
{
    if n >= 0 {
        n / d
    } else {
        -((-n) / d)
    }
}

/// An instant in UTC: whole seconds since the Unix epoch, and nanoseconds into that second.
/// Nanoseconds of a billion and more stand for a leap second.
#[derive(Clone, Copy, Debug, PartialEq, Eq, Structural)]
pub struct Timestamp {
    secs: i64,
    nanos: u32,
}

/// The signed length of time between two instants, as whole seconds and the nanoseconds left
/// over; both have the sign of the length.
#[derive(Clone, Copy, Debug, PartialEq, Eq, Structural)]
pub struct Elapsed {
    pub secs: i64,
    pub nanos: i32,
}

impl Timestamp {
    #[verifier::type_invariant]
    spec fn inv(self) -> bool {
        is_instant(self.secs as int, self.nanos as int)
    }

    pub closed spec fn secs(self) -> int {
        self.secs as int
    }

    pub closed spec fn nanos(self) -> int {
        self.nanos as int
    }

    /// `self` comes strictly before `other`.
    pub open spec fn before(self, other: Timestamp) -> bool {
        self.secs() < other.secs() || (self.secs() == other.secs() && self.nanos() < other.nanos())
    }

    /// The earlier of two instants.
    pub open spec fn earlier(self, other: Timestamp) -> Timestamp {
        if other.before(self) {
            other
        } else {
            self
        }
    }

    /// The later of two instants.
    pub open spec fn later(self, other: Timestamp) -> Timestamp {
        if self.before(other) {
            other
        } else {
            self
        }
    }

    /// Nanoseconds from `earlier` to `self`. A leap second counts when the clock of the day
    /// passed it on the way.
    pub open spec fn nanos_since(self, earlier: Timestamp) -> int {
        let time = self.secs() % (SECS_PER_DAY as int);
        let earlier_time = earlier.secs() % (SECS_PER_DAY as int);
        let leap: int = if time > earlier_time && earlier.nanos() >= NANOS_PER_SEC {
            1
        } else if time < earlier_time && self.nanos() >= NANOS_PER_SEC {
            -1
        } else {
            0
        };
        (self.secs() - earlier.secs() + leap) * NANOS_PER_SEC + (self.nanos() - earlier.nanos())
    }

    /// Whole seconds from `earlier` to `self`, rounded toward zero.
    pub open spec fn secs_since(self, earlier: Timestamp) -> int {
        quotient(self.nanos_since(earlier), NANOS_PER_SEC as int)
    }

    /// Milliseconds since the Unix epoch.
    pub open spec fn millis(self) -> int {
        self.secs() * 1000 + self.nanos() / 1_000_000
    }

    /// The instant `nanos` nanoseconds into the second `secs`, if there is one.
    pub fn from_timestamp(secs: i64, nanos: u32) -> (r: Option<Timestamp>)
        ensures
            match r {
                Some(t) => is_instant(secs as int, nanos as int) && t.secs() == secs && t.nanos()
                    == nanos,
                None => !is_instant(secs as int, nanos as int),
            },
    {
        if calendar_has(secs, nanos) {
            Some(Timestamp { secs, nanos })
        } else {
            None
        }
    }

    /// The Unix epoch.
    pub closed spec fn spec_epoch() -> Timestamp {
        Timestamp { secs: 0, nanos: 0 }
    }

    /// The Unix epoch.
    pub fn epoch() -> (r: Timestamp)
        ensures
            r == Timestamp::spec_epoch(),
            r.secs() == 0,
            r.nanos() == 0,
    {
        Timestamp { secs: 0, nanos: 0 }
    }

    /// The current instant: one of the supported calendar, and never within a leap second. Which
    /// one it is rests on the clock, and nothing is said of how two readings follow each other.
    pub fn now() -> (r: Timestamp)
        ensures
            is_instant(r.secs(), r.nanos()),
            r.nanos() < NANOS_PER_SEC,
    {
        let (secs, nanos) = utc_now();
        Timestamp { secs, nanos }
    }

    /// Whole seconds since the Unix epoch.
    pub fn timestamp(&self) -> (r: i64)
        ensures
            r == self.secs(),
            is_instant(self.secs(), self.nanos()),
    {
        proof {
            use_type_invariant(self);
        }
        self.secs
    }

    /// Nanoseconds into the second.
    pub fn subsec_nanos(&self) -> (r: u32)
        ensures
            r == self.nanos(),
            is_instant(self.secs(), self.nanos()),
    {
        proof {
            use_type_invariant(self);
        }
        self.nanos
    }

    /// Milliseconds since the Unix epoch.
    pub fn timestamp_millis(&self) -> (r: i64)
        ensures
            r == self.millis(),
    {
        proof {
            use_type_invariant(self);
        }
        self.secs * 1000 + (self.nanos / 1_000_000) as i64
    }

    /// Whether `self` comes strictly before `other`.
    pub fn is_before(&self, other: &Timestamp) -> (r: bool)
        ensures
            r == self.before(*other),
    {
        self.secs < other.secs || (self.secs == other.secs && self.nanos < other.nanos)
    }

    /// The earlier of two instants.
    pub fn min_with(&self, other: &Timestamp) -> (r: Timestamp)
        ensures
            r == self.earlier(*other),
    {
        if other.is_before(self) {
            *other
        } else {
            *self
        }
    }

    /// The later of two instants.
    pub fn max_with(&self, other: &Timestamp) -> (r: Timestamp)
        ensures
            r == self.later(*other),
    {
        if self.is_before(other) {
            *other
        } else {
            *self
        }
    }

    /// The length of time from `earlier` to `self`.
    pub fn since(&self, earlier: &Timestamp) -> (r: Elapsed)
        ensures
            r.secs == self.secs_since(*earlier),
            r.nanos == self.nanos_since(*earlier) - self.secs_since(*earlier) * NANOS_PER_SEC,
    {
        proof {
            use_type_invariant(self);
            use_type_invariant(earlier);
        }
        signed_duration_since(*self, *earlier)
    }

    /// Whole seconds from `earlier` to `self`, rounded toward zero.
    pub fn num_seconds_since(&self, earlier: &Timestamp) -> (r: i64)
        ensures
            r == self.secs_since(*earlier),
    {
        self.since(earlier).secs
    }
}

/// Asks `chrono::DateTime::<Utc>::from_timestamp` whether it has a date and time for the given
/// seconds and nanoseconds. It has one exactly for the seconds from the start of the year
/// -262143 to the end of the year 262142 with nanoseconds below two billion, below one billion
/// except in the last second of a minute.
#[verifier::external_body]
fn calendar_has(secs: i64, nanos: u32) -> (r: bool)
    ensures
        r == is_instant(secs as int, nanos as int),
{
    chrono::DateTime::<chrono::Utc>::from_timestamp(secs, nanos).is_some()
}

/// Reads the clock through `chrono::Utc::now`. Nothing is claimed of the reading but that it is
/// an instant of the supported calendar, and that its nanoseconds are those of an ordinary second:
/// the clock knows no leap seconds.
#[verifier::external_body]
fn utc_now() -> (r: (i64, u32))
    ensures
        is_instant(r.0 as int, r.1 as int),
        r.1 < NANOS_PER_SEC,
{
    let now = chrono::Utc::now();
    (now.timestamp(), now.timestamp_subsec_nanos())
}

/// Subtracts two instants with `chrono::DateTime::signed_duration_since` and splits the
/// difference with `TimeDelta::num_seconds` and `TimeDelta::subsec_nanos`: the difference of the
/// instants in nanoseconds, cut into whole seconds toward zero and the rest.
#[verifier::external_body]
fn signed_duration_since(later: Timestamp, earlier: Timestamp) -> (r: Elapsed)
    requires
        is_instant(later.secs(), later.nanos()),
        is_instant(earlier.secs(), earlier.nanos()),
    ensures
        r.secs == later.secs_since(earlier),
        r.nanos == later.nanos_since(earlier) - later.secs_since(earlier) * NANOS_PER_SEC,
{
    let a = chrono::DateTime::<chrono::Utc>::from_timestamp(later.secs, later.nanos);
    let b = chrono::DateTime::<chrono::Utc>::from_timestamp(earlier.secs, earlier.nanos);
    let d = a.unwrap_or_default().signed_duration_since(b.unwrap_or_default());
    Elapsed { secs: d.num_seconds(), nanos: d.subsec_nanos() }
}

/// Reads `std::time::SystemTime::now`, as nanoseconds since the Unix epoch: 0 before the epoch,
/// and only the low 64 bits of the number are kept. Nothing is claimed of the reading.
#[verifier::external_body]
pub(crate) fn clock_nanos() -> u64 {
    let now = std::time::SystemTime::now().duration_since(std::time::SystemTime::UNIX_EPOCH);
    now.unwrap_or_default().as_nanos() as u64
}

/// The text of an instant in the format of RFC 3339, by `chrono::DateTime::to_rfc3339`.
pub uninterp spec fn rfc3339_text(secs: int, nanos: int) -> Seq<char>;

/// The instant that a text in the format of RFC 3339 denotes, or the words in which it is refused,
/// by `chrono::DateTime::parse_from_rfc3339`.
pub uninterp spec fn rfc3339_instant(text: Seq<char>) -> Result<(int, int), Seq<char>>;

/// The text denotes the instant of the given seconds and nanoseconds.
pub open spec fn denotes(text: Seq<char>, secs: int, nanos: int) -> bool {
    rfc3339_instant(text) == Ok::<(int, int), Seq<char>>((secs, nanos))
}

/// The first second of the year 0.
pub const YEAR_0_SECS: i64 = -62_167_219_200;

/// The last second of the year 9999.
pub const YEAR_9999_SECS: i64 = 253_402_300_799;

/// Writes an instant with `chrono::DateTime::<Utc>::to_rfc3339`, whose text depends on the instant
/// alone. A year of four digits is read back by `chrono::DateTime::parse_from_rfc3339` as the same
/// instant: the text has all nine digits of the nanoseconds, or fewer where the rest are zeros,
/// and the 60th second of a minute for a leap second.
#[verifier::external_body]
fn write_rfc3339(secs: i64, nanos: u32) -> (r: String)
    requires
        is_instant(secs as int, nanos as int),
    ensures
        r@ == rfc3339_text(secs as int, nanos as int),
        YEAR_0_SECS <= secs <= YEAR_9999_SECS ==> denotes(r@, secs as int, nanos as int),
{
    let t = chrono::DateTime::<chrono::Utc>::from_timestamp(secs, nanos);
    t.unwrap_or_default().to_rfc3339()
}

/// Reads an instant with `chrono::DateTime::parse_from_rfc3339`, whose answer depends on the text
/// alone, as do the words of its error. What it accepts lies in the supported calendar.
#[verifier::external_body]
fn read_rfc3339(text: &str) -> (r: Result<(i64, u32), String>)
    ensures
        match r {
            Ok(t) => denotes(text@, t.0 as int, t.1 as int) && is_instant(t.0 as int, t.1 as int),
            Err(e) => rfc3339_instant(text@) == Err::<(int, int), Seq<char>>(e@),
        },
{
    match chrono::DateTime::parse_from_rfc3339(text) {
        Ok(t) => Ok((t.timestamp(), t.timestamp_subsec_nanos())),
        Err(e) => Err(e.to_string()),
    }
}

impl Timestamp {
    /// The instant lies in a year of four digits.
    pub open spec fn in_common_years(self) -> bool {
        YEAR_0_SECS <= self.secs() <= YEAR_9999_SECS
    }

    /// The text of the instant in the format of RFC 3339.
    pub open spec fn text(self) -> Seq<char> {
        rfc3339_text(self.secs(), self.nanos())
    }

    /// The text of the instant in the format of RFC 3339.
    pub fn to_rfc3339(&self) -> (r: String)
        ensures
            r@ == self.text(),
            self.in_common_years() ==> denotes(self.text(), self.secs(), self.nanos()),
    {
        proof {
            use_type_invariant(self);
        }
        write_rfc3339(self.secs, self.nanos)
    }

    /// The instant that a text in the format of RFC 3339 denotes, or the words in which it is
    /// refused.
    pub fn parse_from_rfc3339(text: &str) -> (r: Result<Timestamp, String>)
        ensures
            match r {
                Ok(t) => denotes(text@, t.secs(), t.nanos()),
                Err(e) => rfc3339_instant(text@) == Err::<(int, int), Seq<char>>(e@),
            },
    {
        match read_rfc3339(text) {
            Ok((secs, nanos)) => Ok(Timestamp { secs, nanos }),
            Err(e) => Err(e),
        }
    }
}

/// An instant is told by its seconds and nanoseconds.
pub proof fn lemma_same_instant(a: Timestamp, b: Timestamp)
    requires
        a.secs() == b.secs(),
        a.nanos() == b.nanos(),
    ensures
        a == b,
{
}

/// The text of an instant as it is shown, by the `Display` of `chrono::DateTime<Utc>`.
pub uninterp spec fn utc_text(secs: int, nanos: int) -> Seq<char>;

/// Writes an instant with the `Display` of `chrono::DateTime<Utc>`, whose text depends on the
/// instant alone.
#[verifier::external_body]
fn write_utc(secs: i64, nanos: u32) -> (r: String)
    requires
        is_instant(secs as int, nanos as int),
    ensures
        r@ == utc_text(secs as int, nanos as int),
{
    let t = chrono::DateTime::<chrono::Utc>::from_timestamp(secs, nanos);
    t.unwrap_or_default().to_string()
}

impl Timestamp {
    /// The text of the instant as it is shown.
    pub open spec fn shown(self) -> Seq<char> {
        utc_text(self.secs(), self.nanos())
    }

    /// The text of the instant as it is shown.
    pub fn show(&self) -> (r: String)
        ensures
            r@ == self.shown(),
    {
        proof {
            use_type_invariant(self);
        }
        write_utc(self.secs, self.nanos)
    }
}

impl Timestamp {
    /// The instant lies outside leap seconds, as every reading of the clock does.
    pub open spec fn is_plain(self) -> bool {
        0 <= self.nanos() < 1_000_000_000
    }

    /// Nanoseconds since the Unix epoch, of an instant outside leap seconds.
    pub open spec fn line(self) -> int {
        self.secs() * 1_000_000_000 + self.nanos()
    }
}

/// Outside leap seconds time is a line of nanoseconds: instants are ordered along it, the later of
/// two is the larger and the earlier the smaller, and what lies between them is their difference,
/// of which whole seconds are counted and the rest is cut off.
pub proof fn law_time_is_a_line(a: Timestamp, b: Timestamp)
    requires
        a.is_plain(),
        b.is_plain(),
    ensures
        a.before(b) <==> a.line() < b.line(),
        a == b <==> a.line() == b.line(),
        a.later(b).is_plain(),
        a.later(b).line() == if a.line() >= b.line() {
            a.line()
        } else {
            b.line()
        },
        a.earlier(b).is_plain(),
        a.earlier(b).line() == if a.line() <= b.line() {
            a.line()
        } else {
            b.line()
        },
        a.nanos_since(b) == a.line() - b.line(),
        a.line() >= b.line() ==> a.secs_since(b) == (a.line() - b.line()) / 1_000_000_000,
        a.line() <= b.line() ==> a.secs_since(b) == -((b.line() - a.line()) / 1_000_000_000),
{
    if a.line() == b.line() {
        assert(a.secs() == b.secs());
        lemma_same_instant(a, b);
    }
}

/// Of two different instants, leap seconds or not, exactly one comes before the other, and what
/// comes before an earlier instant comes before a later one; the later and the earlier of two
/// instants are those two.
pub proof fn law_instants_are_ordered(a: Timestamp, b: Timestamp, c: Timestamp)
    ensures
        a == b || a.before(b) || b.before(a),
        !(a.before(b) && b.before(a)),
        !a.before(a),
        a.before(b) && b.before(c) ==> a.before(c),
        a.before(b) ==> a.later(b) == b && a.earlier(b) == a && b.later(a) == b && b.earlier(a)
            == a,
        a.later(a) == a && a.earlier(a) == a,
{
    if a.secs() == b.secs() && a.nanos() == b.nanos() {
        lemma_same_instant(a, b);
    }
}

} // verus!
