//! Event timestamps: whole seconds since the Unix epoch, in UTC.
use vstd::prelude::*;

verus! {

/// 0001-01-01 00:00:00 UTC.
pub const MIN_UNIX_SECONDS: i64 = -62135596800;

/// 9999-12-31 23:59:59 UTC.
pub const MAX_UNIX_SECONDS: i64 = 253402300799;

/// The text that chrono gives a UTC date and time: `YYYY-MM-DD HH:MM:SS UTC`.
pub uninterp spec fn utc_text(secs: int) -> Seq<char>;

/// Relies on chrono's `DateTime::<Utc>::from_timestamp`, which is `Some` for
/// every second of the years 1 to 9999, and on its `Display`, whose text
/// depends on that second alone.
#[verifier::external_body]
fn utc_datetime_text(secs: i64) -> (r: String)
    requires
        MIN_UNIX_SECONDS <= secs <= MAX_UNIX_SECONDS,
    ensures
        r@ == utc_text(secs as int),
{
    match chrono::DateTime::from_timestamp(secs, 0) {
        Some(t) => t.to_string(),
        None => String::new(),
    }
}

/// A point in time between the years 1 and 9999, at the resolution of a
/// second.
#[derive(Debug, Clone, Copy, PartialEq, Eq, PartialOrd, Ord, Hash)]
pub struct Timestamp {
    secs: i64,
}

impl Timestamp {
    #[verifier::type_invariant]
    spec fn in_range(self) -> bool {
        MIN_UNIX_SECONDS <= self.secs <= MAX_UNIX_SECONDS
    }

    /// Seconds since 1970-01-01 00:00:00 UTC.
    pub closed spec fn seconds(self) -> int {
        self.secs as int
    }

    /// The timestamp `secs` seconds after the Unix epoch, if it falls within
    /// the years 1 to 9999.
    pub fn from_unix_seconds(secs: i64) -> (r: Option<Timestamp>)
        ensures
            r.is_some() <==> MIN_UNIX_SECONDS <= secs <= MAX_UNIX_SECONDS,
            r matches Some(t) ==> t.seconds() == secs,
    {
        if MIN_UNIX_SECONDS <= secs && secs <= MAX_UNIX_SECONDS {
            Some(Timestamp { secs })
        } else {
            None
        }
    }

    pub closed spec fn placeholder_spec() -> Timestamp {
        Timestamp { secs: 1262304000 }
    }

    /// 2010-01-01 00:00:00 UTC, the time given to placeholder events.
    pub fn placeholder() -> (r: Timestamp)
        ensures
            r == Self::placeholder_spec(),
            r.seconds() == 1262304000,
    {
        Timestamp { secs: 1262304000 }
    }

    pub fn unix_seconds(&self) -> (r: i64)
        ensures
            r == self.seconds(),
    {
        self.secs
    }

    /// Whether `self` is strictly later than `other`.
    pub fn is_after(&self, other: &Timestamp) -> (r: bool)
        ensures
            r == (self.seconds() > other.seconds()),
    {
        self.secs > other.secs
    }

    /// The time in chrono's UTC rendering, such as `2014-07-08 09:10:11 UTC`.
    pub fn utc_string(&self) -> (r: String)
        ensures
            r@ == utc_text(self.seconds()),
    {
        proof {
            use_type_invariant(self);
        }
        utc_datetime_text(self.secs)
    }
}

} // verus!
