use vstd::prelude::*;

verus! {

/// A point in time: whole seconds since 1970-01-01T00:00:00 and the nanoseconds past that
/// second. The nanoseconds may reach 1,999,999,999 inside a leap second, so timestamps are
/// ordered by seconds first and nanoseconds second.
#[derive(Debug, Clone, Copy, PartialEq, Eq, Structural, Hash, PartialOrd, Ord)]
pub struct Timestamp {
    pub secs: i64,
    pub nanos: u32,
}

/// What chrono's `NaiveDateTime::parse_from_str` makes of `s` in format `fmt`, read back as
/// seconds and nanoseconds.
pub uninterp spec fn parsed_datetime(s: Seq<char>, fmt: Seq<char>) -> Option<(int, int)>;

/// Whether the whole second `secs` lies in the range of dates that chrono represents:
/// from the start of year -262143 to the end of year 262142.
pub open spec fn second_in_range(secs: int) -> bool {
    -8_334_601_228_800 <= secs <= 8_210_266_876_799
}

/// Relies on chrono's `NaiveDateTime::parse_from_str`, then `and_utc`, `timestamp` and
/// `timestamp_subsec_nanos` to read the parsed value back; the result depends on the two
/// strings alone.
#[verifier::external_body]
fn chrono_parse(s: &str, fmt: &str) -> (r: Option<(i64, u32)>)
    ensures
        match r {
            Some(p) => parsed_datetime(s@, fmt@) == Some((p.0 as int, p.1 as int)),
            None => parsed_datetime(s@, fmt@) is None,
        },
{
    match chrono::NaiveDateTime::parse_from_str(s, fmt) {
        Ok(d) => Some((d.and_utc().timestamp(), d.and_utc().timestamp_subsec_nanos())),
        Err(_) => None,
    }
}

/// The format of the feed's date-times: `2021-02-28T21:07:50.931282000`.
pub open spec fn feed_datetime_format() -> Seq<char> {
    "%Y-%m-%dT%H:%M:%S%.9f"@
}

/// The timestamp that a feed date-time names.
pub open spec fn feed_datetime(s: Seq<char>) -> Option<Timestamp> {
    match parsed_datetime(s, feed_datetime_format()) {
        Some(p) => if i64::MIN <= p.0 <= i64::MAX && 0 <= p.1 <= u32::MAX {
            Some(Timestamp { secs: p.0 as i64, nanos: p.1 as u32 })
        } else {
            None
        },
        None => None,
    }
}

impl Timestamp {
    /// Reads a feed date-time such as `2021-02-28T21:07:50.931282000`.
    pub fn parse_feed(s: &str) -> (r: Option<Timestamp>)
        ensures
            r == feed_datetime(s@),
    {
        let fmt = "%Y-%m-%dT%H:%M:%S%.9f";
        match chrono_parse(s, fmt) {
            Some(p) => Some(Timestamp { secs: p.0, nanos: p.1 }),
            None => None,
        }
    }

    /// The start of the whole second `secs`, when chrono can represent it.
    pub fn from_second(secs: i64) -> (r: Option<Timestamp>)
        ensures
            second_in_range(secs as int) ==> r == Some(Timestamp { secs, nanos: 0 }),
            !second_in_range(secs as int) ==> r is None,
    {
        if -8_334_601_228_800 <= secs && secs <= 8_210_266_876_799 {
            Some(Timestamp { secs, nanos: 0 })
        } else {
            None
        }
    }

    /// Whether `self` comes strictly before `other`.
    pub fn is_before(&self, other: &Timestamp) -> (r: bool)
        ensures
            r == self.spec_before(*other),
    {
        self.secs < other.secs || (self.secs == other.secs && self.nanos < other.nanos)
    }

    pub open spec fn spec_before(self, other: Timestamp) -> bool {
        self.secs < other.secs || (self.secs == other.secs && self.nanos < other.nanos)
    }
}

impl Default for Timestamp {
    fn default() -> (r: Self)
        ensures
            r == (Timestamp { secs: 0, nanos: 0 }),
    {
        Timestamp { secs: 0, nanos: 0 }
    }
}

} // verus!
