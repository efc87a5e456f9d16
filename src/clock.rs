use vstd::prelude::*;

verus! {

/// A point in time: whole seconds since the Unix epoch and the nanoseconds
/// past that second.
pub struct Timestamp {
    pub secs: i64,
    pub nanos: u32,
}

impl Timestamp {
    /// Strictly earlier than `other`.
    pub open spec fn before(self, other: Timestamp) -> bool {
        self.secs < other.secs || (self.secs == other.secs && self.nanos < other.nanos)
    }

    /// Whether this time is strictly earlier than `other`.
    pub fn is_before(&self, other: &Timestamp) -> (r: bool)
        ensures
            r == self.before(*other),
    {
        self.secs < other.secs || (self.secs == other.secs && self.nanos < other.nanos)
    }
}

/// The time that chrono reads from an RFC 3339 text, as seconds and
/// nanoseconds, if the text is well formed.
pub uninterp spec fn timestamp_value(s: Seq<char>) -> Option<(i64, u32)>;

/// Relies on `FromStr for chrono::DateTime<Utc>`: parses an RFC 3339 time
/// with any offset and converts it to UTC.
#[verifier::external_body]
pub fn parse_timestamp(s: &str) -> (r: Option<Timestamp>)
    ensures
        r matches Some(t) ==> timestamp_value(s@) == Some((t.secs, t.nanos)),
        r is None <==> timestamp_value(s@) is None,
{
    s.parse::<chrono::DateTime<chrono::Utc>>().ok().map(
        |d| Timestamp { secs: d.timestamp(), nanos: d.timestamp_subsec_nanos() },
    )
}

/// The text that chrono's `format` writes for a time and a pattern, if the
/// time is within chrono's range.
pub uninterp spec fn formatted_time(secs: i64, nanos: u32, pattern: Seq<char>) -> Option<Seq<char>>;

/// The patterns this library renders times with: the year, the month,
/// the dash-separated date and time of day, and RFC 3339.
pub open spec fn known_pattern(p: Seq<char>) -> bool {
    p == "%Y"@ || p == "%m"@ || p == "%Y-%m-%d-%H-%M-%S"@ || p == "%+"@
}

/// Relies on `chrono::DateTime::from_timestamp` and `DateTime::format`:
/// renders a UTC time with a strftime-style pattern (a malformed pattern
/// would panic, hence the fixed set).
#[verifier::external_body]
pub fn format_timestamp(t: &Timestamp, pattern: &str) -> (r: Option<String>)
    requires
        known_pattern(pattern@),
    ensures
        match r {
            Some(s) => formatted_time(t.secs, t.nanos, pattern@) == Some(s@),
            None => formatted_time(t.secs, t.nanos, pattern@) is None,
        },
{
    chrono::DateTime::from_timestamp(t.secs, t.nanos).map(|d| d.format(pattern).to_string())
}

} // verus!
