//! UTC instants as plain values: whole seconds since the Unix epoch and the
//! nanoseconds past that second, in the representation that chrono uses.

use chrono::DateTime;
use chrono::SecondsFormat;
use chrono::Utc;
use vstd::prelude::*;

verus! {

/// Earliest second that chrono can represent (January 1 of its first year).
pub const MIN_SECS: i64 = -8334601228800;

/// Latest second that chrono can represent (December 31 of its last year).
pub const MAX_SECS: i64 = 8210266876799;

/// Nanoseconds in one second.
pub const NANOS_PER_SEC: u32 = 1_000_000_000;

/// An instant in UTC. A `nanos` of one second or more marks a leap second,
/// which only the last second of a minute can carry.
#[derive(Debug, Clone, Copy, PartialEq, Eq, Structural)]
pub struct Timestamp {
    pub secs: i64,
    pub nanos: u32,
}

/// Whether `a` comes no later than `b`.
pub open spec fn instant_le(a: Timestamp, b: Timestamp) -> bool {
    a.secs < b.secs || (a.secs == b.secs && a.nanos <= b.nanos)
}

/// `t` with its sub-second digits dropped.
pub open spec fn truncate_to_seconds(t: Timestamp) -> Timestamp {
    Timestamp { secs: t.secs, nanos: (t.nanos - t.nanos % 1_000_000_000) as u32 }
}

/// Whether `t` carries no sub-second digits.
pub open spec fn whole_seconds(t: Timestamp) -> bool {
    t.nanos % 1_000_000_000 == 0
}

impl Timestamp {
    /// The instant is one that chrono can represent.
    pub open spec fn wf(self) -> bool {
        &&& MIN_SECS <= self.secs <= MAX_SECS
        &&& self.nanos < 2_000_000_000
        &&& self.nanos >= 1_000_000_000 ==> self.secs % 60 == 59
    }

    /// Builds an instant from seconds since the epoch and nanoseconds.
    pub fn new(secs: i64, nanos: u32) -> (r: Option<Timestamp>)
        ensures
            r == (if (Timestamp { secs, nanos }).wf() {
                Some(Timestamp { secs, nanos })
            } else {
                None::<Timestamp>
            }),
    {
        let t = Timestamp { secs, nanos };
        if MIN_SECS <= secs && secs <= MAX_SECS && nanos < 2_000_000_000 && (nanos < NANOS_PER_SEC
            || secs % 60 == 59 || secs % 60 == -1) {
            Some(t)
        } else {
            None
        }
    }

    /// The same instant with the sub-second digits dropped, never rounded.
    pub fn trunc_subsecs(&self) -> (r: Timestamp)
        requires
            self.wf(),
        ensures
            r == truncate_to_seconds(*self),
            r.wf(),
            whole_seconds(r),
            instant_le(r, *self),
    {
        Timestamp { secs: self.secs, nanos: self.nanos - self.nanos % NANOS_PER_SEC }
    }

    /// Whether `self` comes no later than `other`.
    pub fn le(&self, other: &Timestamp) -> (r: bool)
        ensures
            r == instant_le(*self, *other),
    {
        self.secs < other.secs || (self.secs == other.secs && self.nanos <= other.nanos)
    }
}

/// Truncation yields whole seconds no later than the input, and leaves an
/// instant that is already whole unchanged.
pub proof fn lemma_truncate_le(t: Timestamp)
    requires
        t.wf(),
    ensures
        instant_le(truncate_to_seconds(t), t),
        truncate_to_seconds(t).wf(),
        whole_seconds(truncate_to_seconds(t)),
        whole_seconds(t) ==> truncate_to_seconds(t) == t,
{
}

/// What chrono's relaxed RFC 3339 parser makes of a text: seconds and
/// nanoseconds of the instant, or nothing where the text is not one.
pub uninterp spec fn parsed_rfc3339(s: Seq<char>) -> Option<(i64, u32)>;

/// The RFC 3339 text that chrono's serde support writes for an instant.
pub uninterp spec fn rfc3339_text(secs: i64, nanos: u32) -> Seq<char>;

/// The text that chrono's `Display` writes for an instant in UTC.
pub uninterp spec fn display_text(secs: i64, nanos: u32) -> Seq<char>;

/// The instant that a parse result stands for.
pub open spec fn parsed_instant(s: Seq<char>) -> Option<Timestamp> {
    match parsed_rfc3339(s) {
        Some(p) => Some(Timestamp { secs: p.0, nanos: p.1 }),
        None => None,
    }
}

/// Relies on `Utc::now`: any `DateTime<Utc>` lies in chrono's range, and its
/// `timestamp_subsec_nanos` passes a second only on a leap second.
#[verifier::external_body]
pub fn now() -> (r: Timestamp)
    ensures
        r.wf(),
{
    let t = Utc::now();
    Timestamp { secs: t.timestamp(), nanos: t.timestamp_subsec_nanos() }
}

/// Relies on `<DateTime<Utc> as FromStr>::from_str`, chrono's relaxed
/// RFC 3339 parser, which is also what its serde support uses to read an
/// instant. A parsed value lies in chrono's range.
#[verifier::external_body]
pub fn parse_rfc3339(s: &str) -> (r: Option<Timestamp>)
    ensures
        r is Some <==> parsed_rfc3339(s@) is Some,
        r matches Some(t) ==> parsed_rfc3339(s@) == Some((t.secs, t.nanos)) && t.wf(),
{
    match s.parse::<DateTime<Utc>>() {
        Ok(t) => Some(Timestamp { secs: t.timestamp(), nanos: t.timestamp_subsec_nanos() }),
        Err(_) => None,
    }
}

/// Relies on `DateTime::from_timestamp`, which accepts every instant in
/// chrono's range, and on `to_rfc3339_opts(SecondsFormat::AutoSi, true)`,
/// the form in which chrono's serde support writes an instant.
#[verifier::external_body]
pub fn format_rfc3339(t: Timestamp) -> (r: String)
    requires
        t.wf(),
    ensures
        r@ == rfc3339_text(t.secs, t.nanos),
{
    let dt = DateTime::from_timestamp(t.secs, t.nanos).unwrap();
    dt.to_rfc3339_opts(SecondsFormat::AutoSi, true)
}

/// Relies on `DateTime::from_timestamp`, which accepts every instant in
/// chrono's range, and on chrono's `Display` for `DateTime<Utc>`.
#[verifier::external_body]
pub fn format_display(t: Timestamp) -> (r: String)
    requires
        t.wf(),
    ensures
        r@ == display_text(t.secs, t.nanos),
{
    let dt = DateTime::from_timestamp(t.secs, t.nanos).unwrap();
    dt.to_string()
}

} // verus!
