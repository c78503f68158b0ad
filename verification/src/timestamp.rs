//! Moments in time, and the RFC 3339 texts that records keep of them.
use vstd::prelude::*;

verus! {

/// The first second that a calendar date can be given for: the start of the year -262143.
pub const FIRST_SECOND: i64 = -8334601228800;

/// The last second that a calendar date can be given for: the end of the year 262142.
pub const LAST_SECOND: i64 = 8210266876799;

/// The start of the year 0.
pub const FIRST_FOUR_DIGIT_SECOND: i64 = -62167219200;

/// The end of the year 9999.
pub const LAST_FOUR_DIGIT_SECOND: i64 = 253402300799;

/// A moment: the seconds since the start of 1970 in Coordinated Universal Time, and the
/// nanoseconds within the second. A leap second is written as nanoseconds beyond a whole second,
/// in the last second of a minute.
#[derive(Clone, Copy, Debug, PartialEq, Eq, Structural)]
pub struct Timestamp {
    pub seconds: i64,
    pub nanos: u32,
}

impl Timestamp {
    /// Whether this moment has a calendar date and a time of day.
    pub open spec fn valid(self) -> bool {
        &&& FIRST_SECOND <= self.seconds <= LAST_SECOND
        &&& self.nanos < 2_000_000_000
        &&& self.nanos >= 1_000_000_000 ==> self.seconds % 60 == 59
    }

    /// Whether the year of this moment is written with four digits.
    pub open spec fn in_four_digit_years(self) -> bool {
        FIRST_FOUR_DIGIT_SECOND <= self.seconds <= LAST_FOUR_DIGIT_SECOND
    }

    /// Whether this moment comes before `other`.
    pub open spec fn precedes(self, other: Timestamp) -> bool {
        self.seconds < other.seconds || (self.seconds == other.seconds && self.nanos < other.nanos)
    }

    /// The later of two moments.
    pub open spec fn latest(self, other: Timestamp) -> Timestamp {
        if self.precedes(other) {
            other
        } else {
            self
        }
    }

    /// Whether this moment comes before `other`.
    pub fn before(&self, other: &Timestamp) -> (result: bool)
        ensures
            result == self.precedes(*other),
    {
        self.seconds < other.seconds || (self.seconds == other.seconds && self.nanos < other.nanos)
    }

    /// The later of two moments.
    pub fn later(self, other: Timestamp) -> (result: Timestamp)
        ensures
            result == self.latest(other),
    {
        if self.before(&other) {
            other
        } else {
            self
        }
    }

    /// This moment as an RFC 3339 text.
    pub fn to_rfc3339(&self) -> (result: String)
        requires
            self.valid(),
        ensures
            result@ == rfc3339_text(self.seconds, self.nanos),
            self.in_four_digit_years() ==> rfc3339_moment(result@) == Some(
                (self.seconds, self.nanos),
            ),
    {
        rfc3339_of(self.seconds, self.nanos)
    }

    /// The moment that an RFC 3339 text gives, in Coordinated Universal Time.
    pub fn parse_from_rfc3339(value: &str) -> (result: Option<Timestamp>)
        ensures
            match result {
                Some(moment) => rfc3339_moment(value@) == Some((moment.seconds, moment.nanos))
                    && moment.valid(),
                None => rfc3339_moment(value@) is None,
            },
    {
        match parse_rfc3339(value) {
            Some((seconds, nanos)) => Some(Timestamp { seconds, nanos }),
            None => None,
        }
    }

    /// The present moment, which is not before 1970 and in no leap second. Which moment it is rests
    /// on the clock.
    pub fn now() -> (result: Timestamp)
        ensures
            result.valid(),
            result.seconds >= 0,
            result.nanos < 1_000_000_000,
    {
        let (seconds, nanos) = utc_now();
        Timestamp { seconds, nanos }
    }
}

/// The text that `chrono::DateTime::to_rfc3339` gives for a moment.
pub uninterp spec fn rfc3339_text(seconds: i64, nanos: u32) -> Seq<char>;

/// The moment that `chrono::DateTime::parse_from_rfc3339` reads, as seconds and nanoseconds in
/// Coordinated Universal Time; none where it refuses the text.
pub uninterp spec fn rfc3339_moment(text: Seq<char>) -> Option<(i64, u32)>;

/// `chrono::DateTime::to_rfc3339`, on the moment that `chrono::DateTime::from_timestamp` makes of
/// the arguments. The contract names the text, and says that reading it gives the moment back
/// where the year has four digits: the text then keeps every nanosecond and the offset of zero.
#[verifier::external_body]
fn rfc3339_of(seconds: i64, nanos: u32) -> (result: String)
    requires
        (Timestamp { seconds, nanos }).valid(),
    ensures
        result@ == rfc3339_text(seconds, nanos),
        (Timestamp { seconds, nanos }).in_four_digit_years() ==> rfc3339_moment(result@) == Some(
            (seconds, nanos),
        ),
{
    chrono::DateTime::from_timestamp(seconds, nanos).unwrap().to_rfc3339()
}

/// `chrono::DateTime::parse_from_rfc3339`, converted to Coordinated Universal Time. The contract
/// names the result, and says that it has a calendar date and a time of day, as every
/// `chrono::DateTime` does.
#[verifier::external_body]
fn parse_rfc3339(value: &str) -> (result: Option<(i64, u32)>)
    ensures
        result == rfc3339_moment(value@),
        match result {
            Some((seconds, nanos)) => (Timestamp { seconds, nanos }).valid(),
            None => true,
        },
{
    let moment = chrono::DateTime::parse_from_rfc3339(value).ok()?.with_timezone(&chrono::Utc);
    Some((moment.timestamp(), moment.timestamp_subsec_nanos()))
}

/// `chrono::Utc::now`. The contract says what holds of every reading of the clock: the moment has
/// a calendar date and a time of day, is not before 1970, and is in no leap second. Which moment it
/// is rests on the clock and is left unsaid. Where the clock stands before 1970 the call does not
/// return.
#[verifier::external_body]
fn utc_now() -> (result: (i64, u32))
    ensures
        (Timestamp { seconds: result.0, nanos: result.1 }).valid(),
        result.0 >= 0,
        result.1 < 1_000_000_000,
{
    let now = chrono::Utc::now();
    (now.timestamp(), now.timestamp_subsec_nanos())
}

/// Of two moments the one with fewer seconds comes first, and of two in one second the one with fewer
/// nanoseconds; the later of two is one of them, and none of them comes behind it.
pub proof fn moments_are_ordered(a: Timestamp, b: Timestamp)
    ensures
        a.seconds < b.seconds ==> a.precedes(b) && !b.precedes(a),
        a.seconds == b.seconds ==> (a.precedes(b) <==> a.nanos < b.nanos),
        a.precedes(b) || b.precedes(a) || a == b,
        a.latest(b) == a || a.latest(b) == b,
        !a.latest(b).precedes(a) && !a.latest(b).precedes(b),
{
}

} // verus!
