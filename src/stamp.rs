//! Naive timestamps (no time zone), held as their calendar fields.
use vstd::prelude::*;

verus! {

/// A point in local time without a zone: a calendar date and a time of day.
///
/// The fields compare in the order they are declared, which is the
/// chronological order of valid timestamps. A leap second is written as
/// second 59 with a nanosecond count of one billion or more.
#[derive(Debug, Clone, Copy, PartialEq, Eq, Hash)]
pub struct Stamp {
    pub year: i32,
    pub month: u32,
    pub day: u32,
    pub hour: u32,
    pub minute: u32,
    pub second: u32,
    pub nanosecond: u32,
}

impl Stamp {
    /// Strict chronological order: the first field that differs decides.
    pub open spec fn before(self, other: Stamp) -> bool {
        if self.year != other.year {
            self.year < other.year
        } else if self.month != other.month {
            self.month < other.month
        } else if self.day != other.day {
            self.day < other.day
        } else if self.hour != other.hour {
            self.hour < other.hour
        } else if self.minute != other.minute {
            self.minute < other.minute
        } else if self.second != other.second {
            self.second < other.second
        } else {
            self.nanosecond < other.nanosecond
        }
    }

    /// Whether `self` comes strictly earlier than `other`.
    pub fn is_before(&self, other: &Stamp) -> (r: bool)
        ensures
            r == self.before(*other),
    {
        if self.year != other.year {
            self.year < other.year
        } else if self.month != other.month {
            self.month < other.month
        } else if self.day != other.day {
            self.day < other.day
        } else if self.hour != other.hour {
            self.hour < other.hour
        } else if self.minute != other.minute {
            self.minute < other.minute
        } else if self.second != other.second {
            self.second < other.second
        } else {
            self.nanosecond < other.nanosecond
        }
    }
}

/// No timestamp comes before itself.
pub proof fn lemma_before_irreflexive(a: Stamp)
    ensures
        !a.before(a),
{
}

/// Of two timestamps, at most one comes before the other.
pub proof fn lemma_before_asymmetric(a: Stamp, b: Stamp)
    ensures
        !(a.before(b) && b.before(a)),
{
}

/// Coming before is transitive.
pub proof fn lemma_before_transitive(a: Stamp, b: Stamp, c: Stamp)
    requires
        a.before(b),
        b.before(c),
    ensures
        a.before(c),
{
}

/// Two timestamps are equal, or one of them comes before the other.
pub proof fn lemma_before_total(a: Stamp, b: Stamp)
    ensures
        a == b || a.before(b) || b.before(a),
{
}

/// The text that chrono prints for a valid timestamp (`2023-11-19 11:22:33`,
/// with a fraction of a second where there is one), or nothing where chrono
/// has no such date or time of day.
pub uninterp spec fn stamp_text_of(t: Stamp) -> Option<Seq<char>>;

/// Relies on chrono's `NaiveDate::from_ymd_opt` and `NaiveDate::and_hms_nano_opt`
/// to accept the fields, and on the `Display` of `NaiveDateTime` for the text;
/// both depend on the fields alone.
#[verifier::external_body]
pub(crate) fn stamp_text(t: &Stamp) -> (r: Option<String>)
    ensures
        match r {
            Some(s) => stamp_text_of(*t) == Some(s@),
            None => stamp_text_of(*t).is_none(),
        },
{
    match chrono::NaiveDate::from_ymd_opt(t.year, t.month, t.day) {
        Some(d) => match d.and_hms_nano_opt(t.hour, t.minute, t.second, t.nanosecond) {
            Some(dt) => Some(dt.to_string()),
            None => None,
        },
        None => None,
    }
}

} // verus!
