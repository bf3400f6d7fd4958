//! Calendar date and time as plain integer fields.
use core::cmp::Ordering;
use vstd::prelude::*;

verus! {

/// A date and time in UTC, held as calendar fields.
///
/// Values are ordered field by field: year, then month, day, hour, minute,
/// second and nanoseconds. No normalisation is performed.
#[derive(Clone, Copy, Debug, PartialEq, Eq, Structural)]
pub struct SDateTime {
    pub year: i32,
    pub month: u32,
    pub day: u32,
    pub hour: u32,
    pub minute: u32,
    pub second: u32,
    pub nanoseconds: u32,
}

/// Ordering of two mathematical integers.
pub open spec fn cmp_int(a: int, b: int) -> Ordering {
    if a < b {
        Ordering::Less
    } else if a > b {
        Ordering::Greater
    } else {
        Ordering::Equal
    }
}

/// Lexicographic ordering of two date-times over their fields, most
/// significant first.
pub open spec fn compare(a: SDateTime, b: SDateTime) -> Ordering {
    if a.year != b.year {
        cmp_int(a.year as int, b.year as int)
    } else if a.month != b.month {
        cmp_int(a.month as int, b.month as int)
    } else if a.day != b.day {
        cmp_int(a.day as int, b.day as int)
    } else if a.hour != b.hour {
        cmp_int(a.hour as int, b.hour as int)
    } else if a.minute != b.minute {
        cmp_int(a.minute as int, b.minute as int)
    } else if a.second != b.second {
        cmp_int(a.second as int, b.second as int)
    } else {
        cmp_int(a.nanoseconds as int, b.nanoseconds as int)
    }
}

/// `a` is at or before `b`.
pub open spec fn at_or_before(a: SDateTime, b: SDateTime) -> bool {
    compare(a, b) != Ordering::Greater
}

/// The ordering is a total order: reflexive, antisymmetric, transitive and
/// total, and `Equal` exactly on equal values.
pub proof fn lemma_total_order(a: SDateTime, b: SDateTime, c: SDateTime)
    ensures
        at_or_before(a, a),
        at_or_before(a, b) || at_or_before(b, a),
        at_or_before(a, b) && at_or_before(b, a) ==> a == b,
        at_or_before(a, b) && at_or_before(b, c) ==> at_or_before(a, c),
        (compare(a, b) == Ordering::Equal) <==> (a == b),
        compare(a, b) == Ordering::Less <==> compare(b, a) == Ordering::Greater,
{
}

/// Orders two integers of one field.
fn cmp_field(a: u32, b: u32) -> (r: Ordering)
    ensures
        r == cmp_int(a as int, b as int),
{
    if a < b {
        Ordering::Less
    } else if a > b {
        Ordering::Greater
    } else {
        Ordering::Equal
    }
}

impl PartialOrd for SDateTime {
    fn partial_cmp(&self, other: &Self) -> (r: Option<Ordering>) {
        if self.year != other.year {
            if self.year < other.year {
                return Some(Ordering::Less);
            } else {
                return Some(Ordering::Greater);
            }
        }
        if self.month != other.month {
            return Some(cmp_field(self.month, other.month));
        }
        if self.day != other.day {
            return Some(cmp_field(self.day, other.day));
        }
        if self.hour != other.hour {
            return Some(cmp_field(self.hour, other.hour));
        }
        if self.minute != other.minute {
            return Some(cmp_field(self.minute, other.minute));
        }
        if self.second != other.second {
            return Some(cmp_field(self.second, other.second));
        }
        Some(cmp_field(self.nanoseconds, other.nanoseconds))
    }
}

impl vstd::std_specs::cmp::PartialOrdSpecImpl for SDateTime {
    open spec fn obeys_partial_cmp_spec() -> bool {
        true
    }

    open spec fn partial_cmp_spec(&self, other: &SDateTime) -> Option<Ordering> {
        Some(compare(*self, *other))
    }
}

/// Whether `a` is at or before `b`.
pub fn is_at_or_before(a: &SDateTime, b: &SDateTime) -> (r: bool)
    ensures
        r == at_or_before(*a, *b),
{
    match a.partial_cmp(b) {
        Some(Ordering::Greater) => false,
        _ => true,
    }
}

} // verus!
