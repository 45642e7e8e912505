//! The order of dates: by year, then by month, then by day.

use crate::date::{day_number, valid_ymd, ImperatorDate, Ymd};
use core::cmp::Ordering;
use vstd::prelude::*;
use vstd::std_specs::cmp::PartialOrdSpecImpl;

verus! {

/// How two dates compare: the earlier one is the lesser.
pub open spec fn compare_dates(a: Ymd, b: Ymd) -> Ordering {
    if a.year < b.year {
        Ordering::Less
    } else if a.year > b.year {
        Ordering::Greater
    } else if a.month < b.month {
        Ordering::Less
    } else if a.month > b.month {
        Ordering::Greater
    } else if a.day < b.day {
        Ordering::Less
    } else if a.day > b.day {
        Ordering::Greater
    } else {
        Ordering::Equal
    }
}

impl PartialOrd for ImperatorDate {
    fn partial_cmp(&self, other: &ImperatorDate) -> (r: Option<Ordering>) {
        let (y1, m1, d1) = (self.year(), self.month(), self.day());
        let (y2, m2, d2) = (other.year(), other.month(), other.day());
        if y1 < y2 {
            Some(Ordering::Less)
        } else if y1 > y2 {
            Some(Ordering::Greater)
        } else if m1 < m2 {
            Some(Ordering::Less)
        } else if m1 > m2 {
            Some(Ordering::Greater)
        } else if d1 < d2 {
            Some(Ordering::Less)
        } else if d1 > d2 {
            Some(Ordering::Greater)
        } else {
            Some(Ordering::Equal)
        }
    }
}

impl PartialOrdSpecImpl for ImperatorDate {
    open spec fn obeys_partial_cmp_spec() -> bool {
        true
    }

    open spec fn partial_cmp_spec(&self, other: &ImperatorDate) -> Option<Ordering> {
        Some(compare_dates(self@, other@))
    }
}

/// The earlier of two dates is the one with fewer days behind it, and two
/// dates with as many days behind them are the same date.
pub proof fn order_agrees_with_day_number(a: Ymd, b: Ymd)
    requires
        valid_ymd(a),
        valid_ymd(b),
    ensures
        compare_dates(a, b) == Ordering::Less <==> day_number(a) < day_number(b),
        compare_dates(a, b) == Ordering::Equal <==> day_number(a) == day_number(b),
        compare_dates(a, b) == Ordering::Equal <==> a == b,
{
}

} // verus!
