//! Closed time intervals over 64-bit signed timestamps, and their algebra:
//! overlap, inclusion, expanding union, membership and ordering.

use vstd::prelude::*;

verus! {

/// A closed interval `[min_ts, max_ts]`. An empty level or file set is
/// represented by the sentinel `(i64::MAX, i64::MIN)`, for which
/// `min_ts > max_ts`.
#[derive(Debug, Clone, Copy, PartialEq, Eq, Structural, Hash)]
pub struct TimeRange {
    pub min_ts: i64,
    pub max_ts: i64,
}

/// One bound of an interval as handed in by a caller; an absent bound maps
/// to the corresponding timestamp extremum.
#[derive(Debug, Clone, Copy, PartialEq, Eq, Structural)]
pub enum TimeBound {
    Included(i64),
    Excluded(i64),
    Unbounded,
}

impl TimeRange {
    /// True when the two closed intervals share at least one timestamp
    /// (for non-sentinel ranges).
    pub open spec fn spec_overlaps(self, other: TimeRange) -> bool {
        !(self.min_ts > other.max_ts || self.max_ts < other.min_ts)
    }

    /// True when `other` lies entirely inside `self`.
    pub open spec fn spec_includes(self, other: TimeRange) -> bool {
        self.min_ts <= other.min_ts && self.max_ts >= other.max_ts
    }

    /// The smallest interval covering both operands.
    pub open spec fn spec_merge(self, other: TimeRange) -> TimeRange {
        TimeRange {
            min_ts: if self.min_ts <= other.min_ts { self.min_ts } else { other.min_ts },
            max_ts: if self.max_ts >= other.max_ts { self.max_ts } else { other.max_ts },
        }
    }

    /// The sentinel of an empty file set: `(i64::MAX, i64::MIN)`.
    pub open spec fn spec_none() -> TimeRange {
        TimeRange { min_ts: i64::MAX, max_ts: i64::MIN }
    }

    /// A proper (non-sentinel) interval has its bounds in order.
    pub open spec fn is_proper(self) -> bool {
        self.min_ts <= self.max_ts
    }

    pub fn new(min_ts: i64, max_ts: i64) -> (r: Self)
        ensures
            r == (TimeRange { min_ts, max_ts }),
    {
        Self { min_ts, max_ts }
    }

    /// The interval covering every representable timestamp.
    pub fn all() -> (r: Self)
        ensures
            r == (TimeRange { min_ts: i64::MIN, max_ts: i64::MAX }),
    {
        Self { min_ts: i64::MIN, max_ts: i64::MAX }
    }

    /// The sentinel empty interval `(i64::MAX, i64::MIN)`.
    pub fn none() -> (r: Self)
        ensures
            r == TimeRange::spec_none(),
    {
        Self { min_ts: i64::MAX, max_ts: i64::MIN }
    }

    /// Builds a closed interval from a pair of bounds; an excluded bound is
    /// treated as closed throughout the engine, and an absent bound maps to
    /// the matching extremum.
    pub fn from_bounds(low: TimeBound, high: TimeBound) -> (r: Self)
        ensures
            r.min_ts == (match low {
                TimeBound::Included(v) => v,
                TimeBound::Excluded(v) => v,
                TimeBound::Unbounded => i64::MIN,
            }),
            r.max_ts == (match high {
                TimeBound::Included(v) => v,
                TimeBound::Excluded(v) => v,
                TimeBound::Unbounded => i64::MAX,
            }),
    {
        let min_ts = match low {
            TimeBound::Included(v) => v,
            TimeBound::Excluded(v) => v,
            TimeBound::Unbounded => i64::MIN,
        };
        let max_ts = match high {
            TimeBound::Included(v) => v,
            TimeBound::Excluded(v) => v,
            TimeBound::Unbounded => i64::MAX,
        };
        Self { min_ts, max_ts }
    }

    pub fn overlaps(&self, range: &TimeRange) -> (r: bool)
        ensures
            r == self.spec_overlaps(*range),
    {
        !(self.min_ts > range.max_ts || self.max_ts < range.min_ts)
    }

    pub fn includes(&self, other: &TimeRange) -> (r: bool)
        ensures
            r == self.spec_includes(*other),
    {
        self.min_ts <= other.min_ts && self.max_ts >= other.max_ts
    }

    /// Expands `self` to also cover `other`.
    pub fn merge(&mut self, other: &TimeRange)
        ensures
            *final(self) == old(self).spec_merge(*other),
    {
        self.min_ts = if self.min_ts <= other.min_ts { self.min_ts } else { other.min_ts };
        self.max_ts = if self.max_ts >= other.max_ts { self.max_ts } else { other.max_ts };
    }

    pub fn is_boundless(&self) -> (r: bool)
        ensures
            r == (self.min_ts == i64::MIN && self.max_ts == i64::MAX),
    {
        self.min_ts == i64::MIN && self.max_ts == i64::MAX
    }

    pub fn contains(&self, time_stamp: i64) -> (r: bool)
        ensures
            r == (self.min_ts <= time_stamp && time_stamp <= self.max_ts),
    {
        time_stamp >= self.min_ts && time_stamp <= self.max_ts
    }

    /// True under the total order by `(min_ts, max_ts)`, both ascending.
    pub open spec fn spec_le(self, other: TimeRange) -> bool {
        self.min_ts < other.min_ts
            || (self.min_ts == other.min_ts && self.max_ts <= other.max_ts)
    }
}

impl PartialOrd for TimeRange {
    fn partial_cmp(&self, other: &Self) -> (r: Option<core::cmp::Ordering>) {
        if self.min_ts < other.min_ts {
            Some(core::cmp::Ordering::Less)
        } else if self.min_ts > other.min_ts {
            Some(core::cmp::Ordering::Greater)
        } else if self.max_ts < other.max_ts {
            Some(core::cmp::Ordering::Less)
        } else if self.max_ts > other.max_ts {
            Some(core::cmp::Ordering::Greater)
        } else {
            Some(core::cmp::Ordering::Equal)
        }
    }
}

impl vstd::std_specs::cmp::PartialOrdSpecImpl for TimeRange {
    open spec fn obeys_partial_cmp_spec() -> bool {
        true
    }

    open spec fn partial_cmp_spec(&self, other: &Self) -> Option<core::cmp::Ordering> {
        if self.min_ts < other.min_ts {
            Some(core::cmp::Ordering::Less)
        } else if self.min_ts > other.min_ts {
            Some(core::cmp::Ordering::Greater)
        } else if self.max_ts < other.max_ts {
            Some(core::cmp::Ordering::Less)
        } else if self.max_ts > other.max_ts {
            Some(core::cmp::Ordering::Greater)
        } else {
            Some(core::cmp::Ordering::Equal)
        }
    }
}

/// Law: interval overlap is symmetric.
pub proof fn lemma_overlaps_symmetric(a: TimeRange, b: TimeRange)
    ensures
        a.spec_overlaps(b) == b.spec_overlaps(a),
{
}

/// Law: on intervals whose bounds are in order, inclusion implies overlap.
/// (The sentinel empty interval includes itself yet overlaps nothing.)
pub proof fn lemma_includes_implies_overlaps(a: TimeRange, b: TimeRange)
    requires
        b.is_proper(),
        a.spec_includes(b),
    ensures
        a.spec_overlaps(b),
{
}

/// Law: the expanding union covers both operands.
pub proof fn lemma_merge_covers(a: TimeRange, b: TimeRange)
    ensures
        a.spec_merge(b).spec_includes(a),
        a.spec_merge(b).spec_includes(b),
{
}

} // verus!
