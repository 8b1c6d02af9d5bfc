use vstd::prelude::*;

verus! {

/// Nanoseconds in one second.
pub const NANOS_PER_SEC: u32 = 1_000_000_000;

/// A point in time at or after the Unix epoch, with nanosecond resolution.
#[derive(Debug, Clone, Copy, PartialEq, Eq, Structural, Ord)]
pub struct Timestamp {
    /// Whole seconds since the Unix epoch.
    pub secs: u64,
    /// Nanoseconds past the whole second; below one second in a well-formed value.
    pub nanos: u32,
}

impl Timestamp {
    /// The sub-second part is below one second.
    pub open spec fn wf(self) -> bool {
        self.nanos < NANOS_PER_SEC
    }

    /// Nanoseconds since the Unix epoch.
    pub open spec fn total_nanos(self) -> int {
        self.secs as int * NANOS_PER_SEC as int + self.nanos as int
    }

    /// The time `secs` seconds and `nanos` nanoseconds after the Unix epoch.
    pub fn from_unix(secs: u64, nanos: u32) -> (r: Timestamp)
        requires
            nanos < NANOS_PER_SEC,
        ensures
            r.secs == secs,
            r.nanos == nanos,
            r.wf(),
    {
        Timestamp { secs, nanos }
    }

    /// The time a whole number of seconds after the Unix epoch.
    pub fn from_secs(secs: u64) -> (r: Timestamp)
        ensures
            r.secs == secs,
            r.nanos == 0,
            r.wf(),
    {
        Timestamp { secs, nanos: 0 }
    }

    /// The order of two times: by seconds, then by nanoseconds.
    pub open spec fn cmp_spec_of(self, other: Timestamp) -> core::cmp::Ordering {
        if self.secs < other.secs {
            core::cmp::Ordering::Less
        } else if self.secs > other.secs {
            core::cmp::Ordering::Greater
        } else if self.nanos < other.nanos {
            core::cmp::Ordering::Less
        } else if self.nanos > other.nanos {
            core::cmp::Ordering::Greater
        } else {
            core::cmp::Ordering::Equal
        }
    }
}

impl PartialOrd for Timestamp {
    fn partial_cmp(&self, other: &Timestamp) -> (r: Option<core::cmp::Ordering>)
        ensures
            r == Some(self.cmp_spec_of(*other)),
    {
        if self.secs < other.secs {
            Some(core::cmp::Ordering::Less)
        } else if self.secs > other.secs {
            Some(core::cmp::Ordering::Greater)
        } else if self.nanos < other.nanos {
            Some(core::cmp::Ordering::Less)
        } else if self.nanos > other.nanos {
            Some(core::cmp::Ordering::Greater)
        } else {
            Some(core::cmp::Ordering::Equal)
        }
    }
}

impl vstd::std_specs::cmp::PartialOrdSpecImpl for Timestamp {
    open spec fn obeys_partial_cmp_spec() -> bool {
        true
    }

    open spec fn partial_cmp_spec(&self, other: &Timestamp) -> Option<core::cmp::Ordering> {
        Some(self.cmp_spec_of(*other))
    }
}

/// Of two well-formed times, the earlier one is the one with fewer
/// nanoseconds since the epoch.
pub proof fn lemma_order_is_by_total_nanos(a: Timestamp, b: Timestamp)
    requires
        a.wf(),
        b.wf(),
    ensures
        (a.cmp_spec_of(b) == core::cmp::Ordering::Less) <==> a.total_nanos() < b.total_nanos(),
        (a.cmp_spec_of(b) == core::cmp::Ordering::Equal) <==> a.total_nanos() == b.total_nanos(),
{
    assert(a.secs < b.secs ==> a.total_nanos() < b.total_nanos()) by (nonlinear_arith)
        requires
            a.nanos < 1_000_000_000u32,
            b.nanos < 1_000_000_000u32,
    ;
    assert(a.secs > b.secs ==> a.total_nanos() > b.total_nanos()) by (nonlinear_arith)
        requires
            a.nanos < 1_000_000_000u32,
            b.nanos < 1_000_000_000u32,
    ;
}

} // verus!
