//! Points in time.
use vstd::prelude::*;
use vstd::std_specs::cmp::PartialOrdSpecImpl;
use std::cmp::Ordering;

verus! {

/// A UTC timestamp represented as Unix seconds.
#[derive(Clone, Copy, Debug, PartialEq, Eq, Structural, Ord)]
pub struct Timestamp(u64);

impl PartialOrd for Timestamp {
    /// Timestamps order by their seconds.
    fn partial_cmp(&self, other: &Timestamp) -> (r: Option<Ordering>) {
        if self.0 < other.0 {
            Some(Ordering::Less)
        } else if self.0 == other.0 {
            Some(Ordering::Equal)
        } else {
            Some(Ordering::Greater)
        }
    }
}

impl PartialOrdSpecImpl for Timestamp {
    open spec fn obeys_partial_cmp_spec() -> bool {
        true
    }

    open spec fn partial_cmp_spec(&self, other: &Timestamp) -> Option<Ordering> {
        if self@ < other@ {
            Some(Ordering::Less)
        } else if self@ == other@ {
            Some(Ordering::Equal)
        } else {
            Some(Ordering::Greater)
        }
    }
}

impl View for Timestamp {
    type V = u64;

    closed spec fn view(&self) -> u64 {
        self.0
    }
}

impl Timestamp {
    /// Creates a timestamp from Unix seconds.
    pub fn from_unix_seconds(seconds: u64) -> (t: Timestamp)
        ensures
            t@ == seconds,
    {
        Timestamp(seconds)
    }

    /// Returns the timestamp as Unix seconds.
    pub fn as_unix_seconds(self) -> (s: u64)
        ensures
            s == self@,
    {
        self.0
    }
}

} // verus!
