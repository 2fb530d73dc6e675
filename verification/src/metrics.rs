//! Running counts about the park's visitors.
use vstd::prelude::*;

verus! {

/// How many visitors are in the park, and how many have left it so far.
#[derive(Debug, Default)]
pub struct ParkMetricsAccumulator {
    pub visitors_in_park: usize,
    pub visitors_exited: u64,
}

} // verus!
