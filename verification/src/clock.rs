//! The simulation's clock: how many ticks have run, whether the simulation
//! is paused, and when a new visitor comes in.
use vstd::prelude::*;

verus! {

/// How many ticks pass between two arrivals of visitors.
pub const SPAWN_INTERVAL_TICKS: u64 = 20;

/// Visitors stop coming in once the park holds this many.
pub const MAX_VISITORS_FOR_SPAWN: usize = 20;

/// How many ticks have run, and whether the simulation is paused.
#[derive(Debug)]
pub struct SimulationClock {
    pub tick_count: u64,
    pub paused: bool,
}

/// The clock after one tick: it advances by one unless it is paused.
pub open spec fn spec_tick(c: SimulationClock) -> SimulationClock {
    if c.paused {
        c
    } else {
        SimulationClock { tick_count: (c.tick_count + 1) as u64, paused: false }
    }
}

/// The clock after `n` ticks.
pub open spec fn ticks(c: SimulationClock, n: nat) -> SimulationClock
    decreases n,
{
    if n == 0 {
        c
    } else {
        spec_tick(ticks(c, (n - 1) as nat))
    }
}

impl SimulationClock {
    /// A clock at tick 0, running.
    pub fn new() -> (r: Self)
        ensures
            r.tick_count == 0,
            !r.paused,
    {
        SimulationClock { tick_count: 0, paused: false }
    }

    /// Runs one tick unless the simulation is paused; says whether it ran.
    pub fn tick(&mut self) -> (ran: bool)
        requires
            old(self).tick_count < u64::MAX,
        ensures
            *final(self) == spec_tick(*old(self)),
            ran == !old(self).paused,
    {
        if self.paused {
            return false;
        }
        self.tick_count += 1;
        true
    }

    /// Stops the simulation; the clock keeps its count.
    pub fn pause(&mut self)
        ensures
            final(self).paused,
            final(self).tick_count == old(self).tick_count,
    {
        self.paused = true;
    }

    /// Starts the simulation again; the clock keeps its count.
    pub fn resume(&mut self)
        ensures
            !final(self).paused,
            final(self).tick_count == old(self).tick_count,
    {
        self.paused = false;
    }

    /// Whether a visitor comes in at the tick just run: every
    /// `SPAWN_INTERVAL_TICKS` ticks, while the park holds fewer than
    /// `MAX_VISITORS_FOR_SPAWN` visitors.
    pub fn spawn_due(&self, visitors_in_park: usize) -> (r: bool)
        ensures
            r == (visitors_in_park < MAX_VISITORS_FOR_SPAWN && self.tick_count % SPAWN_INTERVAL_TICKS
                == 0),
    {
        visitors_in_park < MAX_VISITORS_FOR_SPAWN && self.tick_count % SPAWN_INTERVAL_TICKS == 0
    }
}

/// While the simulation is paused, ticks change nothing; while it runs,
/// each tick moves the count forward by one.
pub proof fn lemma_ticks(c: SimulationClock, n: nat)
    requires
        c.tick_count + n <= u64::MAX,
    ensures
        c.paused ==> ticks(c, n) == c,
        !c.paused ==> ticks(c, n).tick_count == c.tick_count + n && !ticks(c, n).paused,
    decreases n,
{
    if n > 0 {
        lemma_ticks(c, (n - 1) as nat);
    }
}

} // verus!
