//! What a server does every second.
use vstd::prelude::*;

verus! {

/// How many ticks pass from one look for abandoned rooms to the next.
pub const TICKS_PER_REAP: u64 = 5;

/// What is to be done at a tick.
#[derive(Debug, Clone, Copy, PartialEq, Eq, Structural)]
pub struct TickPlan {
    /// Every room is driven on.
    pub drive: bool,
    /// Rooms that nobody is left in are dropped.
    pub reap: bool,
    /// How many ticks have been worked at by then.
    pub ticks: u64,
}

/// The plan for a tick of a server with so many connections that has worked at
/// so many ticks.
pub open spec fn planned(connections: usize, ticks: u64) -> TickPlan {
    if connections == 0 {
        TickPlan { drive: false, reap: false, ticks }
    } else {
        TickPlan {
            drive: true,
            reap: ticks % TICKS_PER_REAP == 0,
            ticks: if ticks == u64::MAX {
                0
            } else {
                (ticks + 1) as u64
            },
        }
    }
}

/// A server without connections rests, and its ticks do not count. One with
/// connections drives its rooms at every tick; of five ticks in a row it looks
/// for abandoned rooms at one, and at the first of all.
pub proof fn law_ticks(connections: usize, ticks: u64, k: u64)
    requires
        connections > 0,
        ticks <= u64::MAX - 5,
        k < 5,
    ensures
        planned(0, ticks) == (TickPlan { drive: false, reap: false, ticks }),
        planned(connections, ticks).drive,
        planned(connections, ticks).ticks == ticks + 1,
        planned(connections, u64::MAX).ticks == 0,
        planned(connections, 0).reap,
        planned(connections, ticks).reap ==> (planned(connections, (ticks + k) as u64).reap <==> k
            == 0),
        planned(connections, ticks).reap ==> planned(connections, (ticks + 5) as u64).reap,
{
}

/// The plan for a tick of a server with so many connections that has worked at
/// so many ticks. A server without connections does nothing. One with
/// connections drives its rooms at every tick, and looks for abandoned rooms at
/// the first and at every fifth after it.
pub fn plan_tick(connections: usize, ticks: u64) -> (r: TickPlan)
    ensures
        r == planned(connections, ticks),
        connections == 0 ==> r == (TickPlan { drive: false, reap: false, ticks }),
        connections > 0 ==> r.drive && r.reap == (ticks % TICKS_PER_REAP == 0) && r.ticks == if ticks
            == u64::MAX {
            0
        } else {
            (ticks + 1) as u64
        },
{
    if connections == 0 {
        return TickPlan { drive: false, reap: false, ticks };
    }
    TickPlan { drive: true, reap: ticks % TICKS_PER_REAP == 0, ticks: ticks.wrapping_add(1) }
}

} // verus!
