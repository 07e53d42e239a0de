//! Jobs and their states.
use vstd::prelude::*;

use crate::tube::{BuriedPos, Pri, ReadyPos};

verus! {

/// Where a job stands in its life.
#[derive(Clone, Copy, Debug, PartialEq, Eq, Structural)]
pub enum JobState {
    /// Waiting to be reserved, at `pos` in its tube's ready order.
    Ready { pos: ReadyPos },
    /// Becomes ready at the instant `until` (milliseconds).
    Delayed { until: u64 },
    /// Held by session `holder` until the instant `deadline` (milliseconds).
    Reserved { deadline: u64, holder: u64 },
    /// Set aside at `pos` in its tube's buried order until kicked.
    Buried { pos: BuriedPos },
}

impl JobState {
    /// The state's name as job statistics show it.
    pub fn name(&self) -> (r: Vec<u8>)
        ensures
            r@ == state_name(*self),
    {
        let r: Vec<u8> = match self {
            JobState::Ready { .. } => vec![114, 101, 97, 100, 121],
            JobState::Delayed { .. } => vec![100, 101, 108, 97, 121, 101, 100],
            JobState::Reserved { .. } => vec![114, 101, 115, 101, 114, 118, 101, 100],
            JobState::Buried { .. } => vec![98, 117, 114, 105, 101, 100],
        };
        assert(r@ =~= state_name(*self));
        r
    }
}

/// `ready`, `delayed`, `reserved` or `buried`, in ASCII.
pub open spec fn state_name(s: JobState) -> Seq<u8> {
    match s {
        JobState::Ready { .. } => seq![114, 101, 97, 100, 121],
        JobState::Delayed { .. } => seq![100, 101, 108, 97, 121, 101, 100],
        JobState::Reserved { .. } => seq![114, 101, 115, 101, 114, 118, 101, 100],
        JobState::Buried { .. } => seq![98, 117, 114, 105, 101, 100],
    }
}

/// A job.
#[derive(Debug)]
pub struct Job {
    pub id: u64,
    /// the name of the tube that owns it; it never changes
    pub tube: Vec<u8>,
    pub pri: Pri,
    pub data: Vec<u8>,
    pub state: JobState,
    /// when it was created (milliseconds)
    pub created: u64,
    /// time-to-run in seconds, at least 1
    pub ttr: u32,
    pub reserves: u64,
    pub timeouts: u64,
    pub releases: u64,
    pub buries: u64,
    pub kicks: u64,
}

} // verus!
