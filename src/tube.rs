//! Tubes: named queues, with the counters kept for each.
use vstd::prelude::*;

verus! {

/// A job's place in its tube's ready order; later arrivals get larger ones.
#[derive(Clone, Copy, Debug, PartialEq, Eq, Structural, PartialOrd, Ord)]
pub struct ReadyPos(pub u64);

/// A job's place in its tube's buried order; later burials get larger ones.
#[derive(Clone, Copy, Debug, PartialEq, Eq, Structural, PartialOrd, Ord)]
pub struct BuriedPos(pub u64);

/// A priority: lower values are served first; below 1024 is urgent.
#[derive(Clone, Copy, Debug, PartialEq, Eq, Structural, PartialOrd, Ord)]
pub struct Pri(pub u32);

/// Priorities below this are urgent.
pub const URGENT_LIMIT: u32 = 1024;

/// The statistics of a tube.
#[derive(Clone, Copy, Debug, PartialEq, Eq, Structural, Default)]
pub struct TubeStats {
    /// ready jobs with priority below 1024
    pub current_jobs_urgent: u64,
    /// ready jobs
    pub current_jobs_ready: u64,
    /// reserved jobs
    pub current_jobs_reserved: u64,
    /// delayed jobs
    pub current_jobs_delayed: u64,
    /// buried jobs
    pub current_jobs_buried: u64,
    /// jobs created in this tube
    pub total_jobs: u64,
    /// sessions that use this tube
    pub current_using: u64,
    /// sessions that watch this tube and wait for a reservation
    pub current_waiting: u64,
    /// sessions that watch this tube
    pub current_watching: u64,
    /// seconds of the current pause
    pub pause: u32,
    /// `delete` commands for jobs of this tube
    pub cmd_delete: u64,
    /// `pause-tube` commands for this tube
    pub cmd_pause_tube: u64,
}

/// Adds one, stopping at the largest value.
pub open spec fn bumped(x: u64) -> u64 {
    if x == u64::MAX {
        x
    } else {
        (x + 1) as u64
    }
}

pub fn bump(x: u64) -> (r: u64)
    ensures
        r == bumped(x),
{
    if x == u64::MAX {
        x
    } else {
        x + 1
    }
}

/// A tube. Which jobs it holds, and in which state, is kept in the job store;
/// the tube hands out positions and keeps its pause and its running totals.
#[derive(Debug)]
pub struct TubeState {
    pub name: Vec<u8>,
    /// the position the next ready job gets
    pub ready_sn: ReadyPos,
    /// the position the next buried job gets
    pub buried_sn: BuriedPos,
    /// the instant, in milliseconds, until which reservations are held back
    pub pause_until: Option<u64>,
    /// length in seconds of the last pause
    pub pause_secs: u32,
    pub total_jobs: u64,
    pub cmd_delete: u64,
    pub cmd_pause_tube: u64,
}

impl TubeState {
    pub fn new(name: Vec<u8>) -> (r: TubeState)
        ensures
            r.name@ == name@,
            r.ready_sn == ReadyPos(0),
            r.buried_sn == BuriedPos(0),
            r.pause_until is None,
            r.total_jobs == 0,
            r.cmd_delete == 0,
            r.cmd_pause_tube == 0,
    {
        TubeState {
            name,
            ready_sn: ReadyPos(0),
            buried_sn: BuriedPos(0),
            pause_until: None,
            pause_secs: 0,
            total_jobs: 0,
            cmd_delete: 0,
            cmd_pause_tube: 0,
        }
    }

    /// Hands out the tail position of the ready order.
    pub fn put_ready(&mut self) -> (r: ReadyPos)
        ensures
            r == old(self).ready_sn,
            *final(self) == (TubeState { ready_sn: ReadyPos(bumped(old(self).ready_sn.0)), ..*old(self) }),
    {
        let rp = self.ready_sn;
        self.ready_sn = ReadyPos(bump(rp.0));
        rp
    }

    /// Hands out the tail position of the buried order.
    pub fn put_buried(&mut self) -> (r: BuriedPos)
        ensures
            r == old(self).buried_sn,
            *final(self) == (TubeState { buried_sn: BuriedPos(bumped(old(self).buried_sn.0)), ..*old(self) }),
    {
        let bp = self.buried_sn;
        self.buried_sn = BuriedPos(bump(bp.0));
        bp
    }

    /// Whether the tube holds back reservations at instant `now`.
    pub open spec fn spec_is_paused(&self, now: u64) -> bool {
        match self.pause_until {
            Some(t) => now < t,
            None => false,
        }
    }

    pub fn is_paused(&self, now: u64) -> (r: bool)
        ensures
            r == self.spec_is_paused(now),
    {
        match self.pause_until {
            Some(t) => now < t,
            None => false,
        }
    }
}

} // verus!
