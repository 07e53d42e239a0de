//! The broker: the job store, the tubes, the sessions, and the operations
//! that move jobs through their lives.
use vstd::prelude::*;

use crate::job::{Job, JobState};
use crate::parser::{copy_bytes, eq_bytes};
use crate::protocol::Response;
use crate::tube::{bump, bumped, BuriedPos, Pri, ReadyPos, TubeState, TubeStats, URGENT_LIMIT};

verus! {

/// The instant `secs` seconds after `now`, in milliseconds, stopping at the
/// largest instant.
pub open spec fn later(now: u64, secs: u32) -> u64 {
    if now + secs * 1000 > u64::MAX {
        u64::MAX
    } else {
        (now + secs * 1000) as u64
    }
}

pub fn add_secs(now: u64, secs: u32) -> (r: u64)
    ensures
        r == later(now, secs),
{
    let ms: u64 = secs as u64 * 1000;
    if now > u64::MAX - ms {
        u64::MAX
    } else {
        now + ms
    }
}

/// The name of the tube that every session starts with.
pub open spec fn default_tube() -> Seq<u8> {
    seq![100, 101, 102, 97, 117, 108, 116]
}

pub fn default_tube_name() -> (r: Vec<u8>)
    ensures
        r@ == default_tube(),
{
    let r: Vec<u8> = vec![100, 101, 102, 97, 117, 108, 116];
    assert(r@ =~= default_tube());
    r
}

/// A client connection as the broker sees it.
#[derive(Debug)]
pub struct Session {
    pub id: u64,
    /// the tube that puts go to
    pub used: Vec<u8>,
    /// the tubes reservations come from; never empty, no name twice
    pub watched: Vec<Vec<u8>>,
    /// whether a reservation request is outstanding
    pub waiting: bool,
    /// whether the session has put a job
    pub produced: bool,
    /// whether the session has asked for a reservation
    pub worked: bool,
}

impl Session {
    pub open spec fn watches(self, name: Seq<u8>) -> bool {
        exists|k: int| 0 <= k < self.watched@.len() && #[trigger] self.watched@[k]@ == name
    }

    pub open spec fn refers_to(self, name: Seq<u8>) -> bool {
        self.used@ == name || self.watches(name)
    }

    pub open spec fn watch_set_ok(self) -> bool {
        &&& self.watched@.len() >= 1
        &&& forall|a: int, b: int|
            0 <= a < b < self.watched@.len() ==> #[trigger] self.watched@[a]@ != #[trigger] self.watched@[b]@
    }
}

/// Whether the session uses or watches the tube `name`.
pub fn session_refers_to(s: &Session, name: &[u8]) -> (r: bool)
    ensures
        r == s.refers_to(name@),
{
    if eq_bytes(s.used.as_slice(), name) {
        return true;
    }
    let mut k: usize = 0;
    while k < s.watched.len()
        invariant
            0 <= k <= s.watched@.len(),
            s.used@ != name@,
            forall|j: int| 0 <= j < k ==> (#[trigger] s.watched@[j])@ != name@,
        decreases s.watched@.len() - k,
    {
        if eq_bytes(s.watched[k].as_slice(), name) {
            return true;
        }
        k += 1;
    }
    false
}

/// Whether the session watches the tube `name`.
pub fn watches_name(s: &Session, name: &[u8]) -> (r: bool)
    ensures
        r == s.watches(name@),
{
    let mut k: usize = 0;
    while k < s.watched.len()
        invariant
            0 <= k <= s.watched@.len(),
            forall|j: int| 0 <= j < k ==> (#[trigger] s.watched@[j])@ != name@,
        decreases s.watched@.len() - k,
    {
        if eq_bytes(s.watched[k].as_slice(), name) {
            return true;
        }
        k += 1;
    }
    false
}

/// The rank of a tube for a session seed.
pub fn rank(seed: u64, name: &[u8]) -> (r: u64)
    ensures
        r == tube_rank(seed, name@),
{
    let mut h: u64 = seed;
    let mut i: usize = 0;
    while i < name.len()
        invariant
            0 <= i <= name.len(),
            h == tube_rank(seed, name@.subrange(0, i as int)),
        decreases name.len() - i,
    {
        proof {
            let p = name@.subrange(0, i as int + 1);
            assert(p.drop_last() =~= name@.subrange(0, i as int));
        }
        h = (h ^ name[i] as u64).wrapping_mul(1099511628211);
        i += 1;
    }
    assert(name@.subrange(0, name@.len() as int) =~= name@);
    h
}

/// The state of the whole broker.
#[derive(Debug)]
pub struct Server {
    /// the live jobs, in increasing order of id
    pub jobs: Vec<Job>,
    pub tubes: Vec<TubeState>,
    pub sessions: Vec<Session>,
    /// the id the next job gets
    pub next_id: u64,
    /// the id the next session gets
    pub next_session: u64,
    /// the largest job body accepted
    pub max_job_size: u32,
    /// whether new jobs are refused
    pub draining: bool,
    /// how many times each command was received, by the order of `Verb`
    pub cmd_counts: [u64; 25],
    /// how many reservations have run out
    pub job_timeouts: u64,
    /// how many sessions were opened
    pub total_connections: u64,
}

/// Every field of `b` but the state and the counters is that of `a`.
pub open spec fn same_job(a: Job, b: Job) -> bool {
    &&& a.id == b.id
    &&& a.tube@ == b.tube@
    &&& a.data@ == b.data@
    &&& a.created == b.created
    &&& a.ttr == b.ttr
}


/// `b` holds the jobs of `a`, with job `id` now `j`.
pub open spec fn jobs_replaced(a: Server, b: Server, id: u64, j: Job) -> bool {
    &&& forall|x: u64| #[trigger] b.has_job(x) == a.has_job(x)
    &&& b.job(id) == j
    &&& forall|x: u64| x != id && a.has_job(x) ==> #[trigger] b.job(x) == a.job(x)
}

/// `b` holds the tubes of `a`, with the tube called `name` now `t`.
pub open spec fn tubes_replaced(a: Server, b: Server, name: Seq<u8>, t: TubeState) -> bool {
    &&& forall|n: Seq<u8>| #[trigger] b.has_tube(n) == a.has_tube(n)
    &&& b.tube(name) == t
    &&& forall|n: Seq<u8>| n != name && a.has_tube(n) ==> #[trigger] b.tube(n) == a.tube(n)
}

/// Sessions and counters of `b` are those of `a`.
pub open spec fn rest_same(a: Server, b: Server) -> bool {
    &&& b.sessions@ == a.sessions@
    &&& b.next_id == a.next_id
    &&& b.next_session == a.next_session
    &&& b.max_job_size == a.max_job_size
    &&& b.draining == a.draining
}

/// `b` holds the same jobs, tubes and sessions as `a`; only counters kept
/// for statistics may differ.
pub open spec fn same_state(a: Server, b: Server) -> bool {
    &&& b.jobs@ == a.jobs@
    &&& b.tubes@ == a.tubes@
    &&& rest_same(a, b)
}

/// The job is reserved by session `sid`.
pub open spec fn reserved_by(j: Job, sid: u64) -> bool {
    match j.state {
        JobState::Reserved { holder, .. } => holder == sid,
        _ => false,
    }
}

/// The tube with the ready position handed out.
pub open spec fn ready_taken(t: TubeState) -> TubeState {
    TubeState { ready_sn: ReadyPos(bumped(t.ready_sn.0)), ..t }
}

/// The tube with the buried position handed out.
pub open spec fn buried_taken(t: TubeState) -> TubeState {
    TubeState { buried_sn: BuriedPos(bumped(t.buried_sn.0)), ..t }
}

/// What `put` leaves behind: a new job `a.next_id` in the session's used
/// tube, and nothing else changed but that tube's counters.
pub open spec fn put_done(a: Server, b: Server, sid: u64, pri: u32, delay: u32, ttr: u32, data: Seq<u8>, now: u64) -> bool {
    let id = a.next_id;
    let name = a.session(sid).used@;
    let j = b.job(id);
    &&& b.next_id == id + 1
    &&& !a.has_job(id)
    &&& b.has_job(id)
    &&& j.id == id
    &&& j.tube@ == name
    &&& j.pri == Pri(pri)
    &&& j.data@ == data
    &&& j.created == now
    &&& j.ttr == (if ttr == 0 { 1 } else { ttr })
    &&& j.state == (if delay == 0 {
        JobState::Ready { pos: a.tube(name).ready_sn }
    } else {
        JobState::Delayed { until: later(now, delay) }
    })
    &&& j.reserves == 0 && j.timeouts == 0 && j.releases == 0 && j.buries == 0 && j.kicks == 0
    &&& forall|x: u64| x != id ==> #[trigger] b.has_job(x) == a.has_job(x)
    &&& forall|x: u64| x != id && a.has_job(x) ==> #[trigger] b.job(x) == a.job(x)
    &&& tubes_replaced(
        a,
        b,
        name,
        TubeState {
            total_jobs: bumped(a.tube(name).total_jobs),
            ..(if delay == 0 { ready_taken(a.tube(name)) } else { a.tube(name) })
        },
    )
    &&& b.sessions@ == a.sessions@
}

/// One step of the hash that ranks tubes for a session.
pub open spec fn mix(h: u64, b: u8) -> u64 {
    (h ^ (b as u64)).wrapping_mul(1099511628211)
}

/// The rank of a tube for a session with the given seed: among tubes whose
/// best jobs tie on priority, the lower rank is served first. A fresh seed
/// per session spreads the ties.
pub open spec fn tube_rank(seed: u64, name: Seq<u8>) -> u64
    decreases name.len(),
{
    if name.len() == 0 {
        seed
    } else {
        mix(tube_rank(seed, name.drop_last()), name.last())
    }
}

pub open spec fn ready_pos(j: Job) -> u64 {
    match j.state {
        JobState::Ready { pos } => pos.0,
        _ => 0,
    }
}

/// `a` is served before `b` to a session with the given seed: by priority,
/// then tube rank, then ready position, then id.
pub open spec fn served_before(seed: u64, a: Job, b: Job) -> bool {
    let ra = tube_rank(seed, a.tube@);
    let rb = tube_rank(seed, b.tube@);
    ||| a.pri.0 < b.pri.0
    ||| (a.pri.0 == b.pri.0 && ra < rb)
    ||| (a.pri.0 == b.pri.0 && ra == rb && ready_pos(a) < ready_pos(b))
    ||| (a.pri.0 == b.pri.0 && ra == rb && ready_pos(a) == ready_pos(b) && a.id < b.id)
}

/// What a reservation request gets.
#[derive(Clone, Copy, Debug, PartialEq, Eq, Structural)]
pub enum Reservation {
    /// The job with this id is now reserved.
    Reserved(u64),
    /// A job the session holds is about to time out.
    DeadlineSoon,
    /// No job can be had now: the session has to wait.
    Wait,
}

/// Job `j` is in the tube `name` and buried (`buried`) or delayed (`!buried`).
pub open spec fn in_class(j: Job, name: Seq<u8>, buried: bool) -> bool {
    &&& j.tube@ == name
    &&& if buried {
        j.state is Buried
    } else {
        j.state is Delayed
    }
}

/// `a` comes before `b` in the buried order, or in the delayed order.
pub open spec fn kick_before(a: Job, b: Job) -> bool {
    match (a.state, b.state) {
        (JobState::Buried { pos: p }, JobState::Buried { pos: q }) => p.0 < q.0 || (p.0 == q.0 && a.id < b.id),
        (JobState::Delayed { until: u }, JobState::Delayed { until: v }) => u < v || (u == v && a.id < b.id),
        _ => false,
    }
}

/// The job's delay or reservation has run out at `now`.
pub open spec fn due(j: Job, now: u64) -> bool {
    match j.state {
        JobState::Delayed { until } => until <= now,
        JobState::Reserved { deadline, .. } => deadline <= now,
        _ => false,
    }
}

/// `b` is `a` moved to the ready state by the timer: a reservation that ran
/// out counts as a timeout.
pub open spec fn timed_to_ready(a: Job, b: Job) -> bool {
    &&& b.state is Ready
    &&& same_job(a, b)
    &&& b.pri == a.pri
    &&& b.timeouts == if a.state is Reserved { bumped(a.timeouts) } else { a.timeouts }
    &&& b.reserves == a.reserves && b.releases == a.releases && b.buries == a.buries && b.kicks == a.kicks
}

pub open spec fn buried_pos(j: Job) -> u64 {
    match j.state {
        JobState::Buried { pos } => pos.0,
        _ => 0,
    }
}

/// Job `j` is ready (`buried` false) or buried in the tube `t`.
pub open spec fn placed_in(j: Job, t: TubeState, buried: bool) -> bool {
    &&& j.tube@ == t.name@
    &&& if buried {
        j.state is Buried
    } else {
        j.state is Ready
    }
}

/// The position of a placed job, in the ready or buried order.
pub open spec fn place(j: Job, buried: bool) -> u64 {
    if buried {
        buried_pos(j)
    } else {
        ready_pos(j)
    }
}

/// The next position the tube hands out, in the ready or buried order.
pub open spec fn next_place(t: TubeState, buried: bool) -> u64 {
    if buried {
        t.buried_sn.0
    } else {
        t.ready_sn.0
    }
}

/// `a` comes before `b` in their tube's ready order: by priority, then by
/// when they became ready, then by id.
pub open spec fn ready_before(a: Job, b: Job) -> bool {
    ||| a.pri.0 < b.pri.0
    ||| (a.pri.0 == b.pri.0 && ready_pos(a) < ready_pos(b))
    ||| (a.pri.0 == b.pri.0 && ready_pos(a) == ready_pos(b) && a.id < b.id)
}

/// `b` is `a` given back to the ready state, with its priority and counters.
pub open spec fn returned(a: Job, b: Job) -> bool {
    &&& b.state is Ready
    &&& same_job(a, b)
    &&& b.pri == a.pri
    &&& b.reserves == a.reserves && b.timeouts == a.timeouts && b.releases == a.releases
    &&& b.buries == a.buries && b.kicks == a.kicks
}

/// 0 for ready, 1 for reserved, 2 for delayed, 3 for buried.
pub open spec fn state_code(st: JobState) -> int {
    match st {
        JobState::Ready { .. } => 0,
        JobState::Reserved { .. } => 1,
        JobState::Delayed { .. } => 2,
        JobState::Buried { .. } => 3,
    }
}

/// How many of `jobs` belong to the tube `name` and are in the state `code`.
pub open spec fn count_in(jobs: Seq<Job>, name: Seq<u8>, code: int) -> nat
    decreases jobs.len(),
{
    if jobs.len() == 0 {
        0
    } else {
        count_in(jobs.drop_last(), name, code) + if jobs.last().tube@ == name && state_code(jobs.last().state) == code {
            1nat
        } else {
            0nat
        }
    }
}

/// How many of `jobs`, in any tube, are in the state `code`.
pub open spec fn count_all(jobs: Seq<Job>, code: int) -> nat
    decreases jobs.len(),
{
    if jobs.len() == 0 {
        0
    } else {
        count_all(jobs.drop_last(), code) + if state_code(jobs.last().state) == code {
            1nat
        } else {
            0nat
        }
    }
}

/// How many of `jobs` are in the class of `in_class(_, name, buried)`.
pub open spec fn count_class(jobs: Seq<Job>, name: Seq<u8>, buried: bool) -> nat
    decreases jobs.len(),
{
    if jobs.len() == 0 {
        0
    } else {
        count_class(jobs.drop_last(), name, buried) + if in_class(jobs.last(), name, buried) {
            1nat
        } else {
            0nat
        }
    }
}

/// Taking one job out of a class lowers its count by one.
pub proof fn lemma_count_class_leave(jobs: Seq<Job>, i: int, j: Job, name: Seq<u8>, buried: bool)
    requires
        0 <= i < jobs.len(),
        in_class(jobs[i], name, buried),
        !in_class(j, name, buried),
    ensures
        count_class(jobs.update(i, j), name, buried) + 1 == count_class(jobs, name, buried),
    decreases jobs.len(),
{
    let u = jobs.update(i, j);
    if i < jobs.len() - 1 {
        assert(u.drop_last() =~= jobs.drop_last().update(i, j));
        lemma_count_class_leave(jobs.drop_last(), i, j, name, buried);
    } else {
        assert(u.drop_last() =~= jobs.drop_last());
    }
}

/// A class is empty exactly when its count is zero.
pub proof fn lemma_count_class_zero(jobs: Seq<Job>, name: Seq<u8>, buried: bool)
    ensures
        (count_class(jobs, name, buried) == 0) == (forall|i: int| 0 <= i < jobs.len() ==> !in_class(#[trigger] jobs[i], name, buried)),
    decreases jobs.len(),
{
    if jobs.len() > 0 {
        let d = jobs.drop_last();
        lemma_count_class_zero(d, name, buried);
        if count_class(jobs, name, buried) == 0 {
            assert forall|i: int| 0 <= i < jobs.len() implies !in_class(#[trigger] jobs[i], name, buried) by {
                if i < jobs.len() - 1 {
                    assert(jobs[i] == d[i]);
                }
            }
        } else if count_class(d, name, buried) > 0 {
            let k = choose|k: int| 0 <= k < d.len() && in_class(#[trigger] d[k], name, buried);
            assert(jobs[k] == d[k]);
        }
    }
}

/// How many of `jobs`, in any tube, are ready and urgent.
pub open spec fn count_urgent_all(jobs: Seq<Job>) -> nat
    decreases jobs.len(),
{
    if jobs.len() == 0 {
        0
    } else {
        count_urgent_all(jobs.drop_last()) + if jobs.last().state is Ready && jobs.last().pri.0 < URGENT_LIMIT {
            1nat
        } else {
            0nat
        }
    }
}

/// How many sessions have put a job (0), asked for a reservation (1), or
/// wait for one (2).
pub open spec fn count_flag(ss: Seq<Session>, which: int) -> nat
    decreases ss.len(),
{
    if ss.len() == 0 {
        0
    } else {
        let x = ss.last();
        let hit = if which == 0 {
            x.produced
        } else if which == 1 {
            x.worked
        } else {
            x.waiting
        };
        count_flag(ss.drop_last(), which) + if hit {
            1nat
        } else {
            0nat
        }
    }
}

/// How many of `jobs` are ready and urgent in the tube `name`.
pub open spec fn count_urgent(jobs: Seq<Job>, name: Seq<u8>) -> nat
    decreases jobs.len(),
{
    if jobs.len() == 0 {
        0
    } else {
        count_urgent(jobs.drop_last(), name) + if jobs.last().tube@ == name && jobs.last().state is Ready
            && jobs.last().pri.0 < URGENT_LIMIT {
            1nat
        } else {
            0nat
        }
    }
}

/// The jobs of the tube `name`, in all four states.
pub open spec fn jobs_in(jobs: Seq<Job>, name: Seq<u8>) -> nat {
    count_in(jobs, name, 0) + count_in(jobs, name, 1) + count_in(jobs, name, 2) + count_in(jobs, name, 3)
}

/// The sum, over `tubes`, of their jobs in all four states.
pub open spec fn sum_over_tubes(tubes: Seq<TubeState>, jobs: Seq<Job>) -> nat
    decreases tubes.len(),
{
    if tubes.len() == 0 {
        0
    } else {
        sum_over_tubes(tubes.drop_last(), jobs) + jobs_in(jobs, tubes.last().name@)
    }
}

/// How many sessions use, watch, or watch and wait on the tube `name`.
pub open spec fn count_sessions(ss: Seq<Session>, name: Seq<u8>, what: int) -> nat
    decreases ss.len(),
{
    if ss.len() == 0 {
        0
    } else {
        let s = ss.last();
        let hit = if what == 0 {
            s.used@ == name
        } else if what == 1 {
            s.watches(name)
        } else {
            s.watches(name) && s.waiting
        };
        count_sessions(ss.drop_last(), name, what) + if hit {
            1nat
        } else {
            0nat
        }
    }
}

impl Server {
    pub open spec fn has_job(self, id: u64) -> bool {
        exists|i: int| 0 <= i < self.jobs@.len() && #[trigger] self.jobs@[i].id == id
    }

    pub open spec fn job_index(self, id: u64) -> int {
        choose|i: int| 0 <= i < self.jobs@.len() && #[trigger] self.jobs@[i].id == id
    }

    /// The live job with this id; meaningful where `has_job(id)`.
    pub open spec fn job(self, id: u64) -> Job {
        self.jobs@[self.job_index(id)]
    }

    pub open spec fn has_tube(self, name: Seq<u8>) -> bool {
        exists|t: int| 0 <= t < self.tubes@.len() && #[trigger] self.tubes@[t].name@ == name
    }

    pub open spec fn tube_index(self, name: Seq<u8>) -> int {
        choose|t: int| 0 <= t < self.tubes@.len() && #[trigger] self.tubes@[t].name@ == name
    }

    /// The tube with this name; meaningful where `has_tube(name)`.
    pub open spec fn tube(self, name: Seq<u8>) -> TubeState {
        self.tubes@[self.tube_index(name)]
    }

    pub open spec fn has_session(self, sid: u64) -> bool {
        exists|s: int| 0 <= s < self.sessions@.len() && #[trigger] self.sessions@[s].id == sid
    }

    pub open spec fn session_index(self, sid: u64) -> int {
        choose|s: int| 0 <= s < self.sessions@.len() && #[trigger] self.sessions@[s].id == sid
    }

    /// The session with this id; meaningful where `has_session(sid)`.
    pub open spec fn session(self, sid: u64) -> Session {
        self.sessions@[self.session_index(sid)]
    }

    /// Some job belongs to the tube, or some session uses or watches it.
    pub open spec fn tube_needed(self, name: Seq<u8>) -> bool {
        ||| exists|i: int| 0 <= i < self.jobs@.len() && #[trigger] self.jobs@[i].tube@ == name
        ||| exists|s: int| 0 <= s < self.sessions@.len() && #[trigger] self.sessions@[s].refers_to(name)
    }


    /// Job `j` can be reserved by session `sid` at `now`: it is ready, in a
    /// watched tube that is not paused.
    pub open spec fn reservable(self, sid: u64, now: u64, j: Job) -> bool {
        &&& j.state is Ready
        &&& self.session(sid).watches(j.tube@)
        &&& !self.tube(j.tube@).spec_is_paused(now)
    }

    pub open spec fn any_reservable(self, sid: u64, now: u64) -> bool {
        exists|i: int| 0 <= i < self.jobs@.len() && self.reservable(sid, now, #[trigger] self.jobs@[i])
    }

    /// Some job held by `sid` reaches its deadline within a second of `now`.
    pub open spec fn deadline_soon(self, sid: u64, now: u64) -> bool {
        exists|i: int|
            0 <= i < self.jobs@.len() && match (#[trigger] self.jobs@[i]).state {
                JobState::Reserved { deadline, holder } => holder == sid && deadline <= now + 1000,
                _ => false,
            }
    }

    /// What `reserve` does, from `a` to `b`, answering `r`.
    pub open spec fn reserve_post(a: Server, b: Server, sid: u64, now: u64, seed: u64, r: Reservation) -> bool {
        if a.deadline_soon(sid, now) {
            r == Reservation::DeadlineSoon && same_state(a, b)
        } else if !a.any_reservable(sid, now) {
            r == Reservation::Wait && same_state(a, b)
        } else {
            exists|id: u64|
                {
                    &&& r == Reservation::Reserved(id)
                    &&& #[trigger] a.has_job(id)
                    &&& a.reservable(sid, now, a.job(id))
                    &&& forall|i: int|
                        0 <= i < a.jobs@.len() && a.reservable(sid, now, #[trigger] a.jobs@[i]) ==> !served_before(
                            seed,
                            a.jobs@[i],
                            a.job(id),
                        )
                    &&& jobs_replaced(
                        a,
                        b,
                        id,
                        Job {
                            state: JobState::Reserved { deadline: later(now, a.job(id).ttr), holder: sid },
                            reserves: bumped(a.job(id).reserves),
                            ..a.job(id)
                        },
                    )
                    &&& b.tubes@ == a.tubes@
                    &&& rest_same(a, b)
                }
        }
    }


    pub open spec fn any_in_class(self, name: Seq<u8>, buried: bool) -> bool {
        exists|i: int| 0 <= i < self.jobs@.len() && in_class(#[trigger] self.jobs@[i], name, buried)
    }

    /// What `release` does, from `a` to `b`, answering `r`.
    pub open spec fn release_post(a: Server, b: Server, sid: u64, id: u64, pri: u32, delay: u32, now: u64, r: bool) -> bool {
        &&& r == (a.has_job(id) && reserved_by(a.job(id), sid))
        &&& r ==> jobs_replaced(
            a,
            b,
            id,
            Job {
                pri: Pri(pri),
                state: if delay == 0 {
                    JobState::Ready { pos: a.tube(a.job(id).tube@).ready_sn }
                } else {
                    JobState::Delayed { until: later(now, delay) }
                },
                releases: bumped(a.job(id).releases),
                ..a.job(id)
            }
        )
        &&& r ==> tubes_replaced(
            a,
            b,
            a.job(id).tube@,
            if delay == 0 {
                ready_taken(a.tube(a.job(id).tube@))
            } else {
                a.tube(a.job(id).tube@)
            }
        )
        &&& r ==> rest_same(a, b)
        &&& !r ==> same_state(a, b)
    }

    /// What `bury` does, from `a` to `b`, answering `r`.
    pub open spec fn bury_post(a: Server, b: Server, sid: u64, id: u64, pri: u32, r: bool) -> bool {
        &&& r == (a.has_job(id) && reserved_by(a.job(id), sid))
        &&& r ==> jobs_replaced(
            a,
            b,
            id,
            Job {
                pri: Pri(pri),
                state: JobState::Buried { pos: a.tube(a.job(id).tube@).buried_sn },
                buries: bumped(a.job(id).buries),
                ..a.job(id)
            }
        )
        &&& r ==> tubes_replaced(
            a,
            b,
            a.job(id).tube@,
            buried_taken(a.tube(a.job(id).tube@))
        )
        &&& r ==> rest_same(a, b)
        &&& !r ==> same_state(a, b)
    }

    /// What `kick_job` does, from `a` to `b`, answering `r`.
    pub open spec fn kick_job_post(a: Server, b: Server, id: u64, r: bool) -> bool {
        &&& r == (a.has_job(id) && (a.job(id).state is Buried || a.job(id).state is Delayed))
        &&& r ==> jobs_replaced(
            a,
            b,
            id,
            Job {
                state: JobState::Ready { pos: a.tube(a.job(id).tube@).ready_sn },
                kicks: bumped(a.job(id).kicks),
                ..a.job(id)
            }
        )
        &&& r ==> tubes_replaced(
            a,
            b,
            a.job(id).tube@,
            ready_taken(a.tube(a.job(id).tube@))
        )
        &&& r ==> rest_same(a, b)
        &&& !r ==> same_state(a, b)
    }

    /// What `pause_tube` does, from `a` to `b`, answering `r`.
    pub open spec fn pause_tube_post(a: Server, b: Server, name: Seq<u8>, secs: u32, now: u64, r: bool) -> bool {
        &&& r == a.has_tube(name)
        &&& !r ==> same_state(a, b)
        &&& r ==> tubes_replaced(
            a,
            b,
            name,
            TubeState {
                pause_until: Some(later(now, secs)),
                pause_secs: secs,
                cmd_pause_tube: bumped(a.tube(name).cmd_pause_tube),
                ..a.tube(name)
            }
        )
        &&& r ==> b.jobs@ == a.jobs@ && rest_same(a, b)
    }

    /// What `touch` does, from `a` to `b`, answering `r`.
    pub open spec fn touch_post(a: Server, b: Server, sid: u64, id: u64, now: u64, r: bool) -> bool {
        &&& r == (a.has_job(id) && reserved_by(a.job(id), sid))
        &&& r ==> jobs_replaced(
            a,
            b,
            id,
            Job {
                state: JobState::Reserved { deadline: later(now, a.job(id).ttr), holder: sid },
                ..a.job(id)
            },
        )
        &&& r ==> b.tubes@ == a.tubes@ && rest_same(a, b)
        &&& !r ==> same_state(a, b)
    }

    /// What `delete` does, from `a` to `b`, answering `r`.
    pub open spec fn delete_post(a: Server, b: Server, sid: u64, id: u64, r: bool) -> bool {
        &&& r == (a.has_job(id) && (!(a.job(id).state is Reserved) || reserved_by(a.job(id), sid)))
        &&& !r ==> same_state(a, b)
        &&& r ==> !b.has_job(id)
        &&& r ==> forall|x: u64| x != id ==> #[trigger] b.has_job(x) == a.has_job(x)
        &&& r ==> forall|x: u64| x != id && a.has_job(x) ==> #[trigger] b.job(x) == a.job(x)
        &&& r ==> b.sessions@ == a.sessions@
        &&& r && b.has_tube(a.job(id).tube@) ==> b.tube(a.job(id).tube@).cmd_delete == bumped(
            a.tube(a.job(id).tube@).cmd_delete,
        )
    }

    /// What `kick` does, from `a` to `b`, answering the kicked ids `r`.
    pub open spec fn kick_post(a: Server, b: Server, sid: u64, bound: u64, r: Seq<u64>) -> bool {
        let name = a.session(sid).used@;
        let buried = a.any_in_class(name, true);
        &&& r.len() <= bound
        &&& r.len() == if bound < count_class(a.jobs@, name, buried) {
            bound as nat
        } else {
            count_class(a.jobs@, name, buried)
        }
        &&& forall|k1: int, k2: int| 0 <= k1 < k2 < r.len() ==> r[k1] != r[k2]
        &&& forall|x: u64| #[trigger] b.has_job(x) == a.has_job(x)
        &&& forall|k: int|
            0 <= k < r.len() ==> {
                &&& a.has_job(#[trigger] r[k])
                &&& in_class(a.job(r[k]), name, buried)
                &&& b.job(r[k]).state is Ready
                &&& same_job(a.job(r[k]), b.job(r[k]))
                &&& b.job(r[k]).pri == a.job(r[k]).pri
            }
        &&& forall|x: u64| a.has_job(x) && !r.contains(x) ==> #[trigger] b.job(x) == a.job(x)
        &&& r.len() < bound ==> !b.any_in_class(name, buried)
        &&& forall|k: int, i: int|
            0 <= k < r.len() && 0 <= i < b.jobs@.len() && in_class(b.jobs@[i], name, buried)
                ==> kick_before(a.job(#[trigger] r[k]), #[trigger] b.jobs@[i])
        &&& b.sessions@ == a.sessions@
    }

    pub open spec fn jobs_wf(self) -> bool {
        &&& self.next_id >= 1
        &&& forall|i: int, j: int| 0 <= i < j < self.jobs@.len() ==> #[trigger] self.jobs@[i].id < #[trigger] self.jobs@[j].id
        &&& forall|i: int| 0 <= i < self.jobs@.len() ==> 1 <= #[trigger] self.jobs@[i].id < self.next_id
        &&& forall|i: int| 0 <= i < self.jobs@.len() ==> self.has_tube(#[trigger] self.jobs@[i].tube@)
        &&& forall|i: int| 0 <= i < self.jobs@.len() ==> (#[trigger] self.jobs@[i]).ttr >= 1
        &&& forall|i: int| 0 <= i < self.jobs@.len() ==> match (#[trigger] self.jobs@[i]).state {
            JobState::Reserved { holder, .. } => self.has_session(holder),
            _ => true,
        }
    }

    pub open spec fn tubes_unique(self) -> bool {
        forall|a: int, b: int|
            0 <= a < b < self.tubes@.len() ==> #[trigger] self.tubes@[a].name@ != #[trigger] self.tubes@[b].name@
    }

    /// No tube lingers that no job and no session refers to.
    pub open spec fn tubes_needed(self) -> bool {
        forall|t: int| 0 <= t < self.tubes@.len() ==> self.tube_needed(#[trigger] self.tubes@[t].name@)
    }

    pub open spec fn tubes_wf(self) -> bool {
        &&& self.tubes_unique()
        &&& self.tubes_needed()
    }

    pub open spec fn sessions_wf(self) -> bool {
        &&& forall|a: int, b: int|
            0 <= a < b < self.sessions@.len() ==> #[trigger] self.sessions@[a].id != #[trigger] self.sessions@[b].id
        &&& forall|s: int| 0 <= s < self.sessions@.len() ==> (#[trigger] self.sessions@[s]).id < self.next_session
        &&& forall|s: int| 0 <= s < self.sessions@.len() ==> self.has_tube((#[trigger] self.sessions@[s]).used@)
        &&& forall|s: int| 0 <= s < self.sessions@.len() ==> (#[trigger] self.sessions@[s]).watch_set_ok()
        &&& forall|s: int, k: int|
            0 <= s < self.sessions@.len() && 0 <= k < self.sessions@[s].watched@.len() ==> self.has_tube(
                #[trigger] self.sessions@[s].watched@[k]@,
            )
    }

    /// In a tube whose counter has not run out, the ready jobs sit at
    /// distinct positions below it, and so do the buried jobs: a job placed
    /// at the counter goes after all of them.
    pub open spec fn positions_ok(self) -> bool {
        &&& forall|t: int, i: int, buried: bool|
            #![trigger placed_in(self.jobs@[i], self.tubes@[t], buried)]
            0 <= t < self.tubes@.len() && 0 <= i < self.jobs@.len() && placed_in(self.jobs@[i], self.tubes@[t], buried) && next_place(self.tubes@[t], buried) < u64::MAX ==> place(self.jobs@[i], buried) < next_place(
                self.tubes@[t],
                buried,
            )
        &&& forall|t: int, i: int, k: int, buried: bool|
            #![trigger placed_in(self.jobs@[i], self.tubes@[t], buried), placed_in(self.jobs@[k], self.tubes@[t], buried)]
            0 <= t < self.tubes@.len() && 0 <= i < self.jobs@.len() && 0 <= k < self.jobs@.len() && i != k && placed_in(self.jobs@[i], self.tubes@[t], buried) && placed_in(self.jobs@[k], self.tubes@[t], buried) && next_place(self.tubes@[t], buried)
                < u64::MAX ==> place(self.jobs@[i], buried) != place(self.jobs@[k], buried)
    }

    /// The invariant, but for tubes that nothing needs any more.
    pub open spec fn pre_wf(self) -> bool {
        &&& self.jobs_wf()
        &&& self.tubes_unique()
        &&& self.sessions_wf()
        &&& self.positions_ok()
    }

    /// The broker's invariant.
    pub open spec fn wf(self) -> bool {
        &&& self.pre_wf()
        &&& self.tubes_needed()
    }

    pub proof fn lemma_job_index(self, i: int)
        requires
            self.jobs_wf(),
            0 <= i < self.jobs@.len(),
        ensures
            self.has_job(self.jobs@[i].id),
            self.job_index(self.jobs@[i].id) == i,
    {
        let id = self.jobs@[i].id;
        assert(self.jobs@[i].id == id);
        let j = self.job_index(id);
        if j < i {
            assert(self.jobs@[j].id < self.jobs@[i].id);
        } else if j > i {
            assert(self.jobs@[i].id < self.jobs@[j].id);
        }
    }

    pub proof fn lemma_tube_index(self, t: int)
        requires
            self.tubes_unique(),
            0 <= t < self.tubes@.len(),
        ensures
            self.has_tube(self.tubes@[t].name@),
            self.tube_index(self.tubes@[t].name@) == t,
    {
        let name = self.tubes@[t].name@;
        assert(self.tubes@[t].name@ == name);
        let u = self.tube_index(name);
        if u < t {
            assert(self.tubes@[u].name@ != self.tubes@[t].name@);
        } else if u > t {
            assert(self.tubes@[t].name@ != self.tubes@[u].name@);
        }
    }

    pub proof fn lemma_session_index(self, s: int)
        requires
            self.sessions_wf(),
            0 <= s < self.sessions@.len(),
        ensures
            self.has_session(self.sessions@[s].id),
            self.session_index(self.sessions@[s].id) == s,
    {
        let sid = self.sessions@[s].id;
        assert(self.sessions@[s].id == sid);
        let u = self.session_index(sid);
        if u < s {
            assert(self.sessions@[u].id != self.sessions@[s].id);
        } else if u > s {
            assert(self.sessions@[s].id != self.sessions@[u].id);
        }
    }


    /// Moving jobs between states, and handing out tube positions, keeps the
    /// invariant and the lookups.
    pub proof fn lemma_wf_frame(a: Server, b: Server)
        requires
            a.wf(),
            b.positions_ok(),
            b.jobs@.len() == a.jobs@.len(),
            b.tubes@.len() == a.tubes@.len(),
            b.sessions@ == a.sessions@,
            b.next_id == a.next_id,
            b.next_session == a.next_session,
            forall|i: int|
                0 <= i < b.jobs@.len() ==> {
                    &&& (#[trigger] b.jobs@[i]).id == a.jobs@[i].id
                    &&& b.jobs@[i].tube@ == a.jobs@[i].tube@
                    &&& b.jobs@[i].ttr == a.jobs@[i].ttr
                },
            forall|i: int|
                0 <= i < b.jobs@.len() ==> match (#[trigger] b.jobs@[i]).state {
                    JobState::Reserved { holder, .. } => a.has_session(holder),
                    _ => true,
                },
            forall|t: int| 0 <= t < b.tubes@.len() ==> (#[trigger] b.tubes@[t]).name@ == a.tubes@[t].name@,
        ensures
            b.wf(),
            forall|id: u64| #[trigger] b.has_job(id) == a.has_job(id),
            forall|id: u64| a.has_job(id) ==> #[trigger] b.job_index(id) == a.job_index(id),
            forall|name: Seq<u8>| #[trigger] b.has_tube(name) == a.has_tube(name),
            forall|name: Seq<u8>| a.has_tube(name) ==> #[trigger] b.tube_index(name) == a.tube_index(name),
            forall|sid: u64| #[trigger] b.has_session(sid) == a.has_session(sid),
    {
        assert forall|name: Seq<u8>| #[trigger] b.has_tube(name) == a.has_tube(name) by {
            if a.has_tube(name) {
                let t = choose|t: int| 0 <= t < a.tubes@.len() && #[trigger] a.tubes@[t].name@ == name;
                assert(b.tubes@[t].name@ == name);
            }
            if b.has_tube(name) {
                let t = choose|t: int| 0 <= t < b.tubes@.len() && #[trigger] b.tubes@[t].name@ == name;
                assert(a.tubes@[t].name@ == name);
            }
        }
        assert forall|sid: u64| #[trigger] b.has_session(sid) == a.has_session(sid) by {
        }
        assert forall|id: u64| #[trigger] b.has_job(id) == a.has_job(id) by {
            if a.has_job(id) {
                let i = choose|i: int| 0 <= i < a.jobs@.len() && #[trigger] a.jobs@[i].id == id;
                assert(b.jobs@[i].id == id);
            }
            if b.has_job(id) {
                let i = choose|i: int| 0 <= i < b.jobs@.len() && #[trigger] b.jobs@[i].id == id;
                assert(a.jobs@[i].id == id);
            }
        }
        assert(b.jobs_wf()) by {
            assert forall|i: int, j: int| 0 <= i < j < b.jobs@.len() implies #[trigger] b.jobs@[i].id < #[trigger] b.jobs@[j].id by {
                assert(a.jobs@[i].id < a.jobs@[j].id);
            }
            assert forall|i: int| 0 <= i < b.jobs@.len() implies b.has_tube(#[trigger] b.jobs@[i].tube@) by {
                assert(a.has_tube(a.jobs@[i].tube@));
            }
            assert forall|i: int| 0 <= i < b.jobs@.len() implies (#[trigger] b.jobs@[i]).ttr >= 1 by {
                assert(a.jobs@[i].ttr >= 1);
            }
            assert forall|i: int| 0 <= i < b.jobs@.len() implies 1 <= #[trigger] b.jobs@[i].id < b.next_id by {
                assert(1 <= a.jobs@[i].id < a.next_id);
            }
        }
        assert(b.tubes_wf()) by {
            assert forall|x: int, y: int| 0 <= x < y < b.tubes@.len() implies #[trigger] b.tubes@[x].name@ != #[trigger] b.tubes@[y].name@ by {
                assert(a.tubes@[x].name@ != a.tubes@[y].name@);
            }
            assert forall|t: int| 0 <= t < b.tubes@.len() implies b.tube_needed(#[trigger] b.tubes@[t].name@) by {
                let name = a.tubes@[t].name@;
                assert(a.tube_needed(name));
                if exists|i: int| 0 <= i < a.jobs@.len() && #[trigger] a.jobs@[i].tube@ == name {
                    let i = choose|i: int| 0 <= i < a.jobs@.len() && #[trigger] a.jobs@[i].tube@ == name;
                    assert(b.jobs@[i].tube@ == name);
                } else {
                    let s = choose|s: int| 0 <= s < a.sessions@.len() && #[trigger] a.sessions@[s].refers_to(name);
                    assert(b.sessions@[s].refers_to(name));
                }
            }
        }
        assert forall|id: u64| a.has_job(id) implies #[trigger] b.job_index(id) == a.job_index(id) by {
            let i = a.job_index(id);
            a.lemma_job_index(i);
            b.lemma_job_index(i);
        }
        assert forall|name: Seq<u8>| a.has_tube(name) implies #[trigger] b.tube_index(name) == a.tube_index(name) by {
            let t = a.tube_index(name);
            a.lemma_tube_index(t);
            b.lemma_tube_index(t);
        }
    }


    /// Changing one job's state, priority or counters, and at most one tube's
    /// positions or totals, keeps the invariant.
    pub proof fn lemma_job_changed(a: Server, b: Server, i: int, t0: int)
        requires
            a.wf(),
            rest_same(a, b),
            0 <= i < a.jobs@.len(),
            0 <= t0 < a.tubes@.len(),
            b.jobs@.len() == a.jobs@.len(),
            b.tubes@.len() == a.tubes@.len(),
            forall|k: int| 0 <= k < a.jobs@.len() && k != i ==> b.jobs@[k] == a.jobs@[k],
            forall|t: int| 0 <= t < a.tubes@.len() && t != t0 ==> b.tubes@[t] == a.tubes@[t],
            b.tubes@[t0].name@ == a.tubes@[t0].name@,
            b.jobs@[i].id == a.jobs@[i].id,
            b.jobs@[i].tube@ == a.jobs@[i].tube@,
            b.jobs@[i].ttr == a.jobs@[i].ttr,
            match b.jobs@[i].state {
                JobState::Reserved { holder, .. } => a.has_session(holder),
                _ => true,
            },
            a.tubes@[t0].name@ == a.jobs@[i].tube@,
            forall|buried: bool|
                if placed_in(b.jobs@[i], b.tubes@[t0], buried) {
                    ||| place(b.jobs@[i], buried) == next_place(a.tubes@[t0], buried) && next_place(b.tubes@[t0], buried)
                        == bumped(next_place(a.tubes@[t0], buried))
                    ||| placed_in(a.jobs@[i], a.tubes@[t0], buried) && place(b.jobs@[i], buried) == place(a.jobs@[i], buried)
                        && next_place(b.tubes@[t0], buried) == next_place(a.tubes@[t0], buried)
                } else {
                    next_place(b.tubes@[t0], buried) == next_place(a.tubes@[t0], buried)
                },
        ensures
            b.wf(),
            jobs_replaced(a, b, a.jobs@[i].id, b.jobs@[i]),
            tubes_replaced(a, b, a.tubes@[t0].name@, b.tubes@[t0]),
            forall|sid: u64| #[trigger] b.has_session(sid) == a.has_session(sid),
    {
        assert forall|t: int, j: int, buried: bool|
            #![trigger placed_in(b.jobs@[j], b.tubes@[t], buried)]
            0 <= t < b.tubes@.len() && 0 <= j < b.jobs@.len() && placed_in(b.jobs@[j], b.tubes@[t], buried) && next_place(
                b.tubes@[t],
                buried,
            ) < u64::MAX implies place(b.jobs@[j], buried) < next_place(b.tubes@[t], buried) by {
            if t != t0 {
                if j == i {
                    assert(a.tubes@[t].name@ != a.tubes@[t0].name@);
                } else {
                    assert(placed_in(a.jobs@[j], a.tubes@[t], buried));
                }
            } else if j != i {
                assert(placed_in(a.jobs@[j], a.tubes@[t], buried));
            } else if placed_in(a.jobs@[i], a.tubes@[t], buried) {
            }
        }
        assert forall|t: int, j: int, k: int, buried: bool|
            #![trigger placed_in(b.jobs@[j], b.tubes@[t], buried), placed_in(b.jobs@[k], b.tubes@[t], buried)]
            0 <= t < b.tubes@.len() && 0 <= j < b.jobs@.len() && 0 <= k < b.jobs@.len() && j != k && placed_in(
                b.jobs@[j],
                b.tubes@[t],
                buried,
            ) && placed_in(b.jobs@[k], b.tubes@[t], buried) && next_place(b.tubes@[t], buried) < u64::MAX implies place(
                b.jobs@[j],
                buried,
            ) != place(b.jobs@[k], buried) by {
            if t != t0 {
                if j == i || k == i {
                    assert(a.tubes@[t].name@ != a.tubes@[t0].name@);
                } else {
                    assert(placed_in(a.jobs@[j], a.tubes@[t], buried));
                    assert(placed_in(a.jobs@[k], a.tubes@[t], buried));
                }
            } else if j == i {
                assert(placed_in(a.jobs@[k], a.tubes@[t], buried));
                if placed_in(a.jobs@[i], a.tubes@[t], buried) {
                }
            } else if k == i {
                assert(placed_in(a.jobs@[j], a.tubes@[t], buried));
                if placed_in(a.jobs@[i], a.tubes@[t], buried) {
                }
            } else {
                assert(placed_in(a.jobs@[j], a.tubes@[t], buried));
                assert(placed_in(a.jobs@[k], a.tubes@[t], buried));
            }
        }
        Server::lemma_wf_frame(a, b);
        b.lemma_job_index(i);
        b.lemma_tube_index(t0);
        assert forall|x: u64| x != a.jobs@[i].id && a.has_job(x) implies #[trigger] b.job(x) == a.job(x) by {
            let k = a.job_index(x);
            a.lemma_job_index(k);
        }
        assert forall|n: Seq<u8>| n != a.tubes@[t0].name@ && a.has_tube(n) implies #[trigger] b.tube(n) == a.tube(n) by {
            let t = a.tube_index(n);
            a.lemma_tube_index(t);
        }
    }


    /// Changing one session, keeping its id and naming only existing tubes,
    /// keeps the invariant but for unneeded tubes.
    pub proof fn lemma_session_changed(a: Server, b: Server, s: int)
        requires
            a.pre_wf(),
            b.jobs@ == a.jobs@,
            b.tubes@ == a.tubes@,
            b.next_id == a.next_id,
            b.next_session == a.next_session,
            0 <= s < a.sessions@.len(),
            b.sessions@.len() == a.sessions@.len(),
            forall|x: int| 0 <= x < a.sessions@.len() && x != s ==> b.sessions@[x] == a.sessions@[x],
            b.sessions@[s].id == a.sessions@[s].id,
            b.has_tube(b.sessions@[s].used@),
            b.sessions@[s].watch_set_ok(),
            forall|k: int| 0 <= k < b.sessions@[s].watched@.len() ==> b.has_tube(#[trigger] b.sessions@[s].watched@[k]@),
        ensures
            b.pre_wf(),
            forall|sid: u64| #[trigger] b.has_session(sid) == a.has_session(sid),
            forall|sid: u64| sid != a.sessions@[s].id && a.has_session(sid) ==> #[trigger] b.session(sid) == a.session(sid),
            b.session(a.sessions@[s].id) == b.sessions@[s],
    {
        assert forall|sid: u64| #[trigger] b.has_session(sid) == a.has_session(sid) by {
            if a.has_session(sid) {
                let x = choose|x: int| 0 <= x < a.sessions@.len() && #[trigger] a.sessions@[x].id == sid;
                assert(b.sessions@[x].id == sid);
            }
            if b.has_session(sid) {
                let x = choose|x: int| 0 <= x < b.sessions@.len() && #[trigger] b.sessions@[x].id == sid;
                assert(a.sessions@[x].id == sid);
            }
        }
        assert(b.sessions_wf()) by {
            assert forall|x: int, y: int| 0 <= x < y < b.sessions@.len() implies #[trigger] b.sessions@[x].id
                != #[trigger] b.sessions@[y].id by {
                assert(a.sessions@[x].id != a.sessions@[y].id);
            }
            assert forall|x: int| 0 <= x < b.sessions@.len() implies (#[trigger] b.sessions@[x]).id < b.next_session by {
                assert(a.sessions@[x].id < a.next_session);
            }
            assert forall|x: int| 0 <= x < b.sessions@.len() implies b.has_tube((#[trigger] b.sessions@[x]).used@) by {
                if x != s {
                    assert(a.has_tube(a.sessions@[x].used@));
                }
            }
            assert forall|x: int| 0 <= x < b.sessions@.len() implies (#[trigger] b.sessions@[x]).watch_set_ok() by {
                if x != s {
                    assert(a.sessions@[x].watch_set_ok());
                }
            }
            assert forall|x: int, k: int|
                0 <= x < b.sessions@.len() && 0 <= k < b.sessions@[x].watched@.len() implies b.has_tube(
                #[trigger] b.sessions@[x].watched@[k]@,
            ) by {
                if x != s {
                    assert(a.has_tube(a.sessions@[x].watched@[k]@));
                }
            }
        }
        assert(b.jobs_wf()) by {
            assert forall|i: int| 0 <= i < b.jobs@.len() implies match (#[trigger] b.jobs@[i]).state {
                JobState::Reserved { holder, .. } => b.has_session(holder),
                _ => true,
            } by {
                assert(a.jobs@[i] == b.jobs@[i]);
            }
            assert forall|i: int| 0 <= i < b.jobs@.len() implies b.has_tube(#[trigger] b.jobs@[i].tube@) by {
                assert(a.has_tube(a.jobs@[i].tube@));
            }
        }
        b.lemma_session_index(s);
        assert forall|sid: u64| sid != a.sessions@[s].id && a.has_session(sid) implies #[trigger] b.session(sid) == a.session(sid) by {
            let x = a.session_index(sid);
            a.lemma_session_index(x);
            b.lemma_session_index(x);
        }
    }


    /// Two brokers in the same state look the same through every view.
    pub proof fn lemma_same_state_views(a: Server, b: Server)
        requires
            same_state(a, b),
        ensures
            forall|id: u64| #[trigger] b.has_job(id) == a.has_job(id),
            forall|id: u64| #[trigger] b.job(id) == a.job(id),
            forall|n: Seq<u8>| #[trigger] b.has_tube(n) == a.has_tube(n),
            forall|n: Seq<u8>| #[trigger] b.tube(n) == a.tube(n),
            forall|x: u64| #[trigger] b.has_session(x) == a.has_session(x),
            forall|x: u64| #[trigger] b.session(x) == a.session(x),
            forall|x: u64, now: u64| #[trigger] b.deadline_soon(x, now) == a.deadline_soon(x, now),
            forall|x: u64, now: u64| #[trigger] b.any_reservable(x, now) == a.any_reservable(x, now),
            forall|x: u64, now: u64, j: Job| #[trigger] b.reservable(x, now, j) == a.reservable(x, now, j),
            forall|n: Seq<u8>, k: bool| #[trigger] b.any_in_class(n, k) == a.any_in_class(n, k),
    {
        assert(b.jobs@ == a.jobs@);
        assert(b.sessions@ == a.sessions@);
        assert(b.tubes@ == a.tubes@);
    }


    /// Two brokers with the same jobs look the same through the job views.
    pub proof fn lemma_same_state_views_jobs(a: Server, b: Server)
        requires
            b.jobs@ == a.jobs@,
        ensures
            forall|id: u64| #[trigger] b.has_job(id) == a.has_job(id),
            forall|id: u64| #[trigger] b.job(id) == a.job(id),
    {
    }


    /// The same jobs in tubes with the same names and counters keep their
    /// positions valid.
    pub proof fn lemma_positions_same(a: Server, b: Server)
        requires
            a.positions_ok(),
            b.jobs@ == a.jobs@,
            b.tubes@.len() == a.tubes@.len(),
            forall|t: int|
                0 <= t < a.tubes@.len() ==> (#[trigger] b.tubes@[t]).name@ == a.tubes@[t].name@ && b.tubes@[t].ready_sn
                    == a.tubes@[t].ready_sn && b.tubes@[t].buried_sn == a.tubes@[t].buried_sn,
        ensures
            b.positions_ok(),
    {
        assert forall|t: int, i: int, buried: bool|
            #![trigger placed_in(b.jobs@[i], b.tubes@[t], buried)]
            0 <= t < b.tubes@.len() && 0 <= i < b.jobs@.len() && placed_in(b.jobs@[i], b.tubes@[t], buried)
                && next_place(b.tubes@[t], buried) < u64::MAX implies place(b.jobs@[i], buried) < next_place(b.tubes@[t], buried) by {
            assert(placed_in(a.jobs@[i], a.tubes@[t], buried));
        }
        assert forall|t: int, i: int, k: int, buried: bool|
            #![trigger placed_in(b.jobs@[i], b.tubes@[t], buried), placed_in(b.jobs@[k], b.tubes@[t], buried)]
            0 <= t < b.tubes@.len() && 0 <= i < b.jobs@.len() && 0 <= k < b.jobs@.len() && i != k && placed_in(b.jobs@[i], b.tubes@[t], buried) && placed_in(b.jobs@[k], b.tubes@[t], buried) && next_place(b.tubes@[t], buried) < u64::MAX implies place(
                b.jobs@[i],
                buried,
            ) != place(b.jobs@[k], buried) by {
            assert(placed_in(a.jobs@[i], a.tubes@[t], buried));
            assert(placed_in(a.jobs@[k], a.tubes@[t], buried));
        }
    }


    /// Adding a job, placed at its tube's counter if ready or buried, keeps
    /// positions valid.
    pub proof fn lemma_positions_add(a: Server, b: Server, t0: int)
        requires
            a.positions_ok(),
            a.tubes_unique(),
            b.jobs@.len() == a.jobs@.len() + 1,
            forall|k: int| 0 <= k < a.jobs@.len() ==> b.jobs@[k] == a.jobs@[k],
            b.tubes@.len() == a.tubes@.len(),
            0 <= t0 < a.tubes@.len(),
            forall|t: int| 0 <= t < a.tubes@.len() && t != t0 ==> b.tubes@[t] == a.tubes@[t],
            b.tubes@[t0].name@ == a.tubes@[t0].name@,
            b.jobs@[a.jobs@.len() as int].tube@ == a.tubes@[t0].name@,
            forall|buried: bool|
                if placed_in(b.jobs@[a.jobs@.len() as int], b.tubes@[t0], buried) {
                    place(b.jobs@[a.jobs@.len() as int], buried) == next_place(a.tubes@[t0], buried) && next_place(
                        b.tubes@[t0],
                        buried,
                    ) == bumped(next_place(a.tubes@[t0], buried))
                } else {
                    next_place(b.tubes@[t0], buried) == next_place(a.tubes@[t0], buried)
                },
        ensures
            b.positions_ok(),
    {
        let i = a.jobs@.len() as int;
        assert forall|t: int, j: int, buried: bool|
            #![trigger placed_in(b.jobs@[j], b.tubes@[t], buried)]
            0 <= t < b.tubes@.len() && 0 <= j < b.jobs@.len() && placed_in(b.jobs@[j], b.tubes@[t], buried) && next_place(
                b.tubes@[t],
                buried,
            ) < u64::MAX implies place(b.jobs@[j], buried) < next_place(b.tubes@[t], buried) by {
            if t != t0 {
                if j == i {
                    assert(a.tubes@[t].name@ != a.tubes@[t0].name@);
                } else {
                    assert(placed_in(a.jobs@[j], a.tubes@[t], buried));
                }
            } else if j != i {
                assert(placed_in(a.jobs@[j], a.tubes@[t], buried));
            }
        }
        assert forall|t: int, j: int, k: int, buried: bool|
            #![trigger placed_in(b.jobs@[j], b.tubes@[t], buried), placed_in(b.jobs@[k], b.tubes@[t], buried)]
            0 <= t < b.tubes@.len() && 0 <= j < b.jobs@.len() && 0 <= k < b.jobs@.len() && j != k && placed_in(
                b.jobs@[j],
                b.tubes@[t],
                buried,
            ) && placed_in(b.jobs@[k], b.tubes@[t], buried) && next_place(b.tubes@[t], buried) < u64::MAX implies place(
                b.jobs@[j],
                buried,
            ) != place(b.jobs@[k], buried) by {
            if t != t0 {
                if j == i || k == i {
                    assert(a.tubes@[t].name@ != a.tubes@[t0].name@);
                } else {
                    assert(placed_in(a.jobs@[j], a.tubes@[t], buried));
                    assert(placed_in(a.jobs@[k], a.tubes@[t], buried));
                }
            } else if j == i {
                assert(placed_in(a.jobs@[k], a.tubes@[t], buried));
            } else if k == i {
                assert(placed_in(a.jobs@[j], a.tubes@[t], buried));
            } else {
                assert(placed_in(a.jobs@[j], a.tubes@[t], buried));
                assert(placed_in(a.jobs@[k], a.tubes@[t], buried));
            }
        }
    }

    /// Removing a job keeps positions valid.
    pub proof fn lemma_positions_remove(a: Server, b: Server, i: int)
        requires
            a.positions_ok(),
            0 <= i < a.jobs@.len(),
            b.jobs@ == a.jobs@.remove(i),
            b.tubes@ == a.tubes@,
        ensures
            b.positions_ok(),
    {
        assert forall|t: int, j: int, buried: bool|
            #![trigger placed_in(b.jobs@[j], b.tubes@[t], buried)]
            0 <= t < b.tubes@.len() && 0 <= j < b.jobs@.len() && placed_in(b.jobs@[j], b.tubes@[t], buried) && next_place(
                b.tubes@[t],
                buried,
            ) < u64::MAX implies place(b.jobs@[j], buried) < next_place(b.tubes@[t], buried) by {
            let j0 = if j < i { j } else { j + 1 };
            assert(placed_in(a.jobs@[j0], a.tubes@[t], buried));
        }
        assert forall|t: int, j: int, k: int, buried: bool|
            #![trigger placed_in(b.jobs@[j], b.tubes@[t], buried), placed_in(b.jobs@[k], b.tubes@[t], buried)]
            0 <= t < b.tubes@.len() && 0 <= j < b.jobs@.len() && 0 <= k < b.jobs@.len() && j != k && placed_in(
                b.jobs@[j],
                b.tubes@[t],
                buried,
            ) && placed_in(b.jobs@[k], b.tubes@[t], buried) && next_place(b.tubes@[t], buried) < u64::MAX implies place(
                b.jobs@[j],
                buried,
            ) != place(b.jobs@[k], buried) by {
            let j0 = if j < i { j } else { j + 1 };
            let k0 = if k < i { k } else { k + 1 };
            assert(placed_in(a.jobs@[j0], a.tubes@[t], buried));
            assert(placed_in(a.jobs@[k0], a.tubes@[t], buried));
        }
    }

    /// An empty broker that accepts job bodies of up to `max_job_size` bytes.
    pub fn new(max_job_size: u32) -> (r: Server)
        ensures
            r.wf(),
            r.jobs@.len() == 0,
            r.tubes@.len() == 0,
            r.sessions@.len() == 0,
            r.next_id == 1,
            r.next_session == 0,
            r.max_job_size == max_job_size,
            !r.draining,
            forall|k: int| 0 <= k < 25 ==> r.cmd_counts@[k] == 0,
            r.job_timeouts == 0,
            r.total_connections == 0,
    {
        Server {
            jobs: Vec::new(),
            tubes: Vec::new(),
            sessions: Vec::new(),
            next_id: 1,
            next_session: 0,
            max_job_size,
            draining: false,
            cmd_counts: [0; 25],
            job_timeouts: 0,
            total_connections: 0,
        }
    }

    /// Where job `id` stands in the store.
    pub fn find_job(&self, id: u64) -> (r: Option<usize>)
        requires
            self.jobs_wf(),
        ensures
            r is Some == self.has_job(id),
            r is Some ==> r->0 == self.job_index(id) && self.jobs@[r->0 as int].id == id,
    {
        let mut i: usize = 0;
        while i < self.jobs.len()
            invariant
                self.jobs_wf(),
                0 <= i <= self.jobs@.len(),
                forall|k: int| 0 <= k < i ==> self.jobs@[k].id != id,
            decreases self.jobs@.len() - i,
        {
            if self.jobs[i].id == id {
                proof {
                    self.lemma_job_index(i as int);
                }
                return Some(i);
            }
            i += 1;
        }
        None
    }

    /// Where the tube called `name` stands in the tube list.
    pub fn find_tube(&self, name: &[u8]) -> (r: Option<usize>)
        requires
            self.tubes_unique(),
        ensures
            r is Some == self.has_tube(name@),
            r is Some ==> r->0 == self.tube_index(name@) && self.tubes@[r->0 as int].name@ == name@,
    {
        let mut t: usize = 0;
        while t < self.tubes.len()
            invariant
                self.tubes_unique(),
                0 <= t <= self.tubes@.len(),
                forall|k: int| 0 <= k < t ==> self.tubes@[k].name@ != name@,
            decreases self.tubes@.len() - t,
        {
            if eq_bytes(self.tubes[t].name.as_slice(), name) {
                proof {
                    self.lemma_tube_index(t as int);
                }
                return Some(t);
            }
            t += 1;
        }
        None
    }

    /// Where session `sid` stands in the session list.
    pub fn find_session(&self, sid: u64) -> (r: Option<usize>)
        requires
            self.sessions_wf(),
        ensures
            r is Some == self.has_session(sid),
            r is Some ==> r->0 == self.session_index(sid) && self.sessions@[r->0 as int].id == sid,
    {
        let mut s: usize = 0;
        while s < self.sessions.len()
            invariant
                self.sessions_wf(),
                0 <= s <= self.sessions@.len(),
                forall|k: int| 0 <= k < s ==> self.sessions@[k].id != sid,
            decreases self.sessions@.len() - s,
        {
            if self.sessions[s].id == sid {
                proof {
                    self.lemma_session_index(s as int);
                }
                return Some(s);
            }
            s += 1;
        }
        None
    }

    /// Reserves job `id` for session `sid` if it is ready.
    pub fn reserve_by_id(&mut self, sid: u64, id: u64, now: u64) -> (r: bool)
        requires
            old(self).wf(),
            old(self).has_session(sid),
        ensures
            final(self).wf(),
            r == (old(self).has_job(id) && old(self).job(id).state is Ready),
            r ==> jobs_replaced(
                *old(self),
                *final(self),
                id,
                Job {
                    state: JobState::Reserved { deadline: later(now, old(self).job(id).ttr), holder: sid },
                    reserves: bumped(old(self).job(id).reserves),
                    ..old(self).job(id)
                },
            ),
            r ==> final(self).tubes@ == old(self).tubes@ && rest_same(*old(self), *final(self)),
            !r ==> *final(self) == *old(self),
    {
        let i = match self.find_job(id) {
            Some(i) => i,
            None => return false,
        };
        if !matches!(self.jobs[i].state, JobState::Ready { .. }) {
            return false;
        }
        let deadline = add_secs(now, self.jobs[i].ttr);
        let reserves = bump(self.jobs[i].reserves);
        self.jobs[i].state = JobState::Reserved { deadline, holder: sid };
        self.jobs[i].reserves = reserves;
        proof {
            let a = *old(self);
            let t0 = a.tube_index(a.jobs@[i as int].tube@);
            Server::lemma_job_changed(a, *self, i as int, t0);
            assert(self.tubes@ =~= a.tubes@);
        }
        true
    }
    /// Finds the job reserved by `sid` with this id, and its tube.
    fn find_reserved(&self, sid: u64, id: u64) -> (r: Option<(usize, usize)>)
        requires
            self.wf(),
        ensures
            r is Some == (self.has_job(id) && reserved_by(self.job(id), sid)),
            r matches Some((i, t)) ==> i == self.job_index(id) && self.jobs@[i as int].id == id && t
                == self.tube_index(self.job(id).tube@) && self.tubes@[t as int].name@ == self.job(id).tube@,
    {
        let i = match self.find_job(id) {
            Some(i) => i,
            None => return None,
        };
        match self.jobs[i].state {
            JobState::Reserved { holder, .. } => {
                if holder != sid {
                    return None;
                }
            },
            _ => return None,
        }
        let t = self.find_tube(self.jobs[i].tube.as_slice());
        match t {
            Some(t) => Some((i, t)),
            None => None,
        }
    }

    /// Session `sid` gives back its reservation of job `id`, with a new
    /// priority, to the ready state, or to the delayed state for `delay`
    /// seconds.
    pub fn release(&mut self, sid: u64, id: u64, pri: u32, delay: u32, now: u64) -> (r: bool)
        requires
            old(self).wf(),
        ensures
            final(self).wf(),
            Server::release_post(*old(self), *final(self), sid, id, pri, delay, now, r),
    {
        let (i, t) = match self.find_reserved(sid, id) {
            Some(p) => p,
            None => return false,
        };
        let state = if delay == 0 {
            let pos = self.tubes[t].put_ready();
            JobState::Ready { pos }
        } else {
            JobState::Delayed { until: add_secs(now, delay) }
        };
        let releases = bump(self.jobs[i].releases);
        self.jobs[i].state = state;
        self.jobs[i].pri = Pri(pri);
        self.jobs[i].releases = releases;
        proof {
            Server::lemma_job_changed(*old(self), *self, i as int, t as int);
        }
        true
    }

    /// Session `sid` buries the job `id` it holds, with a new priority, at
    /// the tail of its tube's buried order.
    pub fn bury(&mut self, sid: u64, id: u64, pri: u32) -> (r: bool)
        requires
            old(self).wf(),
        ensures
            final(self).wf(),
            Server::bury_post(*old(self), *final(self), sid, id, pri, r),
    {
        let (i, t) = match self.find_reserved(sid, id) {
            Some(p) => p,
            None => return false,
        };
        let pos = self.tubes[t].put_buried();
        let buries = bump(self.jobs[i].buries);
        self.jobs[i].state = JobState::Buried { pos };
        self.jobs[i].pri = Pri(pri);
        self.jobs[i].buries = buries;
        proof {
            Server::lemma_job_changed(*old(self), *self, i as int, t as int);
        }
        true
    }

    /// Session `sid` restarts the time-to-run of the job `id` it holds.
    pub fn touch(&mut self, sid: u64, id: u64, now: u64) -> (r: bool)
        requires
            old(self).wf(),
        ensures
            final(self).wf(),
            Server::touch_post(*old(self), *final(self), sid, id, now, r),
    {
        let (i, t) = match self.find_reserved(sid, id) {
            Some(p) => p,
            None => return false,
        };
        let deadline = add_secs(now, self.jobs[i].ttr);
        self.jobs[i].state = JobState::Reserved { deadline, holder: sid };
        proof {
            Server::lemma_job_changed(*old(self), *self, i as int, t as int);
            assert(self.tubes@ =~= old(self).tubes@);
        }
        true
    }

    /// Moves job `id` from the buried or delayed state to the tail of its
    /// tube's ready order.
    pub fn kick_job(&mut self, id: u64) -> (r: bool)
        requires
            old(self).wf(),
        ensures
            final(self).wf(),
            Server::kick_job_post(*old(self), *final(self), id, r),
            r ==> final(self).jobs@ == old(self).jobs@.update(old(self).job_index(id), final(self).job(id)),
    {
        let i = match self.find_job(id) {
            Some(i) => i,
            None => return false,
        };
        match self.jobs[i].state {
            JobState::Buried { .. } => {},
            JobState::Delayed { .. } => {},
            _ => return false,
        }
        let t = match self.find_tube(self.jobs[i].tube.as_slice()) {
            Some(t) => t,
            None => return false,
        };
        let pos = self.tubes[t].put_ready();
        let kicks = bump(self.jobs[i].kicks);
        self.jobs[i].state = JobState::Ready { pos };
        self.jobs[i].kicks = kicks;
        proof {
            Server::lemma_job_changed(*old(self), *self, i as int, t as int);
        }
        true
    }
    /// Whether some job belongs to the tube `name`, or some session uses or
    /// watches it.
    pub fn tube_is_needed(&self, name: &[u8]) -> (r: bool)
        ensures
            r == self.tube_needed(name@),
    {
        let mut i: usize = 0;
        while i < self.jobs.len()
            invariant
                0 <= i <= self.jobs@.len(),
                forall|k: int| 0 <= k < i ==> (#[trigger] self.jobs@[k]).tube@ != name@,
            decreases self.jobs@.len() - i,
        {
            if eq_bytes(self.jobs[i].tube.as_slice(), name) {
                return true;
            }
            i += 1;
        }
        let mut s: usize = 0;
        while s < self.sessions.len()
            invariant
                0 <= s <= self.sessions@.len(),
                forall|k: int| 0 <= k < self.jobs@.len() ==> (#[trigger] self.jobs@[k]).tube@ != name@,
                forall|k: int| 0 <= k < s ==> !(#[trigger] self.sessions@[k]).refers_to(name@),
            decreases self.sessions@.len() - s,
        {
            if session_refers_to(&self.sessions[s], name) {
                return true;
            }
            s += 1;
        }
        false
    }

    /// Drops every tube that no job and no session refers to.
    pub fn collect_tubes(&mut self)
        requires
            old(self).pre_wf(),
        ensures
            final(self).wf(),
            final(self).jobs@ == old(self).jobs@,
            rest_same(*old(self), *final(self)),
            forall|n: Seq<u8>| #[trigger] final(self).has_tube(n) == (old(self).has_tube(n) && old(self).tube_needed(n)),
            forall|n: Seq<u8>| final(self).has_tube(n) ==> #[trigger] final(self).tube(n) == old(self).tube(n),
    {
        let ghost a = *self;
        let ghost orig = self.tubes@;
        let mut rest: Vec<TubeState> = Vec::new();
        std::mem::swap(&mut self.tubes, &mut rest);
        let mut kept: Vec<TubeState> = Vec::new();
        let ghost mut src: Seq<int> = Seq::empty();
        while rest.len() > 0
            invariant
                a.pre_wf(),
                orig == a.tubes@,
                self.jobs@ == a.jobs@,
                self.sessions@ == a.sessions@,
                rest_same(a, *self),
                rest@.len() <= orig.len(),
                rest@ == orig.subrange(0, rest@.len() as int),
                src.len() == kept@.len(),
                forall|m: int|
                    0 <= m < kept@.len() ==> rest@.len() <= #[trigger] src[m] < orig.len() && kept@[m]
                        == orig[src[m]] && a.tube_needed(orig[src[m]].name@),
                forall|k: int|
                    rest@.len() <= k < orig.len() && a.tube_needed(#[trigger] orig[k].name@) ==> exists|m: int|
                        0 <= m < kept@.len() && #[trigger] src[m] == k,
                forall|m1: int, m2: int| 0 <= m1 < m2 < src.len() ==> #[trigger] src[m1] != #[trigger] src[m2],
            decreases rest@.len(),
        {
            let ghost before = rest@;
            let t = rest.pop().unwrap();
            let ghost r = rest@.len() as int;
            assert(before[r] == orig[r]);
            assert(t == orig[r]);
            if self.tube_is_needed(t.name.as_slice()) {
                kept.push(t);
                proof {
                    let ghost old_src = src;
                    src = src.push(r);
                    assert forall|k: int|
                        rest@.len() <= k < orig.len() && a.tube_needed(#[trigger] orig[k].name@) implies exists|m: int|
                        0 <= m < kept@.len() && #[trigger] src[m] == k by {
                        if k == r {
                            assert(src[src.len() - 1] == r);
                        } else {
                            let m = choose|m: int| 0 <= m < old_src.len() && #[trigger] old_src[m] == k;
                            assert(src[m] == old_src[m]);
                        }
                    }
                }
            }
            assert(rest@ =~= orig.subrange(0, rest@.len() as int));
        }
        self.tubes = kept;
        proof {
            assert forall|x: int, y: int| 0 <= x < y < self.tubes@.len() implies #[trigger] self.tubes@[x].name@
                != #[trigger] self.tubes@[y].name@ by {
                assert(src[x] != src[y]);
                if src[x] < src[y] {
                    assert(orig[src[x]].name@ != orig[src[y]].name@);
                } else {
                    assert(orig[src[y]].name@ != orig[src[x]].name@);
                }
            }
            assert forall|n: Seq<u8>| #[trigger] self.has_tube(n) == (a.has_tube(n) && a.tube_needed(n)) by {
                if self.has_tube(n) {
                    let m = choose|m: int| 0 <= m < self.tubes@.len() && #[trigger] self.tubes@[m].name@ == n;
                    assert(orig[src[m]].name@ == n);
                }
                if a.has_tube(n) && a.tube_needed(n) {
                    let k = choose|k: int| 0 <= k < orig.len() && #[trigger] orig[k].name@ == n;
                    let m = choose|m: int| 0 <= m < kept@.len() && #[trigger] src[m] == k;
                    assert(self.tubes@[m].name@ == n);
                }
            }
            assert forall|n: Seq<u8>| self.has_tube(n) implies #[trigger] self.tube(n) == a.tube(n) by {
                let m = self.tube_index(n);
                self.lemma_tube_index(m);
                a.lemma_tube_index(src[m]);
            }
            assert forall|i: int| 0 <= i < self.jobs@.len() implies self.has_tube(#[trigger] self.jobs@[i].tube@) by {
                assert(a.has_tube(a.jobs@[i].tube@));
                assert(a.tube_needed(a.jobs@[i].tube@));
            }
            assert forall|x: int| 0 <= x < self.sessions@.len() implies self.has_tube((#[trigger] self.sessions@[x]).used@) by {
                assert(a.has_tube(a.sessions@[x].used@));
                assert(a.sessions@[x].refers_to(a.sessions@[x].used@));
                assert(a.tube_needed(a.sessions@[x].used@));
            }
            assert forall|x: int, k: int|
                0 <= x < self.sessions@.len() && 0 <= k < self.sessions@[x].watched@.len() implies self.has_tube(
                #[trigger] self.sessions@[x].watched@[k]@,
            ) by {
                let n = a.sessions@[x].watched@[k]@;
                assert(a.has_tube(n));
                assert(a.sessions@[x].watches(n));
                assert(a.sessions@[x].refers_to(n));
                assert(a.tube_needed(n));
            }
            assert forall|i: int| 0 <= i < self.jobs@.len() implies match (#[trigger] self.jobs@[i]).state {
                JobState::Reserved { holder, .. } => self.has_session(holder),
                _ => true,
            } by {
                assert(a.jobs@[i] == self.jobs@[i]);
            }
            assert forall|t: int| 0 <= t < self.tubes@.len() implies self.tube_needed(#[trigger] self.tubes@[t].name@) by {
                let n = self.tubes@[t].name@;
                assert(self.tubes@[t] == orig[src[t]]);
                assert(a.tube_needed(n));
                if exists|i: int| 0 <= i < a.jobs@.len() && #[trigger] a.jobs@[i].tube@ == n {
                } else {
                }
            }
        }
    }
    /// Session `sid` puts a job on its used tube: ready at once when `delay`
    /// is zero, else delayed for `delay` seconds. A time-to-run of zero is
    /// taken as one second.
    pub fn put(&mut self, sid: u64, pri: u32, delay: u32, ttr: u32, data: Vec<u8>, now: u64) -> (r: Result<u64, Response>)
        requires
            old(self).wf(),
            old(self).has_session(sid),
        ensures
            final(self).wf(),
            data@.len() > old(self).max_job_size ==> r == Err::<u64, Response>(Response::JobTooBig),
            data@.len() <= old(self).max_job_size && old(self).draining ==> r == Err::<u64, Response>(Response::Draining),
            data@.len() <= old(self).max_job_size && !old(self).draining && old(self).next_id == u64::MAX ==> r == Err::<
                u64,
                Response,
            >(Response::OutOfMemory),
            data@.len() <= old(self).max_job_size && !old(self).draining && old(self).next_id < u64::MAX ==> r == Ok::<
                u64,
                Response,
            >(old(self).next_id),
            r is Ok ==> put_done(*old(self), *final(self), sid, pri, delay, ttr, data@, now),
            r is Err ==> *final(self) == *old(self),
    {
        if data.len() > self.max_job_size as usize {
            return Err(Response::JobTooBig);
        }
        if self.draining {
            return Err(Response::Draining);
        }
        if self.next_id == u64::MAX {
            return Err(Response::OutOfMemory);
        }
        let s = match self.find_session(sid) {
            Some(s) => s,
            None => return Err(Response::InternalError),
        };
        let t = match self.find_tube(self.sessions[s].used.as_slice()) {
            Some(t) => t,
            None => return Err(Response::InternalError),
        };
        let ghost a = *self;
        let id = self.next_id;
        let state = if delay == 0 {
            let pos = self.tubes[t].put_ready();
            JobState::Ready { pos }
        } else {
            JobState::Delayed { until: add_secs(now, delay) }
        };
        let total = bump(self.tubes[t].total_jobs);
        self.tubes[t].total_jobs = total;
        let job = Job {
            id,
            tube: copy_bytes(self.sessions[s].used.as_slice()),
            pri: Pri(pri),
            data,
            state,
            created: now,
            ttr: if ttr == 0 { 1 } else { ttr },
            reserves: 0,
            timeouts: 0,
            releases: 0,
            buries: 0,
            kicks: 0,
        };
        self.jobs.push(job);
        self.next_id = id + 1;
        proof {
            let b = *self;
            let n = a.jobs@.len() as int;
            assert(!a.has_job(id)) by {
                if a.has_job(id) {
                    let k = choose|k: int| 0 <= k < a.jobs@.len() && #[trigger] a.jobs@[k].id == id;
                    assert(a.jobs@[k].id < a.next_id);
                }
            }
            assert forall|name: Seq<u8>| #[trigger] b.has_tube(name) == a.has_tube(name) by {
                if a.has_tube(name) {
                    let u = choose|u: int| 0 <= u < a.tubes@.len() && #[trigger] a.tubes@[u].name@ == name;
                    assert(b.tubes@[u].name@ == name);
                }
                if b.has_tube(name) {
                    let u = choose|u: int| 0 <= u < b.tubes@.len() && #[trigger] b.tubes@[u].name@ == name;
                    assert(a.tubes@[u].name@ == name);
                }
            }
            assert(b.jobs_wf()) by {
                assert forall|i: int, j: int| 0 <= i < j < b.jobs@.len() implies #[trigger] b.jobs@[i].id < #[trigger] b.jobs@[j].id by {
                    if j < n {
                        assert(a.jobs@[i].id < a.jobs@[j].id);
                    } else {
                        assert(a.jobs@[i].id < a.next_id);
                    }
                }
                assert forall|i: int| 0 <= i < b.jobs@.len() implies 1 <= #[trigger] b.jobs@[i].id < b.next_id by {
                    if i < n {
                        assert(1 <= a.jobs@[i].id < a.next_id);
                    }
                }
                assert forall|i: int| 0 <= i < b.jobs@.len() implies b.has_tube(#[trigger] b.jobs@[i].tube@) by {
                    if i < n {
                        assert(a.has_tube(a.jobs@[i].tube@));
                    } else {
                        assert(a.has_tube(a.sessions@[s as int].used@));
                    }
                }
                assert forall|i: int| 0 <= i < b.jobs@.len() implies (#[trigger] b.jobs@[i]).ttr >= 1 by {
                    if i < n {
                        assert(a.jobs@[i].ttr >= 1);
                    }
                }
                assert forall|i: int| 0 <= i < b.jobs@.len() implies match (#[trigger] b.jobs@[i]).state {
                    JobState::Reserved { holder, .. } => b.has_session(holder),
                    _ => true,
                } by {
                    assert(b.sessions@ == a.sessions@);
                    if i < n {
                        assert(a.jobs@[i] == b.jobs@[i]);
                        if let JobState::Reserved { holder, .. } = a.jobs@[i].state {
                            assert(a.has_session(holder));
                        }
                    } else {
                        assert(!(b.jobs@[i].state is Reserved));
                    }
                }
            }
            assert(b.tubes_unique()) by {
                assert forall|x: int, y: int| 0 <= x < y < b.tubes@.len() implies #[trigger] b.tubes@[x].name@
                    != #[trigger] b.tubes@[y].name@ by {
                    assert(a.tubes@[x].name@ != a.tubes@[y].name@);
                }
            }
            assert(b.tubes_needed()) by {
                assert forall|u: int| 0 <= u < b.tubes@.len() implies b.tube_needed(#[trigger] b.tubes@[u].name@) by {
                    let name = a.tubes@[u].name@;
                    assert(a.tube_needed(name));
                    if exists|i: int| 0 <= i < a.jobs@.len() && #[trigger] a.jobs@[i].tube@ == name {
                        let i = choose|i: int| 0 <= i < a.jobs@.len() && #[trigger] a.jobs@[i].tube@ == name;
                        assert(b.jobs@[i].tube@ == name);
                    } else {
                        let x = choose|x: int| 0 <= x < a.sessions@.len() && #[trigger] a.sessions@[x].refers_to(name);
                        assert(b.sessions@[x].refers_to(name));
                    }
                }
            }
            a.lemma_session_index(s as int);
            Server::lemma_positions_add(a, b, t as int);
            b.lemma_job_index(n);
            b.lemma_tube_index(t as int);
            assert forall|x: u64| x != id implies #[trigger] b.has_job(x) == a.has_job(x) by {
                if a.has_job(x) {
                    let k = choose|k: int| 0 <= k < a.jobs@.len() && #[trigger] a.jobs@[k].id == x;
                    assert(b.jobs@[k].id == x);
                }
                if b.has_job(x) {
                    let k = choose|k: int| 0 <= k < b.jobs@.len() && #[trigger] b.jobs@[k].id == x;
                    if k < n {
                        assert(a.jobs@[k].id == x);
                    }
                }
            }
            assert forall|x: u64| x != id && a.has_job(x) implies #[trigger] b.job(x) == a.job(x) by {
                let k = a.job_index(x);
                a.lemma_job_index(k);
                b.lemma_job_index(k);
            }
            assert forall|name: Seq<u8>| name != a.tubes@[t as int].name@ && a.has_tube(name) implies #[trigger] b.tube(name)
                == a.tube(name) by {
                let u = a.tube_index(name);
                a.lemma_tube_index(u);
                b.lemma_tube_index(u);
            }
            a.lemma_tube_index(t as int);
            a.lemma_session_index(s as int);
        }
        Ok(id)
    }
    /// Finds the tube called `name`, creating it if there is none.
    pub fn ensure_tube(&mut self, name: &[u8]) -> (t: usize)
        requires
            old(self).pre_wf(),
        ensures
            final(self).pre_wf(),
            final(self).jobs@ == old(self).jobs@,
            rest_same(*old(self), *final(self)),
            t < final(self).tubes@.len(),
            final(self).tubes@[t as int].name@ == name@,
            final(self).has_tube(name@),
            forall|n: Seq<u8>| old(self).has_tube(n) ==> #[trigger] final(self).has_tube(n) && final(self).tube(n) == old(self).tube(n),
            forall|n: Seq<u8>| #[trigger] final(self).has_tube(n) ==> old(self).has_tube(n) || n == name@,
    {
        match self.find_tube(name) {
            Some(t) => {
                proof {
                    self.lemma_tube_index(t as int);
                }
                t
            },
            None => {
                let ghost a = *self;
                self.tubes.push(TubeState::new(copy_bytes(name)));
                let t = self.tubes.len() - 1;
                proof {
                    let b = *self;
                    assert forall|n: Seq<u8>| a.has_tube(n) implies #[trigger] b.has_tube(n) && b.tube(n) == a.tube(n) by {
                        let u = a.tube_index(n);
                        a.lemma_tube_index(u);
                        assert(b.tubes@[u] == a.tubes@[u]);
                        assert(b.tubes_unique()) by {
                            assert forall|x: int, y: int| 0 <= x < y < b.tubes@.len() implies #[trigger] b.tubes@[x].name@
                                != #[trigger] b.tubes@[y].name@ by {
                                if y < a.tubes@.len() {
                                    assert(a.tubes@[x].name@ != a.tubes@[y].name@);
                                } else {
                                    assert(a.tubes@[x].name@ == b.tubes@[x].name@);
                                    if a.tubes@[x].name@ == name@ {
                                        assert(a.has_tube(name@));
                                    }
                                }
                            }
                        }
                        b.lemma_tube_index(u);
                    }
                    assert(b.tubes_unique()) by {
                        assert forall|x: int, y: int| 0 <= x < y < b.tubes@.len() implies #[trigger] b.tubes@[x].name@
                            != #[trigger] b.tubes@[y].name@ by {
                            if y < a.tubes@.len() {
                                assert(a.tubes@[x].name@ != a.tubes@[y].name@);
                            } else {
                                assert(a.tubes@[x].name@ == b.tubes@[x].name@);
                                if a.tubes@[x].name@ == name@ {
                                    assert(a.has_tube(name@));
                                }
                            }
                        }
                    }
                    assert(b.tubes@[t as int].name@ == name@);
                    assert forall|n: Seq<u8>| #[trigger] b.has_tube(n) implies a.has_tube(n) || n == name@ by {
                        let u = choose|u: int| 0 <= u < b.tubes@.len() && #[trigger] b.tubes@[u].name@ == n;
                        if u < a.tubes@.len() {
                            assert(a.tubes@[u].name@ == n);
                        }
                    }
                    assert forall|i: int| 0 <= i < b.jobs@.len() implies b.has_tube(#[trigger] b.jobs@[i].tube@) by {
                        assert(a.has_tube(a.jobs@[i].tube@));
                    }
                    assert forall|x: int| 0 <= x < b.sessions@.len() implies b.has_tube((#[trigger] b.sessions@[x]).used@) by {
                        assert(a.has_tube(a.sessions@[x].used@));
                    }
                    assert forall|x: int, k: int|
                        0 <= x < b.sessions@.len() && 0 <= k < b.sessions@[x].watched@.len() implies b.has_tube(
                        #[trigger] b.sessions@[x].watched@[k]@,
                    ) by {
                        assert(a.has_tube(a.sessions@[x].watched@[k]@));
                    }
                }
                t
            },
        }
    }

    /// Session `sid` sends its puts to the tube `name` from now on.
    pub fn use_tube(&mut self, sid: u64, name: &[u8])
        requires
            old(self).wf(),
            old(self).has_session(sid),
        ensures
            final(self).wf(),
            final(self).jobs@ == old(self).jobs@,
            forall|x: u64| #[trigger] final(self).has_session(x) == old(self).has_session(x),
            forall|x: u64| x != sid && old(self).has_session(x) ==> #[trigger] final(self).session(x) == old(self).session(x),
            final(self).session(sid).used@ == name@,
            final(self).session(sid).watched@ == old(self).session(sid).watched@,
            final(self).session(sid).waiting == old(self).session(sid).waiting,
            final(self).has_tube(name@),
    {
        let ghost a = *self;
        self.ensure_tube(name);
        let s = match self.find_session(sid) {
            Some(s) => s,
            None => return,
        };
        let ghost m = *self;
        self.sessions[s].used = copy_bytes(name);
        let ghost c = *self;
        proof {
            assert(m.has_session(sid));
            Server::lemma_session_changed(m, c, s as int);
            assert forall|k: int| 0 <= k < c.sessions@[s as int].watched@.len() implies c.has_tube(
                #[trigger] c.sessions@[s as int].watched@[k]@) by {
                assert(m.has_tube(m.sessions@[s as int].watched@[k]@));
            }
            assert(m.sessions@ == a.sessions@);
            a.lemma_session_index(s as int);
        }
        self.collect_tubes();
        proof {
            let b = *self;
            assert(b.sessions@ == c.sessions@);
            assert forall|x: u64| #[trigger] b.has_session(x) == a.has_session(x) by {
                assert(b.has_session(x) == c.has_session(x));
                assert(c.has_session(x) == m.has_session(x));
            }
            assert forall|x: u64| x != sid && a.has_session(x) implies #[trigger] b.session(x) == a.session(x) by {
                assert(c.session(x) == m.session(x));
            }
            assert(b.session(sid).used@ == name@);
            assert(b.sessions@[s as int].refers_to(name@));
        }
    }
    /// Opens a session that uses and watches the tube `default`; `None`
    /// once session ids are exhausted.
    pub fn connect(&mut self) -> (r: Option<u64>)
        requires
            old(self).wf(),
        ensures
            final(self).wf(),
            final(self).jobs@ == old(self).jobs@,
            r is Some == (old(self).next_session < u64::MAX),
            r is None ==> *final(self) == *old(self),
            r matches Some(sid) ==> {
                &&& sid == old(self).next_session
                &&& !old(self).has_session(sid)
                &&& final(self).has_session(sid)
                &&& final(self).session(sid).used@ == default_tube()
                &&& final(self).session(sid).watched@.len() == 1
                &&& final(self).session(sid).watched@[0]@ == default_tube()
                &&& !final(self).session(sid).waiting
                &&& forall|x: u64| x != sid ==> #[trigger] final(self).has_session(x) == old(self).has_session(x)
                &&& forall|x: u64| x != sid && old(self).has_session(x) ==> #[trigger] final(self).session(x) == old(self).session(x)
            },
    {
        if self.next_session == u64::MAX {
            return None;
        }
        let ghost a = *self;
        let dname = default_tube_name();
        self.ensure_tube(dname.as_slice());
        let ghost m = *self;
        let sid = self.next_session;
        let mut watched: Vec<Vec<u8>> = Vec::new();
        watched.push(default_tube_name());
        self.sessions.push(Session { id: sid, used: dname, watched, waiting: false, produced: false, worked: false });
        self.total_connections = bump(self.total_connections);
        self.next_session = sid + 1;
        let ghost c = *self;
        proof {
            let n = m.sessions@.len() as int;
            assert(!a.has_session(sid)) by {
                if a.has_session(sid) {
                    let x = choose|x: int| 0 <= x < a.sessions@.len() && #[trigger] a.sessions@[x].id == sid;
                    assert(a.sessions@[x].id < a.next_session);
                }
            }
            assert forall|x: u64| #[trigger] c.has_session(x) == (m.has_session(x) || x == sid) by {
                if m.has_session(x) {
                    let y = choose|y: int| 0 <= y < m.sessions@.len() && #[trigger] m.sessions@[y].id == x;
                    assert(c.sessions@[y].id == x);
                }
                if x == sid {
                    assert(c.sessions@[n].id == x);
                }
                if c.has_session(x) {
                    let y = choose|y: int| 0 <= y < c.sessions@.len() && #[trigger] c.sessions@[y].id == x;
                    if y < n {
                        assert(m.sessions@[y].id == x);
                    }
                }
            }
            assert(c.sessions_wf()) by {
                assert forall|x: int, y: int| 0 <= x < y < c.sessions@.len() implies #[trigger] c.sessions@[x].id
                    != #[trigger] c.sessions@[y].id by {
                    if y < n {
                        assert(m.sessions@[x].id != m.sessions@[y].id);
                    } else {
                        assert(m.sessions@[x].id < m.next_session);
                    }
                }
                assert forall|x: int| 0 <= x < c.sessions@.len() implies (#[trigger] c.sessions@[x]).id < c.next_session by {
                    if x < n {
                        assert(m.sessions@[x].id < m.next_session);
                    }
                }
                assert forall|x: int| 0 <= x < c.sessions@.len() implies c.has_tube((#[trigger] c.sessions@[x]).used@) by {
                    if x < n {
                        assert(m.has_tube(m.sessions@[x].used@));
                    }
                }
                assert forall|x: int| 0 <= x < c.sessions@.len() implies (#[trigger] c.sessions@[x]).watch_set_ok() by {
                    if x < n {
                        assert(m.sessions@[x].watch_set_ok());
                    }
                }
                assert forall|x: int, k: int|
                    0 <= x < c.sessions@.len() && 0 <= k < c.sessions@[x].watched@.len() implies c.has_tube(
                    #[trigger] c.sessions@[x].watched@[k]@,
                ) by {
                    if x < n {
                        assert(m.has_tube(m.sessions@[x].watched@[k]@));
                    }
                }
            }
            assert(c.jobs_wf()) by {
                assert forall|i: int| 0 <= i < c.jobs@.len() implies match (#[trigger] c.jobs@[i]).state {
                    JobState::Reserved { holder, .. } => c.has_session(holder),
                    _ => true,
                } by {
                    assert(m.jobs@[i] == c.jobs@[i]);
                }
                assert forall|i: int| 0 <= i < c.jobs@.len() implies c.has_tube(#[trigger] c.jobs@[i].tube@) by {
                    assert(m.has_tube(m.jobs@[i].tube@));
                }
            }
            c.lemma_session_index(n);
            assert forall|x: u64| x != sid && a.has_session(x) implies #[trigger] c.session(x) == a.session(x) by {
                let y = a.session_index(x);
                a.lemma_session_index(y);
                c.lemma_session_index(y);
            }
        }
        self.collect_tubes();
        proof {
            let b = *self;
            let n = m.sessions@.len() as int;
            assert(b.sessions@ == c.sessions@);
            assert(m.sessions@ == a.sessions@);
            assert forall|x: u64| x != sid implies #[trigger] b.has_session(x) == a.has_session(x) by {
                assert(b.has_session(x) == c.has_session(x));
                assert(m.has_session(x) == a.has_session(x));
            }
            assert forall|x: u64| x != sid && a.has_session(x) implies #[trigger] b.session(x) == a.session(x) by {
                assert(b.session(x) == c.session(x));
            }
            assert(b.has_session(sid) == c.has_session(sid));
            assert(b.session(sid) == c.sessions@[n]);
            assert(c.sessions@[n].watched@[0]@ == default_tube());
        }
        Some(sid)
    }

    /// Session `sid` adds the tube `name` to its watch set; the result is the
    /// size of the watch set, stopping at the largest `u32`.
    pub fn watch(&mut self, sid: u64, name: &[u8]) -> (r: u32)
        requires
            old(self).wf(),
            old(self).has_session(sid),
        ensures
            final(self).wf(),
            final(self).jobs@ == old(self).jobs@,
            forall|x: u64| #[trigger] final(self).has_session(x) == old(self).has_session(x),
            forall|x: u64| x != sid && old(self).has_session(x) ==> #[trigger] final(self).session(x) == old(self).session(x),
            forall|n: Seq<u8>| #[trigger] final(self).session(sid).watches(n) == (old(self).session(sid).watches(n) || n == name@),
            final(self).session(sid).used@ == old(self).session(sid).used@,
            final(self).session(sid).waiting == old(self).session(sid).waiting,
            r as int == if final(self).session(sid).watched@.len() > u32::MAX { u32::MAX as int } else {
                final(self).session(sid).watched@.len() as int
            },
            final(self).has_tube(name@),
    {
        let ghost a = *self;
        self.ensure_tube(name);
        let s = match self.find_session(sid) {
            Some(s) => s,
            None => return 0,
        };
        let ghost m = *self;
        proof {
            a.lemma_session_index(s as int);
        }
        if !watches_name(&self.sessions[s], name) {
            self.sessions[s].watched.push(copy_bytes(name));
        }
        let ghost c = *self;
        proof {
            let ms = m.sessions@[s as int];
            let cs = c.sessions@[s as int];
            assert forall|n: Seq<u8>| #[trigger] cs.watches(n) == (ms.watches(n) || n == name@) by {
                if ms.watches(n) {
                    let k = choose|k: int| 0 <= k < ms.watched@.len() && #[trigger] ms.watched@[k]@ == n;
                    assert(cs.watched@[k]@ == n);
                }
                if n == name@ && !ms.watches(n) {
                    assert(cs.watched@[cs.watched@.len() - 1]@ == n);
                }
                if cs.watches(n) {
                    let k = choose|k: int| 0 <= k < cs.watched@.len() && #[trigger] cs.watched@[k]@ == n;
                    if k < ms.watched@.len() {
                        assert(ms.watched@[k]@ == n);
                    }
                }
            }
            assert(ms.watch_set_ok());
            assert(cs.watch_set_ok()) by {
                assert forall|x: int, y: int| 0 <= x < y < cs.watched@.len() implies #[trigger] cs.watched@[x]@
                    != #[trigger] cs.watched@[y]@ by {
                    if y < ms.watched@.len() {
                        assert(ms.watched@[x]@ != ms.watched@[y]@);
                    } else {
                        assert(cs.watched@[x]@ == ms.watched@[x]@);
                        if ms.watched@[x]@ == name@ {
                            assert(ms.watches(name@));
                        }
                    }
                }
            }
            assert forall|k: int| 0 <= k < cs.watched@.len() implies c.has_tube(#[trigger] cs.watched@[k]@) by {
                if k < ms.watched@.len() {
                    assert(m.has_tube(m.sessions@[s as int].watched@[k]@));
                }
            }
            Server::lemma_session_changed(m, c, s as int);
        }
        self.collect_tubes();
        proof {
            let b = *self;
            assert(b.sessions@ == c.sessions@);
            assert forall|x: u64| #[trigger] b.has_session(x) == a.has_session(x) by {
                assert(b.has_session(x) == c.has_session(x));
            }
            assert forall|x: u64| x != sid && a.has_session(x) implies #[trigger] b.session(x) == a.session(x) by {
                assert(c.session(x) == m.session(x));
            }
            assert(b.sessions@[s as int].watches(name@));
            assert(b.sessions@[s as int].refers_to(name@));
        }
        let len = self.sessions[s].watched.len();
        if len > 0xffff_ffff {
            0xffff_ffff
        } else {
            len as u32
        }
    }
    /// Session `sid` drops the tube `name` from its watch set. `None` when the
    /// watch set has a single tube, which is then kept; else the size of the
    /// watch set, stopping at the largest `u32`.
    pub fn ignore(&mut self, sid: u64, name: &[u8]) -> (r: Option<u32>)
        requires
            old(self).wf(),
            old(self).has_session(sid),
        ensures
            final(self).wf(),
            final(self).jobs@ == old(self).jobs@,
            r is None == (old(self).session(sid).watched@.len() == 1),
            r is None ==> *final(self) == *old(self),
            forall|x: u64| #[trigger] final(self).has_session(x) == old(self).has_session(x),
            forall|x: u64| x != sid && old(self).has_session(x) ==> #[trigger] final(self).session(x) == old(self).session(x),
            r is Some ==> forall|n: Seq<u8>| #[trigger] final(self).session(sid).watches(n) == (old(self).session(sid).watches(n) && n != name@),
            final(self).session(sid).used@ == old(self).session(sid).used@,
            final(self).session(sid).waiting == old(self).session(sid).waiting,
            r matches Some(c) ==> c as int == if final(self).session(sid).watched@.len() > u32::MAX { u32::MAX as int } else {
                final(self).session(sid).watched@.len() as int
            },
    {
        let ghost a = *self;
        let s = match self.find_session(sid) {
            Some(s) => s,
            None => return None,
        };
        if self.sessions[s].watched.len() == 1 {
            return None;
        }
        let mut k: usize = 0;
        let mut found = false;
        while k < self.sessions[s].watched.len()
            invariant_except_break
                !found,
            invariant
                *self == a,
                s < self.sessions@.len(),
                0 <= k <= self.sessions@[s as int].watched@.len(),
                forall|j: int| 0 <= j < k ==> (#[trigger] self.sessions@[s as int].watched@[j])@ != name@,
            ensures
                found ==> k < self.sessions@[s as int].watched@.len() && self.sessions@[s as int].watched@[k as int]@ == name@,
                !found ==> k == self.sessions@[s as int].watched@.len(),
            decreases self.sessions@[s as int].watched@.len() - k,
        {
            if eq_bytes(self.sessions[s].watched[k].as_slice(), name) {
                found = true;
                break;
            }
            k += 1;
        }
        proof {
            a.lemma_session_index(s as int);
        }
        if found {
            let _gone = self.sessions[s].watched.remove(k);
            let ghost c = *self;
            proof {
                let ms = a.sessions@[s as int];
                let cs = c.sessions@[s as int];
                assert(ms.watch_set_ok());
                assert(cs.watched@ == ms.watched@.remove(k as int));
                assert forall|n: Seq<u8>| #[trigger] cs.watches(n) == (ms.watches(n) && n != name@) by {
                    if cs.watches(n) {
                        let j = choose|j: int| 0 <= j < cs.watched@.len() && #[trigger] cs.watched@[j]@ == n;
                        if j < k {
                            assert(ms.watched@[j]@ == n);
                            assert(ms.watched@[j]@ != ms.watched@[k as int]@);
                        } else {
                            assert(ms.watched@[j + 1]@ == n);
                            assert(ms.watched@[k as int]@ != ms.watched@[j + 1]@);
                        }
                    }
                    if ms.watches(n) && n != name@ {
                        let j = choose|j: int| 0 <= j < ms.watched@.len() && #[trigger] ms.watched@[j]@ == n;
                        if j < k {
                            assert(cs.watched@[j]@ == n);
                        } else {
                            assert(j != k);
                            assert(cs.watched@[j - 1]@ == n);
                        }
                    }
                }
                assert(cs.watch_set_ok()) by {
                    assert forall|x: int, y: int| 0 <= x < y < cs.watched@.len() implies #[trigger] cs.watched@[x]@
                        != #[trigger] cs.watched@[y]@ by {
                        let x0 = if x < k { x } else { x + 1 };
                        let y0 = if y < k { y } else { y + 1 };
                        assert(ms.watched@[x0]@ != ms.watched@[y0]@);
                    }
                }
                assert forall|j: int| 0 <= j < cs.watched@.len() implies c.has_tube(#[trigger] cs.watched@[j]@) by {
                    let j0 = if j < k { j } else { j + 1 };
                    assert(a.has_tube(a.sessions@[s as int].watched@[j0]@));
                }
                Server::lemma_session_changed(a, c, s as int);
            }
            self.collect_tubes();
            proof {
                let b = *self;
                assert(b.sessions@ == c.sessions@);
                assert forall|x: u64| #[trigger] b.has_session(x) == a.has_session(x) by {
                    assert(b.has_session(x) == c.has_session(x));
                }
                assert forall|x: u64| x != sid && a.has_session(x) implies #[trigger] b.session(x) == a.session(x) by {
                    assert(c.session(x) == a.session(x));
                }
            }
        } else {
            proof {
                let ms = a.sessions@[s as int];
                assert forall|n: Seq<u8>| #[trigger] ms.watches(n) == (ms.watches(n) && n != name@) by {
                    if ms.watches(n) && n == name@ {
                        let j = choose|j: int| 0 <= j < ms.watched@.len() && #[trigger] ms.watched@[j]@ == n;
                        assert(a.sessions@[s as int].watched@[j]@ != name@);
                    }
                }
            }
        }
        let len = self.sessions[s].watched.len();
        if len > 0xffff_ffff {
            Some(0xffff_ffff)
        } else {
            Some(len as u32)
        }
    }

    /// Session `sid` deletes job `id`: allowed when the job is ready, delayed,
    /// buried, or reserved by `sid` itself.
    #[verifier::rlimit(100)]
    pub fn delete(&mut self, sid: u64, id: u64) -> (r: bool)
        requires
            old(self).wf(),
        ensures
            final(self).wf(),
            Server::delete_post(*old(self), *final(self), sid, id, r),
    {
        let i = match self.find_job(id) {
            Some(i) => i,
            None => return false,
        };
        match self.jobs[i].state {
            JobState::Reserved { holder, .. } => {
                if holder != sid {
                    return false;
                }
            },
            _ => {},
        }
        let t = match self.find_tube(self.jobs[i].tube.as_slice()) {
            Some(t) => t,
            None => return false,
        };
        let ghost a = *self;
        let cmd_delete = bump(self.tubes[t].cmd_delete);
        self.tubes[t].cmd_delete = cmd_delete;
        let ghost m = *self;
        let _gone = self.jobs.remove(i);
        let ghost c = *self;
        proof {
            Server::lemma_job_changed(a, m, i as int, t as int);
            let n = m.jobs@.len() as int;
            assert(c.jobs@ == m.jobs@.remove(i as int));
            Server::lemma_positions_remove(m, c, i as int);
            assert forall|x: u64| x != id implies #[trigger] c.has_job(x) == m.has_job(x) by {
                if m.has_job(x) {
                    let k = choose|k: int| 0 <= k < m.jobs@.len() && #[trigger] m.jobs@[k].id == x;
                    if k < i {
                        assert(c.jobs@[k].id == x);
                    } else {
                        assert(k != i);
                        assert(c.jobs@[k - 1].id == x);
                    }
                }
                if c.has_job(x) {
                    let k = choose|k: int| 0 <= k < c.jobs@.len() && #[trigger] c.jobs@[k].id == x;
                    if k < i {
                        assert(m.jobs@[k].id == x);
                    } else {
                        assert(m.jobs@[k + 1].id == x);
                    }
                }
            }
            assert(c.jobs_wf()) by {
                assert forall|x: int, y: int| 0 <= x < y < c.jobs@.len() implies #[trigger] c.jobs@[x].id < #[trigger] c.jobs@[y].id by {
                    let x0 = if x < i { x } else { x + 1 };
                    let y0 = if y < i { y } else { y + 1 };
                    assert(m.jobs@[x0].id < m.jobs@[y0].id);
                }
                assert forall|x: int| 0 <= x < c.jobs@.len() implies 1 <= #[trigger] c.jobs@[x].id < c.next_id by {
                    let x0 = if x < i { x } else { x + 1 };
                    assert(1 <= m.jobs@[x0].id < m.next_id);
                }
                assert forall|x: int| 0 <= x < c.jobs@.len() implies c.has_tube(#[trigger] c.jobs@[x].tube@) by {
                    let x0 = if x < i { x } else { x + 1 };
                    assert(m.has_tube(m.jobs@[x0].tube@));
                }
                assert forall|x: int| 0 <= x < c.jobs@.len() implies (#[trigger] c.jobs@[x]).ttr >= 1 by {
                    let x0 = if x < i { x } else { x + 1 };
                    assert(m.jobs@[x0].ttr >= 1);
                }
                assert forall|x: int| 0 <= x < c.jobs@.len() implies match (#[trigger] c.jobs@[x]).state {
                    JobState::Reserved { holder, .. } => c.has_session(holder),
                    _ => true,
                } by {
                    let x0 = if x < i { x } else { x + 1 };
                    assert(c.jobs@[x] == m.jobs@[x0]);
                    assert(c.sessions@ == m.sessions@);
                    if let JobState::Reserved { holder, .. } = m.jobs@[x0].state {
                        assert(m.has_session(holder));
                    }
                }
            }
            assert(!c.has_job(id)) by {
                if c.has_job(id) {
                    let k = choose|k: int| 0 <= k < c.jobs@.len() && #[trigger] c.jobs@[k].id == id;
                    if k < i {
                        assert(m.jobs@[k].id < m.jobs@[i as int].id);
                    } else {
                        assert(m.jobs@[i as int].id < m.jobs@[k + 1].id);
                    }
                }
            }
            assert forall|x: u64| x != id && m.has_job(x) implies #[trigger] c.job(x) == m.job(x) by {
                let k = m.job_index(x);
                m.lemma_job_index(k);
                if k < i {
                    c.lemma_job_index(k);
                } else {
                    assert(k != i);
                    c.lemma_job_index(k - 1);
                }
            }
        }
        self.collect_tubes();
        proof {
            let b = *self;
            let name = a.jobs@[i as int].tube@;
            a.lemma_job_index(i as int);
            assert forall|x: u64| x != id implies #[trigger] b.has_job(x) == a.has_job(x) by {
                assert(b.has_job(x) == c.has_job(x));
            }
            assert forall|x: u64| x != id && a.has_job(x) implies #[trigger] b.job(x) == a.job(x) by {
                assert(b.job(x) == c.job(x));
            }
            assert(!b.has_job(id)) by {
                assert(b.has_job(id) == c.has_job(id));
            }
            if b.has_tube(name) {
                assert(c.has_tube(name) == m.has_tube(name));
                assert(c.tube(name) == m.tube(name));
            }
        }
        true
    }
    /// Whether some job held by `sid` reaches its deadline within a second.
    pub fn has_deadline_soon(&self, sid: u64, now: u64) -> (r: bool)
        ensures
            r == self.deadline_soon(sid, now),
    {
        let mut i: usize = 0;
        while i < self.jobs.len()
            invariant
                0 <= i <= self.jobs@.len(),
                forall|k: int|
                    0 <= k < i ==> match (#[trigger] self.jobs@[k]).state {
                        JobState::Reserved { deadline, holder } => !(holder == sid && deadline <= now + 1000),
                        _ => true,
                    },
            decreases self.jobs@.len() - i,
        {
            match self.jobs[i].state {
                JobState::Reserved { deadline, holder } => {
                    if holder == sid && (deadline <= now || deadline - now <= 1000) {
                        return true;
                    }
                },
                _ => {},
            }
            i += 1;
        }
        false
    }

    /// Whether job `j` can be reserved by the session at index `s`.
    fn is_reservable(&self, s: usize, now: u64, j: &Job) -> (r: bool)
        requires
            self.wf(),
            s < self.sessions@.len(),
        ensures
            r == self.reservable(self.sessions@[s as int].id, now, *j),
    {
        proof {
            self.lemma_session_index(s as int);
        }
        if !matches!(j.state, JobState::Ready { .. }) {
            return false;
        }
        if !watches_name(&self.sessions[s], j.tube.as_slice()) {
            return false;
        }
        match self.find_tube(j.tube.as_slice()) {
            Some(t) => !self.tubes[t].is_paused(now),
            None => {
                proof {
                    let k = choose|k: int|
                        0 <= k < self.sessions@[s as int].watched@.len() && #[trigger] self.sessions@[s as int].watched@[k]@
                            == j.tube@;
                    assert(self.has_tube(self.sessions@[s as int].watched@[k]@));
                }
                false
            },
        }
    }

    /// Session `sid` asks for a job from its watch set. It gets `DeadlineSoon`
    /// while a job it holds is about to time out; else the first reservable
    /// job in the order of `served_before`; else it has to wait.
    pub fn reserve(&mut self, sid: u64, now: u64, seed: u64) -> (r: Reservation)
        requires
            old(self).wf(),
            old(self).has_session(sid),
        ensures
            final(self).wf(),
            Server::reserve_post(*old(self), *final(self), sid, now, seed, r),
    {
        if self.has_deadline_soon(sid, now) {
            return Reservation::DeadlineSoon;
        }
        let s = match self.find_session(sid) {
            Some(s) => s,
            None => return Reservation::Wait,
        };
        let mut best: Option<usize> = None;
        let mut best_pri: u32 = 0;
        let mut best_rank: u64 = 0;
        let mut best_pos: u64 = 0;
        let mut best_id: u64 = 0;
        let mut i: usize = 0;
        while i < self.jobs.len()
            invariant
                self.wf(),
                s == self.session_index(sid),
                s < self.sessions@.len(),
                self.sessions@[s as int].id == sid,
                0 <= i <= self.jobs@.len(),
                best is None ==> forall|k: int| 0 <= k < i ==> !self.reservable(sid, now, #[trigger] self.jobs@[k]),
                best matches Some(b) ==> {
                    &&& b < i
                    &&& self.reservable(sid, now, self.jobs@[b as int])
                    &&& best_pri == self.jobs@[b as int].pri.0
                    &&& best_rank == tube_rank(seed, self.jobs@[b as int].tube@)
                    &&& best_pos == ready_pos(self.jobs@[b as int])
                    &&& best_id == self.jobs@[b as int].id
                    &&& forall|k: int|
                        0 <= k < i && self.reservable(sid, now, #[trigger] self.jobs@[k]) ==> !served_before(
                            seed,
                            self.jobs@[k],
                            self.jobs@[b as int],
                        )
                },
            decreases self.jobs@.len() - i,
        {
            if self.is_reservable(s, now, &self.jobs[i]) {
                let j = &self.jobs[i];
                let pri = j.pri.0;
                let rk = rank(seed, j.tube.as_slice());
                let pos = match j.state {
                    JobState::Ready { pos } => pos.0,
                    _ => 0,
                };
                let better = match best {
                    None => true,
                    Some(_) => {
                        pri < best_pri || (pri == best_pri && rk < best_rank) || (pri == best_pri && rk == best_rank
                            && pos < best_pos) || (pri == best_pri && rk == best_rank && pos == best_pos && j.id < best_id)
                    },
                };
                if better {
                    proof {
                        if let Some(b) = best {
                            assert(served_before(seed, self.jobs@[i as int], self.jobs@[b as int]));
                        }
                    }
                    best = Some(i);
                    best_pri = pri;
                    best_rank = rk;
                    best_pos = pos;
                    best_id = j.id;
                } else {
                    proof {
                        let b = best->0;
                        assert(!served_before(seed, self.jobs@[i as int], self.jobs@[b as int]));
                    }
                }
            }
            i += 1;
        }
        match best {
            None => Reservation::Wait,
            Some(b) => {
                let id = self.jobs[b].id;
                proof {
                    self.lemma_job_index(b as int);
                }
                let ok = self.reserve_by_id(sid, id, now);
                proof {
                    assert(ok);
                }
                Reservation::Reserved(id)
            },
        }
    }
    /// The first job of the tube `name` in the buried order (`buried`) or in
    /// the delayed order.
    pub fn first_in_class(&self, name: &[u8], buried: bool) -> (r: Option<u64>)
        requires
            self.jobs_wf(),
        ensures
            r is None == !self.any_in_class(name@, buried),
            r matches Some(id) ==> {
                &&& self.has_job(id)
                &&& in_class(self.job(id), name@, buried)
                &&& forall|i: int|
                    0 <= i < self.jobs@.len() && in_class(#[trigger] self.jobs@[i], name@, buried) && self.jobs@[i].id
                        != id ==> kick_before(self.job(id), self.jobs@[i])
            },
    {
        let mut best: Option<usize> = None;
        let mut i: usize = 0;
        while i < self.jobs.len()
            invariant
                self.jobs_wf(),
                0 <= i <= self.jobs@.len(),
                best is None ==> forall|k: int| 0 <= k < i ==> !in_class(#[trigger] self.jobs@[k], name@, buried),
                best matches Some(b) ==> {
                    &&& b < i
                    &&& in_class(self.jobs@[b as int], name@, buried)
                    &&& forall|k: int|
                        0 <= k < i && in_class(#[trigger] self.jobs@[k], name@, buried) && k != b ==> kick_before(
                            self.jobs@[b as int],
                            self.jobs@[k],
                        )
                },
            decreases self.jobs@.len() - i,
        {
            let j = &self.jobs[i];
            let fits = eq_bytes(j.tube.as_slice(), name) && if buried {
                matches!(j.state, JobState::Buried { .. })
            } else {
                matches!(j.state, JobState::Delayed { .. })
            };
            if fits {
                let better = match best {
                    None => true,
                    Some(b) => {
                        let c = &self.jobs[b];
                        match (j.state, c.state) {
                            (JobState::Buried { pos: p }, JobState::Buried { pos: q }) => p.0 < q.0 || (p.0 == q.0 && j.id < c.id),
                            (JobState::Delayed { until: u }, JobState::Delayed { until: v }) => u < v || (u == v && j.id < c.id),
                            _ => false,
                        }
                    },
                };
                proof {
                    if let Some(b) = best {
                        assert(self.jobs@[b as int].id < self.jobs@[i as int].id);
                    }
                }
                if better {
                    best = Some(i);
                }
            }
            i += 1;
        }
        match best {
            None => None,
            Some(b) => {
                proof {
                    self.lemma_job_index(b as int);
                }
                Some(self.jobs[b].id)
            },
        }
    }

    /// Session `sid` kicks up to `bound` jobs of its used tube to the ready
    /// state: buried ones in burial order if there are any, else delayed ones
    /// in the order they would become ready. The result lists the kicked ids.
    pub fn kick(&mut self, sid: u64, bound: u64) -> (r: Vec<u64>)
        requires
            old(self).wf(),
            old(self).has_session(sid),
        ensures
            final(self).wf(),
            Server::kick_post(*old(self), *final(self), sid, bound, r@),
    {
        let ghost a = *self;
        let s = match self.find_session(sid) {
            Some(s) => s,
            None => return Vec::new(),
        };
        let name = copy_bytes(self.sessions[s].used.as_slice());
        proof {
            a.lemma_session_index(s as int);
        }
        let buried = self.first_in_class(name.as_slice(), true).is_some();
        let mut kicked: Vec<u64> = Vec::new();
        while (kicked.len() as u64) < bound
            invariant
                self.wf(),
                self.sessions@ == a.sessions@,
                name@ == a.session(sid).used@,
                buried == a.any_in_class(name@, true),
                kicked@.len() <= bound,
                count_class(self.jobs@, name@, buried) + kicked@.len() == count_class(a.jobs@, name@, buried),
                forall|k1: int, k2: int| 0 <= k1 < k2 < kicked@.len() ==> kicked@[k1] != kicked@[k2],
                forall|x: u64| #[trigger] self.has_job(x) == a.has_job(x),
                forall|k: int|
                    0 <= k < kicked@.len() ==> {
                        &&& a.has_job(#[trigger] kicked@[k])
                        &&& in_class(a.job(kicked@[k]), name@, buried)
                        &&& self.job(kicked@[k]).state is Ready
                        &&& same_job(a.job(kicked@[k]), self.job(kicked@[k]))
                        &&& self.job(kicked@[k]).pri == a.job(kicked@[k]).pri
                    },
                forall|x: u64| a.has_job(x) && !kicked@.contains(x) ==> #[trigger] self.job(x) == a.job(x),
                forall|k: int, i: int|
                    0 <= k < kicked@.len() && 0 <= i < self.jobs@.len() && in_class(self.jobs@[i], name@, buried)
                        ==> kick_before(a.job(#[trigger] kicked@[k]), #[trigger] self.jobs@[i]),
            ensures
                kicked@.len() < bound ==> !self.any_in_class(name@, buried),
                kicked@.len() <= bound,
                count_class(self.jobs@, name@, buried) + kicked@.len() == count_class(a.jobs@, name@, buried),
            decreases bound - kicked@.len(),
        {
            let next = self.first_in_class(name.as_slice(), buried);
            let id = match next {
                None => break,
                Some(id) => id,
            };
            let ghost m = *self;
            proof {
                if kicked@.contains(id) {
                    let k = choose|k: int| 0 <= k < kicked@.len() && kicked@[k] == id;
                    assert(self.job(kicked@[k]).state is Ready);
                }
                assert(!kicked@.contains(id));
                assert(m.job(id) == a.job(id));
            }
            let ok = self.kick_job(id);
            proof {
                assert(ok);
                let i = m.job_index(id);
                m.lemma_job_index(i);
                lemma_count_class_leave(m.jobs@, i, self.job(id), name@, buried);
            }
            let ghost old_kicked = kicked@;
            kicked.push(id);
            proof {
                let b = *self;
                assert forall|k1: int, k2: int| 0 <= k1 < k2 < kicked@.len() implies kicked@[k1] != kicked@[k2] by {
                    if k2 == kicked@.len() - 1 {
                        assert(old_kicked[k1] == kicked@[k1]);
                        assert(old_kicked.contains(kicked@[k1]));
                    } else {
                        assert(old_kicked[k1] != old_kicked[k2]);
                    }
                }
                assert forall|x: u64| a.has_job(x) && !kicked@.contains(x) implies #[trigger] b.job(x) == a.job(x) by {
                    assert(kicked@[kicked@.len() - 1] == id);
                    if old_kicked.contains(x) {
                        let k = choose|k: int| 0 <= k < old_kicked.len() && old_kicked[k] == x;
                        assert(kicked@[k] == x);
                    }
                }
                assert forall|k: int|
                    0 <= k < kicked@.len() implies {
                        &&& a.has_job(#[trigger] kicked@[k])
                        &&& in_class(a.job(kicked@[k]), name@, buried)
                        &&& b.job(kicked@[k]).state is Ready
                        &&& same_job(a.job(kicked@[k]), b.job(kicked@[k]))
                        &&& b.job(kicked@[k]).pri == a.job(kicked@[k]).pri
                    } by {
                    if k < kicked@.len() - 1 {
                        assert(kicked@[k] == old_kicked[k]);
                        assert(kicked@[k] != id);
                    }
                }
                assert forall|k: int, i: int|
                    0 <= k < kicked@.len() && 0 <= i < b.jobs@.len() && in_class(b.jobs@[i], name@, buried) implies kick_before(
                    a.job(#[trigger] kicked@[k]),
                    #[trigger] b.jobs@[i],
                ) by {
                    let x = b.jobs@[i].id;
                    b.lemma_job_index(i);
                    assert(x != id);
                    m.lemma_job_index(m.job_index(x));
                    assert(m.job(x) == b.job(x));
                    if k < kicked@.len() - 1 {
                        assert(kicked@[k] == old_kicked[k]);
                    }
                }
            }
        }
        proof {
            lemma_count_class_zero(self.jobs@, name@, buried);
            lemma_count_class_zero(a.jobs@, name@, buried);
            if kicked@.len() < bound {
                assert forall|i: int| 0 <= i < self.jobs@.len() implies !in_class(#[trigger] self.jobs@[i], name@, buried) by {
                    if in_class(self.jobs@[i], name@, buried) {
                        assert(self.any_in_class(name@, buried));
                    }
                }
            }
        }
        kicked
    }
    /// Runs the timers at `now`: delayed jobs whose delay is over, and
    /// reserved jobs whose time-to-run is over, go to the tail of their
    /// tube's ready order; pauses that are over end.
    pub fn tick(&mut self, now: u64)
        requires
            old(self).wf(),
        ensures
            final(self).wf(),
            final(self).sessions@ == old(self).sessions@,
            forall|x: u64| #[trigger] final(self).has_job(x) == old(self).has_job(x),
            forall|x: u64|
                old(self).has_job(x) && due(old(self).job(x), now) ==> timed_to_ready(old(self).job(x), #[trigger] final(self).job(x)),
            forall|x: u64|
                old(self).has_job(x) && due(old(self).job(x), now) ==> ready_pos(#[trigger] final(self).job(x)) >= old(
                    self,
                ).tube(old(self).job(x).tube@).ready_sn.0,
            forall|x: u64| old(self).has_job(x) && !due(old(self).job(x), now) ==> #[trigger] final(self).job(x) == old(self).job(x),
            forall|n: Seq<u8>| #[trigger] final(self).has_tube(n) == old(self).has_tube(n),
            forall|n: Seq<u8>|
                #[trigger] final(self).has_tube(n) ==> match final(self).tube(n).pause_until {
                    Some(t) => now < t,
                    None => true,
                },
    {
        let ghost a = *self;
        let mut i: usize = 0;
        while i < self.jobs.len()
            invariant
                a.wf(),
                self.wf(),
                rest_same(a, *self),
                self.jobs@.len() == a.jobs@.len(),
                self.tubes@.len() == a.tubes@.len(),
                0 <= i <= self.jobs@.len(),
                forall|t: int| 0 <= t < self.tubes@.len() ==> (#[trigger] self.tubes@[t]).name@ == a.tubes@[t].name@,
                forall|k: int| 0 <= k < self.jobs@.len() ==> (#[trigger] self.jobs@[k]).id == a.jobs@[k].id,
                forall|k: int| 0 <= k < i && due(a.jobs@[k], now) ==> timed_to_ready(a.jobs@[k], #[trigger] self.jobs@[k]),
                forall|u: int| 0 <= u < self.tubes@.len() ==> (#[trigger] self.tubes@[u]).ready_sn.0 >= a.tubes@[u].ready_sn.0,
                forall|k: int|
                    0 <= k < i && due(a.jobs@[k], now) ==> ready_pos(#[trigger] self.jobs@[k]) >= a.tube(a.jobs@[k].tube@).ready_sn.0,
                forall|k: int| 0 <= k < i && !due(a.jobs@[k], now) ==> #[trigger] self.jobs@[k] == a.jobs@[k],
                forall|k: int| i <= k < self.jobs@.len() ==> #[trigger] self.jobs@[k] == a.jobs@[k],
            decreases self.jobs@.len() - i,
        {
            let expired = match self.jobs[i].state {
                JobState::Delayed { until } => until <= now,
                JobState::Reserved { deadline, .. } => deadline <= now,
                _ => false,
            };
            if expired {
                let t = match self.find_tube(self.jobs[i].tube.as_slice()) {
                    Some(t) => t,
                    None => {
                        proof {
                            assert(self.has_tube(self.jobs@[i as int].tube@));
                        }
                        return;
                    },
                };
                let ghost m = *self;
                let was_reserved = matches!(self.jobs[i].state, JobState::Reserved { .. });
                let pos = self.tubes[t].put_ready();
                self.jobs[i].state = JobState::Ready { pos };
                if was_reserved {
                    let timeouts = bump(self.jobs[i].timeouts);
                    self.jobs[i].timeouts = timeouts;
                    self.job_timeouts = bump(self.job_timeouts);
                }
                proof {
                    Server::lemma_job_changed(m, *self, i as int, t as int);
                    a.lemma_tube_index(t as int);
                }
            }
            i += 1;
        }
        let ghost c = *self;
        proof {
            Server::lemma_wf_frame(a, c);
            assert forall|x: u64| a.has_job(x) && due(a.job(x), now) implies timed_to_ready(a.job(x), #[trigger] c.job(x)) by {
                let k = a.job_index(x);
                a.lemma_job_index(k);
                c.lemma_job_index(k);
            }
            assert forall|x: u64| a.has_job(x) && due(a.job(x), now) implies ready_pos(#[trigger] c.job(x)) >= a.tube(
                a.job(x).tube@,
            ).ready_sn.0 by {
                let k = a.job_index(x);
                a.lemma_job_index(k);
                c.lemma_job_index(k);
            }
            assert forall|x: u64| a.has_job(x) && !due(a.job(x), now) implies #[trigger] c.job(x) == a.job(x) by {
                let k = a.job_index(x);
                a.lemma_job_index(k);
                c.lemma_job_index(k);
            }
        }
        let mut t: usize = 0;
        while t < self.tubes.len()
            invariant
                self.wf(),
                rest_same(c, *self),
                self.jobs@ == c.jobs@,
                self.tubes@.len() == c.tubes@.len(),
                0 <= t <= self.tubes@.len(),
                forall|u: int| 0 <= u < self.tubes@.len() ==> (#[trigger] self.tubes@[u]).name@ == c.tubes@[u].name@,
                forall|u: int|
                    0 <= u < t ==> match (#[trigger] self.tubes@[u]).pause_until {
                        Some(p) => now < p,
                        None => true,
                    },
            decreases self.tubes@.len() - t,
        {
            let over = match self.tubes[t].pause_until {
                Some(p) => p <= now,
                None => false,
            };
            if over {
                let ghost m = *self;
                self.tubes[t].pause_until = None;
                proof {
                    Server::lemma_positions_same(m, *self);
                    Server::lemma_wf_frame(m, *self);
                }
            }
            t += 1;
        }
        proof {
            let b = *self;
            Server::lemma_wf_frame(c, b);
            assert forall|n: Seq<u8>| #[trigger] b.has_tube(n) implies match b.tube(n).pause_until {
                Some(p) => now < p,
                None => true,
            } by {
                let u = b.tube_index(n);
                b.lemma_tube_index(u);
            }
            assert forall|x: u64| a.has_job(x) implies #[trigger] b.job(x) == c.job(x) by {
                let k = a.job_index(x);
                a.lemma_job_index(k);
                c.lemma_job_index(k);
                b.lemma_job_index(k);
            }
        }
    }
    /// Holds back reservations from the tube `name` for `secs` seconds.
    pub fn pause_tube(&mut self, name: &[u8], secs: u32, now: u64) -> (r: bool)
        requires
            old(self).wf(),
        ensures
            final(self).wf(),
            Server::pause_tube_post(*old(self), *final(self), name@, secs, now, r),
    {
        let t = match self.find_tube(name) {
            Some(t) => t,
            None => return false,
        };
        let ghost a = *self;
        let until = add_secs(now, secs);
        let cmd = bump(self.tubes[t].cmd_pause_tube);
        self.tubes[t].pause_until = Some(until);
        self.tubes[t].pause_secs = secs;
        self.tubes[t].cmd_pause_tube = cmd;
        proof {
            let b = *self;
            Server::lemma_positions_same(a, b);
            Server::lemma_wf_frame(a, b);
            a.lemma_tube_index(t as int);
            b.lemma_tube_index(t as int);
            assert forall|n: Seq<u8>| n != name@ && a.has_tube(n) implies #[trigger] b.tube(n) == a.tube(n) by {
                let u = a.tube_index(n);
                a.lemma_tube_index(u);
            }
        }
        true
    }

    /// The job with this id, whatever its state.
    pub fn peek(&self, id: u64) -> (r: Option<&Job>)
        requires
            self.jobs_wf(),
        ensures
            r is Some == self.has_job(id),
            r matches Some(j) ==> *j == self.job(id),
    {
        match self.find_job(id) {
            Some(i) => Some(&self.jobs[i]),
            None => None,
        }
    }

    /// The first job of the ready order of the tube `name`.
    pub fn first_ready(&self, name: &[u8]) -> (r: Option<u64>)
        requires
            self.jobs_wf(),
        ensures
            r is None == !(exists|i: int|
                0 <= i < self.jobs@.len() && (#[trigger] self.jobs@[i]).tube@ == name@ && self.jobs@[i].state is Ready),
            r matches Some(id) ==> {
                &&& self.has_job(id)
                &&& self.job(id).tube@ == name@
                &&& self.job(id).state is Ready
                &&& forall|i: int|
                    0 <= i < self.jobs@.len() && (#[trigger] self.jobs@[i]).tube@ == name@ && self.jobs@[i].state is Ready
                        && self.jobs@[i].id != id ==> ready_before(self.job(id), self.jobs@[i])
            },
    {
        let mut best: Option<usize> = None;
        let mut i: usize = 0;
        while i < self.jobs.len()
            invariant
                self.jobs_wf(),
                0 <= i <= self.jobs@.len(),
                best is None ==> forall|k: int|
                    0 <= k < i ==> !((#[trigger] self.jobs@[k]).tube@ == name@ && self.jobs@[k].state is Ready),
                best matches Some(b) ==> {
                    &&& b < i
                    &&& self.jobs@[b as int].tube@ == name@
                    &&& self.jobs@[b as int].state is Ready
                    &&& forall|k: int|
                        0 <= k < i && (#[trigger] self.jobs@[k]).tube@ == name@ && self.jobs@[k].state is Ready && k != b
                            ==> ready_before(self.jobs@[b as int], self.jobs@[k])
                },
            decreases self.jobs@.len() - i,
        {
            let j = &self.jobs[i];
            if eq_bytes(j.tube.as_slice(), name) && matches!(j.state, JobState::Ready { .. }) {
                let better = match best {
                    None => true,
                    Some(b) => {
                        let c = &self.jobs[b];
                        let (p, q) = match (j.state, c.state) {
                            (JobState::Ready { pos: p }, JobState::Ready { pos: q }) => (p.0, q.0),
                            _ => (0, 0),
                        };
                        j.pri.0 < c.pri.0 || (j.pri.0 == c.pri.0 && p < q) || (j.pri.0 == c.pri.0 && p == q && j.id < c.id)
                    },
                };
                proof {
                    if let Some(b) = best {
                        assert(self.jobs@[b as int].id < self.jobs@[i as int].id);
                    }
                }
                if better {
                    best = Some(i);
                }
            }
            i += 1;
        }
        match best {
            None => None,
            Some(b) => {
                proof {
                    self.lemma_job_index(b as int);
                }
                Some(self.jobs[b].id)
            },
        }
    }

    /// The next ready job of the tube session `sid` uses.
    pub fn peek_ready(&self, sid: u64) -> (r: Option<u64>)
        requires
            self.wf(),
            self.has_session(sid),
        ensures
            r is None == !(exists|i: int|
                0 <= i < self.jobs@.len() && (#[trigger] self.jobs@[i]).tube@ == self.session(sid).used@
                    && self.jobs@[i].state is Ready),
            r matches Some(id) ==> {
                &&& self.has_job(id)
                &&& self.job(id).tube@ == self.session(sid).used@
                &&& self.job(id).state is Ready
                &&& forall|i: int|
                    0 <= i < self.jobs@.len() && (#[trigger] self.jobs@[i]).tube@ == self.session(sid).used@
                        && self.jobs@[i].state is Ready && self.jobs@[i].id != id ==> ready_before(self.job(id), self.jobs@[i])
            },
    {
        let s = match self.find_session(sid) {
            Some(s) => s,
            None => return None,
        };
        self.first_ready(self.sessions[s].used.as_slice())
    }

    /// The next job to become ready, of the tube session `sid` uses.
    pub fn peek_delayed(&self, sid: u64) -> (r: Option<u64>)
        requires
            self.wf(),
            self.has_session(sid),
        ensures
            r is None == !self.any_in_class(self.session(sid).used@, false),
            r matches Some(id) ==> {
                &&& self.has_job(id)
                &&& in_class(self.job(id), self.session(sid).used@, false)
                &&& forall|i: int|
                    0 <= i < self.jobs@.len() && in_class(#[trigger] self.jobs@[i], self.session(sid).used@, false)
                        && self.jobs@[i].id != id ==> kick_before(self.job(id), self.jobs@[i])
            },
    {
        let s = match self.find_session(sid) {
            Some(s) => s,
            None => return None,
        };
        self.first_in_class(self.sessions[s].used.as_slice(), false)
    }

    /// The first buried job of the tube session `sid` uses.
    pub fn peek_buried(&self, sid: u64) -> (r: Option<u64>)
        requires
            self.wf(),
            self.has_session(sid),
        ensures
            r is None == !self.any_in_class(self.session(sid).used@, true),
            r matches Some(id) ==> {
                &&& self.has_job(id)
                &&& in_class(self.job(id), self.session(sid).used@, true)
                &&& forall|i: int|
                    0 <= i < self.jobs@.len() && in_class(#[trigger] self.jobs@[i], self.session(sid).used@, true)
                        && self.jobs@[i].id != id ==> kick_before(self.job(id), self.jobs@[i])
            },
    {
        let s = match self.find_session(sid) {
            Some(s) => s,
            None => return None,
        };
        self.first_in_class(self.sessions[s].used.as_slice(), true)
    }
    /// Session `sid` goes away. The jobs it holds go back to the tail of their
    /// tube's ready order with their priority, and tubes that nothing needs
    /// any more are dropped.
    pub fn disconnect(&mut self, sid: u64)
        requires
            old(self).wf(),
            old(self).has_session(sid),
        ensures
            final(self).wf(),
            !final(self).has_session(sid),
            forall|x: u64| x != sid ==> #[trigger] final(self).has_session(x) == old(self).has_session(x),
            forall|x: u64| x != sid && old(self).has_session(x) ==> #[trigger] final(self).session(x) == old(self).session(x),
            forall|x: u64| #[trigger] final(self).has_job(x) == old(self).has_job(x),
            forall|x: u64|
                old(self).has_job(x) && reserved_by(old(self).job(x), sid) ==> returned(old(self).job(x), #[trigger] final(self).job(x)),
            forall|x: u64| old(self).has_job(x) && !reserved_by(old(self).job(x), sid) ==> #[trigger] final(self).job(x) == old(self).job(x),
    {
        let ghost a = *self;
        let mut i: usize = 0;
        while i < self.jobs.len()
            invariant
                self.wf(),
                rest_same(a, *self),
                self.jobs@.len() == a.jobs@.len(),
                self.tubes@.len() == a.tubes@.len(),
                0 <= i <= self.jobs@.len(),
                forall|t: int| 0 <= t < self.tubes@.len() ==> (#[trigger] self.tubes@[t]).name@ == a.tubes@[t].name@,
                forall|k: int| 0 <= k < self.jobs@.len() ==> (#[trigger] self.jobs@[k]).id == a.jobs@[k].id,
                forall|k: int| 0 <= k < i && reserved_by(a.jobs@[k], sid) ==> returned(a.jobs@[k], #[trigger] self.jobs@[k]),
                forall|k: int| 0 <= k < i && !reserved_by(a.jobs@[k], sid) ==> #[trigger] self.jobs@[k] == a.jobs@[k],
                forall|k: int| i <= k < self.jobs@.len() ==> #[trigger] self.jobs@[k] == a.jobs@[k],
            decreases self.jobs@.len() - i,
        {
            let held = match self.jobs[i].state {
                JobState::Reserved { holder, .. } => holder == sid,
                _ => false,
            };
            if held {
                let t = match self.find_tube(self.jobs[i].tube.as_slice()) {
                    Some(t) => t,
                    None => {
                        proof {
                            assert(self.has_tube(self.jobs@[i as int].tube@));
                        }
                        return;
                    },
                };
                let ghost m = *self;
                let pos = self.tubes[t].put_ready();
                self.jobs[i].state = JobState::Ready { pos };
                proof {
                    Server::lemma_job_changed(m, *self, i as int, t as int);
                }
            }
            i += 1;
        }
        let s = match self.find_session(sid) {
            Some(s) => s,
            None => return,
        };
        let ghost c = *self;
        proof {
            Server::lemma_wf_frame(a, c);
        }
        let _gone = self.sessions.remove(s);
        let ghost d = *self;
        proof {
            assert(d.sessions@ == c.sessions@.remove(s as int));
            c.lemma_session_index(s as int);
            assert forall|x: u64| x != sid implies #[trigger] d.has_session(x) == c.has_session(x) by {
                if c.has_session(x) {
                    let y = choose|y: int| 0 <= y < c.sessions@.len() && #[trigger] c.sessions@[y].id == x;
                    if y < s {
                        assert(d.sessions@[y].id == x);
                    } else {
                        assert(y != s);
                        assert(d.sessions@[y - 1].id == x);
                    }
                }
                if d.has_session(x) {
                    let y = choose|y: int| 0 <= y < d.sessions@.len() && #[trigger] d.sessions@[y].id == x;
                    if y < s {
                        assert(c.sessions@[y].id == x);
                    } else {
                        assert(c.sessions@[y + 1].id == x);
                    }
                }
            }
            assert(!d.has_session(sid)) by {
                if d.has_session(sid) {
                    let y = choose|y: int| 0 <= y < d.sessions@.len() && #[trigger] d.sessions@[y].id == sid;
                    if y < s {
                        assert(c.sessions@[y].id != c.sessions@[s as int].id);
                    } else {
                        assert(c.sessions@[s as int].id != c.sessions@[y + 1].id);
                    }
                }
            }
            assert(d.sessions_wf()) by {
                assert forall|x: int, y: int| 0 <= x < y < d.sessions@.len() implies #[trigger] d.sessions@[x].id
                    != #[trigger] d.sessions@[y].id by {
                    let x0 = if x < s { x } else { x + 1 };
                    let y0 = if y < s { y } else { y + 1 };
                    assert(c.sessions@[x0].id != c.sessions@[y0].id);
                }
                assert forall|x: int| 0 <= x < d.sessions@.len() implies (#[trigger] d.sessions@[x]).id < d.next_session by {
                    let x0 = if x < s { x } else { x + 1 };
                    assert(c.sessions@[x0].id < c.next_session);
                }
                assert forall|x: int| 0 <= x < d.sessions@.len() implies d.has_tube((#[trigger] d.sessions@[x]).used@) by {
                    let x0 = if x < s { x } else { x + 1 };
                    assert(c.has_tube(c.sessions@[x0].used@));
                }
                assert forall|x: int| 0 <= x < d.sessions@.len() implies (#[trigger] d.sessions@[x]).watch_set_ok() by {
                    let x0 = if x < s { x } else { x + 1 };
                    assert(c.sessions@[x0].watch_set_ok());
                }
                assert forall|x: int, k: int|
                    0 <= x < d.sessions@.len() && 0 <= k < d.sessions@[x].watched@.len() implies d.has_tube(
                    #[trigger] d.sessions@[x].watched@[k]@,
                ) by {
                    let x0 = if x < s { x } else { x + 1 };
                    assert(d.sessions@[x] == c.sessions@[x0]);
                    assert(c.has_tube(c.sessions@[x0].watched@[k]@));
                }
            }
            assert(d.jobs_wf()) by {
                assert forall|k: int| 0 <= k < d.jobs@.len() implies match (#[trigger] d.jobs@[k]).state {
                    JobState::Reserved { holder, .. } => d.has_session(holder),
                    _ => true,
                } by {
                    assert(d.jobs@[k] == c.jobs@[k]);
                    if let JobState::Reserved { holder, .. } = c.jobs@[k].state {
                        assert(c.has_session(holder));
                        if holder == sid {
                            assert(reserved_by(c.jobs@[k], sid));
                            assert(c.jobs@[k] == a.jobs@[k]);
                        }
                    }
                }
                assert forall|k: int| 0 <= k < d.jobs@.len() implies d.has_tube(#[trigger] d.jobs@[k].tube@) by {
                    assert(c.has_tube(c.jobs@[k].tube@));
                }
            }
            assert forall|x: u64| x != sid && c.has_session(x) implies #[trigger] d.session(x) == c.session(x) by {
                let y = c.session_index(x);
                c.lemma_session_index(y);
                if y < s {
                    d.lemma_session_index(y);
                } else {
                    assert(y != s);
                    d.lemma_session_index(y - 1);
                }
            }
        }
        self.collect_tubes();
        proof {
            let b = *self;
            assert(b.sessions@ == d.sessions@);
            assert forall|x: u64| #[trigger] b.has_session(x) == d.has_session(x) by {
            }
            assert forall|x: u64| x != sid && a.has_session(x) implies #[trigger] b.session(x) == a.session(x) by {
                assert(b.session(x) == d.session(x));
                assert(c.sessions@ == a.sessions@);
                assert(c.session(x) == a.session(x));
            }
            assert forall|x: u64| x != sid implies #[trigger] b.has_session(x) == a.has_session(x) by {
                assert(c.sessions@ == a.sessions@);
                assert(c.has_session(x) == a.has_session(x));
            }
            assert forall|x: u64|
                a.has_job(x) && reserved_by(a.job(x), sid) implies returned(a.job(x), #[trigger] b.job(x)) by {
                let k = a.job_index(x);
                a.lemma_job_index(k);
                b.lemma_job_index(k);
            }
            assert forall|x: u64| a.has_job(x) && !reserved_by(a.job(x), sid) implies #[trigger] b.job(x) == a.job(x) by {
                let k = a.job_index(x);
                a.lemma_job_index(k);
                b.lemma_job_index(k);
            }
            assert forall|x: u64| #[trigger] b.has_job(x) == a.has_job(x) by {
                assert(b.has_job(x) == c.has_job(x));
            }
        }
    }
    /// The statistics of the tube `name` at `now`, if it exists.
    pub fn tube_stats(&self, name: &[u8], now: u64) -> (r: Option<TubeStats>)
        requires
            self.wf(),
        ensures
            r is Some == self.has_tube(name@),
            r matches Some(st) ==> {
                let t = self.tube(name@);
                &&& st.current_jobs_ready == count_in(self.jobs@, name@, 0)
                &&& st.current_jobs_reserved == count_in(self.jobs@, name@, 1)
                &&& st.current_jobs_delayed == count_in(self.jobs@, name@, 2)
                &&& st.current_jobs_buried == count_in(self.jobs@, name@, 3)
                &&& st.current_jobs_urgent == count_urgent(self.jobs@, name@)
                &&& st.current_using == count_sessions(self.sessions@, name@, 0)
                &&& st.current_watching == count_sessions(self.sessions@, name@, 1)
                &&& st.current_waiting == count_sessions(self.sessions@, name@, 2)
                &&& st.total_jobs == t.total_jobs
                &&& st.pause == (if t.spec_is_paused(now) { t.pause_secs } else { 0 })
                &&& st.cmd_delete == t.cmd_delete
                &&& st.cmd_pause_tube == t.cmd_pause_tube
            },
    {
        let t = match self.find_tube(name) {
            Some(t) => t,
            None => return None,
        };
        let mut c: [u64; 4] = [0, 0, 0, 0];
        let mut urgent: u64 = 0;
        let mut i: usize = 0;
        while i < self.jobs.len()
            invariant
                0 <= i <= self.jobs@.len(),
                urgent == count_urgent(self.jobs@.subrange(0, i as int), name@),
                forall|k: int| 0 <= k < 4 ==> c@[k] == count_in(self.jobs@.subrange(0, i as int), name@, k),
                forall|k: int| 0 <= k < 4 ==> c@[k] <= i,
                urgent <= i,
            decreases self.jobs@.len() - i,
        {
            let ghost pre = self.jobs@.subrange(0, i as int);
            let ghost post = self.jobs@.subrange(0, i as int + 1);
            assert(post.drop_last() =~= pre);
            let j = &self.jobs[i];
            if eq_bytes(j.tube.as_slice(), name) {
                let code: usize = match j.state {
                    JobState::Ready { .. } => 0,
                    JobState::Reserved { .. } => 1,
                    JobState::Delayed { .. } => 2,
                    JobState::Buried { .. } => 3,
                };
                c[code] = c[code] + 1;
                if code == 0 && j.pri.0 < URGENT_LIMIT {
                    urgent = urgent + 1;
                }
            }
            i += 1;
        }
        assert(self.jobs@.subrange(0, self.jobs@.len() as int) =~= self.jobs@);
        let mut u: [u64; 3] = [0, 0, 0];
        let mut s: usize = 0;
        while s < self.sessions.len()
            invariant
                0 <= s <= self.sessions@.len(),
                forall|k: int| 0 <= k < 3 ==> u@[k] == count_sessions(self.sessions@.subrange(0, s as int), name@, k),
                forall|k: int| 0 <= k < 3 ==> u@[k] <= s,
            decreases self.sessions@.len() - s,
        {
            let ghost pre = self.sessions@.subrange(0, s as int);
            let ghost post = self.sessions@.subrange(0, s as int + 1);
            assert(post.drop_last() =~= pre);
            let ss = &self.sessions[s];
            if eq_bytes(ss.used.as_slice(), name) {
                u[0] = u[0] + 1;
            }
            if watches_name(ss, name) {
                u[1] = u[1] + 1;
                if ss.waiting {
                    u[2] = u[2] + 1;
                }
            }
            s += 1;
        }
        assert(self.sessions@.subrange(0, self.sessions@.len() as int) =~= self.sessions@);
        let tube = &self.tubes[t];
        let pause = if tube.is_paused(now) { tube.pause_secs } else { 0 };
        Some(TubeStats {
            current_jobs_urgent: urgent,
            current_jobs_ready: c[0],
            current_jobs_reserved: c[1],
            current_jobs_delayed: c[2],
            current_jobs_buried: c[3],
            total_jobs: tube.total_jobs,
            current_using: u[0],
            current_waiting: u[2],
            current_watching: u[1],
            pause,
            cmd_delete: tube.cmd_delete,
            cmd_pause_tube: tube.cmd_pause_tube,
        })
    }
}

} // verus!
