//! Properties of the broker that span several operations.
use vstd::prelude::*;

use crate::job::JobState;
use crate::server::{
    buried_pos, placed_in,
    count_in, jobs_in, state_code, sum_over_tubes, put_done, ready_before, ready_pos, reserved_by, served_before, tube_rank, Reservation, Server,
};
use crate::decoder::{decode_step, is_crlf_at, Decoder};
use crate::parser::parse_line;
use crate::protocol::{EventModel, Response};
use crate::tube::{Pri, TubeState};
use crate::job::Job;

verus! {

/// Every live job is in exactly one of the four states, and what the state
/// names exists: a ready or buried job's tube, a reserved job's holder, which
/// counts the job among its reservations.
pub proof fn lemma_job_state_indexed(s: Server, id: u64)
    requires
        s.wf(),
        s.has_job(id),
    ensures
        (s.job(id).state is Ready) as int + (s.job(id).state is Delayed) as int + (s.job(id).state is Reserved) as int
            + (s.job(id).state is Buried) as int == 1,
        s.has_tube(s.job(id).tube@),
        match s.job(id).state {
            JobState::Reserved { holder, .. } => s.has_session(holder) && reserved_by(s.job(id), holder),
            _ => true,
        },
{
    let i = s.job_index(id);
    assert(s.jobs@[i].id == id);
    assert(s.has_tube(s.jobs@[i].tube@));
}

/// No tube exists that no job belongs to and no session uses or watches
/// (a waiting session watches the tubes it waits on).
pub proof fn lemma_no_idle_tube(s: Server, name: Seq<u8>)
    requires
        s.wf(),
        s.has_tube(name),
    ensures
        s.tube_needed(name),
{
    let t = choose|t: int| 0 <= t < s.tubes@.len() && #[trigger] s.tubes@[t].name@ == name;
    assert(s.tube_needed(s.tubes@[t].name@));
}

/// The ready order is a strict total order on distinct jobs, and within one
/// tube it is the order in which reservations serve them.
pub proof fn lemma_ready_order(seed: u64, a: crate::job::Job, b: crate::job::Job, c: crate::job::Job)
    ensures
        !ready_before(a, a),
        ready_before(a, b) ==> !ready_before(b, a),
        ready_before(a, b) && ready_before(b, c) ==> ready_before(a, c),
        a.id != b.id ==> ready_before(a, b) || ready_before(b, a),
        a.tube@ == b.tube@ ==> served_before(seed, a, b) == ready_before(a, b),
{
}

/// A job reserved and then released with delay zero is ready again, in the
/// same tube, with the new priority.
pub proof fn lemma_release_makes_ready(
    s0: Server,
    s1: Server,
    s2: Server,
    sid: u64,
    now: u64,
    seed: u64,
    id: u64,
    pri: u32,
    now2: u64,
    released: bool,
)
    requires
        s0.wf(),
        Server::reserve_post(s0, s1, sid, now, seed, Reservation::Reserved(id)),
        Server::release_post(s1, s2, sid, id, pri, 0, now2, released),
    ensures
        released,
        s2.has_job(id),
        s2.job(id).state is Ready,
        s2.job(id).tube@ == s0.job(id).tube@,
        s2.job(id).pri == Pri(pri),
{
}

/// A job reserved, buried and then kicked is ready again.
pub proof fn lemma_bury_then_kick_makes_ready(
    s0: Server,
    s1: Server,
    s2: Server,
    s3: Server,
    sid: u64,
    now: u64,
    seed: u64,
    id: u64,
    pri: u32,
    buried: bool,
    kicked: bool,
)
    requires
        s0.wf(),
        Server::reserve_post(s0, s1, sid, now, seed, Reservation::Reserved(id)),
        Server::bury_post(s1, s2, sid, id, pri, buried),
        Server::kick_job_post(s2, s3, id, kicked),
    ensures
        buried,
        kicked,
        s3.has_job(id),
        s3.job(id).state is Ready,
        s3.job(id).tube@ == s0.job(id).tube@,
{
}

/// While a tube is paused, a session that watches only that tube gets no
/// job; once the pause is over the tube is no longer held back.
pub proof fn lemma_pause_holds_back(
    s0: Server,
    s1: Server,
    s2: Server,
    name: Seq<u8>,
    secs: u32,
    now: u64,
    sid: u64,
    now2: u64,
    seed: u64,
    r: Reservation,
)
    requires
        s0.wf(),
        Server::pause_tube_post(s0, s1, name, secs, now, true),
        s1.has_session(sid),
        s1.session(sid).watched@.len() == 1,
        s1.session(sid).watched@[0]@ == name,
        Server::reserve_post(s1, s2, sid, now2, seed, r),
    ensures
        now2 < crate::server::later(now, secs) ==> !(r is Reserved),
        now2 >= crate::server::later(now, secs) ==> !s1.tube(name).spec_is_paused(now2),
{
    if now2 < crate::server::later(now, secs) {
        if r is Reserved {
            let id = r->0;
            let j = s1.job(id);
            let k = choose|k: int|
                0 <= k < s1.session(sid).watched@.len() && #[trigger] s1.session(sid).watched@[k]@ == j.tube@;
            assert(k == 0);
        }
    }
}

/// Of two jobs put in turn with equal priority and no delay, the first is
/// served first (until a tube hands out its last ready position).
pub proof fn lemma_equal_priority_fifo(
    s0: Server,
    s1: Server,
    s2: Server,
    sid: u64,
    pri: u32,
    ttr1: u32,
    data1: Seq<u8>,
    now1: u64,
    ttr2: u32,
    data2: Seq<u8>,
    now2: u64,
    seed: u64,
)
    requires
        s0.wf(),
        s0.has_session(sid),
        s0.tube(s0.session(sid).used@).ready_sn.0 < u64::MAX,
        put_done(s0, s1, sid, pri, 0, ttr1, data1, now1),
        put_done(s1, s2, sid, pri, 0, ttr2, data2, now2),
    ensures
        ready_before(s2.job(s0.next_id), s2.job(s1.next_id)),
        served_before(seed, s2.job(s0.next_id), s2.job(s1.next_id)),
{
    let name = s0.session(sid).used@;
    assert(s1.sessions@ == s0.sessions@);
    assert(s1.session(sid) == s0.session(sid));
    let id1 = s0.next_id;
    let id2 = s1.next_id;
    assert(id1 != id2);
    assert(s2.job(id1) == s1.job(id1));
    assert(ready_pos(s2.job(id1)) < ready_pos(s2.job(id2)));
    assert(tube_rank(seed, s2.job(id1).tube@) == tube_rank(seed, s2.job(id2).tube@));
}

/// A job put with no delay on a tube that had no ready job is the one that
/// the putting session then reserves, when it watches only that tube, the
/// tube is not paused and no job it holds is about to time out.
pub proof fn lemma_put_then_reserve(
    s0: Server,
    s1: Server,
    s2: Server,
    sid: u64,
    pri: u32,
    ttr: u32,
    data: Seq<u8>,
    now: u64,
    now2: u64,
    seed: u64,
    r: Reservation,
)
    requires
        s0.wf(),
        s1.wf(),
        s0.has_session(sid),
        s0.session(sid).watched@.len() == 1,
        s0.session(sid).watched@[0]@ == s0.session(sid).used@,
        forall|i: int|
            0 <= i < s0.jobs@.len() ==> !((#[trigger] s0.jobs@[i]).tube@ == s0.session(sid).used@ && s0.jobs@[i].state is Ready),
        !s0.tube(s0.session(sid).used@).spec_is_paused(now2),
        !s0.deadline_soon(sid, now2),
        put_done(s0, s1, sid, pri, 0, ttr, data, now),
        Server::reserve_post(s1, s2, sid, now2, seed, r),
    ensures
        r == Reservation::Reserved(s0.next_id),
{
    let id = s0.next_id;
    let name = s0.session(sid).used@;
    assert(s1.sessions@ == s0.sessions@);
    assert(s1.session(sid) == s0.session(sid));
    assert(s1.session(sid).watched@[0]@ == name);
    assert(s1.session(sid).watches(name));
    assert(!s1.deadline_soon(sid, now2)) by {
        if s1.deadline_soon(sid, now2) {
            let i = choose|i: int|
                0 <= i < s1.jobs@.len() && match (#[trigger] s1.jobs@[i]).state {
                    JobState::Reserved { deadline, holder } => holder == sid && deadline <= now2 + 1000,
                    _ => false,
                };
            let x = s1.jobs@[i].id;
            s1.lemma_job_index(i);
            assert(x != id);
            assert(s1.has_job(x));
            assert(s0.has_job(x));
            assert(s1.job(x) == s0.job(x));
            let k = s0.job_index(x);
            s0.lemma_job_index(k);
            assert(s0.jobs@[k] == s1.jobs@[i]);
        }
    }
    let ki = s1.job_index(id);
    assert(s1.jobs@[ki] == s1.job(id));
    assert(s1.reservable(sid, now2, s1.jobs@[ki]));
    assert(s1.any_reservable(sid, now2));
    if r != Reservation::Reserved(id) {
        let x = r->0;
        assert(x != id);
        assert(s1.reservable(sid, now2, s1.job(x)));
        let j = s1.job(x);
        let w = choose|w: int| 0 <= w < s1.session(sid).watched@.len() && #[trigger] s1.session(sid).watched@[w]@ == j.tube@;
        assert(w == 0);
        assert(s1.has_job(x));
        assert(s0.has_job(x));
        assert(s1.job(x) == s0.job(x));
        let k = s0.job_index(x);
        s0.lemma_job_index(k);
        assert(s0.jobs@[k] == j);
    }
}

/// A command line of 224 bytes, CRLF included, is read as a command; one of
/// 225 bytes is refused with `BAD_FORMAT`, and the rest of the line dropped.
pub proof fn lemma_line_length_limit(line: Seq<u8>, rest: Seq<u8>)
    requires
        forall|k: int| 0 <= k < line.len() ==> !is_crlf_at(line + seq![13u8, 10u8] + rest, k),
    ensures
        line.len() == 222 ==> ({
            let s = line + seq![13u8, 10u8] + rest;
            let (d, left, out) = decode_step(Decoder::ParseCommand, s);
            &&& left == rest
            &&& out == match parse_line(line) {
                Ok(c) => Ok(Some(EventModel::Command(c))),
                Err(e) => Err::<Option<EventModel>, Response>(e),
            }
        }),
        line.len() == 223 ==> decode_step(Decoder::ParseCommand, line + seq![13u8, 10u8] + rest) == (
            Decoder::DiscardToNewline,
            line + seq![13u8, 10u8] + rest,
            Err::<Option<EventModel>, Response>(Response::BadFormat),
        ),
{
    let s = line + seq![13u8, 10u8] + rest;
    let n = line.len() as int;
    assert(s[n] == 13u8 && s[n + 1] == 10u8);
    if n == 222 {
        assert(crate::decoder::first_crlf_within(s, 224, 222));
        let i = choose|i: int| crate::decoder::first_crlf_within(s, 224, i);
        if i < 222 {
            assert(!is_crlf_at(s, i));
        } else if i > 222 {
            assert(!crate::decoder::first_crlf_within(s, 224, i));
        }
        assert(s.subrange(0, 222) =~= line);
        assert(s.subrange(224, s.len() as int) =~= rest);
    }
    if n == 223 {
        assert forall|i: int| !crate::decoder::first_crlf_within(s, 224, i) by {
            if 0 <= i && i + 1 < 224 {
                assert(!is_crlf_at(s, i));
            }
        }
    }
}

/// After a `put` line, the decoder hands over a body of `n` bytes and then
/// takes its CRLF, back at the start of a command line: the stream stays
/// aligned whether or not the job is then refused as too big.
pub proof fn lemma_body_then_crlf_realigns(n: usize, body: Seq<u8>, rest: Seq<u8>)
    requires
        n > 0,
        body.len() == n,
    ensures
        decode_step(Decoder::ParseJob { remaining: n }, body + seq![13u8, 10u8] + rest) == (
            Decoder::ParseJob { remaining: 0 },
            seq![13u8, 10u8] + rest,
            Ok::<Option<EventModel>, Response>(Some(EventModel::PutChunk(body))),
        ),
        decode_step(Decoder::ParseJob { remaining: 0 }, seq![13u8, 10u8] + rest) == (
            Decoder::ParseCommand,
            rest,
            Ok::<Option<EventModel>, Response>(Some(EventModel::PutEnd)),
        ),
{
    let s = body + seq![13u8, 10u8] + rest;
    assert(s.subrange(0, n as int) =~= body);
    assert(s.subrange(n as int, s.len() as int) =~= seq![13u8, 10u8] + rest);
    let t = seq![13u8, 10u8] + rest;
    assert(t.subrange(2, t.len() as int) =~= rest);
}

pub open spec fn has_name(tubes: Seq<TubeState>, n: Seq<u8>) -> bool {
    exists|t: int| 0 <= t < tubes.len() && #[trigger] tubes[t].name@ == n
}

/// How many of `tubes` are called `n`.
pub open spec fn occurrences(tubes: Seq<TubeState>, n: Seq<u8>) -> nat
    decreases tubes.len(),
{
    if tubes.len() == 0 {
        0
    } else {
        occurrences(tubes.drop_last(), n) + if tubes.last().name@ == n {
            1nat
        } else {
            0nat
        }
    }
}

proof fn lemma_jobs_in_step(jobs: Seq<Job>, name: Seq<u8>)
    requires
        jobs.len() > 0,
    ensures
        jobs_in(jobs, name) == jobs_in(jobs.drop_last(), name) + if jobs.last().tube@ == name {
            1nat
        } else {
            0nat
        },
{
    let c = state_code(jobs.last().state);
    assert(0 <= c < 4);
    assert(count_in(jobs, name, 0) == count_in(jobs.drop_last(), name, 0) + if jobs.last().tube@ == name && c == 0 { 1nat } else { 0nat });
    assert(count_in(jobs, name, 1) == count_in(jobs.drop_last(), name, 1) + if jobs.last().tube@ == name && c == 1 { 1nat } else { 0nat });
    assert(count_in(jobs, name, 2) == count_in(jobs.drop_last(), name, 2) + if jobs.last().tube@ == name && c == 2 { 1nat } else { 0nat });
    assert(count_in(jobs, name, 3) == count_in(jobs.drop_last(), name, 3) + if jobs.last().tube@ == name && c == 3 { 1nat } else { 0nat });
}

proof fn lemma_sum_step(tubes: Seq<TubeState>, jobs: Seq<Job>)
    requires
        jobs.len() > 0,
    ensures
        sum_over_tubes(tubes, jobs) == sum_over_tubes(tubes, jobs.drop_last()) + occurrences(tubes, jobs.last().tube@),
    decreases tubes.len(),
{
    if tubes.len() > 0 {
        lemma_sum_step(tubes.drop_last(), jobs);
        lemma_jobs_in_step(jobs, tubes.last().name@);
    }
}

proof fn lemma_sum_no_jobs(tubes: Seq<TubeState>, jobs: Seq<Job>)
    requires
        jobs.len() == 0,
    ensures
        sum_over_tubes(tubes, jobs) == 0,
    decreases tubes.len(),
{
    if tubes.len() > 0 {
        lemma_sum_no_jobs(tubes.drop_last(), jobs);
    }
}

proof fn lemma_occurrences_none(tubes: Seq<TubeState>, n: Seq<u8>)
    requires
        forall|t: int| 0 <= t < tubes.len() ==> (#[trigger] tubes[t]).name@ != n,
    ensures
        occurrences(tubes, n) == 0,
    decreases tubes.len(),
{
    if tubes.len() > 0 {
        assert(tubes.last() == tubes[tubes.len() - 1]);
        lemma_occurrences_none(tubes.drop_last(), n);
    }
}

proof fn lemma_occurrences_once(tubes: Seq<TubeState>, n: Seq<u8>, w: int)
    requires
        forall|a: int, b: int| 0 <= a < b < tubes.len() ==> #[trigger] tubes[a].name@ != #[trigger] tubes[b].name@,
        0 <= w < tubes.len(),
        tubes[w].name@ == n,
    ensures
        occurrences(tubes, n) == 1,
    decreases tubes.len(),
{
    let last = tubes.len() - 1;
    if w == last {
        assert forall|t: int| 0 <= t < tubes.drop_last().len() implies (#[trigger] tubes.drop_last()[t]).name@ != n by {
            assert(tubes[t].name@ != tubes[last].name@);
        }
        lemma_occurrences_none(tubes.drop_last(), n);
    } else {
        assert(tubes[w].name@ != tubes[last].name@);
        assert(tubes.drop_last()[w] == tubes[w]);
        lemma_occurrences_once(tubes.drop_last(), n, w);
    }
}

proof fn lemma_sum_counts_jobs(tubes: Seq<TubeState>, jobs: Seq<Job>)
    requires
        forall|a: int, b: int| 0 <= a < b < tubes.len() ==> #[trigger] tubes[a].name@ != #[trigger] tubes[b].name@,
        forall|i: int| 0 <= i < jobs.len() ==> has_name(tubes, (#[trigger] jobs[i]).tube@),
    ensures
        sum_over_tubes(tubes, jobs) == jobs.len(),
    decreases jobs.len(),
{
    if jobs.len() == 0 {
        lemma_sum_no_jobs(tubes, jobs);
    } else {
        let rest = jobs.drop_last();
        assert forall|i: int| 0 <= i < rest.len() implies has_name(tubes, (#[trigger] rest[i]).tube@) by {
            assert(rest[i] == jobs[i]);
        }
        lemma_sum_counts_jobs(tubes, rest);
        lemma_sum_step(tubes, jobs);
        let j = jobs[jobs.len() - 1];
        assert(has_name(tubes, j.tube@));
        let w = choose|t: int| 0 <= t < tubes.len() && #[trigger] tubes[t].name@ == j.tube@;
        lemma_occurrences_once(tubes, j.tube@, w);
    }
}

/// Over all tubes, the jobs counted as ready, reserved, delayed and buried
/// add up to the number of live jobs.
pub proof fn lemma_counts_add_up(s: Server)
    requires
        s.wf(),
    ensures
        sum_over_tubes(s.tubes@, s.jobs@) == s.jobs@.len(),
{
    assert forall|i: int| 0 <= i < s.jobs@.len() implies has_name(s.tubes@, (#[trigger] s.jobs@[i]).tube@) by {
        assert(s.has_tube(s.jobs@[i].tube@));
    }
    lemma_sum_counts_jobs(s.tubes@, s.jobs@);
}

/// A job handed to one reservation is not handed to the next one.
pub proof fn lemma_no_job_twice(
    s0: Server,
    s1: Server,
    s2: Server,
    sid1: u64,
    sid2: u64,
    now1: u64,
    now2: u64,
    seed1: u64,
    seed2: u64,
    id1: u64,
    r: Reservation,
)
    requires
        s0.wf(),
        Server::reserve_post(s0, s1, sid1, now1, seed1, Reservation::Reserved(id1)),
        Server::reserve_post(s1, s2, sid2, now2, seed2, r),
    ensures
        r != Reservation::Reserved(id1),
{
    assert(s1.has_job(id1));
    assert(s1.job(id1).state is Reserved);
}

/// A job buried is placed after every other buried job of its tube (until
/// the tube hands out its last buried position).
pub proof fn lemma_bury_at_tail(s0: Server, s1: Server, sid: u64, id: u64, pri: u32)
    requires
        s0.wf(),
        s1.wf(),
        Server::bury_post(s0, s1, sid, id, pri, true),
        s0.tube(s0.job(id).tube@).buried_sn.0 < u64::MAX,
    ensures
        forall|i: int|
            0 <= i < s1.jobs@.len() && (#[trigger] s1.jobs@[i]).tube@ == s0.job(id).tube@ && s1.jobs@[i].state is Buried
                && s1.jobs@[i].id != id ==> buried_pos(s1.jobs@[i]) < buried_pos(s1.job(id)),
{
    let name = s0.job(id).tube@;
    let t = s0.tube_index(name);
    assert(s0.has_tube(name)) by {
        let k = s0.job_index(id);
        assert(s0.jobs@[k].id == id);
    }
    assert forall|i: int|
        0 <= i < s1.jobs@.len() && (#[trigger] s1.jobs@[i]).tube@ == name && s1.jobs@[i].state is Buried && s1.jobs@[i].id
            != id implies buried_pos(s1.jobs@[i]) < buried_pos(s1.job(id)) by {
        let x = s1.jobs@[i].id;
        assert(s1.has_job(x));
        assert(s0.has_job(x));
        assert(s1.job(x) == s0.job(x));
        let k = s0.job_index(x);
        s0.lemma_job_index(k);
        s1.lemma_job_index(i);
        assert(placed_in(s0.jobs@[k], s0.tubes@[t], true));
    }
}

/// A job put with no delay is placed after every other ready job of its
/// tube (until the tube hands out its last ready position).
pub proof fn lemma_put_at_tail(
    s0: Server,
    s1: Server,
    sid: u64,
    pri: u32,
    ttr: u32,
    data: Seq<u8>,
    now: u64,
)
    requires
        s0.wf(),
        s1.wf(),
        s0.has_session(sid),
        put_done(s0, s1, sid, pri, 0, ttr, data, now),
        s0.tube(s0.session(sid).used@).ready_sn.0 < u64::MAX,
    ensures
        forall|i: int|
            0 <= i < s1.jobs@.len() && (#[trigger] s1.jobs@[i]).tube@ == s0.session(sid).used@ && s1.jobs@[i].state is Ready
                && s1.jobs@[i].id != s0.next_id ==> ready_pos(s1.jobs@[i]) < ready_pos(s1.job(s0.next_id)),
{
    let name = s0.session(sid).used@;
    let id = s0.next_id;
    let t = s0.tube_index(name);
    assert(s0.has_tube(name)) by {
        let x = s0.session_index(sid);
        assert(s0.sessions@[x].id == sid);
    }
    assert forall|i: int|
        0 <= i < s1.jobs@.len() && (#[trigger] s1.jobs@[i]).tube@ == name && s1.jobs@[i].state is Ready && s1.jobs@[i].id
            != id implies ready_pos(s1.jobs@[i]) < ready_pos(s1.job(id)) by {
        let x = s1.jobs@[i].id;
        assert(s1.has_job(x));
        assert(s0.has_job(x));
        assert(s1.job(x) == s0.job(x));
        let k = s0.job_index(x);
        s0.lemma_job_index(k);
        s1.lemma_job_index(i);
        assert(placed_in(s0.jobs@[k], s0.tubes@[t], false));
    }
}

} // verus!
