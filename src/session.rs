//! What one client connection does with the events its decoder reads: it
//! turns them into broker operations and says what to send back.
//!
//! The host runs the input and output; here are only the decisions.
use vstd::prelude::*;

use crate::documents::{names_to_yaml, yaml_of_names};
use crate::job::{Job, JobState};
use crate::parser::{copy_bytes, words_view};
use crate::protocol::{BeanstalkClientEvent, Command, JobStats, Response, ServerStats, TubeStatsResp};
use crate::server::{
    later, add_secs, count_all, count_flag, count_urgent_all, default_tube, in_class, kick_before, ready_before, reserved_by, rest_same, returned, same_state, Reservation,
    Server,
};
use crate::tube::{bump, Pri};

verus! {

/// Where a connection stands between events.
#[derive(Debug)]
pub enum Phase {
    /// Waiting for a command.
    Command,
    /// Collecting the body of a `put`.
    PutBody { pri: u32, delay: u32, ttr: u32, n_bytes: u32, body: Vec<u8> },
    /// A reservation request waits for a job, until the given instant if any.
    Waiting { until: Option<u64> },
}

/// A client connection: its session in the broker and its phase.
#[derive(Debug)]
pub struct Connection {
    pub sid: u64,
    pub phase: Phase,
}

/// What the host is to do after an event.
#[derive(Debug)]
pub enum Action {
    /// Send these responses, in order.
    Send(Vec<Response>),
    /// Send these job statistics as an `OK` document.
    SendJobStats(JobStats),
    /// Send these tube statistics as an `OK` document.
    SendTubeStats(TubeStatsResp),
    /// Send these broker statistics as an `OK` document.
    SendServerStats(ServerStats),
    /// A reservation is pending: call `resume_reserve` when a job may have
    /// become available or the timeout has passed.
    Wait,
    /// Close the connection.
    Close,
    /// Nothing to send; read on.
    Nothing,
}

/// The single response of an action, if it is one.
pub open spec fn sends_one(a: Action, r: Response) -> bool {
    a matches Action::Send(v) && v@ == seq![r]
}

/// The response to a command that names a job held by the session.
pub open spec fn held_response(s: Server, sid: u64, id: u64, ok: Response) -> Response {
    if s.has_job(id) && reserved_by(s.job(id), sid) {
        ok
    } else {
        Response::NotFound
    }
}

/// The connection collects the body of a `put`, with nothing collected yet.
pub open spec fn collecting(p: Phase, pri: u32, delay: u32, ttr: u32, n_bytes: u32) -> bool {
    match p {
        Phase::PutBody { pri: p0, delay: d0, ttr: t0, n_bytes: n0, body } => p0 == pri && d0 == delay && t0 == ttr && n0
            == n_bytes && body@.len() == 0,
        _ => false,
    }
}

/// The connection collects the body of a `put`, holding `body` so far.
pub open spec fn collected(p: Phase, pri: u32, delay: u32, ttr: u32, n_bytes: u32, body: Seq<u8>) -> bool {
    match p {
        Phase::PutBody { pri: p0, delay: d0, ttr: t0, n_bytes: n0, body: b0 } => p0 == pri && d0 == delay && t0 == ttr
            && n0 == n_bytes && b0@ == body,
        _ => false,
    }
}

/// The action sends `USING <name>` alone.
pub open spec fn sends_using(a: Action, name: Seq<u8>) -> bool {
    match a {
        Action::Send(v) => v@.len() == 1 && match v@[0] {
            Response::Using { tube } => tube@ == name,
            _ => false,
        },
        _ => false,
    }
}

/// `RESERVED` (or `FOUND`) with the id and length of a job body.
pub open spec fn job_head(reserved: bool, id: u64, data: Seq<u8>) -> Response {
    let n: u32 = if data.len() > u32::MAX {
        u32::MAX
    } else {
        data.len() as u32
    };
    if reserved {
        Response::Reserved { id, n_bytes: n }
    } else {
        Response::Found { id, n_bytes: n }
    }
}

/// The action hands over a job: its head, its body and the final CRLF.
pub open spec fn sends_job(a: Action, reserved: bool, id: u64, data: Seq<u8>) -> bool {
    match a {
        Action::Send(v) => v@.len() == 3 && v@[0] == job_head(reserved, id, data) && match v@[1] {
            Response::JobChunk(d) => d@ == data,
            _ => false,
        } && v@[2] == Response::JobEnd,
        _ => false,
    }
}

/// The wait has a deadline and it has come.
pub open spec fn timed_out(until: Option<u64>, now: u64) -> bool {
    match until {
        Some(t) => now >= t,
        None => false,
    }
}

/// The size of a watch set as `WATCHING` reports it.
pub open spec fn watch_count(x: crate::server::Session) -> u32 {
    if x.watched@.len() > u32::MAX {
        u32::MAX
    } else {
        x.watched@.len() as u32
    }
}

/// Job `id` is the first of the ready order of the tube `name`.
pub open spec fn first_ready_in(a: Server, name: Seq<u8>, id: u64) -> bool {
    &&& a.has_job(id)
    &&& a.job(id).tube@ == name
    &&& a.job(id).state is Ready
    &&& forall|i: int|
        0 <= i < a.jobs@.len() && (#[trigger] a.jobs@[i]).tube@ == name && a.jobs@[i].state is Ready && a.jobs@[i].id
            != id ==> ready_before(a.job(id), a.jobs@[i])
}

pub open spec fn any_ready_in(a: Server, name: Seq<u8>) -> bool {
    exists|i: int| 0 <= i < a.jobs@.len() && (#[trigger] a.jobs@[i]).tube@ == name && a.jobs@[i].state is Ready
}

/// Job `id` is the first of the buried (or delayed) order of the tube `name`.
pub open spec fn first_in_class_of(a: Server, name: Seq<u8>, buried: bool, id: u64) -> bool {
    &&& a.has_job(id)
    &&& in_class(a.job(id), name, buried)
    &&& forall|i: int|
        0 <= i < a.jobs@.len() && in_class(#[trigger] a.jobs@[i], name, buried) && a.jobs@[i].id != id ==> kick_before(
            a.job(id),
            a.jobs@[i],
        )
}

/// The reply to a peek: `FOUND` with the first job of the given kind, or
/// `NOT_FOUND` when there is none.
pub open spec fn peek_reply(a: Server, r: Action, sid: u64, kind: int) -> bool {
    let name = a.session(sid).used@;
    if kind == 0 {
        &&& !any_ready_in(a, name) ==> sends_one(r, Response::NotFound)
        &&& any_ready_in(a, name) ==> exists|id: u64|
            #[trigger] first_ready_in(a, name, id) && sends_job(r, false, id, a.job(id).data@)
    } else {
        let buried = kind == 2;
        &&& !a.any_in_class(name, buried) ==> sends_one(r, Response::NotFound)
        &&& a.any_in_class(name, buried) ==> exists|id: u64|
            #[trigger] first_in_class_of(a, name, buried, id) && sends_job(r, false, id, a.job(id).data@)
    }
}

/// What a reservation request answers, from `a` to `b`: `DEADLINE_SOON`,
/// the first reservable job, now held by `sid`, or a wait (`waits`) or
/// `TIMED_OUT` (`!waits`) when there is none.
pub open spec fn reserve_reply(a: Server, b: Server, sid: u64, now: u64, r: Action, waits: bool) -> bool {
    &&& a.deadline_soon(sid, now) ==> sends_one(r, Response::DeadlineSoon)
    &&& !a.deadline_soon(sid, now) && !a.any_reservable(sid, now) && !waits ==> sends_one(r, Response::TimedOut)
    &&& !a.deadline_soon(sid, now) && !a.any_reservable(sid, now) && waits ==> r is Wait && b.session(sid).waiting
    &&& !a.deadline_soon(sid, now) && a.any_reservable(sid, now) ==> exists|id: u64|
        {
            &&& a.has_job(id)
            &&& a.reservable(sid, now, a.job(id))
            &&& b.has_job(id)
            &&& reserved_by(b.job(id), sid)
            &&& #[trigger] sends_job(r, true, id, a.job(id).data@)
        }
}

/// What a command does: `a` and `b` are the broker before and after, `r`
/// the action and `phase` the connection's phase after it. Counters kept
/// only for statistics are left out.
pub open spec fn command_reply(a: Server, b: Server, sid: u64, cmd: Command, now: u64, r: Action, phase: Phase) -> bool {
    match cmd {
        Command::Put { pri, delay, ttr, n_bytes } => r is Nothing && collecting(phase, pri, delay, ttr, n_bytes)
            && same_state(a, b),
        Command::Delete { id } => {
            let ok = a.has_job(id) && (!(a.job(id).state is Reserved) || reserved_by(a.job(id), sid));
            &&& sends_one(r, if ok { Response::Deleted } else { Response::NotFound })
            &&& Server::delete_post(a, b, sid, id, ok)
        },
        Command::Release { id, pri, delay } => {
            &&& sends_one(r, held_response(a, sid, id, Response::Released))
            &&& Server::release_post(a, b, sid, id, pri, delay, now, a.has_job(id) && reserved_by(a.job(id), sid))
        },
        Command::Bury { id, pri } => {
            &&& sends_one(r, held_response(a, sid, id, Response::Buried))
            &&& Server::bury_post(a, b, sid, id, pri, a.has_job(id) && reserved_by(a.job(id), sid))
        },
        Command::Touch { id } => {
            &&& sends_one(r, held_response(a, sid, id, Response::Touched))
            &&& Server::touch_post(a, b, sid, id, now, a.has_job(id) && reserved_by(a.job(id), sid))
        },
        Command::KickJob { id } => {
            let ok = a.has_job(id) && (a.job(id).state is Buried || a.job(id).state is Delayed);
            &&& sends_one(r, if ok { Response::Kicked } else { Response::NotFound })
            &&& Server::kick_job_post(a, b, id, ok)
        },
        Command::Kick { bound } => exists|ks: Seq<u64>|
            #[trigger] Server::kick_post(a, b, sid, bound, ks) && sends_one(r, Response::KickedCount { count: ks.len() as u64 }),
        Command::PauseTube { tube, delay } => {
            &&& sends_one(r, if a.has_tube(tube@) { Response::Paused } else { Response::NotFound })
            &&& Server::pause_tube_post(a, b, tube@, delay, now, a.has_tube(tube@))
        },
        Command::Watch { tube } => {
            &&& sends_one(r, Response::Watching { count: watch_count(b.session(sid)) })
            &&& forall|n: Seq<u8>| #[trigger] b.session(sid).watches(n) == (a.session(sid).watches(n) || n == tube@)
            &&& b.jobs@ == a.jobs@
        },
        Command::Ignore { tube } => if a.session(sid).watched@.len() == 1 {
            sends_one(r, Response::NotIgnored) && same_state(a, b)
        } else {
            &&& sends_one(r, Response::Watching { count: watch_count(b.session(sid)) })
            &&& forall|n: Seq<u8>| #[trigger] b.session(sid).watches(n) == (a.session(sid).watches(n) && n != tube@)
            &&& b.jobs@ == a.jobs@
        },
        Command::Use { tube } => sends_using(r, tube@) && b.session(sid).used@ == tube@ && b.jobs@ == a.jobs@,
        Command::Quit => r is Close && same_state(a, b),
        Command::Reserve => reserve_reply(a, b, sid, now, r, true),
        Command::ReserveWithTimeout { timeout } => reserve_reply(a, b, sid, now, r, timeout > 0 && now < u64::MAX),
        Command::ReserveJob { id } => if a.has_job(id) && a.job(id).state is Ready {
            sends_job(r, true, id, a.job(id).data@) && b.has_job(id) && reserved_by(b.job(id), sid)
        } else {
            sends_one(r, Response::NotFound) && same_state(a, b)
        },
        Command::Peek { id } => same_state(a, b) && if a.has_job(id) {
            sends_job(r, false, id, a.job(id).data@)
        } else {
            sends_one(r, Response::NotFound)
        },
        Command::PeekReady => same_state(a, b) && peek_reply(a, r, sid, 0),
        Command::PeekDelayed => same_state(a, b) && peek_reply(a, r, sid, 1),
        Command::PeekBuried => same_state(a, b) && peek_reply(a, r, sid, 2),
        Command::StatsJob { id } => same_state(a, b) && if a.has_job(id) {
            r is SendJobStats
        } else {
            sends_one(r, Response::NotFound)
        },
        Command::StatsTube { tube } => same_state(a, b) && if a.has_tube(tube@) {
            r is SendTubeStats
        } else {
            sends_one(r, Response::NotFound)
        },
        Command::StatsServer => same_state(a, b) && r is SendServerStats,
        Command::ListTubes => same_state(a, b) && sends_document(r, yaml_of_names(tube_names_view(a))),
        Command::ListTubesWatched => same_state(a, b) && sends_document(r, yaml_of_names(words_view(a.session(sid).watched@))),
        Command::ListTubeUsed => same_state(a, b) && sends_using(r, a.session(sid).used@),
    }
}

/// Counters kept for statistics play no part in what a command does.
proof fn lemma_command_reply_transfer(
    a: Server,
    a1: Server,
    b: Server,
    sid: u64,
    cmd: Command,
    now: u64,
    r: Action,
    phase: Phase,
)
    requires
        same_state(a, a1),
        command_reply(a1, b, sid, cmd, now, r, phase),
    ensures
        command_reply(a, b, sid, cmd, now, r, phase),
{
    Server::lemma_same_state_views(a, a1);
    match cmd {
        Command::Put { pri, delay, ttr, n_bytes } => {
            assert(r is Nothing);
            assert(collecting(phase, pri, delay, ttr, n_bytes));
            assert(same_state(a1, b));
            assert(rest_same(a, b));
            assert(same_state(a, b));
            assert(command_reply(a, b, sid, cmd, now, r, phase));
        },
        Command::Reserve => {
            assert(command_reply(a, b, sid, cmd, now, r, phase));
        },
        Command::ReserveWithTimeout { .. } => {
            assert(command_reply(a, b, sid, cmd, now, r, phase));
        },
        Command::ReserveJob { .. } => {
            assert(command_reply(a, b, sid, cmd, now, r, phase));
        },
        Command::Release { .. } => {
            assert(command_reply(a, b, sid, cmd, now, r, phase));
        },
        Command::Delete { .. } => {
            assert(command_reply(a, b, sid, cmd, now, r, phase));
        },
        Command::Bury { .. } => {
            assert(command_reply(a, b, sid, cmd, now, r, phase));
        },
        Command::Touch { .. } => {
            assert(command_reply(a, b, sid, cmd, now, r, phase));
        },
        Command::Watch { .. } => {
            assert(command_reply(a, b, sid, cmd, now, r, phase));
        },
        Command::Ignore { .. } => {
            assert(command_reply(a, b, sid, cmd, now, r, phase));
        },
        Command::Peek { .. } => {
            assert(same_state(a, b));
        },
        Command::PeekReady => {
            let name = a.session(sid).used@;
            assert(any_ready_in(a1, name) == any_ready_in(a, name));
            assert forall|id: u64| #[trigger] first_ready_in(a1, name, id) == first_ready_in(a, name, id) by {
                assert(a1.job(id) == a.job(id));
            }
        },
        Command::PeekDelayed => {
            let name = a.session(sid).used@;
            assert forall|id: u64| #[trigger] first_in_class_of(a1, name, false, id) == first_in_class_of(a, name, false, id) by {
                assert(a1.job(id) == a.job(id));
            }
        },
        Command::PeekBuried => {
            let name = a.session(sid).used@;
            assert forall|id: u64| #[trigger] first_in_class_of(a1, name, true, id) == first_in_class_of(a, name, true, id) by {
                assert(a1.job(id) == a.job(id));
            }
        },
        Command::Kick { .. } => {
            if let Command::Kick { bound } = cmd {
                assert forall|ks: Seq<u64>| #[trigger] Server::kick_post(a1, b, sid, bound, ks) implies Server::kick_post(
                    a,
                    b,
                    sid,
                    bound,
                    ks,
                ) by {
                    assert(a1.jobs@ == a.jobs@);
                }
                let ks = choose|ks: Seq<u64>| #[trigger] Server::kick_post(a1, b, sid, bound, ks) && sends_one(
                    r,
                    Response::KickedCount { count: ks.len() as u64 },
                );
                assert(Server::kick_post(a, b, sid, bound, ks));
            }
        },
        Command::KickJob { .. } => {
            assert(command_reply(a, b, sid, cmd, now, r, phase));
        },
        Command::StatsJob { .. } => {
            assert(command_reply(a, b, sid, cmd, now, r, phase));
        },
        Command::StatsTube { .. } => {
            assert(command_reply(a, b, sid, cmd, now, r, phase));
        },
        Command::StatsServer => {
            assert(command_reply(a, b, sid, cmd, now, r, phase));
        },
        Command::ListTubes => {
            assert(command_reply(a, b, sid, cmd, now, r, phase));
        },
        Command::ListTubeUsed => {
            assert(command_reply(a, b, sid, cmd, now, r, phase));
        },
        Command::ListTubesWatched => {
            assert(command_reply(a, b, sid, cmd, now, r, phase));
        },
        Command::Quit => {
            assert(command_reply(a, b, sid, cmd, now, r, phase));
        },
        Command::PauseTube { .. } => {
            assert(command_reply(a, b, sid, cmd, now, r, phase));
        },
        Command::Use { .. } => {
            assert(command_reply(a, b, sid, cmd, now, r, phase));
        },
    }
}

/// The three responses that hand over a job.
pub fn job_responses(reserved: bool, j: &Job) -> (r: Vec<Response>)
    ensures
        sends_job(Action::Send(r), reserved, j.id, j.data@),
{
    let n: u32 = if j.data.len() > 0xffff_ffff {
        0xffff_ffff
    } else {
        j.data.len() as u32
    };
    let head = if reserved {
        Response::Reserved { id: j.id, n_bytes: n }
    } else {
        Response::Found { id: j.id, n_bytes: n }
    };
    let mut r: Vec<Response> = Vec::new();
    r.push(head);
    r.push(Response::JobChunk(copy_bytes(j.data.as_slice())));
    r.push(Response::JobEnd);
    r
}

/// Whole seconds from `now` until `t`, or zero when `t` is past; at most
/// the largest `u32`.
pub open spec fn secs_left(now: u64, t: u64) -> u32 {
    if t <= now {
        0
    } else if (t - now) / 1000 > u32::MAX {
        u32::MAX
    } else {
        ((t - now) / 1000) as u32
    }
}

pub fn secs_until(now: u64, t: u64) -> (r: u32)
    ensures
        r == secs_left(now, t),
{
    if t <= now {
        0
    } else {
        let d = (t - now) / 1000;
        if d > 0xffff_ffff {
            0xffff_ffff
        } else {
            d as u32
        }
    }
}

/// The names of the broker's tubes, in their order.
pub open spec fn tube_names_view(s: Server) -> Seq<Seq<u8>> {
    s.tubes@.map_values(|t: crate::tube::TubeState| t.name@)
}

/// The action sends `OK` with this document.
pub open spec fn sends_document(a: Action, doc: Seq<u8>) -> bool {
    match a {
        Action::Send(v) => v@.len() == 1 && match v@[0] {
            Response::OkData { data } => data@ == doc,
            _ => false,
        },
        _ => false,
    }
}

/// `OK` with a YAML document, or `INTERNAL_ERROR` where none could be
/// written.
pub fn ok_reply(doc: Option<Vec<u8>>) -> (r: Action)
    ensures
        match doc {
            Some(d) => sends_one(r, Response::OkData { data: d }),
            None => sends_one(r, Response::InternalError),
        },
{
    match doc {
        Some(data) => Action::Send(one(Response::OkData { data })),
        None => Action::Send(one(Response::InternalError)),
    }
}

/// `OK` with the YAML list of these tube names.
pub fn names_reply(names: &Vec<Vec<u8>>) -> (r: Action)
    ensures
        sends_document(r, yaml_of_names(words_view(names@))),
{
    ok_reply(names_to_yaml(names))
}

fn one(r: Response) -> (v: Vec<Response>)
    ensures
        v@ == seq![r],
{
    let mut v: Vec<Response> = Vec::new();
    v.push(r);
    v
}

impl Server {
    /// Sets whether session `sid` waits for a reservation, and records that
    /// it has put a job (`produced`) or asked for one (`worked`).
    pub fn set_flags(&mut self, sid: u64, waiting: bool, produced: bool, worked: bool)
        requires
            old(self).wf(),
            old(self).has_session(sid),
        ensures
            final(self).wf(),
            final(self).jobs@ == old(self).jobs@,
            final(self).tubes@ == old(self).tubes@,
            forall|x: u64| #[trigger] final(self).has_session(x) == old(self).has_session(x),
            forall|x: u64| x != sid && old(self).has_session(x) ==> #[trigger] final(self).session(x) == old(self).session(x),
            final(self).session(sid).used@ == old(self).session(sid).used@,
            final(self).session(sid).watched@ == old(self).session(sid).watched@,
            final(self).session(sid).waiting == waiting,
            final(self).next_id == old(self).next_id,
            final(self).max_job_size == old(self).max_job_size,
            final(self).draining == old(self).draining,
    {
        let s = match self.find_session(sid) {
            Some(s) => s,
            None => return,
        };
        let ghost a = *self;
        self.sessions[s].waiting = waiting;
        let p = self.sessions[s].produced || produced;
        let w = self.sessions[s].worked || worked;
        self.sessions[s].produced = p;
        self.sessions[s].worked = w;
        proof {
            let b = *self;
            a.lemma_session_index(s as int);
            assert(b.tubes@ == a.tubes@);
            assert(b.sessions@[s as int].watched@ == a.sessions@[s as int].watched@);
            assert forall|k: int| 0 <= k < b.sessions@[s as int].watched@.len() implies b.has_tube(
                #[trigger] b.sessions@[s as int].watched@[k]@) by {
                assert(b.sessions@[s as int].watched@[k] == a.sessions@[s as int].watched@[k]);
                assert(a.has_tube(a.sessions@[s as int].watched@[k]@));
            }
            Server::lemma_session_changed(a, b, s as int);
            assert forall|t: int| 0 <= t < b.tubes@.len() implies b.tube_needed(#[trigger] b.tubes@[t].name@) by {
                let n = a.tubes@[t].name@;
                assert(a.tube_needed(n));
                if exists|i: int| 0 <= i < a.jobs@.len() && #[trigger] a.jobs@[i].tube@ == n {
                    let i = choose|i: int| 0 <= i < a.jobs@.len() && #[trigger] a.jobs@[i].tube@ == n;
                    assert(b.jobs@[i].tube@ == n);
                } else {
                    let x = choose|x: int| 0 <= x < a.sessions@.len() && #[trigger] a.sessions@[x].refers_to(n);
                    if x == s {
                        if a.sessions@[x].used@ != n {
                            let k = choose|k: int|
                                0 <= k < a.sessions@[x].watched@.len() && #[trigger] a.sessions@[x].watched@[k]@ == n;
                            assert(b.sessions@[x].watched@[k]@ == n);
                        }
                    }
                    assert(b.sessions@[x].refers_to(n));
                }
            }
        }
    }

    /// Opens a connection with a fresh session, which uses and watches the
    /// tube `default`; `None` once session ids are exhausted.
    pub fn open_connection(&mut self) -> (r: Option<Connection>)
        requires
            old(self).wf(),
        ensures
            final(self).wf(),
            final(self).jobs@ == old(self).jobs@,
            r is Some == (old(self).next_session < u64::MAX),
            r is None ==> *final(self) == *old(self),
            r matches Some(c) ==> {
                &&& c.phase is Command
                &&& c.sid == old(self).next_session
                &&& !old(self).has_session(c.sid)
                &&& final(self).has_session(c.sid)
                &&& final(self).session(c.sid).used@ == default_tube()
                &&& final(self).session(c.sid).watched@.len() == 1
                &&& final(self).session(c.sid).watched@[0]@ == default_tube()
                &&& !final(self).session(c.sid).waiting
                &&& forall|x: u64| x != c.sid ==> #[trigger] final(self).has_session(x) == old(self).has_session(x)
                &&& forall|x: u64| x != c.sid && old(self).has_session(x) ==> #[trigger] final(self).session(x) == old(self).session(x)
            },
    {
        match self.connect() {
            Some(sid) => Some(Connection { sid, phase: Phase::Command }),
            None => None,
        }
    }

    /// Ends a connection. The jobs its session holds go back to the tail of
    /// their tube's ready order with their priority; no other job changes.
    pub fn close_connection(&mut self, conn: Connection)
        requires
            old(self).wf(),
            old(self).has_session(conn.sid),
        ensures
            final(self).wf(),
            !final(self).has_session(conn.sid),
            forall|x: u64| x != conn.sid ==> #[trigger] final(self).has_session(x) == old(self).has_session(x),
            forall|x: u64|
                x != conn.sid && old(self).has_session(x) ==> #[trigger] final(self).session(x) == old(self).session(x),
            forall|x: u64| #[trigger] final(self).has_job(x) == old(self).has_job(x),
            forall|x: u64|
                old(self).has_job(x) && reserved_by(old(self).job(x), conn.sid) ==> returned(
                    old(self).job(x),
                    #[trigger] final(self).job(x),
                ),
            forall|x: u64|
                old(self).has_job(x) && !reserved_by(old(self).job(x), conn.sid) ==> #[trigger] final(self).job(x)
                    == old(self).job(x),
    {
        self.disconnect(conn.sid);
    }

    /// Statistics of job `id` at `now`.
    pub fn job_stats(&self, id: u64, now: u64) -> (r: Option<JobStats>)
        requires
            self.wf(),
        ensures
            r is Some == self.has_job(id),
            r matches Some(st) ==> st.id == id && st.tube@ == self.job(id).tube@ && st.state@ == crate::job::state_name(self.job(id).state) && st.pri == self.job(id).pri.0
                && st.ttr == self.job(id).ttr && st.reserves == self.job(id).reserves && st.timeouts == self.job(id).timeouts
                && st.releases == self.job(id).releases && st.buries == self.job(id).buries && st.kicks == self.job(id).kicks
                && st.age == secs_left(self.job(id).created, now) && st.file == 0 && st.delay == match self.job(id).state {
                JobState::Delayed { until } => secs_left(now, until),
                _ => 0,
            } && st.time_left == match self.job(id).state {
                JobState::Reserved { deadline, .. } => secs_left(now, deadline),
                _ => 0,
            },
    {
        let j = match self.peek(id) {
            Some(j) => j,
            None => return None,
        };
        let delay = match j.state {
            JobState::Delayed { until } => secs_until(now, until),
            _ => 0,
        };
        let time_left = match j.state {
            JobState::Reserved { deadline, .. } => secs_until(now, deadline),
            _ => 0,
        };
        let age = secs_until(j.created, now);
        Some(JobStats {
            id: j.id,
            tube: copy_bytes(j.tube.as_slice()),
            state: j.state.name(),
            pri: j.pri.0,
            age,
            delay,
            ttr: j.ttr,
            time_left,
            file: 0,
            reserves: j.reserves,
            timeouts: j.timeouts,
            releases: j.releases,
            buries: j.buries,
            kicks: j.kicks,
        })
    }

    /// The names of all tubes.
    pub fn tube_names(&self) -> (r: Vec<Vec<u8>>)
        ensures
            r@.len() == self.tubes@.len(),
            forall|t: int| 0 <= t < r@.len() ==> (#[trigger] r@[t])@ == self.tubes@[t].name@,
    {
        let mut r: Vec<Vec<u8>> = Vec::new();
        let mut t: usize = 0;
        while t < self.tubes.len()
            invariant
                0 <= t <= self.tubes@.len(),
                r@.len() == t,
                forall|k: int| 0 <= k < t ==> (#[trigger] r@[k])@ == self.tubes@[k].name@,
            decreases self.tubes@.len() - t,
        {
            r.push(copy_bytes(self.tubes[t].name.as_slice()));
            t += 1;
        }
        r
    }

    /// The names of the tubes session `sid` watches.
    pub fn watched_names(&self, sid: u64) -> (r: Vec<Vec<u8>>)
        requires
            self.wf(),
            self.has_session(sid),
        ensures
            r@.len() == self.session(sid).watched@.len(),
            forall|k: int| 0 <= k < r@.len() ==> (#[trigger] r@[k])@ == self.session(sid).watched@[k]@,
    {
        let s = match self.find_session(sid) {
            Some(s) => s,
            None => return Vec::new(),
        };
        let w = &self.sessions[s].watched;
        let mut r: Vec<Vec<u8>> = Vec::new();
        let mut k: usize = 0;
        while k < w.len()
            invariant
                0 <= k <= w@.len(),
                r@.len() == k,
                forall|j: int| 0 <= j < k ==> (#[trigger] r@[j])@ == w@[j]@,
            decreases w@.len() - k,
        {
            r.push(copy_bytes(w[k].as_slice()));
            k += 1;
        }
        r
    }

    /// Statistics of the broker.
    pub fn server_stats(&self) -> (r: ServerStats)
        ensures
            r.current_tubes == self.tubes@.len(),
            r.current_connections == self.sessions@.len(),
            r.total_jobs == self.next_id - 1 || (self.next_id == 0 && r.total_jobs == 0),
            r.max_job_size == self.max_job_size,
            r.draining == self.draining,
            r.cmd_counts@ == self.cmd_counts@,
            r.job_timeouts == self.job_timeouts,
            r.total_connections == self.total_connections,
            r.current_jobs_ready == count_all(self.jobs@, 0),
            r.current_jobs_reserved == count_all(self.jobs@, 1),
            r.current_jobs_delayed == count_all(self.jobs@, 2),
            r.current_jobs_buried == count_all(self.jobs@, 3),
            r.current_jobs_urgent == count_urgent_all(self.jobs@),
            r.current_producers == count_flag(self.sessions@, 0),
            r.current_workers == count_flag(self.sessions@, 1),
            r.current_waiting == count_flag(self.sessions@, 2),
    {
        let mut c: [u64; 4] = [0, 0, 0, 0];
        let mut urgent: u64 = 0;
        let mut i: usize = 0;
        while i < self.jobs.len()
            invariant
                0 <= i <= self.jobs@.len(),
                forall|k: int| 0 <= k < 4 ==> c@[k] <= i,
                forall|k: int| 0 <= k < 4 ==> c@[k] == count_all(self.jobs@.subrange(0, i as int), k),
                urgent <= i,
                urgent == count_urgent_all(self.jobs@.subrange(0, i as int)),
            decreases self.jobs@.len() - i,
        {
            proof {
                let pre = self.jobs@.subrange(0, i as int);
                let post = self.jobs@.subrange(0, i as int + 1);
                assert(post.drop_last() =~= pre);
            }
            let j = &self.jobs[i];
            let code: usize = match j.state {
                JobState::Ready { .. } => 0,
                JobState::Reserved { .. } => 1,
                JobState::Delayed { .. } => 2,
                JobState::Buried { .. } => 3,
            };
            c[code] = c[code] + 1;
            if code == 0 && j.pri.0 < crate::tube::URGENT_LIMIT {
                urgent = urgent + 1;
            }
            i += 1;
        }
        assert(self.jobs@.subrange(0, self.jobs@.len() as int) =~= self.jobs@);
        let mut producers: u64 = 0;
        let mut workers: u64 = 0;
        let mut waiting: u64 = 0;
        let mut s: usize = 0;
        while s < self.sessions.len()
            invariant
                0 <= s <= self.sessions@.len(),
                producers <= s,
                workers <= s,
                waiting <= s,
                producers == count_flag(self.sessions@.subrange(0, s as int), 0),
                workers == count_flag(self.sessions@.subrange(0, s as int), 1),
                waiting == count_flag(self.sessions@.subrange(0, s as int), 2),
            decreases self.sessions@.len() - s,
        {
            proof {
                let pre = self.sessions@.subrange(0, s as int);
                let post = self.sessions@.subrange(0, s as int + 1);
                assert(post.drop_last() =~= pre);
            }
            if self.sessions[s].produced {
                producers = producers + 1;
            }
            if self.sessions[s].worked {
                workers = workers + 1;
            }
            if self.sessions[s].waiting {
                waiting = waiting + 1;
            }
            s += 1;
        }
        assert(self.sessions@.subrange(0, self.sessions@.len() as int) =~= self.sessions@);
        let mut counts: Vec<u64> = Vec::new();
        let mut k: usize = 0;
        while k < 25
            invariant
                0 <= k <= 25,
                counts@ == self.cmd_counts@.subrange(0, k as int),
            decreases 25 - k,
        {
            counts.push(self.cmd_counts[k]);
            k += 1;
            assert(counts@ =~= self.cmd_counts@.subrange(0, k as int));
        }
        assert(self.cmd_counts@.subrange(0, 25) =~= self.cmd_counts@);
        ServerStats {
            current_jobs_urgent: urgent,
            current_jobs_ready: c[0],
            current_jobs_reserved: c[1],
            current_jobs_delayed: c[2],
            current_jobs_buried: c[3],
            cmd_counts: counts,
            job_timeouts: self.job_timeouts,
            total_jobs: if self.next_id == 0 { 0 } else { self.next_id - 1 },
            max_job_size: self.max_job_size as u64,
            current_tubes: self.tubes.len() as u64,
            current_connections: self.sessions.len() as u64,
            current_producers: producers,
            current_workers: workers,
            current_waiting: waiting,
            total_connections: self.total_connections,
            draining: self.draining,
        }
    }

    /// Carries out a command of the client on `conn`, at `now`; `seed` breaks
    /// ties between tubes for a reservation. The command is counted for the
    /// statistics.
    pub fn handle_command(&mut self, conn: &mut Connection, cmd: Command, now: u64, seed: u64) -> (r: Action)
        requires
            old(self).wf(),
            old(self).has_session(old(conn).sid),
            old(conn).phase is Command,
        ensures
            final(self).wf(),
            final(self).has_session(final(conn).sid),
            final(conn).sid == old(conn).sid,
            command_reply(*old(self), *final(self), old(conn).sid, cmd, now, r, final(conn).phase),
    {
        let k = cmd.verb().index();
        let ghost a = *self;
        self.cmd_counts.set(k, bump(self.cmd_counts[k]));
        let ghost a1 = *self;
        proof {
            Server::lemma_wf_frame(a, a1);
        }
        let ghost c = cmd;
        let r = self.dispatch(conn, cmd, now, seed);
        proof {
            lemma_command_reply_transfer(a, a1, *self, conn.sid, c, now, r, conn.phase);
        }
        r
    }

    /// Carries out a command, as `handle_command` does, without counting it.
    #[verifier::rlimit(100)]
    fn dispatch(&mut self, conn: &mut Connection, cmd: Command, now: u64, seed: u64) -> (r: Action)
        requires
            old(self).wf(),
            old(self).has_session(old(conn).sid),
            old(conn).phase is Command,
        ensures
            final(self).wf(),
            final(self).has_session(final(conn).sid),
            final(conn).sid == old(conn).sid,
            command_reply(*old(self), *final(self), old(conn).sid, cmd, now, r, final(conn).phase),
    {
        let sid = conn.sid;
        let ghost a = *self;
        match cmd {
            Command::Put { pri, delay, ttr, n_bytes } => {
                conn.phase = Phase::PutBody { pri, delay, ttr, n_bytes, body: Vec::new() };
                Action::Nothing
            },
            Command::Use { tube } => {
                self.use_tube(sid, tube.as_slice());
                Action::Send(one(Response::Using { tube }))
            },
            Command::Reserve => {
                conn.phase = Phase::Waiting { until: None };
                self.resume_reserve(conn, now, seed)
            },
            Command::ReserveWithTimeout { timeout } => {
                proof {
                    if timeout > 0 {
                        assert(timeout as int * 1000 >= 1000) by (nonlinear_arith)
                            requires
                                timeout > 0,
                        ;
                    }
                    assert((now >= later(now, timeout)) == !(timeout > 0 && now < u64::MAX));
                }
                conn.phase = Phase::Waiting { until: Some(add_secs(now, timeout)) };
                self.resume_reserve(conn, now, seed)
            },
            Command::ReserveJob { id } => {
                if self.reserve_by_id(sid, id, now) {
                    let ghost m = *self;
                    proof {
                        assert(m.has_job(id));
                    }
                    self.set_flags(sid, false, false, true);
                    proof {
                        assert(self.jobs@ == m.jobs@);
                        assert(self.has_job(id));
                        assert(self.job(id) == m.job(id));
                        assert(reserved_by(self.job(id), sid));
                    }
                    match self.peek(id) {
                        Some(j) => {
                            let v = job_responses(true, j);
                            proof {
                                assert(j.data@ == a.job(id).data@);
                                assert(sends_job(Action::Send(v), true, id, a.job(id).data@));
                            }
                            Action::Send(v)
                        },
                        None => Action::Send(one(Response::InternalError)),
                    }
                } else {
                    Action::Send(one(Response::NotFound))
                }
            },
            Command::Release { id, pri, delay } => {
                let ok = self.release(sid, id, pri, delay, now);
                Action::Send(one(if ok { Response::Released } else { Response::NotFound }))
            },
            Command::Delete { id } => {
                let ok = self.delete(sid, id);
                proof {
                    if ok {
                        assert(self.has_session(sid) == a.has_session(sid));
                    }
                }
                Action::Send(one(if ok { Response::Deleted } else { Response::NotFound }))
            },
            Command::Bury { id, pri } => {
                let ok = self.bury(sid, id, pri);
                Action::Send(one(if ok { Response::Buried } else { Response::NotFound }))
            },
            Command::Touch { id } => {
                let ok = self.touch(sid, id, now);
                Action::Send(one(if ok { Response::Touched } else { Response::NotFound }))
            },
            Command::Watch { tube } => {
                let count = self.watch(sid, tube.as_slice());
                Action::Send(one(Response::Watching { count }))
            },
            Command::Ignore { tube } => {
                match self.ignore(sid, tube.as_slice()) {
                    Some(count) => Action::Send(one(Response::Watching { count })),
                    None => Action::Send(one(Response::NotIgnored)),
                }
            },
            Command::Peek { id } => {
                match self.peek(id) {
                    Some(j) => Action::Send(job_responses(false, j)),
                    None => Action::Send(one(Response::NotFound)),
                }
            },
            Command::PeekReady => {
                let found = self.peek_ready(sid);
                let r = self.send_found(found);
                proof {
                    if let Some(id) = found {
                        assert(first_ready_in(*self, self.session(sid).used@, id));
                        assert(sends_job(r, false, id, self.job(id).data@));
                    }
                }
                r
            },
            Command::PeekDelayed => {
                let found = self.peek_delayed(sid);
                let r = self.send_found(found);
                proof {
                    if let Some(id) = found {
                        assert(first_in_class_of(*self, self.session(sid).used@, false, id));
                        assert(sends_job(r, false, id, self.job(id).data@));
                    }
                }
                r
            },
            Command::PeekBuried => {
                let found = self.peek_buried(sid);
                let r = self.send_found(found);
                proof {
                    if let Some(id) = found {
                        assert(first_in_class_of(*self, self.session(sid).used@, true, id));
                        assert(sends_job(r, false, id, self.job(id).data@));
                    }
                }
                r
            },
            Command::Kick { bound } => {
                let kicked = self.kick(sid, bound);
                proof {
                    assert(self.has_session(sid));
                }
                Action::Send(one(Response::KickedCount { count: kicked.len() as u64 }))
            },
            Command::KickJob { id } => {
                let ok = self.kick_job(id);
                Action::Send(one(if ok { Response::Kicked } else { Response::NotFound }))
            },
            Command::StatsJob { id } => {
                match self.job_stats(id, now) {
                    Some(st) => Action::SendJobStats(st),
                    None => Action::Send(one(Response::NotFound)),
                }
            },
            Command::StatsTube { tube } => {
                match self.tube_stats(tube.as_slice(), now) {
                    Some(ts) => {
                        let left = match self.find_tube(tube.as_slice()) {
                            Some(t) => match self.tubes[t].pause_until {
                                Some(p) => secs_until(now, p),
                                None => 0,
                            },
                            None => 0,
                        };
                        Action::SendTubeStats(TubeStatsResp { name: tube, ts, pause_time_left: left })
                    },
                    None => Action::Send(one(Response::NotFound)),
                }
            },
            Command::StatsServer => Action::SendServerStats(self.server_stats()),
            Command::ListTubes => {
                let names = self.tube_names();
                proof {
                    assert(words_view(names@) =~= tube_names_view(*self));
                    assert(self.tubes@ == a.tubes@);
                }
                names_reply(&names)
            },
            Command::ListTubeUsed => {
                let s = match self.find_session(sid) {
                    Some(s) => s,
                    None => return Action::Send(one(Response::InternalError)),
                };
                proof {
                    assert(self.sessions@ == a.sessions@);
                }
                Action::Send(one(Response::Using { tube: copy_bytes(self.sessions[s].used.as_slice()) }))
            },
            Command::ListTubesWatched => {
                let names = self.watched_names(sid);
                proof {
                    assert(words_view(names@) =~= words_view(a.session(sid).watched@));
                }
                names_reply(&names)
            },
            Command::Quit => Action::Close,
            Command::PauseTube { tube, delay } => {
                let ok = self.pause_tube(tube.as_slice(), delay, now);
                Action::Send(one(if ok { Response::Paused } else { Response::NotFound }))
            },
        }
    }

    /// `FOUND` and the job, or `NOT_FOUND`.
    fn send_found(&self, found: Option<u64>) -> (r: Action)
        requires
            self.jobs_wf(),
        ensures
            found is None ==> sends_one(r, Response::NotFound),
            found matches Some(id) ==> self.has_job(id) ==> sends_job(r, false, id, self.job(id).data@),
    {
        match found {
            Some(id) => match self.peek(id) {
                Some(j) => Action::Send(job_responses(false, j)),
                None => Action::Send(one(Response::NotFound)),
            },
            None => Action::Send(one(Response::NotFound)),
        }
    }

    /// Handles one event that the decoder read for `conn`, at `now`.
    pub fn handle_event(&mut self, conn: &mut Connection, ev: BeanstalkClientEvent, now: u64, seed: u64) -> (r: Action)
        requires
            old(self).wf(),
            old(self).has_session(old(conn).sid),
        ensures
            final(self).wf(),
            final(self).has_session(final(conn).sid),
            final(conn).sid == old(conn).sid,
            match ev {
                BeanstalkClientEvent::Command(cmd) => if old(conn).phase is Command {
                    command_reply(*old(self), *final(self), old(conn).sid, cmd, now, r, final(conn).phase)
                } else {
                    sends_one(r, Response::BadFormat) && *final(self) == *old(self)
                },
                BeanstalkClientEvent::PutChunk(data) => *final(self) == *old(self) && match old(conn).phase {
                    Phase::PutBody { n_bytes, body, pri, delay, ttr } => r is Nothing && collected(
                        final(conn).phase,
                        pri,
                        delay,
                        ttr,
                        n_bytes,
                        if n_bytes <= old(self).max_job_size {
                            body@ + data@
                        } else {
                            body@
                        },
                    ),
                    _ => sends_one(r, Response::BadFormat),
                },
                BeanstalkClientEvent::PutEnd => match old(conn).phase {
                    Phase::PutBody { n_bytes, body, pri, delay, ttr } => {
                        let a = *old(self);
                        let sid = old(conn).sid;
                        let used = a.session(sid).used@;
                        let b = *final(self);
                        &&& final(conn).phase is Command
                        &&& n_bytes > a.max_job_size ==> sends_one(r, Response::JobTooBig) && b == a
                        &&& n_bytes <= a.max_job_size && body@.len() <= a.max_job_size && !a.draining && a.next_id
                            < u64::MAX ==> {
                            &&& sends_one(r, Response::Inserted { id: a.next_id })
                            &&& b.has_job(a.next_id)
                            &&& b.job(a.next_id).tube@ == used
                            &&& b.job(a.next_id).data@ == body@
                            &&& b.job(a.next_id).pri == Pri(pri)
                            &&& b.job(a.next_id).ttr == (if ttr == 0 { 1 } else { ttr })
                            &&& b.job(a.next_id).state == (if delay == 0 {
                                JobState::Ready { pos: a.tube(used).ready_sn }
                            } else {
                                JobState::Delayed { until: later(now, delay) }
                            })
                            &&& b.next_id == a.next_id + 1
                            &&& forall|x: u64| x != a.next_id ==> #[trigger] b.has_job(x) == a.has_job(x)
                            &&& forall|x: u64| x != a.next_id && a.has_job(x) ==> #[trigger] b.job(x) == a.job(x)
                        }
                    },
                    _ => sends_one(r, Response::BadFormat) && *final(self) == *old(self),
                },
                BeanstalkClientEvent::Discarded => r is Nothing && *final(self) == *old(self),
            },
    {
        let mut phase = Phase::Command;
        std::mem::swap(&mut conn.phase, &mut phase);
        match ev {
            BeanstalkClientEvent::Discarded => {
                conn.phase = phase;
                Action::Nothing
            },
            BeanstalkClientEvent::Command(cmd) => {
                match phase {
                    Phase::Command => self.handle_command(conn, cmd, now, seed),
                    _ => {
                        conn.phase = phase;
                        Action::Send(one(Response::BadFormat))
                    },
                }
            },
            BeanstalkClientEvent::PutChunk(data) => {
                match phase {
                    Phase::PutBody { pri, delay, ttr, n_bytes, mut body } => {
                        if n_bytes <= self.max_job_size {
                            crate::encoder::push_slice(&mut body, data.as_slice());
                        }
                        conn.phase = Phase::PutBody { pri, delay, ttr, n_bytes, body };
                        Action::Nothing
                    },
                    _ => {
                        conn.phase = phase;
                        Action::Send(one(Response::BadFormat))
                    },
                }
            },
            BeanstalkClientEvent::PutEnd => {
                match phase {
                    Phase::PutBody { pri, delay, ttr, n_bytes, body } => {
                        if n_bytes > self.max_job_size {
                            return Action::Send(one(Response::JobTooBig));
                        }
                        let sid = conn.sid;
                        let ghost a = *self;
                        match self.put(sid, pri, delay, ttr, body, now) {
                            Ok(id) => {
                                let ghost m = *self;
                                self.set_flags(sid, false, true, false);
                                proof {
                                    assert(self.jobs@ == m.jobs@);
                                    Server::lemma_same_state_views_jobs(m, *self);
                                    assert forall|x: u64| x != id implies #[trigger] self.has_job(x) == a.has_job(x) by {
                                        assert(m.has_job(x) == a.has_job(x));
                                    }
                                    assert forall|x: u64| x != id && a.has_job(x) implies #[trigger] self.job(x) == a.job(x) by {
                                        assert(m.job(x) == a.job(x));
                                    }
                                }
                                Action::Send(one(Response::Inserted { id }))
                            },
                            Err(e) => Action::Send(one(e)),
                        }
                    },
                    _ => {
                        conn.phase = phase;
                        Action::Send(one(Response::BadFormat))
                    },
                }
            },
        }
    }

    /// Tries again the reservation that `conn` waits for.
    pub fn resume_reserve(&mut self, conn: &mut Connection, now: u64, seed: u64) -> (r: Action)
        requires
            old(self).wf(),
            old(self).has_session(old(conn).sid),
        ensures
            final(self).wf(),
            final(self).has_session(final(conn).sid),
            final(conn).sid == old(conn).sid,
            r is Wait ==> final(conn).phase is Waiting,
            !(old(conn).phase is Waiting) ==> sends_one(r, Response::BadFormat),
            match old(conn).phase {
                Phase::Waiting { until } => {
                    &&& reserve_reply(*old(self), *final(self), old(conn).sid, now, r, !timed_out(until, now))
                    &&& r is Wait || final(conn).phase is Command
                },
                _ => true,
            },
    {
        let until = match conn.phase {
            Phase::Waiting { until } => until,
            _ => return Action::Send(one(Response::BadFormat)),
        };
        let sid = conn.sid;
        let ghost a = *self;
        let res = self.reserve(sid, now, seed);
        let ghost m = *self;
        match res {
            Reservation::Reserved(id) => {
                proof {
                    assert(a.has_job(id) && a.reservable(sid, now, a.job(id)));
                    assert(m.has_job(id));
                }
                self.set_flags(sid, false, false, true);
                conn.phase = Phase::Command;
                proof {
                    assert(self.jobs@ == m.jobs@);
                    assert(self.has_job(id));
                    assert(self.job(id) == m.job(id));
                    assert(reserved_by(self.job(id), sid));
                }
                match self.peek(id) {
                    Some(j) => {
                        let v = job_responses(true, j);
                        proof {
                            assert(j.data@ == a.job(id).data@);
                            assert(sends_job(Action::Send(v), true, id, a.job(id).data@));
                        }
                        Action::Send(v)
                    },
                    None => Action::Send(one(Response::InternalError)),
                }
            },
            Reservation::DeadlineSoon => {
                self.set_flags(sid, false, false, true);
                conn.phase = Phase::Command;
                Action::Send(one(Response::DeadlineSoon))
            },
            Reservation::Wait => {
                let timed_out = match until {
                    Some(t) => now >= t,
                    None => false,
                };
                if timed_out {
                    self.set_flags(sid, false, false, true);
                    conn.phase = Phase::Command;
                    Action::Send(one(Response::TimedOut))
                } else {
                    self.set_flags(sid, true, false, true);
                    Action::Wait
                }
            },
        }
    }
}

} // verus!
