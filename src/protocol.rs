//! The messages of the Beanstalk protocol.
use vstd::prelude::*;

verus! {

/// The keyword that opens a command line.
#[derive(Clone, Copy, Debug, PartialEq, Eq, Structural)]
pub enum Verb {
    Put,
    Reserve,
    ReserveWithTimeout,
    ReserveJob,
    Release,
    Delete,
    Bury,
    Touch,
    Watch,
    Ignore,
    Peek,
    PeekReady,
    PeekDelayed,
    PeekBuried,
    Kick,
    KickJob,
    StatsJob,
    StatsTube,
    StatsServer,
    ListTubes,
    ListTubeUsed,
    ListTubesWatched,
    Quit,
    PauseTube,
    Use,
}

impl Verb {
    /// The keyword as it stands on the wire.
    pub open spec fn spec_name(self) -> Seq<u8> {
        match self {
            Verb::Put => seq![112, 117, 116],  // put
            Verb::Reserve => seq![114, 101, 115, 101, 114, 118, 101],  // reserve
            Verb::ReserveWithTimeout => seq![114, 101, 115, 101, 114, 118, 101, 45, 119, 105, 116, 104, 45, 116, 105, 109, 101, 111, 117, 116],  // reserve-with-timeout
            Verb::ReserveJob => seq![114, 101, 115, 101, 114, 118, 101, 45, 106, 111, 98],  // reserve-job
            Verb::Release => seq![114, 101, 108, 101, 97, 115, 101],  // release
            Verb::Delete => seq![100, 101, 108, 101, 116, 101],  // delete
            Verb::Bury => seq![98, 117, 114, 121],  // bury
            Verb::Touch => seq![116, 111, 117, 99, 104],  // touch
            Verb::Watch => seq![119, 97, 116, 99, 104],  // watch
            Verb::Ignore => seq![105, 103, 110, 111, 114, 101],  // ignore
            Verb::Peek => seq![112, 101, 101, 107],  // peek
            Verb::PeekReady => seq![112, 101, 101, 107, 45, 114, 101, 97, 100, 121],  // peek-ready
            Verb::PeekDelayed => seq![112, 101, 101, 107, 45, 100, 101, 108, 97, 121, 101, 100],  // peek-delayed
            Verb::PeekBuried => seq![112, 101, 101, 107, 45, 98, 117, 114, 105, 101, 100],  // peek-buried
            Verb::Kick => seq![107, 105, 99, 107],  // kick
            Verb::KickJob => seq![107, 105, 99, 107, 45, 106, 111, 98],  // kick-job
            Verb::StatsJob => seq![115, 116, 97, 116, 115, 45, 106, 111, 98],  // stats-job
            Verb::StatsTube => seq![115, 116, 97, 116, 115, 45, 116, 117, 98, 101],  // stats-tube
            Verb::StatsServer => seq![115, 116, 97, 116, 115],  // stats
            Verb::ListTubes => seq![108, 105, 115, 116, 45, 116, 117, 98, 101, 115],  // list-tubes
            Verb::ListTubeUsed => seq![108, 105, 115, 116, 45, 116, 117, 98, 101, 45, 117, 115, 101, 100],  // list-tube-used
            Verb::ListTubesWatched => seq![108, 105, 115, 116, 45, 116, 117, 98, 101, 115, 45, 119, 97, 116, 99, 104, 101, 100],  // list-tubes-watched
            Verb::Quit => seq![113, 117, 105, 116],  // quit
            Verb::PauseTube => seq![112, 97, 117, 115, 101, 45, 116, 117, 98, 101],  // pause-tube
            Verb::Use => seq![117, 115, 101],  // use
        }
    }
}

impl Verb {
    /// The keyword's place in the order above, for per-command counters.
    pub fn index(self) -> (r: usize)
        ensures
            r < 25,
    {
        match self {
            Verb::Put => 0,
            Verb::Reserve => 1,
            Verb::ReserveWithTimeout => 2,
            Verb::ReserveJob => 3,
            Verb::Release => 4,
            Verb::Delete => 5,
            Verb::Bury => 6,
            Verb::Touch => 7,
            Verb::Watch => 8,
            Verb::Ignore => 9,
            Verb::Peek => 10,
            Verb::PeekReady => 11,
            Verb::PeekDelayed => 12,
            Verb::PeekBuried => 13,
            Verb::Kick => 14,
            Verb::KickJob => 15,
            Verb::StatsJob => 16,
            Verb::StatsTube => 17,
            Verb::StatsServer => 18,
            Verb::ListTubes => 19,
            Verb::ListTubeUsed => 20,
            Verb::ListTubesWatched => 21,
            Verb::Quit => 22,
            Verb::PauseTube => 23,
            Verb::Use => 24,
        }
    }
}

impl Command {
    /// The command's keyword.
    pub fn verb(&self) -> (r: Verb)
        ensures
            r == self@.verb(),
    {
        match self {
            Command::Put { .. } => Verb::Put,
            Command::Reserve => Verb::Reserve,
            Command::ReserveWithTimeout { .. } => Verb::ReserveWithTimeout,
            Command::ReserveJob { .. } => Verb::ReserveJob,
            Command::Release { .. } => Verb::Release,
            Command::Delete { .. } => Verb::Delete,
            Command::Bury { .. } => Verb::Bury,
            Command::Touch { .. } => Verb::Touch,
            Command::Watch { .. } => Verb::Watch,
            Command::Ignore { .. } => Verb::Ignore,
            Command::Peek { .. } => Verb::Peek,
            Command::PeekReady => Verb::PeekReady,
            Command::PeekDelayed => Verb::PeekDelayed,
            Command::PeekBuried => Verb::PeekBuried,
            Command::Kick { .. } => Verb::Kick,
            Command::KickJob { .. } => Verb::KickJob,
            Command::StatsJob { .. } => Verb::StatsJob,
            Command::StatsTube { .. } => Verb::StatsTube,
            Command::StatsServer => Verb::StatsServer,
            Command::ListTubes => Verb::ListTubes,
            Command::ListTubeUsed => Verb::ListTubeUsed,
            Command::ListTubesWatched => Verb::ListTubesWatched,
            Command::Quit => Verb::Quit,
            Command::PauseTube { .. } => Verb::PauseTube,
            Command::Use { .. } => Verb::Use,
        }
    }
}

/// A command sent by a client to the server.
#[derive(Clone, Debug, PartialEq, Eq)]
pub enum Command {
    /// Places a job on the used tube; its body of `n_bytes` bytes follows the line.
    Put { pri: u32, delay: u32, ttr: u32, n_bytes: u32 },
    /// Waits for a job from the watched tubes.
    Reserve,
    /// As `Reserve`, but gives up after `timeout` seconds.
    ReserveWithTimeout { timeout: u32 },
    /// Reserves the job with this id if it is ready.
    ReserveJob { id: u64 },
    /// Returns a job reserved by this client to the ready or delayed state.
    Release { id: u64, pri: u32, delay: u32 },
    /// Deletes a job.
    Delete { id: u64 },
    /// Buries a job reserved by this client.
    Bury { id: u64, pri: u32 },
    /// Restarts the time-to-run of a job reserved by this client.
    Touch { id: u64 },
    /// Adds a tube to the watch set.
    Watch { tube: Vec<u8> },
    /// Removes a tube from the watch set.
    Ignore { tube: Vec<u8> },
    /// Shows the job with this id.
    Peek { id: u64 },
    /// Shows the next ready job of the used tube.
    PeekReady,
    /// Shows the next delayed job of the used tube.
    PeekDelayed,
    /// Shows the next buried job of the used tube.
    PeekBuried,
    /// Moves up to `bound` buried (or, if none, delayed) jobs of the used tube to ready.
    Kick { bound: u64 },
    /// Moves one buried or delayed job to ready.
    KickJob { id: u64 },
    /// Statistics of one job.
    StatsJob { id: u64 },
    /// Statistics of one tube.
    StatsTube { tube: Vec<u8> },
    /// Statistics of the server.
    StatsServer,
    /// Names of all tubes.
    ListTubes,
    /// Name of the used tube.
    ListTubeUsed,
    /// Names of the watched tubes.
    ListTubesWatched,
    /// Closes the connection.
    Quit,
    /// Stops reservations from a tube for `delay` seconds.
    PauseTube { tube: Vec<u8>, delay: u32 },
    /// Selects the tube that puts go to.
    Use { tube: Vec<u8> },
}

/// What a command means, with tube names as byte sequences.
pub enum CommandModel {
    Put { pri: u32, delay: u32, ttr: u32, n_bytes: u32 },
    Reserve,
    ReserveWithTimeout { timeout: u32 },
    ReserveJob { id: u64 },
    Release { id: u64, pri: u32, delay: u32 },
    Delete { id: u64 },
    Bury { id: u64, pri: u32 },
    Touch { id: u64 },
    Watch { tube: Seq<u8> },
    Ignore { tube: Seq<u8> },
    Peek { id: u64 },
    PeekReady,
    PeekDelayed,
    PeekBuried,
    Kick { bound: u64 },
    KickJob { id: u64 },
    StatsJob { id: u64 },
    StatsTube { tube: Seq<u8> },
    StatsServer,
    ListTubes,
    ListTubeUsed,
    ListTubesWatched,
    Quit,
    PauseTube { tube: Seq<u8>, delay: u32 },
    Use { tube: Seq<u8> },
}

impl View for Command {
    type V = CommandModel;

    open spec fn view(&self) -> CommandModel {
        match self {
            Command::Put { pri, delay, ttr, n_bytes } => CommandModel::Put { pri: *pri, delay: *delay, ttr: *ttr, n_bytes: *n_bytes },
            Command::Reserve => CommandModel::Reserve,
            Command::ReserveWithTimeout { timeout } => CommandModel::ReserveWithTimeout { timeout: *timeout },
            Command::ReserveJob { id } => CommandModel::ReserveJob { id: *id },
            Command::Release { id, pri, delay } => CommandModel::Release { id: *id, pri: *pri, delay: *delay },
            Command::Delete { id } => CommandModel::Delete { id: *id },
            Command::Bury { id, pri } => CommandModel::Bury { id: *id, pri: *pri },
            Command::Touch { id } => CommandModel::Touch { id: *id },
            Command::Watch { tube } => CommandModel::Watch { tube: tube@ },
            Command::Ignore { tube } => CommandModel::Ignore { tube: tube@ },
            Command::Peek { id } => CommandModel::Peek { id: *id },
            Command::PeekReady => CommandModel::PeekReady,
            Command::PeekDelayed => CommandModel::PeekDelayed,
            Command::PeekBuried => CommandModel::PeekBuried,
            Command::Kick { bound } => CommandModel::Kick { bound: *bound },
            Command::KickJob { id } => CommandModel::KickJob { id: *id },
            Command::StatsJob { id } => CommandModel::StatsJob { id: *id },
            Command::StatsTube { tube } => CommandModel::StatsTube { tube: tube@ },
            Command::StatsServer => CommandModel::StatsServer,
            Command::ListTubes => CommandModel::ListTubes,
            Command::ListTubeUsed => CommandModel::ListTubeUsed,
            Command::ListTubesWatched => CommandModel::ListTubesWatched,
            Command::Quit => CommandModel::Quit,
            Command::PauseTube { tube, delay } => CommandModel::PauseTube { tube: tube@, delay: *delay },
            Command::Use { tube } => CommandModel::Use { tube: tube@ },
        }
    }
}

impl CommandModel {
    /// The keyword of the command.
    pub open spec fn verb(self) -> Verb {
        match self {
            CommandModel::Put { .. } => Verb::Put,
            CommandModel::Reserve => Verb::Reserve,
            CommandModel::ReserveWithTimeout { .. } => Verb::ReserveWithTimeout,
            CommandModel::ReserveJob { .. } => Verb::ReserveJob,
            CommandModel::Release { .. } => Verb::Release,
            CommandModel::Delete { .. } => Verb::Delete,
            CommandModel::Bury { .. } => Verb::Bury,
            CommandModel::Touch { .. } => Verb::Touch,
            CommandModel::Watch { .. } => Verb::Watch,
            CommandModel::Ignore { .. } => Verb::Ignore,
            CommandModel::Peek { .. } => Verb::Peek,
            CommandModel::PeekReady => Verb::PeekReady,
            CommandModel::PeekDelayed => Verb::PeekDelayed,
            CommandModel::PeekBuried => Verb::PeekBuried,
            CommandModel::Kick { .. } => Verb::Kick,
            CommandModel::KickJob { .. } => Verb::KickJob,
            CommandModel::StatsJob { .. } => Verb::StatsJob,
            CommandModel::StatsTube { .. } => Verb::StatsTube,
            CommandModel::StatsServer => Verb::StatsServer,
            CommandModel::ListTubes => Verb::ListTubes,
            CommandModel::ListTubeUsed => Verb::ListTubeUsed,
            CommandModel::ListTubesWatched => Verb::ListTubesWatched,
            CommandModel::Quit => Verb::Quit,
            CommandModel::PauseTube { .. } => Verb::PauseTube,
            CommandModel::Use { .. } => Verb::Use,
        }
    }
}

/// A message sent by the server to a client.
#[derive(Clone, Debug, PartialEq, Eq)]
pub enum Response {
    /// `OUT_OF_MEMORY`: the server cannot take the job for want of memory.
    OutOfMemory,
    /// `INTERNAL_ERROR`: a fault in the server.
    InternalError,
    /// `BAD_FORMAT`: a malformed command line.
    BadFormat,
    /// `UNKNOWN_COMMAND`: a well-formed line with an unknown keyword.
    UnknownCommand,
    /// `INSERTED <id>`: a job was created.
    Inserted { id: u64 },
    /// `BURIED <id>`: a job was created and buried at once.
    BuriedID { id: u64 },
    /// `EXPECTED_CRLF`: a job body was not followed by CRLF.
    ExpectedCRLF,
    /// `JOB_TOO_BIG`: a job body was larger than the server accepts.
    JobTooBig,
    /// `DRAINING`: the server takes no new jobs.
    Draining,
    /// `USING <tube>`: the tube that puts go to.
    Using { tube: Vec<u8> },
    /// `DEADLINE_SOON`: a job reserved by this client is about to time out.
    DeadlineSoon,
    /// `TIMED_OUT`: no job came before the timeout.
    TimedOut,
    /// `RESERVED <id> <n_bytes>`: a job was reserved; its body follows.
    Reserved { id: u64, n_bytes: u32 },
    /// `FOUND <id> <n_bytes>`: a peek found a job; its body follows.
    Found { id: u64, n_bytes: u32 },
    /// Bytes of a job body that follows `RESERVED` or `FOUND`.
    JobChunk(Vec<u8>),
    /// The CRLF that ends a job body.
    JobEnd,
    /// `NOT_FOUND`: no such job or tube, or not in the required state.
    NotFound,
    /// `DELETED`
    Deleted,
    /// `RELEASED`
    Released,
    /// `BURIED`
    Buried,
    /// `TOUCHED`
    Touched,
    /// `WATCHING <count>`: the size of the watch set.
    Watching { count: u32 },
    /// `NOT_IGNORED`: the last watched tube cannot be ignored.
    NotIgnored,
    /// `KICKED <count>`: how many jobs a `kick` moved.
    KickedCount { count: u64 },
    /// `KICKED`: a `kick-job` succeeded.
    Kicked,
    /// `OK <n>` and a YAML document of `n` bytes.
    OkData { data: Vec<u8> },
    /// `PAUSED`
    Paused,
}

/// An event that the decoder reads from a client.
#[derive(Clone, Debug, PartialEq, Eq)]
pub enum BeanstalkClientEvent {
    /// A command line.
    Command(Command),
    /// Bytes of the body of a `put`.
    PutChunk(Vec<u8>),
    /// The end of the body of a `put`.
    PutEnd,
    /// Input was dropped after a client error.
    Discarded,
}

/// What an event means, with bytes as sequences.
pub enum EventModel {
    Command(CommandModel),
    PutChunk(Seq<u8>),
    PutEnd,
    Discarded,
}

impl View for BeanstalkClientEvent {
    type V = EventModel;

    open spec fn view(&self) -> EventModel {
        match self {
            BeanstalkClientEvent::Command(c) => EventModel::Command(c@),
            BeanstalkClientEvent::PutChunk(b) => EventModel::PutChunk(b@),
            BeanstalkClientEvent::PutEnd => EventModel::PutEnd,
            BeanstalkClientEvent::Discarded => EventModel::Discarded,
        }
    }
}

/// Statistics of one job, as `stats-job` reports them.
#[derive(Clone, Debug, PartialEq, Eq)]
pub struct JobStats {
    pub id: u64,
    pub tube: Vec<u8>,
    /// `ready`, `delayed`, `reserved` or `buried`
    pub state: Vec<u8>,
    pub pri: u32,
    /// seconds since creation
    pub age: u32,
    /// seconds until a delayed job becomes ready
    pub delay: u32,
    pub ttr: u32,
    /// seconds until a reserved job times out
    pub time_left: u32,
    /// earliest journal file holding the job; 0 without a journal
    pub file: u32,
    pub reserves: u64,
    pub timeouts: u64,
    pub releases: u64,
    pub buries: u64,
    pub kicks: u64,
}

/// Statistics of one tube, as `stats-tube` reports them.
#[derive(Clone, Debug, PartialEq, Eq)]
pub struct TubeStatsResp {
    pub name: Vec<u8>,
    pub ts: crate::tube::TubeStats,
    /// seconds until the tube's pause ends
    pub pause_time_left: u32,
}

/// Statistics of the broker, as `stats` reports them. Fields about the
/// process and the machine are left for the host to fill in.
#[derive(Clone, Debug, PartialEq, Eq, Default)]
pub struct ServerStats {
    pub current_jobs_urgent: u64,
    pub current_jobs_ready: u64,
    pub current_jobs_reserved: u64,
    pub current_jobs_delayed: u64,
    pub current_jobs_buried: u64,
    /// how many times each command was received, by the order of `Verb`
    pub cmd_counts: Vec<u64>,
    pub job_timeouts: u64,
    pub total_jobs: u64,
    pub max_job_size: u64,
    pub current_tubes: u64,
    pub current_connections: u64,
    pub current_producers: u64,
    pub current_workers: u64,
    pub current_waiting: u64,
    pub total_connections: u64,
    pub draining: bool,
}

} // verus!
