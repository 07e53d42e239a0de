//! The framing decoder for the byte stream that a client sends.
//!
//! A client that sends a line longer than the protocol allows, or a job body
//! not followed by CRLF, gets an error; the connection is then expected to be
//! closed rather than resynchronised.
use vstd::prelude::*;

use crate::parser::{parse_command, parse_line};
use crate::protocol::{BeanstalkClientEvent, Command, CommandModel, EventModel, Response};

verus! {

/// The longest command line, CRLF included.
pub const MAX_LINE: usize = 224;

pub open spec fn is_crlf_at(s: Seq<u8>, i: int) -> bool {
    0 <= i && i + 1 < s.len() && s[i] == 13 && s[i + 1] == 10
}

/// `i` is the first CRLF of `s`, and both its bytes lie before `bound`.
pub open spec fn first_crlf_within(s: Seq<u8>, bound: int, i: int) -> bool {
    &&& is_crlf_at(s, i)
    &&& i + 1 < bound
    &&& forall|k: int| 0 <= k < i ==> !is_crlf_at(s, k)
}

/// No CRLF of `s` lies wholly before `bound`.
pub open spec fn no_crlf_within(s: Seq<u8>, bound: int) -> bool {
    forall|k: int| 0 <= k && k + 1 < bound ==> !is_crlf_at(s, k)
}

proof fn lemma_first_crlf_unique(s: Seq<u8>, bound: int, i: int, j: int)
    requires
        first_crlf_within(s, bound, i),
        first_crlf_within(s, bound, j),
    ensures
        i == j,
{
}

/// Where the decoder stands in the stream.
#[derive(Clone, Copy, Debug, PartialEq, Eq, Structural, Default)]
pub enum Decoder {
    /// Waiting for a command line.
    #[default]
    ParseCommand,
    /// Inside the body of a `put`, with `remaining` bytes still to come
    /// before its CRLF.
    ParseJob { remaining: usize },
    /// Dropping input up to the next CRLF.
    DiscardToNewline,
}

/// A client error: the response to send before closing the connection.
#[derive(Clone, Debug, PartialEq, Eq)]
pub enum Error {
    Client(Response),
}

/// Every event the decoder emits uses up input, so a reader never spins.
pub proof fn lemma_decode_progress(d: Decoder, s: Seq<u8>)
    ensures
        decode_step(d, s).2 matches Ok(Some(_)) ==> decode_step(d, s).1.len() < s.len(),
{
    if let Decoder::ParseCommand = d {
        if exists|i: int| first_crlf_within(s, MAX_LINE as int, i) {
            let i = choose|i: int| first_crlf_within(s, MAX_LINE as int, i);
            assert(0 <= i);
        }
    }
    if let Decoder::DiscardToNewline = d {
        if s.len() > 0 && exists|i: int| first_crlf_within(s, s.len() as int, i) {
            let i = choose|i: int| first_crlf_within(s, s.len() as int, i);
            assert(0 <= i);
        }
    }
}

/// One step of the decoder on the buffered input `s`: the next state, the
/// input left over, and the event read (`Ok(None)` when more input is needed)
/// or the response owed to a client error.
pub open spec fn decode_step(d: Decoder, s: Seq<u8>) -> (Decoder, Seq<u8>, Result<Option<EventModel>, Response>) {
    match d {
        Decoder::ParseCommand => {
            if exists|i: int| first_crlf_within(s, MAX_LINE as int, i) {
                let i = choose|i: int| first_crlf_within(s, MAX_LINE as int, i);
                let rest = s.subrange(i + 2, s.len() as int);
                match parse_line(s.subrange(0, i)) {
                    Ok(c) => {
                        let next = match c {
                            CommandModel::Put { n_bytes, .. } => Decoder::ParseJob { remaining: n_bytes as usize },
                            _ => Decoder::ParseCommand,
                        };
                        (next, rest, Ok(Some(EventModel::Command(c))))
                    },
                    Err(e) => (Decoder::ParseCommand, rest, Err(e)),
                }
            } else if s.len() >= MAX_LINE {
                (Decoder::DiscardToNewline, s, Err(Response::BadFormat))
            } else {
                (Decoder::ParseCommand, s, Ok(None))
            }
        },
        Decoder::ParseJob { remaining } => {
            if remaining == 0 {
                if s.len() < 2 {
                    (d, s, Ok(None))
                } else if s[0] == 13 && s[1] == 10 {
                    (Decoder::ParseCommand, s.subrange(2, s.len() as int), Ok(Some(EventModel::PutEnd)))
                } else {
                    (Decoder::DiscardToNewline, s, Err(Response::ExpectedCRLF))
                }
            } else if s.len() == 0 {
                (d, s, Ok(None))
            } else {
                let take = if remaining < s.len() { remaining as int } else { s.len() as int };
                (
                    Decoder::ParseJob { remaining: (remaining - take) as usize },
                    s.subrange(take, s.len() as int),
                    Ok(Some(EventModel::PutChunk(s.subrange(0, take)))),
                )
            }
        },
        Decoder::DiscardToNewline => {
            if s.len() == 0 {
                (d, s, Ok(None))
            } else if exists|i: int| first_crlf_within(s, s.len() as int, i) {
                let i = choose|i: int| first_crlf_within(s, s.len() as int, i);
                (Decoder::ParseCommand, s.subrange(i + 2, s.len() as int), Ok(Some(EventModel::Discarded)))
            } else if s.len() == 1 {
                (d, s, Ok(None))
            } else {
                (Decoder::DiscardToNewline, s.subrange(s.len() - 1, s.len() as int), Ok(Some(EventModel::Discarded)))
            }
        },
    }
}

pub open spec fn outcome_view(r: Result<Option<BeanstalkClientEvent>, Error>) -> Result<Option<EventModel>, Response> {
    match r {
        Ok(Some(e)) => Ok(Some(e@)),
        Ok(None) => Ok(None),
        Err(Error::Client(resp)) => Err(resp),
    }
}

/// Finds the first CRLF that lies wholly within the first `bound` bytes.
pub fn find_crlf(s: &[u8], bound: usize) -> (r: Option<usize>)
    ensures
        match r {
            Some(i) => first_crlf_within(s@, bound as int, i as int),
            None => no_crlf_within(s@, bound as int),
        },
{
    let mut i: usize = 0;
    while i < s.len() && s.len() - i >= 2 && i < bound && bound - i >= 2
        invariant
            i <= s.len(),
            forall|k: int| 0 <= k < i ==> !is_crlf_at(s@, k),
        decreases s.len() - i,
    {
        if s[i] == 13 && s[i + 1] == 10 {
            return Some(i);
        }
        i += 1;
    }
    None
}

/// Removes the first `n` bytes of `buf` and returns them.
fn take_front(buf: &mut Vec<u8>, n: usize) -> (r: Vec<u8>)
    requires
        n <= old(buf).len(),
    ensures
        r@ == old(buf)@.subrange(0, n as int),
        final(buf)@ == old(buf)@.subrange(n as int, old(buf)@.len() as int),
{
    let mut rest = buf.split_off(n);
    std::mem::swap(buf, &mut rest);
    rest
}

impl Decoder {
    pub fn new() -> (r: Decoder)
        ensures
            r == Decoder::ParseCommand,
    {
        Decoder::ParseCommand
    }

    /// Reads the next event from the front of `src`, removing the bytes it
    /// used.
    pub fn decode(&mut self, src: &mut Vec<u8>) -> (r: Result<Option<BeanstalkClientEvent>, Error>)
        ensures
            decode_step(*old(self), old(src)@) == (*final(self), final(src)@, outcome_view(r)),
            r matches Ok(Some(_)) ==> final(src)@.len() < old(src)@.len(),
    {
        let ghost s = src@;
        match *self {
            Decoder::ParseCommand => {
                match find_crlf(src.as_slice(), MAX_LINE) {
                    Some(idx) => {
                        proof {
                            assert forall|j: int| first_crlf_within(s, MAX_LINE as int, j) implies j == idx by {
                                lemma_first_crlf_unique(s, MAX_LINE as int, idx as int, j);
                            }
                        }
                        let line = take_front(src, idx);
                        let _crlf = take_front(src, 2);
                        assert(src@ =~= s.subrange(idx + 2, s.len() as int));
                        match parse_command(line.as_slice()) {
                            Ok(cmd) => {
                                if let Command::Put { n_bytes, .. } = &cmd {
                                    *self = Decoder::ParseJob { remaining: *n_bytes as usize };
                                }
                                Ok(Some(BeanstalkClientEvent::Command(cmd)))
                            },
                            Err(resp) => Err(Error::Client(resp)),
                        }
                    },
                    None => {
                        if src.len() >= MAX_LINE {
                            *self = Decoder::DiscardToNewline;
                            Err(Error::Client(Response::BadFormat))
                        } else {
                            Ok(None)
                        }
                    },
                }
            },
            Decoder::ParseJob { remaining } => {
                if remaining == 0 {
                    if src.len() < 2 {
                        Ok(None)
                    } else if src[0] == 13 && src[1] == 10 {
                        let _crlf = take_front(src, 2);
                        *self = Decoder::ParseCommand;
                        Ok(Some(BeanstalkClientEvent::PutEnd))
                    } else {
                        *self = Decoder::DiscardToNewline;
                        Err(Error::Client(Response::ExpectedCRLF))
                    }
                } else if src.len() == 0 {
                    Ok(None)
                } else {
                    let take = if remaining < src.len() { remaining } else { src.len() };
                    *self = Decoder::ParseJob { remaining: remaining - take };
                    let chunk = take_front(src, take);
                    Ok(Some(BeanstalkClientEvent::PutChunk(chunk)))
                }
            },
            Decoder::DiscardToNewline => {
                if src.len() == 0 {
                    return Ok(None);
                }
                match find_crlf(src.as_slice(), src.len()) {
                    Some(idx) => {
                        proof {
                            assert forall|j: int| first_crlf_within(s, s.len() as int, j) implies j == idx by {
                                lemma_first_crlf_unique(s, s.len() as int, idx as int, j);
                            }
                        }
                        let _dropped = take_front(src, idx + 2);
                        *self = Decoder::ParseCommand;
                    },
                    None => {
                        if src.len() == 1 {
                            return Ok(None);
                        }
                        let n = src.len() - 1;
                        let _dropped = take_front(src, n);
                    },
                }
                Ok(Some(BeanstalkClientEvent::Discarded))
            },
        }
    }
}

} // verus!
