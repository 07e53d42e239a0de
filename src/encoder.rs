//! The encoder for the responses that the server sends.
use vstd::prelude::*;

use crate::numbers::{decimal, push_decimal};
use crate::protocol::Response;

verus! {

pub open spec fn crlf() -> Seq<u8> {
    seq![13, 10]
}

/// `word`, a space, the numeral of `n`, CRLF.
pub open spec fn word_and_number(word: Seq<u8>, n: nat) -> Seq<u8> {
    word + seq![32] + decimal(n) + crlf()
}

/// The bytes that stand for a response on the wire.
pub open spec fn response_bytes(r: Response) -> Seq<u8> {
    match r {
        Response::OutOfMemory => seq![79, 85, 84, 95, 79, 70, 95, 77, 69, 77, 79, 82, 89] + crlf(),  // OUT_OF_MEMORY
        Response::InternalError => seq![73, 78, 84, 69, 82, 78, 65, 76, 95, 69, 82, 82, 79, 82] + crlf(),  // INTERNAL_ERROR
        Response::BadFormat => seq![66, 65, 68, 95, 70, 79, 82, 77, 65, 84] + crlf(),  // BAD_FORMAT
        Response::UnknownCommand => seq![85, 78, 75, 78, 79, 87, 78, 95, 67, 79, 77, 77, 65, 78, 68] + crlf(),  // UNKNOWN_COMMAND
        Response::ExpectedCRLF => seq![69, 88, 80, 69, 67, 84, 69, 68, 95, 67, 82, 76, 70] + crlf(),  // EXPECTED_CRLF
        Response::JobTooBig => seq![74, 79, 66, 95, 84, 79, 79, 95, 66, 73, 71] + crlf(),  // JOB_TOO_BIG
        Response::Draining => seq![68, 82, 65, 73, 78, 73, 78, 71] + crlf(),  // DRAINING
        Response::DeadlineSoon => seq![68, 69, 65, 68, 76, 73, 78, 69, 95, 83, 79, 79, 78] + crlf(),  // DEADLINE_SOON
        Response::TimedOut => seq![84, 73, 77, 69, 68, 95, 79, 85, 84] + crlf(),  // TIMED_OUT
        Response::NotFound => seq![78, 79, 84, 95, 70, 79, 85, 78, 68] + crlf(),  // NOT_FOUND
        Response::Deleted => seq![68, 69, 76, 69, 84, 69, 68] + crlf(),  // DELETED
        Response::Released => seq![82, 69, 76, 69, 65, 83, 69, 68] + crlf(),  // RELEASED
        Response::Buried => seq![66, 85, 82, 73, 69, 68] + crlf(),  // BURIED
        Response::Touched => seq![84, 79, 85, 67, 72, 69, 68] + crlf(),  // TOUCHED
        Response::NotIgnored => seq![78, 79, 84, 95, 73, 71, 78, 79, 82, 69, 68] + crlf(),  // NOT_IGNORED
        Response::Kicked => seq![75, 73, 67, 75, 69, 68] + crlf(),  // KICKED
        Response::Paused => seq![80, 65, 85, 83, 69, 68] + crlf(),  // PAUSED
        Response::Inserted { id } => word_and_number(seq![73, 78, 83, 69, 82, 84, 69, 68], id as nat),  // INSERTED
        Response::BuriedID { id } => word_and_number(seq![66, 85, 82, 73, 69, 68], id as nat),  // BURIED
        Response::Watching { count } => word_and_number(seq![87, 65, 84, 67, 72, 73, 78, 71], count as nat),  // WATCHING
        Response::KickedCount { count } => word_and_number(seq![75, 73, 67, 75, 69, 68], count as nat),  // KICKED
        Response::Reserved { id, n_bytes } => seq![82, 69, 83, 69, 82, 86, 69, 68, 32] + decimal(id as nat) + seq![32] + decimal(n_bytes as nat) + crlf(),  // RESERVED
        Response::Found { id, n_bytes } => seq![70, 79, 85, 78, 68, 32] + decimal(id as nat) + seq![32] + decimal(n_bytes as nat) + crlf(),  // FOUND
        Response::Using { tube } => seq![85, 83, 73, 78, 71, 32] + tube@ + crlf(),
        Response::JobChunk(data) => data@,
        Response::JobEnd => crlf(),
        Response::OkData { data } => seq![79, 75, 32] + decimal(data@.len()) + crlf() + data@ + crlf(),
    }
}

/// Appends the bytes of `src`.
pub fn push_slice(dst: &mut Vec<u8>, src: &[u8])
    ensures
        final(dst)@ == old(dst)@ + src@,
{
    let ghost start = dst@;
    let mut i: usize = 0;
    while i < src.len()
        invariant
            0 <= i <= src.len(),
            dst@ == start + src@.subrange(0, i as int),
        decreases src.len() - i,
    {
        dst.push(src[i]);
        i += 1;
        assert(dst@ =~= start + src@.subrange(0, i as int));
    }
    assert(src@.subrange(0, src@.len() as int) =~= src@);
}

fn push_word_and_number(dst: &mut Vec<u8>, word: &[u8], n: u64)
    ensures
        final(dst)@ == old(dst)@ + word_and_number(word@, n as nat),
{
    push_slice(dst, word);
    dst.push(32);
    push_decimal(n, dst);
    push_slice(dst, &[13, 10]);
    assert(final(dst)@ =~= old(dst)@ + word_and_number(word@, n as nat));
}

/// Writes responses; it holds no state.
#[derive(Clone, Copy, Debug, Default)]
pub struct Encoder {}

impl Encoder {
    pub fn new() -> Encoder {
        Encoder {  }
    }

    /// Appends the wire form of `item` to `dst`.
    pub fn encode(&self, item: Response, dst: &mut Vec<u8>)
        ensures
            final(dst)@ == old(dst)@ + response_bytes(item),
    {
        let ghost d0 = dst@;
        match item {
            Response::OutOfMemory => {
                push_slice(dst, &[79, 85, 84, 95, 79, 70, 95, 77, 69, 77, 79, 82, 89, 13, 10]);
                assert(dst@ =~= d0 + response_bytes(item));
            },
            Response::InternalError => {
                push_slice(dst, &[73, 78, 84, 69, 82, 78, 65, 76, 95, 69, 82, 82, 79, 82, 13, 10]);
                assert(dst@ =~= d0 + response_bytes(item));
            },
            Response::BadFormat => {
                push_slice(dst, &[66, 65, 68, 95, 70, 79, 82, 77, 65, 84, 13, 10]);
                assert(dst@ =~= d0 + response_bytes(item));
            },
            Response::UnknownCommand => {
                push_slice(dst, &[85, 78, 75, 78, 79, 87, 78, 95, 67, 79, 77, 77, 65, 78, 68, 13, 10]);
                assert(dst@ =~= d0 + response_bytes(item));
            },
            Response::ExpectedCRLF => {
                push_slice(dst, &[69, 88, 80, 69, 67, 84, 69, 68, 95, 67, 82, 76, 70, 13, 10]);
                assert(dst@ =~= d0 + response_bytes(item));
            },
            Response::JobTooBig => {
                push_slice(dst, &[74, 79, 66, 95, 84, 79, 79, 95, 66, 73, 71, 13, 10]);
                assert(dst@ =~= d0 + response_bytes(item));
            },
            Response::Draining => {
                push_slice(dst, &[68, 82, 65, 73, 78, 73, 78, 71, 13, 10]);
                assert(dst@ =~= d0 + response_bytes(item));
            },
            Response::DeadlineSoon => {
                push_slice(dst, &[68, 69, 65, 68, 76, 73, 78, 69, 95, 83, 79, 79, 78, 13, 10]);
                assert(dst@ =~= d0 + response_bytes(item));
            },
            Response::TimedOut => {
                push_slice(dst, &[84, 73, 77, 69, 68, 95, 79, 85, 84, 13, 10]);
                assert(dst@ =~= d0 + response_bytes(item));
            },
            Response::NotFound => {
                push_slice(dst, &[78, 79, 84, 95, 70, 79, 85, 78, 68, 13, 10]);
                assert(dst@ =~= d0 + response_bytes(item));
            },
            Response::Deleted => {
                push_slice(dst, &[68, 69, 76, 69, 84, 69, 68, 13, 10]);
                assert(dst@ =~= d0 + response_bytes(item));
            },
            Response::Released => {
                push_slice(dst, &[82, 69, 76, 69, 65, 83, 69, 68, 13, 10]);
                assert(dst@ =~= d0 + response_bytes(item));
            },
            Response::Buried => {
                push_slice(dst, &[66, 85, 82, 73, 69, 68, 13, 10]);
                assert(dst@ =~= d0 + response_bytes(item));
            },
            Response::Touched => {
                push_slice(dst, &[84, 79, 85, 67, 72, 69, 68, 13, 10]);
                assert(dst@ =~= d0 + response_bytes(item));
            },
            Response::NotIgnored => {
                push_slice(dst, &[78, 79, 84, 95, 73, 71, 78, 79, 82, 69, 68, 13, 10]);
                assert(dst@ =~= d0 + response_bytes(item));
            },
            Response::Kicked => {
                push_slice(dst, &[75, 73, 67, 75, 69, 68, 13, 10]);
                assert(dst@ =~= d0 + response_bytes(item));
            },
            Response::Paused => {
                push_slice(dst, &[80, 65, 85, 83, 69, 68, 13, 10]);
                assert(dst@ =~= d0 + response_bytes(item));
            },
            Response::Inserted { id } => push_word_and_number(dst, &[73, 78, 83, 69, 82, 84, 69, 68], id as u64),
            Response::BuriedID { id } => push_word_and_number(dst, &[66, 85, 82, 73, 69, 68], id as u64),
            Response::Watching { count } => push_word_and_number(dst, &[87, 65, 84, 67, 72, 73, 78, 71], count as u64),
            Response::KickedCount { count } => push_word_and_number(dst, &[75, 73, 67, 75, 69, 68], count as u64),
            Response::Reserved { id, n_bytes } => {
                push_slice(dst, &[82, 69, 83, 69, 82, 86, 69, 68, 32]);
                push_decimal(id, dst);
                dst.push(32);
                push_word_and_number_tail(dst, n_bytes as u64);
                assert(dst@ =~= d0 + response_bytes(item));
            },
            Response::Found { id, n_bytes } => {
                push_slice(dst, &[70, 79, 85, 78, 68, 32]);
                push_decimal(id, dst);
                dst.push(32);
                push_word_and_number_tail(dst, n_bytes as u64);
                assert(dst@ =~= d0 + response_bytes(item));
            },
            Response::Using { tube } => {
                push_slice(dst, &[85, 83, 73, 78, 71, 32]);
                push_slice(dst, tube.as_slice());
                push_slice(dst, &[13, 10]);
                assert(dst@ =~= d0 + response_bytes(item));
            },
            Response::JobChunk(data) => push_slice(dst, data.as_slice()),
            Response::JobEnd => push_slice(dst, &[13, 10]),
            Response::OkData { data } => {
                push_slice(dst, &[79, 75, 32]);
                push_decimal(data.len() as u64, dst);
                push_slice(dst, &[13, 10]);
                push_slice(dst, data.as_slice());
                push_slice(dst, &[13, 10]);
                assert(dst@ =~= d0 + response_bytes(item));
            },
        }
    }
}

/// Appends the numeral of `n` and CRLF.
fn push_word_and_number_tail(dst: &mut Vec<u8>, n: u64)
    ensures
        final(dst)@ == old(dst)@ + decimal(n as nat) + crlf(),
{
    push_decimal(n, dst);
    push_slice(dst, &[13, 10]);
    assert(final(dst)@ =~= old(dst)@ + decimal(n as nat) + crlf());
}

} // verus!
