//! The decoder and the encoder of one connection, side by side.
use vstd::prelude::*;

use crate::decoder::{decode_step, outcome_view, Decoder, Error};
use crate::encoder::{response_bytes, Encoder};
use crate::protocol::{BeanstalkClientEvent, Response};

verus! {

/// The codec of one connection.
#[derive(Debug, Default)]
pub struct Codec {
    pub d: Decoder,
    pub e: Encoder,
}

impl Codec {
    pub fn new() -> (r: Codec)
        ensures
            r.d == Decoder::ParseCommand,
    {
        Codec { d: Decoder::new(), e: Encoder::new() }
    }

    /// Reads the next client event from the front of `src`.
    pub fn decode(&mut self, src: &mut Vec<u8>) -> (r: Result<Option<BeanstalkClientEvent>, Error>)
        ensures
            decode_step(old(self).d, old(src)@) == (final(self).d, final(src)@, outcome_view(r)),
    {
        self.d.decode(src)
    }

    /// Appends the wire form of a response to `dst`.
    pub fn encode(&mut self, item: Response, dst: &mut Vec<u8>)
        ensures
            final(dst)@ == old(dst)@ + response_bytes(item),
            final(self).d == old(self).d,
    {
        self.e.encode(item, dst)
    }
}

} // verus!
