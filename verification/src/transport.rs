//! The direct exchange between two peers: a request that carries one
//! control message, answered by an acknowledgement of one byte.

use crate::wire::{append_bytes, read_varint, take_varint, varint, write_varint};
use vstd::prelude::*;

verus! {

/// The protocol of the direct exchange.
#[derive(Clone, Copy, Debug, PartialEq, Eq, Structural)]
pub struct Protocol;

/// The acknowledgement of a request.
#[derive(Clone, Copy, Debug, PartialEq, Eq, Structural)]
pub struct Ack;

/// The rules for the frames of the direct exchange.
#[derive(Clone, Copy, Debug, PartialEq, Eq, Structural)]
pub struct Codec;

/// The largest request that is read, in bytes.
pub const MAX_REQUEST: usize = 1024;

/// The largest response that is read, in bytes.
pub const MAX_RESPONSE: usize = 1;

/// What the bytes read so far say of the length of a frame.
#[derive(Clone, Copy, Debug, PartialEq, Eq, Structural)]
pub enum FrameLength {
    /// The length is not complete: more bytes have to be read.
    Incomplete,
    /// The body of the frame has this many bytes.
    Of(usize),
    /// The bytes are no length, or the frame is longer than is read.
    Invalid,
}

/// A frame: the length of the body as a variable-length integer, then the body.
pub open spec fn framed(body: Seq<u8>) -> Seq<u8> {
    varint(body.len()) + body
}

/// Every byte has its high bit set.
pub open spec fn all_continue(prefix: Seq<u8>) -> bool {
    forall|i: int| 0 <= i < prefix.len() ==> #[trigger] prefix[i] >= 128
}

/// What `prefix`, the bytes read so far, says of the length of a frame whose
/// body may have `max` bytes at most: the length where `prefix` is exactly a
/// variable-length integer that is `max` at most; incomplete where `prefix`
/// has fewer than ten bytes, all with the high bit set; else invalid.
pub open spec fn length_read(prefix: Seq<u8>, max: usize) -> FrameLength {
    match take_varint(prefix, 10) {
        Some((v, n)) => if n == prefix.len() && v <= max {
            FrameLength::Of(v as usize)
        } else {
            FrameLength::Invalid
        },
        None => if prefix.len() < 10 && all_continue(prefix) {
            FrameLength::Incomplete
        } else {
            FrameLength::Invalid
        },
    }
}

/// The frame that carries `body`.
pub fn frame_of(body: &[u8]) -> (frame: Vec<u8>)
    ensures
        frame@ == framed(body@),
{
    let mut frame: Vec<u8> = Vec::new();
    write_varint(body.len() as u64, &mut frame);
    append_bytes(&mut frame, body);
    assert(frame@ =~= framed(body@));
    frame
}

/// What the bytes read so far say of the length of a frame whose body may
/// have `max` bytes at most.
pub fn frame_length(prefix: &[u8], max: usize) -> (r: FrameLength)
    ensures
        r == length_read(prefix@, max),
{
    match read_varint(prefix) {
        Some((v, rest)) => {
            proof {
                crate::wire::lemma_take_varint_bounds(prefix@, 10);
            }
            if rest.len() == 0 && v <= max as u64 {
                FrameLength::Of(v as usize)
            } else {
                FrameLength::Invalid
            }
        },
        None => {
            if prefix.len() >= 10 {
                return FrameLength::Invalid;
            }
            let mut i: usize = 0;
            while i < prefix.len()
                invariant
                    i <= prefix@.len(),
                    prefix@.len() < 10,
                    take_varint(prefix@, 10) is None,
                    forall|j: int| 0 <= j < i ==> #[trigger] prefix@[j] >= 128,
                decreases prefix@.len() - i,
            {
                if prefix[i] < 128 {
                    assert(!all_continue(prefix@)) by {
                        assert(prefix@[i as int] < 128);
                    }
                    return FrameLength::Invalid;
                }
                i += 1;
            }
            FrameLength::Incomplete
        },
    }
}

impl Protocol {
    /// The name under which the protocol is negotiated.
    pub fn protocol_name(&self) -> (name: &'static str)
        ensures
            name@ == "/digital-fax/0.1.0"@,
    {
        "/digital-fax/0.1.0"
    }
}

impl Codec {
    /// The request that a frame carries: the frame itself, unless it is
    /// empty, which is no request.
    pub fn read_request(&self, frame: Vec<u8>) -> (r: Option<Vec<u8>>)
        ensures
            frame@.len() == 0 ==> r is None,
            frame@.len() > 0 ==> r == Some(frame),
    {
        if frame.len() == 0 {
            None
        } else {
            Some(frame)
        }
    }

    /// The acknowledgement that a frame carries: any frame but an empty one.
    pub fn read_response(&self, frame: &[u8]) -> (r: Option<Ack>)
        ensures
            r == if frame@.len() == 0 {
                None
            } else {
                Some(Ack)
            },
    {
        if frame.len() == 0 {
            None
        } else {
            Some(Ack)
        }
    }

    /// The frame of a request: the request as it is.
    pub fn write_request(&self, request: Vec<u8>) -> (frame: Vec<u8>)
        ensures
            frame == request,
    {
        request
    }

    /// The frame of an acknowledgement: one zero byte.
    pub fn write_response(&self, ack: Ack) -> (frame: Vec<u8>)
        ensures
            frame@ == seq![0u8],
    {
        let mut frame: Vec<u8> = Vec::new();
        frame.push(0);
        frame
    }
}

} // verus!
