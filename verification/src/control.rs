//! Control frames: close status codes and the replies that the protocol
//! calls for.

use crate::frame::{frame_valid, Frame, FrameView};
use crate::opcode::Opcode;
use crate::wire::{be16_bytes, be16_value, get_u16, lemma_be16_round_trip, put_u16};
use vstd::prelude::*;
use vstd::slice::{slice_subrange, slice_to_vec};

verus! {

/// The status code of a normal closure.
pub const CLOSE_NORMAL: u16 = 1000;

/// Whether a close status code lies in one of the ranges that may appear on
/// the wire: 1000 to 1011, 3000 to 3999, 4000 to 4999.
pub open spec fn close_code_defined(code: u16) -> bool {
    1000 <= code <= 1011 || 3000 <= code <= 4999
}

/// The status code that a Close payload carries: the big-endian number in its
/// first two bytes, if it has them.
pub open spec fn close_code_of(payload: Seq<u8>) -> Option<u16> {
    if payload.len() >= 2 {
        Some(be16_value(payload.subrange(0, 2)) as u16)
    } else {
        None
    }
}

/// The Close frame that carries `code` and nothing else.
pub open spec fn close_frame(code: u16) -> FrameView {
    FrameView { fin: true, opcode: Opcode::Close, payload: be16_bytes(code as nat) }
}

/// The frame with which an endpoint answers `frame`, if the protocol calls
/// for an answer: a Ping is answered by a Pong with the same payload, a Close
/// by a Close that echoes the status code, if there is one. Other frames call
/// for none.
pub open spec fn reply_to(frame: FrameView) -> Option<FrameView> {
    match frame.opcode {
        Opcode::Ping => Some(
            FrameView { fin: true, opcode: Opcode::Pong, payload: frame.payload },
        ),
        Opcode::Close => Some(
            FrameView {
                fin: true,
                opcode: Opcode::Close,
                payload: if frame.payload.len() >= 2 {
                    frame.payload.subrange(0, 2)
                } else {
                    Seq::empty()
                },
            },
        ),
        _ => None,
    }
}

/// A Close frame made from a status code is valid and carries that code.
pub proof fn lemma_close_frame_code(code: u16)
    ensures
        frame_valid(close_frame(code)),
        close_code_of(close_frame(code).payload) == Some(code),
{
    lemma_be16_round_trip(code as nat);
    assert(close_frame(code).payload.subrange(0, 2) =~= be16_bytes(code as nat));
}

/// The reply to a valid frame is valid. The reply to a Ping carries the
/// Ping's payload unchanged.
pub proof fn lemma_reply_valid(frame: FrameView)
    requires
        frame_valid(frame),
    ensures
        reply_to(frame) matches Some(reply) ==> frame_valid(reply),
        frame.opcode == Opcode::Ping ==> reply_to(frame) == Some(
            FrameView { fin: true, opcode: Opcode::Pong, payload: frame.payload },
        ),
{
}

/// Tests whether a close status code lies in one of the defined ranges.
pub fn is_close_code(code: u16) -> (ok: bool)
    ensures
        ok == close_code_defined(code),
{
    (1000 <= code && code <= 1011) || (3000 <= code && code <= 4999)
}

impl Frame {
    /// A Close frame that carries `code`.
    pub fn close(code: u16) -> (frame: Frame)
        ensures
            frame@ == close_frame(code),
    {
        let mut payload: Vec<u8> = Vec::new();
        put_u16(&mut payload, code);
        assert(payload@ =~= be16_bytes(code as nat));
        Frame { fin: true, opcode: Opcode::Close, payload }
    }

    /// The status code at the front of this frame's payload, if the payload
    /// is long enough to hold one.
    pub fn close_code(&self) -> (code: Option<u16>)
        ensures
            code == close_code_of(self.payload@),
    {
        if self.payload.len() >= 2 {
            Some(get_u16(slice_subrange(self.payload.as_slice(), 0, 2)))
        } else {
            None
        }
    }

    /// The frame with which to answer this one, if the protocol calls for an
    /// answer.
    pub fn reply(&self) -> (answer: Option<Frame>)
        ensures
            match answer {
                Some(frame) => reply_to(self@) == Some(frame@),
                None => reply_to(self@) is None,
            },
    {
        match self.opcode {
            Opcode::Ping => Some(
                Frame {
                    fin: true,
                    opcode: Opcode::Pong,
                    payload: slice_to_vec(self.payload.as_slice()),
                },
            ),
            Opcode::Close => {
                let payload = if self.payload.len() >= 2 {
                    slice_to_vec(slice_subrange(self.payload.as_slice(), 0, 2))
                } else {
                    Vec::new()
                };
                Some(Frame { fin: true, opcode: Opcode::Close, payload })
            },
            _ => None,
        }
    }
}

} // verus!
