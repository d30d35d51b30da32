//! The frame codec: one frame to bytes and bytes to one frame.
//!
//! A frame on the wire is a two-byte header, an optional extended length of
//! two or eight bytes, an optional 4-byte masking key and the payload. The
//! layout is given once, as the specification functions [`encode_frame`] and
//! [`parse_frame`] over byte sequences; the executable functions of [`Frame`]
//! are proved to compute exactly those.

use crate::mask::{apply_mask, lemma_mask_involution, mask_bytes};
use crate::opcode::{opcode_of, Opcode};
use crate::random::random_i32_to_u8_vec;
use crate::wire::{
    be16_bytes, be16_value, be64_bytes, be64_value, get_u16, get_u64, lemma_be16_round_trip,
    lemma_be64_round_trip, put_u16, put_u64,
};
use vstd::prelude::*;
use vstd::slice::{slice_subrange, slice_to_vec};

verus! {

/// The longest payload that a control frame may carry.
pub const MAX_CONTROL_PAYLOAD: u64 = 125;

/// The longest payload that the 64-bit length field can announce: its top bit
/// must be zero.
pub const MAX_PAYLOAD: u64 = 0x7fff_ffff_ffff_ffff;

/// One frame: the final-fragment flag, the opcode and the unmasked payload.
#[derive(Debug, Clone, PartialEq, Eq)]
pub struct Frame {
    pub fin: bool,
    pub opcode: Opcode,
    pub payload: Vec<u8>,
}

/// The mathematical value of a [`Frame`].
pub struct FrameView {
    pub fin: bool,
    pub opcode: Opcode,
    pub payload: Seq<u8>,
}

impl View for Frame {
    type V = FrameView;

    open spec fn view(&self) -> FrameView {
        FrameView { fin: self.fin, opcode: self.opcode, payload: self.payload@ }
    }
}

/// Why a byte sequence is not the start of an acceptable frame.
#[derive(Debug, Clone, Copy, PartialEq, Eq, Structural)]
pub enum ProtocolError {
    /// The opcode field holds one of the values 3 to 7 or 11 to 15.
    ReservedOpcode,
    /// One of the three reserved header bits is set.
    ReservedRsvBits,
    /// A server received a frame that is not masked.
    UnmaskedClientFrame,
    /// A client received a frame that is masked.
    MaskedServerFrame,
    /// A control frame is fragmented or longer than 125 bytes.
    BadControlFrame,
    /// The 64-bit length field has its top bit set.
    LengthOverflow,
}

/// What parsing the front of a buffer yields.
#[derive(Debug, Clone, PartialEq, Eq)]
pub enum ParseResult {
    /// A whole frame, and the number of bytes that it occupies at the front
    /// of the buffer.
    Complete(Frame, usize),
    /// The buffer ends before the frame does; nothing was consumed.
    Incomplete,
    /// The bytes violate the wire format.
    Invalid(ProtocolError),
}

/// The mathematical value of a [`ParseResult`].
pub enum Parsed {
    Complete(FrameView, nat),
    Incomplete,
    Invalid(ProtocolError),
}

impl View for ParseResult {
    type V = Parsed;

    open spec fn view(&self) -> Parsed {
        match self {
            ParseResult::Complete(frame, consumed) => Parsed::Complete(frame@, *consumed as nat),
            ParseResult::Incomplete => Parsed::Incomplete,
            ParseResult::Invalid(kind) => Parsed::Invalid(*kind),
        }
    }
}

/// The frame invariant: a control frame is final and carries at most 125
/// bytes, and no payload is longer than the length field can announce.
pub open spec fn frame_valid(frame: FrameView) -> bool {
    &&& frame.payload.len() <= MAX_PAYLOAD
    &&& frame.opcode.control() ==> frame.fin && frame.payload.len() <= MAX_CONTROL_PAYLOAD
}

/// Header byte 0: the final-fragment flag in bit 7, zeros in the three
/// reserved bits, the opcode in bits 3 to 0.
pub open spec fn first_byte(fin: bool, opcode: Opcode) -> u8 {
    ((if fin { 0x80int } else { 0int }) + opcode.value()) as u8
}

/// The 7-bit length field for a payload of `len` bytes: the length itself up
/// to 125, else 126 up to 65535, else 127. This is always the shortest form.
pub open spec fn length_field(len: nat) -> u8 {
    if len <= 125 {
        len as u8
    } else if len <= 0xffff {
        126
    } else {
        127
    }
}

/// Header byte 1: the mask flag in bit 7, the 7-bit length field below it.
pub open spec fn second_byte(masked: bool, len: nat) -> u8 {
    ((if masked { 0x80int } else { 0int }) + length_field(len)) as u8
}

/// The number of extended-length bytes that follow a 7-bit length field.
pub open spec fn extended_width(field: u8) -> int {
    if field == 126 {
        2
    } else if field == 127 {
        8
    } else {
        0
    }
}

/// The extended-length bytes for a payload of `len` bytes.
pub open spec fn extended_length(len: nat) -> Seq<u8> {
    if len <= 125 {
        Seq::empty()
    } else if len <= 0xffff {
        be16_bytes(len)
    } else {
        be64_bytes(len)
    }
}

/// The header of a frame, up to but not including the masking key.
pub open spec fn header_bytes(fin: bool, opcode: Opcode, masked: bool, len: nat) -> Seq<u8> {
    seq![first_byte(fin, opcode), second_byte(masked, len)] + extended_length(len)
}

/// The bytes of a frame. Without a key the payload follows the header
/// verbatim; with a key the mask flag is set and the key and the masked
/// payload follow.
pub open spec fn encode_frame(frame: FrameView, key: Option<Seq<u8>>) -> Seq<u8> {
    match key {
        None => header_bytes(frame.fin, frame.opcode, false, frame.payload.len())
            + frame.payload,
        Some(k) => header_bytes(frame.fin, frame.opcode, true, frame.payload.len()) + k
            + mask_bytes(frame.payload, k),
    }
}

/// The payload length that a header announces. The extended forms are read
/// whatever their value, so a length that a shorter form could have carried is
/// accepted.
pub open spec fn declared_length(bytes: Seq<u8>) -> nat
    recommends
        bytes.len() >= 2 + extended_width(bytes[1] % 128),
{
    let field = bytes[1] % 128;
    if field == 126 {
        be16_value(bytes.subrange(2, 4))
    } else if field == 127 {
        be64_value(bytes.subrange(2, 10))
    } else {
        field as nat
    }
}

/// What the front of `bytes` parses to for a receiver in the given role.
///
/// Each check uses only bytes that are present, so a fault is reported as
/// soon as the bytes that show it have arrived. In this order: the opcode,
/// the reserved bits, the mask flag against the role, the length, the
/// control-frame rule, and last whether key and payload are all there.
pub open spec fn parse_frame(bytes: Seq<u8>, is_server: bool) -> Parsed {
    if bytes.len() < 2 {
        Parsed::Incomplete
    } else {
        let fin = bytes[0] >= 128;
        let masked = bytes[1] >= 128;
        let width = extended_width(bytes[1] % 128);
        match opcode_of(bytes[0] % 16) {
            None => Parsed::Invalid(ProtocolError::ReservedOpcode),
            Some(opcode) => {
                if bytes[0] / 16 % 8 != 0 {
                    Parsed::Invalid(ProtocolError::ReservedRsvBits)
                } else if is_server && !masked {
                    Parsed::Invalid(ProtocolError::UnmaskedClientFrame)
                } else if !is_server && masked {
                    Parsed::Invalid(ProtocolError::MaskedServerFrame)
                } else if bytes.len() < 2 + width {
                    Parsed::Incomplete
                } else {
                    let len = declared_length(bytes) as int;
                    let start = 2 + width + if masked { 4int } else { 0int };
                    if len > MAX_PAYLOAD {
                        Parsed::Invalid(ProtocolError::LengthOverflow)
                    } else if opcode.control() && (!fin || len > MAX_CONTROL_PAYLOAD) {
                        Parsed::Invalid(ProtocolError::BadControlFrame)
                    } else if bytes.len() < start + len {
                        Parsed::Incomplete
                    } else {
                        let raw = bytes.subrange(start, start + len);
                        let payload = if masked {
                            mask_bytes(raw, bytes.subrange(start - 4, start))
                        } else {
                            raw
                        };
                        Parsed::Complete(FrameView { fin, opcode, payload }, (start + len) as nat)
                    }
                }
            },
        }
    }
}

/// Appends the header of a frame to `buf`.
fn put_header(buf: &mut Vec<u8>, fin: bool, opcode: Opcode, masked: bool, len: usize)
    ensures
        final(buf)@ == old(buf)@ + header_bytes(fin, opcode, masked, len as nat),
{
    let flag: u8 = if fin { 0x80 } else { 0 };
    let code: u8 = opcode.as_value();
    let first: u8 = flag | code;
    assert(first == flag + code) by (bit_vector)
        requires
            first == flag | code,
            flag == 0x80 || flag == 0,
            code < 16,
    ;
    buf.push(first);
    let mask_flag: u8 = if masked { 0x80 } else { 0 };
    if len <= 125 {
        let field: u8 = len as u8;
        let second: u8 = mask_flag | field;
        assert(second == mask_flag + field) by (bit_vector)
            requires
                second == mask_flag | field,
                mask_flag == 0x80 || mask_flag == 0,
                field <= 125,
        ;
        buf.push(second);
    } else if len <= 65535 {
        let second: u8 = mask_flag | 126;
        assert(second == mask_flag + 126) by (bit_vector)
            requires
                second == mask_flag | 126,
                mask_flag == 0x80 || mask_flag == 0,
        ;
        buf.push(second);
        put_u16(buf, len as u16);
    } else {
        let second: u8 = mask_flag | 127;
        assert(second == mask_flag + 127) by (bit_vector)
            requires
                second == mask_flag | 127,
                mask_flag == 0x80 || mask_flag == 0,
        ;
        buf.push(second);
        put_u64(buf, len as u64);
    }
    assert(buf@ =~= old(buf)@ + header_bytes(fin, opcode, masked, len as nat));
}

impl Frame {
    /// Whether this frame satisfies the frame invariant.
    pub open spec fn valid(&self) -> bool {
        frame_valid(self@)
    }

    /// Tests the frame invariant.
    pub fn is_valid(&self) -> (ok: bool)
        ensures
            ok == self.valid(),
    {
        let len = self.payload.len();
        if len as u64 > MAX_PAYLOAD {
            false
        } else if self.opcode.is_control() {
            self.fin && len as u64 <= MAX_CONTROL_PAYLOAD
        } else {
            true
        }
    }

    /// Parses the frame at the front of `buf` as a server (`is_server`) or as
    /// a client would receive it. A server accepts only masked frames and a
    /// client only unmasked ones. Nothing is consumed: on `Complete` the
    /// second component says how many bytes the caller may drop.
    pub fn parse(buf: &[u8], is_server: bool) -> (res: ParseResult)
        ensures
            res@ == parse_frame(buf@, is_server),
    {
        if buf.len() < 2 {
            return ParseResult::Incomplete;
        }
        let first: u8 = buf[0];
        let second: u8 = buf[1];
        let fin = first & 0x80 != 0;
        let code: u8 = first & 0x0f;
        let rsv: u8 = first & 0x70;
        let masked = second & 0x80 != 0;
        let field: u8 = second & 0x7f;
        assert(code == first % 16 && (rsv != 0 <==> first / 16 % 8 != 0) && ((first & 0x80 != 0)
            <==> first >= 128)) by (bit_vector)
            requires
                code == first & 0x0f,
                rsv == first & 0x70,
        ;
        assert(field == second % 128 && ((second & 0x80 != 0) <==> second >= 128))
            by (bit_vector)
            requires
                field == second & 0x7f,
        ;
        let opcode = match Opcode::parse(code) {
            Some(opcode) => opcode,
            None => {
                return ParseResult::Invalid(ProtocolError::ReservedOpcode);
            },
        };
        if rsv != 0 {
            return ParseResult::Invalid(ProtocolError::ReservedRsvBits);
        }
        if is_server && !masked {
            return ParseResult::Invalid(ProtocolError::UnmaskedClientFrame);
        }
        if !is_server && masked {
            return ParseResult::Invalid(ProtocolError::MaskedServerFrame);
        }
        let width: usize = if field == 126 {
            2
        } else if field == 127 {
            8
        } else {
            0
        };
        if buf.len() < 2 + width {
            return ParseResult::Incomplete;
        }
        let len: u64 = if field == 126 {
            get_u16(slice_subrange(buf, 2, 4)) as u64
        } else if field == 127 {
            get_u64(slice_subrange(buf, 2, 10))
        } else {
            field as u64
        };
        assert(len as nat == declared_length(buf@));
        if len > MAX_PAYLOAD {
            return ParseResult::Invalid(ProtocolError::LengthOverflow);
        }
        if opcode.is_control() && (!fin || len > MAX_CONTROL_PAYLOAD) {
            return ParseResult::Invalid(ProtocolError::BadControlFrame);
        }
        let start: usize = if masked {
            2 + width + 4
        } else {
            2 + width
        };
        if buf.len() < start || ((buf.len() - start) as u64) < len {
            return ParseResult::Incomplete;
        }
        let end: usize = start + len as usize;
        let raw = slice_subrange(buf, start, end);
        let payload = if masked {
            let key: [u8; 4] = [buf[start - 4], buf[start - 3], buf[start - 2], buf[start - 1]];
            assert(key@ =~= buf@.subrange(start - 4, start as int));
            apply_mask(raw, &key)
        } else {
            slice_to_vec(raw)
        };
        ParseResult::Complete(Frame { fin, opcode, payload }, end)
    }

    /// Encodes this frame as a server sends it: not masked, the payload
    /// verbatim. The length takes the shortest of the three forms.
    pub fn encode(&self) -> (out: Vec<u8>)
        ensures
            out@ == encode_frame(self@, None),
            out@.len() == 2 + extended_width(length_field(self.payload@.len()))
                + self.payload@.len(),
            out@[1] == length_field(self.payload@.len()),
    {
        let mut buf: Vec<u8> = Vec::new();
        put_header(&mut buf, self.fin, self.opcode, false, self.payload.len());
        let mut body = slice_to_vec(self.payload.as_slice());
        buf.append(&mut body);
        proof {
            lemma_encoded_shape(self@, None);
        }
        buf
    }

    /// Encodes this frame as a client sends it, masked with the given key.
    pub fn encode_with_key(&self, key: &[u8; 4]) -> (out: Vec<u8>)
        ensures
            out@ == encode_frame(self@, Some(key@)),
            out@.len() == 2 + extended_width(length_field(self.payload@.len())) + 4
                + self.payload@.len(),
            out@[1] == 128 + length_field(self.payload@.len()),
    {
        let mut buf: Vec<u8> = Vec::new();
        put_header(&mut buf, self.fin, self.opcode, true, self.payload.len());
        buf.push(key[0]);
        buf.push(key[1]);
        buf.push(key[2]);
        buf.push(key[3]);
        let mut body = apply_mask(self.payload.as_slice(), key);
        buf.append(&mut body);
        assert(buf@ =~= encode_frame(self@, Some(key@)));
        proof {
            lemma_encoded_shape(self@, Some(key@));
        }
        buf
    }

    /// Encodes this frame as a client sends it, masked with a key drawn
    /// afresh from the random source. Whatever key was drawn, the result is
    /// the encoding under that key.
    pub fn encode_with_mask(&self) -> (out: Vec<u8>)
        ensures
            exists|key: Seq<u8>| key.len() == 4 && out@ == encode_frame(self@, Some(key)),
            out@.len() == 2 + extended_width(length_field(self.payload@.len())) + 4
                + self.payload@.len(),
            out@[1] == 128 + length_field(self.payload@.len()),
    {
        let drawn = random_i32_to_u8_vec();
        let key: [u8; 4] = [drawn[0], drawn[1], drawn[2], drawn[3]];
        let out = self.encode_with_key(&key);
        assert(key@.len() == 4 && out@ == encode_frame(self@, Some(key@)));
        out
    }
}

/// The shape of an encoded frame: where its parts lie and how long it is.
/// The length field is the shortest one that can carry the payload length:
/// seven bits up to 125, two more bytes up to 65535, eight more beyond.
pub proof fn lemma_encoded_shape(frame: FrameView, key: Option<Seq<u8>>)
    requires
        key matches Some(k) ==> k.len() == 4,
    ensures
        ({
            let bytes = encode_frame(frame, key);
            let len = frame.payload.len() as int;
            let width = extended_width(length_field(len as nat));
            let key_len = if key is Some { 4int } else { 0int };
            &&& bytes.len() == 2 + width + key_len + len
            &&& bytes[0] == first_byte(frame.fin, frame.opcode)
            &&& bytes[1] == second_byte(key is Some, len as nat)
            &&& bytes[1] % 128 == length_field(len as nat)
            &&& len <= 125 ==> width == 0 && length_field(len as nat) == len
            &&& 126 <= len <= 0xffff ==> width == 2 && length_field(len as nat) == 126
            &&& len > 0xffff ==> width == 8 && length_field(len as nat) == 127
            &&& bytes.subrange(2, 2 + width) == extended_length(len as nat)
            &&& key matches Some(k) ==> bytes.subrange(2 + width, 2 + width + 4) == k
            &&& bytes.subrange(2 + width + key_len, bytes.len() as int) == match key {
                Some(k) => mask_bytes(frame.payload, k),
                None => frame.payload,
            }
        }),
{
    let bytes = encode_frame(frame, key);
    let len = frame.payload.len();
    let width = extended_width(length_field(len));
    let key_len = if key is Some { 4int } else { 0int };
    assert(bytes.subrange(2, 2 + width) =~= extended_length(len));
    match key {
        Some(k) => {
            assert(bytes.subrange(2 + width, 2 + width + 4) =~= k);
            assert(bytes.subrange(2 + width + key_len, bytes.len() as int) =~= mask_bytes(
                frame.payload,
                k,
            ));
        },
        None => {
            assert(bytes.subrange(2 + width + key_len, bytes.len() as int) =~= frame.payload);
        },
    }
}

/// Parsing undoes encoding. A valid frame encoded without a key, as a server
/// sends it, parses as a client receives it to the same frame; encoded with
/// any 4-byte key, as a client sends it, it parses as a server receives it to
/// the same frame, whatever the key was. In both cases the whole encoding is
/// consumed.
pub proof fn lemma_round_trip(frame: FrameView, key: Option<Seq<u8>>)
    requires
        frame_valid(frame),
        key matches Some(k) ==> k.len() == 4,
    ensures
        parse_frame(encode_frame(frame, key), key is Some) == Parsed::Complete(
            frame,
            encode_frame(frame, key).len(),
        ),
{
    let bytes = encode_frame(frame, key);
    let len = frame.payload.len();
    let width = extended_width(length_field(len));
    lemma_encoded_shape(frame, key);
    if 126 <= len <= 0xffff {
        lemma_be16_round_trip(len);
    } else if len > 0xffff {
        lemma_be64_round_trip(len);
    }
    assert(declared_length(bytes) == len);
    match key {
        Some(k) => {
            lemma_mask_involution(frame.payload, k);
        },
        None => {},
    }
    let parsed = parse_frame(bytes, key is Some);
    assert(parsed is Complete);
    assert(parsed->Complete_0.payload =~= frame.payload);
}

/// A server-sent frame survives the trip to a client: a valid frame encoded
/// unmasked parses in the client role to itself.
pub proof fn lemma_server_frame_round_trip(frame: FrameView)
    requires
        frame_valid(frame),
    ensures
        parse_frame(encode_frame(frame, None), false) == Parsed::Complete(
            frame,
            encode_frame(frame, None).len(),
        ),
{
    lemma_round_trip(frame, None);
}

/// A client-sent frame survives the trip to a server: a valid frame encoded
/// under any masking key parses in the server role to itself, so the key is
/// erased by unmasking.
pub proof fn lemma_client_frame_round_trip(frame: FrameView, key: Seq<u8>)
    requires
        frame_valid(frame),
        key.len() == 4,
    ensures
        parse_frame(encode_frame(frame, Some(key)), true) == Parsed::Complete(
            frame,
            encode_frame(frame, Some(key)).len(),
        ),
{
    lemma_round_trip(frame, Some(key));
}

/// A frame that parsed completely is valid, and it occupies at least its
/// two-byte header and at most the whole buffer.
pub proof fn lemma_parsed_frame_valid(bytes: Seq<u8>, is_server: bool)
    requires
        parse_frame(bytes, is_server) is Complete,
    ensures
        frame_valid(parse_frame(bytes, is_server)->Complete_0),
        2 <= parse_frame(bytes, is_server)->Complete_1 <= bytes.len(),
{
}

/// The parser never decides early and never changes its mind. Once a buffer
/// parses to a frame or to an error, bytes that arrive behind it do not
/// change the answer.
pub proof fn lemma_parse_stable(bytes: Seq<u8>, more: Seq<u8>, is_server: bool)
    requires
        !(parse_frame(bytes, is_server) is Incomplete),
    ensures
        parse_frame(bytes + more, is_server) == parse_frame(bytes, is_server),
{
    let all = bytes + more;
    let width = extended_width(bytes[1] % 128);
    assert(all[0] == bytes[0] && all[1] == bytes[1]);
    if opcode_of(bytes[0] % 16) is Some && bytes[0] / 16 % 8 == 0 && (is_server <==> bytes[1]
        >= 128) {
        assert(bytes.len() >= 2 + width);
        if width == 2 {
            assert(all.subrange(2, 4) =~= bytes.subrange(2, 4));
        } else if width == 8 {
            assert(all.subrange(2, 10) =~= bytes.subrange(2, 10));
        }
        assert(declared_length(all) == declared_length(bytes));
        if parse_frame(bytes, is_server) is Complete {
            let len = declared_length(bytes) as int;
            let start = 2 + width + if bytes[1] >= 128 { 4int } else { 0int };
            assert(all.subrange(start, start + len) =~= bytes.subrange(start, start + len));
            if bytes[1] >= 128 {
                assert(all.subrange(start - 4, start) =~= bytes.subrange(start - 4, start));
            }
        }
    }
}

/// Every proper prefix of a frame's bytes is incomplete: if a buffer parses
/// to a frame of `consumed` bytes, then each shorter prefix of the buffer
/// parses to `Incomplete`.
pub proof fn lemma_prefix_incomplete(bytes: Seq<u8>, is_server: bool, cut: int)
    requires
        parse_frame(bytes, is_server) is Complete,
        0 <= cut < parse_frame(bytes, is_server)->Complete_1,
    ensures
        parse_frame(bytes.take(cut), is_server) == Parsed::Incomplete,
{
    let prefix = bytes.take(cut);
    if cut >= 2 {
        let width = extended_width(bytes[1] % 128);
        assert(prefix[0] == bytes[0] && prefix[1] == bytes[1]);
        if cut >= 2 + width {
            if width == 2 {
                assert(prefix.subrange(2, 4) =~= bytes.subrange(2, 4));
            } else if width == 8 {
                assert(prefix.subrange(2, 10) =~= bytes.subrange(2, 10));
            }
            assert(declared_length(prefix) == declared_length(bytes));
        }
    }
}

/// Decoding can be resumed. Split the encoding of a valid frame anywhere
/// before its end: the first part alone parses to `Incomplete`, and the two
/// parts put together again parse to the frame.
pub proof fn lemma_incomplete_resumable(frame: FrameView, key: Option<Seq<u8>>, cut: int)
    requires
        frame_valid(frame),
        key matches Some(k) ==> k.len() == 4,
        0 <= cut < encode_frame(frame, key).len(),
    ensures
        ({
            let bytes = encode_frame(frame, key);
            &&& parse_frame(bytes.take(cut), key is Some) == Parsed::Incomplete
            &&& parse_frame(bytes.take(cut) + bytes.skip(cut), key is Some) == Parsed::Complete(
                frame,
                bytes.len(),
            )
        }),
{
    let bytes = encode_frame(frame, key);
    lemma_round_trip(frame, key);
    lemma_prefix_incomplete(bytes, key is Some, cut);
    assert(bytes.take(cut) + bytes.skip(cut) =~= bytes);
}

/// A header whose opcode field is reserved is rejected as such, in either
/// role and whatever else the buffer holds.
pub proof fn lemma_reserved_opcode_rejected(bytes: Seq<u8>, is_server: bool)
    requires
        bytes.len() >= 2,
        3 <= bytes[0] % 16 <= 7 || 11 <= bytes[0] % 16 <= 15,
    ensures
        parse_frame(bytes, is_server) == Parsed::Invalid(ProtocolError::ReservedOpcode),
{
}

/// The two roles accept opposite mask flags. Given a header with a defined
/// opcode and clear reserved bits, a server rejects it when the mask flag is
/// clear and a client rejects it when the mask flag is set.
pub proof fn lemma_role_asymmetry(bytes: Seq<u8>)
    requires
        bytes.len() >= 2,
        opcode_of(bytes[0] % 16) is Some,
        bytes[0] / 16 % 8 == 0,
    ensures
        bytes[1] < 128 ==> parse_frame(bytes, true) == Parsed::Invalid(
            ProtocolError::UnmaskedClientFrame,
        ),
        bytes[1] >= 128 ==> parse_frame(bytes, false) == Parsed::Invalid(
            ProtocolError::MaskedServerFrame,
        ),
{
}

} // verus!
