//! The 4-bit opcode field of a frame header.

use vstd::prelude::*;

verus! {

/// The kind of a frame. Only the six opcodes that the protocol defines are
/// representable; the reserved values 3 to 7 and 11 to 15 have no variant.
#[derive(Debug, Clone, Copy, PartialEq, Eq, Structural)]
pub enum Opcode {
    Continuation,
    Text,
    Binary,
    Close,
    Ping,
    Pong,
}

/// The opcode that a 4-bit field value denotes, if it denotes one.
pub open spec fn opcode_of(val: u8) -> Option<Opcode> {
    if val == 0 {
        Some(Opcode::Continuation)
    } else if val == 1 {
        Some(Opcode::Text)
    } else if val == 2 {
        Some(Opcode::Binary)
    } else if val == 8 {
        Some(Opcode::Close)
    } else if val == 9 {
        Some(Opcode::Ping)
    } else if val == 10 {
        Some(Opcode::Pong)
    } else {
        None
    }
}

/// Whether a field value is one of the reserved opcodes.
pub open spec fn is_reserved_opcode(val: u8) -> bool {
    3 <= val <= 7 || 11 <= val <= 15
}

impl Opcode {
    /// The field value that stands for this opcode on the wire.
    pub open spec fn value(self) -> u8 {
        match self {
            Opcode::Continuation => 0,
            Opcode::Text => 1,
            Opcode::Binary => 2,
            Opcode::Close => 8,
            Opcode::Ping => 9,
            Opcode::Pong => 10,
        }
    }

    /// Control opcodes are those whose field value has its high bit set.
    pub open spec fn control(self) -> bool {
        self.value() >= 8
    }

    /// Returns the 4-bit field value of this opcode.
    pub fn as_value(&self) -> (val: u8)
        ensures
            val == self.value(),
            val < 16,
            opcode_of(val) == Some(*self),
    {
        match self {
            Opcode::Continuation => 0,
            Opcode::Text => 1,
            Opcode::Binary => 2,
            Opcode::Close => 8,
            Opcode::Ping => 9,
            Opcode::Pong => 10,
        }
    }

    /// Decodes a field value. Every value other than 0, 1, 2, 8, 9 and 10 is
    /// rejected.
    pub fn parse(val: u8) -> (op: Option<Opcode>)
        ensures
            op == opcode_of(val),
            op is Some <==> (val <= 2 || 8 <= val <= 10),
            op matches Some(o) ==> o.value() == val,
    {
        match val {
            0 => Some(Opcode::Continuation),
            1 => Some(Opcode::Text),
            2 => Some(Opcode::Binary),
            8 => Some(Opcode::Close),
            9 => Some(Opcode::Ping),
            10 => Some(Opcode::Pong),
            _ => None,
        }
    }

    /// Whether this is Close, Ping or Pong.
    pub fn is_control(&self) -> (b: bool)
        ensures
            b == self.control(),
            b <==> (*self == Opcode::Close || *self == Opcode::Ping || *self == Opcode::Pong),
    {
        match self {
            Opcode::Close | Opcode::Ping | Opcode::Pong => true,
            _ => false,
        }
    }
}

/// Decoding undoes encoding: the field value of an opcode decodes to that
/// opcode, and the value always fits in four bits.
pub proof fn lemma_opcode_round_trip(op: Opcode)
    ensures
        opcode_of(op.value()) == Some(op),
        op.value() < 16,
        !is_reserved_opcode(op.value()),
{
}

/// Among 4-bit values, exactly the reserved ones denote no opcode, and a value
/// that denotes an opcode is that opcode's field value.
pub proof fn lemma_opcode_of_value(val: u8)
    requires
        val < 16,
    ensures
        opcode_of(val) is None <==> is_reserved_opcode(val),
        opcode_of(val) matches Some(op) ==> op.value() == val,
{
}

} // verus!
