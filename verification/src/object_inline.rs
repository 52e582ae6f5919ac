//! Objects that fit in one word.
//!
//! The two lowest bits of the word tell what it holds: a pointer to a heap
//! object, an int, a port, or a builtin. For a port, the third bit tells a
//! send port from a receive port.

use vstd::prelude::*;
use vstd::std_specs::convert::FromSpecImpl;

verus! {

pub const KIND_WIDTH: usize = 2;

pub const KIND_MASK: u64 = 0b11;

pub const KIND_POINTER: u64 = 0b00;

pub const KIND_INT: u64 = 0b01;

pub const KIND_PORT: u64 = 0b10;

pub const KIND_PORT_SUBKIND_MASK: u64 = 0b100;

pub const KIND_PORT_SUBKIND_SEND: u64 = 0b000;

pub const KIND_PORT_SUBKIND_RECEIVE: u64 = 0b100;

pub const KIND_BUILTIN: u64 = 0b11;

/// A word is a valid object: it is not zero.
pub open spec fn word_wf(word: u64) -> bool {
    word != 0
}

/// An object that fits in one word.
#[derive(Clone, Copy, Debug)]
pub struct InlineObject {
    value: u64,
}

impl InlineObject {
    #[verifier::type_invariant]
    spec fn inv(self) -> bool {
        word_wf(self.value)
    }

    /// The object's word.
    pub closed spec fn word(self) -> u64 {
        self.value
    }

    /// The object that the word encodes.
    pub fn new(value: u64) -> (res: Self)
        requires
            word_wf(value),
        ensures
            res.word() == value,
    {
        Self { value }
    }

    /// The object's word.
    pub fn raw_word(self) -> (res: u64)
        ensures
            res == self.word(),
            word_wf(res),
    {
        proof {
            use_type_invariant(&self);
        }
        self.value
    }
}

/// What an object in one word holds.
#[derive(Clone, Copy, Debug)]
pub enum InlineData {
    Pointer(InlineObject),
    Int(InlineObject),
    SendPort(InlineObject),
    ReceivePort(InlineObject),
    Builtin(InlineObject),
}

/// The kind that the word's tag bits give.
pub open spec fn data_of_word(object: InlineObject) -> InlineData {
    let word = object.word();
    if word & KIND_MASK == KIND_POINTER {
        InlineData::Pointer(object)
    } else if word & KIND_MASK == KIND_INT {
        InlineData::Int(object)
    } else if word & KIND_MASK == KIND_PORT {
        if word & KIND_PORT_SUBKIND_MASK == KIND_PORT_SUBKIND_SEND {
            InlineData::SendPort(object)
        } else {
            InlineData::ReceivePort(object)
        }
    } else {
        InlineData::Builtin(object)
    }
}

impl From<InlineObject> for InlineData {
    /// Reads what the object holds from its tag bits.
    fn from(object: InlineObject) -> (res: Self) {
        let value = object.raw_word();
        let kind = value & KIND_MASK;
        if kind == KIND_POINTER {
            InlineData::Pointer(object)
        } else if kind == KIND_INT {
            InlineData::Int(object)
        } else if kind == KIND_PORT {
            if value & KIND_PORT_SUBKIND_MASK == KIND_PORT_SUBKIND_SEND {
                InlineData::SendPort(object)
            } else {
                InlineData::ReceivePort(object)
            }
        } else {
            InlineData::Builtin(object)
        }
    }
}

impl FromSpecImpl<InlineObject> for InlineData {
    open spec fn obeys_from_spec() -> bool {
        true
    }

    open spec fn from_spec(object: InlineObject) -> Self {
        data_of_word(object)
    }
}

impl InlineData {
    /// The object.
    pub fn object(self) -> (res: InlineObject)
        ensures
            res == match self {
                InlineData::Pointer(o) => o,
                InlineData::Int(o) => o,
                InlineData::SendPort(o) => o,
                InlineData::ReceivePort(o) => o,
                InlineData::Builtin(o) => o,
            },
    {
        match self {
            InlineData::Pointer(o) => o,
            InlineData::Int(o) => o,
            InlineData::SendPort(o) => o,
            InlineData::ReceivePort(o) => o,
            InlineData::Builtin(o) => o,
        }
    }
}

/// Every word that is a valid object is read as exactly one kind, which
/// holds the object itself; the kinds are told apart by the tag bits alone.
pub proof fn lemma_data_of_word(object: InlineObject)
    ensures
        match data_of_word(object) {
            InlineData::Pointer(o) => o == object && object.word() % 4 == 0,
            InlineData::Int(o) => o == object && object.word() % 4 == 1,
            InlineData::SendPort(o) => o == object && object.word() % 8 == 2,
            InlineData::ReceivePort(o) => o == object && object.word() % 8 == 6,
            InlineData::Builtin(o) => o == object && object.word() % 4 == 3,
        },
{
    let word = object.word();
    assert(word & 3 == word % 4) by (bit_vector);
    assert(word & 3 == 2 ==> (word & 4 == 0 <==> word % 8 == 2)) by (bit_vector);
    assert(word & 3 == 2 ==> (word & 4 != 0 <==> word % 8 == 6)) by (bit_vector);
}

} // verus!
