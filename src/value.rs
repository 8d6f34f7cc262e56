use vstd::prelude::*;

use crate::error::Error;

verus! {

/// Position of the tag: the high nibble of the word.
pub const TAG_SHIFT: u64 = 60;

/// Mask of the 60-bit payload.
pub const PAYLOAD_MASK: u64 = 0x0FFF_FFFF_FFFF_FFFF;

pub const TAG_NULL: u64 = 0;

pub const TAG_BYTE: u64 = 1;

pub const TAG_INTEGER: u64 = 2;

pub const TAG_FLOAT: u64 = 3;

pub const TAG_STRING: u64 = 4;

pub const TAG_DICT: u64 = 5;

pub const TAG_ARRAY: u64 = 6;

pub const TAG_CLASS: u64 = 7;

/// The word that a value with the given tag and payload is made of.
pub open spec fn word_of(tag: u64, payload: u64) -> u64 {
    (tag << 60) | payload
}

pub open spec fn tag_of(word: u64) -> u64 {
    word >> 60
}

pub open spec fn payload_of(word: u64) -> u64 {
    word & 0x0FFF_FFFF_FFFF_FFFF
}

/// The two's-complement payload of a 32-bit integer.
pub open spec fn int_payload(i: i32) -> u64 {
    (i as u32) as u64
}

/// The integer that the low 32 bits of a word hold.
pub open spec fn int_of(word: u64) -> i32 {
    ((word & 0xFFFF_FFFF) as u32) as i32
}

pub open spec fn byte_of(word: u64) -> u8 {
    (word & 0xFF) as u8
}

pub open spec fn float_bits_of(word: u64) -> u32 {
    (word & 0xFFFF_FFFF) as u32
}

/// Tags whose payload is a heap handle.
pub open spec fn is_heap_tag(tag: u64) -> bool {
    TAG_STRING <= tag <= TAG_CLASS
}

pub proof fn lemma_word_of(tag: u64, payload: u64)
    requires
        tag < 16,
        payload <= PAYLOAD_MASK,
    ensures
        tag_of(word_of(tag, payload)) == tag,
        payload_of(word_of(tag, payload)) == payload,
        (word_of(tag, payload) == 0) == (tag == 0 && payload == 0),
{
    assert(((tag << 60) | payload) >> 60 == tag) by (bit_vector)
        requires
            tag < 16,
            payload <= 0x0FFF_FFFF_FFFF_FFFFu64,
    ;
    assert(((tag << 60) | payload) & 0x0FFF_FFFF_FFFF_FFFF == payload) by (bit_vector)
        requires
            tag < 16,
            payload <= 0x0FFF_FFFF_FFFF_FFFFu64,
    ;
    assert((((tag << 60) | payload) == 0) == (tag == 0 && payload == 0)) by (bit_vector)
        requires
            tag < 16,
            payload <= 0x0FFF_FFFF_FFFF_FFFFu64,
    ;
}

pub proof fn lemma_tag_bound(word: u64)
    ensures
        tag_of(word) < 16,
        payload_of(word) <= PAYLOAD_MASK,
        word == word_of(tag_of(word), payload_of(word)),
{
    assert(word >> 60 < 16) by (bit_vector);
    assert(word & 0x0FFF_FFFF_FFFF_FFFF <= 0x0FFF_FFFF_FFFF_FFFFu64) by (bit_vector);
    assert(word == ((word >> 60) << 60) | (word & 0x0FFF_FFFF_FFFF_FFFF)) by (bit_vector);
}

pub proof fn lemma_int_payload(i: i32)
    ensures
        int_payload(i) <= 0xFFFF_FFFF,
        int_of(word_of(TAG_INTEGER, int_payload(i))) == i,
{
    let p = int_payload(i);
    assert(p == (i as u32) as u64);
    assert(((i as u32) as u64) <= 0xFFFF_FFFFu64) by (bit_vector);
    assert(((((2u64 << 60) | ((i as u32) as u64)) & 0xFFFF_FFFF) as u32) as i32 == i) by (bit_vector);
}

pub proof fn lemma_byte_payload(b: u8)
    ensures
        byte_of(word_of(TAG_BYTE, b as u64)) == b,
{
    assert((((1u64 << 60) | (b as u64)) & 0xFF) as u8 == b) by (bit_vector);
}

pub proof fn lemma_float_payload(bits: u32)
    ensures
        float_bits_of(word_of(TAG_FLOAT, bits as u64)) == bits,
{
    assert((((3u64 << 60) | (bits as u64)) & 0xFFFF_FFFF) as u32 == bits) by (bit_vector);
}

/// A tagged 64-bit word: the tag in the high nibble, a 60-bit payload below it.
/// Equality, ordering and hashing are those of the word.
#[derive(Clone, Copy, PartialEq, Eq, Structural, PartialOrd, Ord, Hash, Debug)]
pub struct Value(pub u64);


impl Value {
    pub open spec fn spec_tag(self) -> u64 {
        tag_of(self.0)
    }

    pub open spec fn spec_payload(self) -> u64 {
        payload_of(self.0)
    }

    pub open spec fn spec_integer(self) -> i32 {
        int_of(self.0)
    }

    pub open spec fn spec_byte(self) -> u8 {
        byte_of(self.0)
    }

    pub open spec fn spec_float_bits(self) -> u32 {
        float_bits_of(self.0)
    }

    pub open spec fn is_heap(self) -> bool {
        is_heap_tag(self.spec_tag())
    }

    pub open spec fn is_int(self) -> bool {
        self.spec_tag() == TAG_INTEGER
    }

    pub open spec fn is_byte(self) -> bool {
        self.spec_tag() == TAG_BYTE
    }

    pub open spec fn is_float(self) -> bool {
        self.spec_tag() == TAG_FLOAT
    }

    /// The integer value with the given number.
    pub open spec fn of_int(i: i32) -> Value {
        Value(word_of(TAG_INTEGER, int_payload(i)))
    }

    pub open spec fn byte_value(b: u8) -> Value {
        Value(word_of(TAG_BYTE, b as u64))
    }

    pub open spec fn float_value(bits: u32) -> Value {
        Value(word_of(TAG_FLOAT, bits as u64))
    }

    pub open spec fn reference_value(tag: u64, handle: u64) -> Value {
        Value(word_of(tag, handle))
    }

    /// The null value: the word with all bits zero.
    pub fn null() -> (r: Value)
        ensures
            r.0 == 0,
            r.spec_tag() == TAG_NULL,
    {
        proof {
            lemma_word_of(0, 0);
        }
        Value(0)
    }

    pub fn tag(&self) -> (r: u64)
        ensures
            r == self.spec_tag(),
            r < 16,
    {
        proof {
            lemma_tag_bound(self.0);
        }
        self.0 >> TAG_SHIFT
    }

    /// The payload: the word without its tag.
    pub fn raw(&self) -> (r: u64)
        ensures
            r == self.spec_payload(),
            r <= PAYLOAD_MASK,
    {
        proof {
            lemma_tag_bound(self.0);
        }
        self.0 & PAYLOAD_MASK
    }

    /// The whole word, to be written in place.
    pub fn raw_mut(&mut self) -> (r: &mut u64)
        ensures
            *r == old(self).0,
            final(self).0 == *final(r),
    {
        &mut self.0
    }

    pub fn is_not_null(&self) -> (r: bool)
        ensures
            r == (self.0 != 0),
    {
        self.0 != 0
    }

    pub fn new(tag: u64, payload: u64) -> (r: Value)
        requires
            tag < 16,
            payload <= PAYLOAD_MASK,
        ensures
            r.0 == word_of(tag, payload),
            r.spec_tag() == tag,
            r.spec_payload() == payload,
    {
        proof {
            lemma_word_of(tag, payload);
        }
        Value((tag << TAG_SHIFT) | payload)
    }

    /// A heap reference with the given tag and handle.
    pub fn mk_reference(tag: u64, handle: u64) -> (r: Value)
        requires
            is_heap_tag(tag),
            handle <= PAYLOAD_MASK,
        ensures
            r == Value::reference_value(tag, handle),
            r.spec_tag() == tag,
            r.spec_payload() == handle,
            r.is_heap(),
    {
        Value::new(tag, handle)
    }

    pub fn mk_byte(byte: u8) -> (r: Value)
        ensures
            r == Value::byte_value(byte),
            r.spec_tag() == TAG_BYTE,
            r.spec_byte() == byte,
    {
        proof {
            lemma_byte_payload(byte);
        }
        Value::new(TAG_BYTE, byte as u64)
    }

    pub fn mk_integer(integer: i32) -> (r: Value)
        ensures
            r == Value::of_int(integer),
            r.spec_tag() == TAG_INTEGER,
            r.spec_integer() == integer,
    {
        proof {
            lemma_int_payload(integer);
        }
        Value::new(TAG_INTEGER, (integer as u32) as u64)
    }

    /// A float value from its IEEE-754 binary32 bit pattern.
    pub fn mk_float_bits(bits: u32) -> (r: Value)
        ensures
            r == Value::float_value(bits),
            r.spec_tag() == TAG_FLOAT,
            r.spec_float_bits() == bits,
    {
        proof {
            lemma_float_payload(bits);
        }
        Value::new(TAG_FLOAT, bits as u64)
    }

    pub fn byte(&self) -> (r: u8)
        ensures
            r == self.spec_byte(),
    {
        (self.0 & 0xFF) as u8
    }

    pub fn integer(&self) -> (r: i32)
        ensures
            r == self.spec_integer(),
    {
        ((self.0 & 0xFFFF_FFFF) as u32) as i32
    }

    /// The IEEE-754 binary32 bit pattern of a float value.
    pub fn float_bits(&self) -> (r: u32)
        ensures
            r == self.spec_float_bits(),
    {
        (self.0 & 0xFFFF_FFFF) as u32
    }

    /// The heap handle of a reference value.
    pub fn reference(&self) -> (r: u64)
        ensures
            r == self.spec_payload(),
            r <= PAYLOAD_MASK,
    {
        self.raw()
    }

    /// The byte of a byte value; any other tag is a type mismatch.
    pub fn as_byte(&self) -> (r: Result<u8, Error>)
        ensures
            self.is_byte() ==> r == Ok::<u8, Error>(self.spec_byte()),
            !self.is_byte() ==> r == Err::<u8, Error>(Error::TypeMismatch),
    {
        if self.tag() == TAG_BYTE {
            Ok(self.byte())
        } else {
            Err(Error::TypeMismatch)
        }
    }

    /// The number of an integer value; any other tag is a type mismatch.
    pub fn as_integer(&self) -> (r: Result<i32, Error>)
        ensures
            self.is_int() ==> r == Ok::<i32, Error>(self.spec_integer()),
            !self.is_int() ==> r == Err::<i32, Error>(Error::TypeMismatch),
    {
        if self.tag() == TAG_INTEGER {
            Ok(self.integer())
        } else {
            Err(Error::TypeMismatch)
        }
    }

    /// The bit pattern of a float value; any other tag is a type mismatch.
    pub fn as_float_bits(&self) -> (r: Result<u32, Error>)
        ensures
            self.is_float() ==> r == Ok::<u32, Error>(self.spec_float_bits()),
            !self.is_float() ==> r == Err::<u32, Error>(Error::TypeMismatch),
    {
        if self.tag() == TAG_FLOAT {
            Ok(self.float_bits())
        } else {
            Err(Error::TypeMismatch)
        }
    }

    /// The handle of a reference; any other tag is a type mismatch.
    pub fn as_reference(&self) -> (r: Result<u64, Error>)
        ensures
            self.is_heap() ==> r == Ok::<u64, Error>(self.spec_payload()),
            !self.is_heap() ==> r == Err::<u64, Error>(Error::TypeMismatch),
    {
        let t = self.tag();
        if t >= TAG_STRING && t <= TAG_CLASS {
            Ok(self.reference())
        } else {
            Err(Error::TypeMismatch)
        }
    }
}

} // verus!
