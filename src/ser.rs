//! Writing structured values as BESS bytes.

use vstd::bytes::*;
use vstd::prelude::*;
use vstd::string::StringSliceAdditionalSpecFns;

use crate::error::{Error, Result};

pub use crate::to_bytes;

verus! {

broadcast use vstd::string::group_string_axioms;

/// The wire form of a boolean: one byte, 0 or 1.
pub open spec fn bool_bytes(v: bool) -> Seq<u8> {
    seq![if v { 1u8 } else { 0u8 }]
}

/// The wire form of a variant index: the narrowest of 8, 16 or 32 bits that
/// holds it.
pub open spec fn variant_tag(index: u32) -> Seq<u8> {
    if index <= 0xff {
        seq![index as u8]
    } else if index <= 0xffff {
        spec_u16_to_le_bytes(index as u16)
    } else {
        spec_u32_to_le_bytes(index)
    }
}

/// The wire forms of `items`, one after another, with no count in front.
pub open spec fn encode_all<T: Encode>(items: Seq<T>) -> Seq<u8>
    decreases items.len(),
{
    if items.len() == 0 {
        Seq::empty()
    } else {
        items[0].spec_encode() + encode_all(items.skip(1))
    }
}

/// A value with a wire form of its own.
pub trait Encode {
    /// The bytes that encode this value.
    spec fn spec_encode(&self) -> Seq<u8>;

    /// Appends the wire form of this value to `ser`.
    fn encode(&self, ser: &mut Serializer)
        ensures
            final(ser)@ == old(ser)@ + self.spec_encode(),
    ;
}

/// An output buffer that structured values are written to, one shape at a
/// time.
#[derive(Debug)]
pub struct Serializer {
    output: Vec<u8>,
}

impl View for Serializer {
    type V = Seq<u8>;

    closed spec fn view(&self) -> Seq<u8> {
        self.output@
    }
}

impl Serializer {
    /// Constructs a `Serializer` with nothing written yet.
    pub fn new() -> (r: Self)
        ensures
            r@ == Seq::<u8>::empty(),
    {
        Serializer { output: Vec::new() }
    }

    /// The bytes written so far.
    pub fn into_bytes(self) -> (r: Vec<u8>)
        ensures
            r@ == self@,
    {
        self.output
    }

    /// Writes a raw byte span; its length is not written.
    pub fn serialize_bytes(&mut self, v: &[u8])
        ensures
            final(self)@ == old(self)@ + v@,
    {
        let ghost start = self.output@;
        let mut i: usize = 0;
        while i < v.len()
            invariant
                i <= v@.len(),
                self.output@ == start + v@.take(i as int),
            decreases v@.len() - i,
        {
            self.output.push(v[i]);
            i = i + 1;
            assert(self.output@ =~= start + v@.take(i as int));
        }
        assert(v@.take(i as int) =~= v@);
    }

    /// Writes text as its UTF-8 bytes; its length is not written.
    pub fn serialize_str(&mut self, v: &str)
        ensures
            final(self)@ == old(self)@ + v.spec_bytes(),
    {
        self.serialize_bytes(v.as_bytes());
    }

    pub fn serialize_bool(&mut self, v: bool)
        ensures
            final(self)@ == old(self)@ + bool_bytes(v),
    {
        let b: u8 = if v { 1 } else { 0 };
        self.output.push(b);
    }

    pub fn serialize_u8(&mut self, v: u8)
        ensures
            final(self)@ == old(self)@ + seq![v],
    {
        self.output.push(v);
    }

    pub fn serialize_u16(&mut self, v: u16)
        ensures
            final(self)@ == old(self)@ + spec_u16_to_le_bytes(v),
    {
        let b = u16_to_le_bytes(v);
        self.serialize_bytes(b.as_slice());
    }

    pub fn serialize_u32(&mut self, v: u32)
        ensures
            final(self)@ == old(self)@ + spec_u32_to_le_bytes(v),
    {
        let b = u32_to_le_bytes(v);
        self.serialize_bytes(b.as_slice());
    }

    pub fn serialize_u64(&mut self, v: u64)
        ensures
            final(self)@ == old(self)@ + spec_u64_to_le_bytes(v),
    {
        let b = u64_to_le_bytes(v);
        self.serialize_bytes(b.as_slice());
    }

    pub fn serialize_i8(&mut self, v: i8)
        ensures
            final(self)@ == old(self)@ + seq![v as u8],
    {
        self.serialize_u8(v as u8);
    }

    pub fn serialize_i16(&mut self, v: i16)
        ensures
            final(self)@ == old(self)@ + spec_u16_to_le_bytes(v as u16),
    {
        self.serialize_u16(v as u16);
    }

    pub fn serialize_i32(&mut self, v: i32)
        ensures
            final(self)@ == old(self)@ + spec_u32_to_le_bytes(v as u32),
    {
        self.serialize_u32(v as u32);
    }

    pub fn serialize_i64(&mut self, v: i64)
        ensures
            final(self)@ == old(self)@ + spec_u64_to_le_bytes(v as u64),
    {
        self.serialize_u64(v as u64);
    }

    /// Writes the index of a variant, in the narrowest width that holds it.
    /// A variant's payload, if any, follows.
    pub fn serialize_variant(&mut self, index: u32)
        ensures
            final(self)@ == old(self)@ + variant_tag(index),
    {
        if index <= 0xff {
            self.serialize_u8(index as u8);
        } else if index <= 0xffff {
            self.serialize_u16(index as u16);
        } else {
            self.serialize_u32(index);
        }
    }

    /// Writes each item in order, with no count in front.
    pub fn serialize_seq<T: Encode>(&mut self, items: &[T])
        ensures
            final(self)@ == old(self)@ + encode_all(items@),
    {
        let ghost start = self@;
        let mut i: usize = 0;
        assert(items@.skip(0) =~= items@);
        while i < items.len()
            invariant
                i <= items@.len(),
                self@ + encode_all(items@.skip(i as int)) == start + encode_all(items@),
            decreases items@.len() - i,
        {
            let ghost before = self@;
            let ghost rest = items@.skip(i as int);
            assert(rest.skip(1) =~= items@.skip(i + 1));
            assert(rest[0] == items@[i as int]);
            items[i].encode(self);
            assert(before + encode_all(rest) =~= self@ + encode_all(items@.skip(i + 1)));
            i = i + 1;
        }
        assert(items@.skip(i as int) =~= Seq::<T>::empty());
        assert(self@ + Seq::<u8>::empty() =~= self@);
    }

    /// A single Unicode scalar has no wire form: nothing is written.
    pub fn serialize_char(&mut self, v: char) -> (r: Result<()>)
        ensures
            r matches Err(Error::Unsupported),
            final(self)@ == old(self)@,
    {
        Err(Error::Unsupported)
    }

    /// An absent optional value has no wire form: nothing is written.
    pub fn serialize_none(&mut self) -> (r: Result<()>)
        ensures
            r matches Err(Error::Unsupported),
            final(self)@ == old(self)@,
    {
        Err(Error::Unsupported)
    }
}

impl Encode for bool {
    open spec fn spec_encode(&self) -> Seq<u8> {
        bool_bytes(*self)
    }

    fn encode(&self, ser: &mut Serializer) {
        ser.serialize_bool(*self);
    }
}

impl Encode for u8 {
    open spec fn spec_encode(&self) -> Seq<u8> {
        seq![*self]
    }

    fn encode(&self, ser: &mut Serializer) {
        ser.serialize_u8(*self);
    }
}

impl Encode for u16 {
    open spec fn spec_encode(&self) -> Seq<u8> {
        spec_u16_to_le_bytes(*self)
    }

    fn encode(&self, ser: &mut Serializer) {
        ser.serialize_u16(*self);
    }
}

impl Encode for u32 {
    open spec fn spec_encode(&self) -> Seq<u8> {
        spec_u32_to_le_bytes(*self)
    }

    fn encode(&self, ser: &mut Serializer) {
        ser.serialize_u32(*self);
    }
}

impl Encode for u64 {
    open spec fn spec_encode(&self) -> Seq<u8> {
        spec_u64_to_le_bytes(*self)
    }

    fn encode(&self, ser: &mut Serializer) {
        ser.serialize_u64(*self);
    }
}

impl Encode for i8 {
    open spec fn spec_encode(&self) -> Seq<u8> {
        seq![*self as u8]
    }

    fn encode(&self, ser: &mut Serializer) {
        ser.serialize_i8(*self);
    }
}

impl Encode for i16 {
    open spec fn spec_encode(&self) -> Seq<u8> {
        spec_u16_to_le_bytes(*self as u16)
    }

    fn encode(&self, ser: &mut Serializer) {
        ser.serialize_i16(*self);
    }
}

impl Encode for i32 {
    open spec fn spec_encode(&self) -> Seq<u8> {
        spec_u32_to_le_bytes(*self as u32)
    }

    fn encode(&self, ser: &mut Serializer) {
        ser.serialize_i32(*self);
    }
}

impl Encode for i64 {
    open spec fn spec_encode(&self) -> Seq<u8> {
        spec_u64_to_le_bytes(*self as u64)
    }

    fn encode(&self, ser: &mut Serializer) {
        ser.serialize_i64(*self);
    }
}

impl<const N: usize> Encode for [u8; N] {
    open spec fn spec_encode(&self) -> Seq<u8> {
        self@
    }

    fn encode(&self, ser: &mut Serializer) {
        let bytes: &[u8] = self.as_slice();
        proof {
            assert(bytes@ == self@);
            assert(self.spec_encode() == self@);
        }
        ser.serialize_bytes(bytes);
    }
}

} // verus!
