//! Reading structured values back from BESS bytes.

use vstd::bytes::*;
use vstd::prelude::*;
use vstd::string::StringSliceAdditionalSpecFns;
use vstd::utf8::*;

use crate::error::{Error, Fault, Result};

pub use crate::from_bytes;
use crate::ser::{bool_bytes, Encode};

verus! {

broadcast use vstd::string::group_string_axioms;

/// A shape whose wire form has the same width for every value, and names
/// one value only.
pub trait FixedWidth: Encode + Sized {
    /// The number of bytes that every value of this shape occupies.
    spec fn width() -> nat;

    /// Every wire form of this shape has its width.
    proof fn lemma_width(self)
        ensures
            self.spec_encode().len() == Self::width(),
    ;

    /// No two values share a wire form.
    proof fn lemma_injective(a: Self, b: Self)
        requires
            a.spec_encode() == b.spec_encode(),
        ensures
            a == b,
    ;
}

/// A shape that can be read back from its wire form.
pub trait Decode: FixedWidth {
    /// Reads one value off the front of `de`.
    fn decode(de: &mut Deserializer) -> (r: Result<Self>)
        ensures
            decoded(decode_spec::<Self>(old(de)@), r, old(de)@, final(de)@),
    ;
}

/// What reading a `T` off the front of `s` gives: the value whose wire form
/// `s` begins with, and the bytes it took.
pub open spec fn decode_spec<T: FixedWidth>(s: Seq<u8>) -> Result<(T, nat), Fault> {
    let w = T::width();
    if s.len() < w {
        Err(Fault::TooShort)
    } else if exists|v: T| v.spec_encode() == s.take(w as int) {
        Ok((choose|v: T| v.spec_encode() == s.take(w as int), w))
    } else {
        Err(Fault::Malformed)
    }
}

/// `r` is the outcome `spec` calls for, and `after` what is left of
/// `before` once a value was read.
pub open spec fn decoded<T>(
    spec: Result<(T, nat), Fault>,
    r: Result<T>,
    before: Seq<u8>,
    after: Seq<u8>,
) -> bool {
    match spec {
        Ok((v, n)) => r == Ok::<T, Error>(v) && n <= before.len() && after == before.skip(n as int),
        Err(f) => r matches Err(e) && f.reported_by(e),
    }
}

/// `v` is what a `T` decoder reads off `s`, once `s` is known to begin with
/// the wire form of `v`.
pub proof fn lemma_decode_spec<T: FixedWidth>(s: Seq<u8>, v: T)
    requires
        s.take(v.spec_encode().len() as int) == v.spec_encode(),
        v.spec_encode().len() <= s.len(),
    ensures
        decode_spec::<T>(s) == Ok::<(T, nat), Fault>((v, T::width())),
{
    v.lemma_width();
    let c = choose|c: T| c.spec_encode() == s.take(T::width() as int);
    T::lemma_injective(c, v);
}

/// Equal byte sequences that each begin with a value of one fixed-width
/// shape begin with the same value, and go on with the same bytes.
pub proof fn lemma_split<T: FixedWidth>(a: T, ra: Seq<u8>, b: T, rb: Seq<u8>)
    requires
        a.spec_encode() + ra == b.spec_encode() + rb,
    ensures
        a == b,
        ra == rb,
{
    a.lemma_width();
    b.lemma_width();
    let w = T::width() as int;
    assert((a.spec_encode() + ra).take(w) =~= a.spec_encode());
    assert((b.spec_encode() + rb).take(w) =~= b.spec_encode());
    T::lemma_injective(a, b);
    assert((a.spec_encode() + ra).skip(w) =~= ra);
    assert((b.spec_encode() + rb).skip(w) =~= rb);
}

/// Where every `R` holds its field `field` at `off`, bytes that hold no `T`
/// at `off` hold no `R`.
pub proof fn lemma_field_fails<R: FixedWidth, T: FixedWidth>(
    s: Seq<u8>,
    off: int,
    field: spec_fn(R) -> T,
)
    requires
        0 <= off,
        off + T::width() <= R::width() <= s.len(),
        forall|r: R| #[trigger]
            r.spec_encode().subrange(off, off + T::width()) == field(r).spec_encode(),
        decode_spec::<T>(s.skip(off)) is Err,
    ensures
        decode_spec::<R>(s) == Err::<(R, nat), Fault>(Fault::Malformed),
{
    let w = T::width() as int;
    assert forall|r: R| r.spec_encode() != s.take(R::width() as int) by {
        if r.spec_encode() == s.take(R::width() as int) {
            let f = field(r);
            f.lemma_width();
            assert(s.skip(off).take(w) =~= r.spec_encode().subrange(off, off + w));
            lemma_decode_spec::<T>(s.skip(off), f);
        }
    }
}

/// The array that holds the first `i` bytes of `s`, and zeros after them.
pub open spec fn array_prefix<const N: usize>(s: Seq<u8>, i: nat) -> [u8; N]
    decreases i,
{
    if i == 0 {
        vstd::array::spec_array_fill_for_copy_type::<u8, N>(0)
    } else {
        vstd::array::spec_array_update(array_prefix::<N>(s, (i - 1) as nat), i - 1, s[i - 1])
    }
}

proof fn lemma_array_prefix<const N: usize>(s: Seq<u8>, i: nat)
    requires
        i <= N,
        s.len() == N,
    ensures
        array_prefix::<N>(s, i)@.len() == N,
        forall|j: int| 0 <= j < i ==> array_prefix::<N>(s, i)@[j] == s[j],
    decreases i,
{
    if i > 0 {
        lemma_array_prefix::<N>(s, (i - 1) as nat);
        let prev = array_prefix::<N>(s, (i - 1) as nat);
        assert(array_prefix::<N>(s, i)@ == prev@.update(i - 1, s[i - 1]));
    }
}

/// Any `N` bytes are a `[u8; N]`.
pub proof fn lemma_array_total<const N: usize>(s: Seq<u8>)
    requires
        s.len() >= N,
    ensures
        decode_spec::<[u8; N]>(s) is Ok,
{
    let t = s.take(N as int);
    lemma_array_prefix::<N>(t, N as nat);
    let a = array_prefix::<N>(t, N as nat);
    assert(a@ =~= t);
    lemma_decode_spec::<[u8; N]>(s, a);
}

/// Any byte is a `u8`.
pub proof fn lemma_u8_total(s: Seq<u8>)
    requires
        s.len() >= 1,
    ensures
        decode_spec::<u8>(s) == Ok::<(u8, nat), Fault>((s[0], 1)),
{
    assert(s[0].spec_encode() =~= s.take(1));
    lemma_decode_spec::<u8>(s, s[0]);
}

/// Any two bytes are a `u16`.
pub proof fn lemma_u16_total(s: Seq<u8>)
    requires
        s.len() >= 2,
    ensures
        decode_spec::<u16>(s) is Ok,
{
    lemma_auto_spec_u16_to_from_le_bytes();
    let v = spec_u16_from_le_bytes(s.take(2));
    assert(s.take(2).len() == 2);
    lemma_decode_spec::<u16>(s, v);
}

/// Any four bytes are a `u32`: the one they encode in little-endian order.
pub proof fn lemma_u32_total(s: Seq<u8>)
    requires
        s.len() >= 4,
    ensures
        decode_spec::<u32>(s) == Ok::<(u32, nat), Fault>(
            (spec_u32_from_le_bytes(s.take(4)), 4),
        ),
{
    lemma_auto_spec_u32_to_from_le_bytes();
    let v = spec_u32_from_le_bytes(s.take(4));
    assert(s.take(4).len() == 4);
    lemma_decode_spec::<u32>(s, v);
}

/// Reads a `T` that must take up all of `data`.
pub open spec fn whole_spec<T: FixedWidth>(data: Seq<u8>) -> Result<T, Fault> {
    match decode_spec::<T>(data) {
        Ok((v, n)) => if n == data.len() {
            Ok(v)
        } else {
            Err(Fault::Malformed)
        },
        Err(f) => Err(f),
    }
}

/// Reads a `T` that must take up all of `data`; bytes left over are an
/// error.
pub fn decode_whole<T: Decode>(data: &[u8]) -> (r: Result<T>)
    ensures
        match whole_spec::<T>(data@) {
            Ok(v) => r == Ok::<T, Error>(v),
            Err(f) => r matches Err(e) && f.reported_by(e),
        },
{
    let mut de = Deserializer::from_bytes(data);
    let v = T::decode(&mut de)?;
    if de.remaining() != 0 {
        return Err(malformed("trailing bytes"));
    }
    Ok(v)
}

/// What reading `count` values of `T`, one after another, off the front of
/// `s` gives: the values, and the bytes they took.
pub open spec fn decode_seq_spec<T: FixedWidth>(s: Seq<u8>, count: nat) -> Result<
    (Seq<T>, nat),
    Fault,
>
    decreases count,
{
    if count == 0 {
        Ok((Seq::empty(), 0))
    } else {
        match decode_spec::<T>(s) {
            Ok((v, n)) => match decode_seq_spec::<T>(s.skip(n as int), (count - 1) as nat) {
                Ok((vs, m)) => Ok((seq![v] + vs, n + m)),
                Err(f) => Err(f),
            },
            Err(f) => Err(f),
        }
    }
}

/// Relies on std::str::from_utf8: it succeeds exactly on valid UTF-8, and the
/// text it gives is made of the bytes it was handed.
#[verifier::external_body]
pub(crate) fn utf8_text(b: &[u8]) -> (r: Option<&str>)
    ensures
        r is Some <==> valid_utf8(b@),
        r matches Some(t) ==> t.spec_bytes() == b@,
{
    std::str::from_utf8(b).ok()
}

/// The error for bytes that hold no value of the shape being read.
pub(crate) fn malformed(what: &str) -> (e: Error)
    ensures
        e is Message,
{
    Error::Message(what.to_string())
}

/// A cursor over the input that structured values are read from, one shape
/// at a time.
#[derive(Debug)]
pub struct Deserializer<'de> {
    input: &'de [u8],
}

impl<'de> View for Deserializer<'de> {
    type V = Seq<u8>;

    closed spec fn view(&self) -> Seq<u8> {
        self.input@
    }
}

impl<'de> Deserializer<'de> {
    /// Constructs a `Deserializer` over `input`.
    pub fn from_bytes(input: &'de [u8]) -> (r: Self)
        ensures
            r@ == input@,
    {
        Deserializer { input }
    }

    /// The number of bytes not read yet.
    pub fn remaining(&self) -> (r: usize)
        ensures
            r == self@.len(),
    {
        self.input.len()
    }

    /// Pops a slice off the front of the input.
    pub fn pop(&mut self, len: usize) -> (r: &'de [u8])
        requires
            len <= old(self)@.len(),
        ensures
            r@ == old(self)@.take(len as int),
            final(self)@ == old(self)@.skip(len as int),
    {
        let (pop, rem) = self.input.split_at(len);
        self.input = rem;
        pop
    }

    /// Pops an array off the front of the input.
    pub fn pop_ref<const N: usize>(&mut self) -> (r: [u8; N])
        requires
            N <= old(self)@.len(),
        ensures
            r@ == old(self)@.take(N as int),
            final(self)@ == old(self)@.skip(N as int),
    {
        let bytes = self.pop(N);
        let mut a: [u8; N] = [0u8; N];
        let mut i: usize = 0;
        while i < N
            invariant
                i <= N,
                bytes@.len() == N,
                forall|j: int| 0 <= j < i ==> a@[j] == bytes@[j],
            decreases N - i,
        {
            a[i] = bytes[i];
            i = i + 1;
        }
        assert(a@ =~= bytes@);
        a
    }

    /// Reads a raw byte span of the given length.
    pub fn deserialize_bytes(&mut self, len: usize) -> (r: Result<&'de [u8]>)
        ensures
            len > old(self)@.len() ==> r matches Err(Error::TooShort),
            len <= old(self)@.len() ==> (r matches Ok(b) && b@ == old(self)@.take(len as int)
                && final(self)@ == old(self)@.skip(len as int)),
    {
        if len > self.input.len() {
            return Err(Error::TooShort);
        }
        Ok(self.pop(len))
    }

    /// Reads `count` values of `T`, one after another; the count itself is
    /// not on the wire.
    pub fn deserialize_seq<T: Decode>(&mut self, count: usize) -> (r: Result<Vec<T>>)
        ensures
            match decode_seq_spec::<T>(old(self)@, count as nat) {
                Ok((vs, n)) => r matches Ok(v) && v@ == vs && n <= old(self)@.len()
                    && final(self)@ == old(self)@.skip(n as int),
                Err(f) => r matches Err(e) && f.reported_by(e),
            },
    {
        let ghost s0 = self@;
        let ghost mut k: nat = 0;
        let mut out: Vec<T> = Vec::new();
        let mut i: usize = 0;
        proof {
            assert(s0.skip(0) =~= s0);
            if decode_seq_spec::<T>(s0, count as nat) is Ok {
                let vs = decode_seq_spec::<T>(s0, count as nat)->Ok_0.0;
                assert(out@ + vs =~= vs);
            }
        }
        while i < count
            invariant
                i <= count,
                s0 == old(self)@,
                k <= s0.len(),
                self@ == s0.skip(k as int),
                decode_seq_spec::<T>(s0, count as nat) == match decode_seq_spec::<T>(
                    self@,
                    (count - i) as nat,
                ) {
                    Ok((vs, m)) => Ok::<(Seq<T>, nat), Fault>((out@ + vs, k + m)),
                    Err(f) => Err(f),
                },
            decreases count - i,
        {
            let ghost cur = self@;
            let v = T::decode(self)?;
            proof {
                let n = decode_spec::<T>(cur)->Ok_0.1;
                assert(self@ =~= s0.skip((k + n) as int));
                let rest = decode_seq_spec::<T>(self@, (count - i - 1) as nat);
                if rest is Ok {
                    let vs = rest->Ok_0.0;
                    assert(out@ + (seq![v] + vs) =~= out@.push(v) + vs);
                }
                k = k + n;
            }
            out.push(v);
            i = i + 1;
        }
        proof {
            assert(out@ + Seq::<T>::empty() =~= out@);
        }
        Ok(out)
    }

    /// Reads UTF-8 text that takes the given number of bytes.
    pub fn deserialize_str(&mut self, len: usize) -> (r: Result<String>)
        ensures
            len > old(self)@.len() ==> r matches Err(Error::TooShort),
            len <= old(self)@.len() && !valid_utf8(old(self)@.take(len as int)) ==> r matches Err(
                Error::Message(_),
            ),
            len <= old(self)@.len() && valid_utf8(old(self)@.take(len as int)) ==> (r matches Ok(t)
                && encode_utf8(t@) == old(self)@.take(len as int) && t@ == decode_utf8(
                old(self)@.take(len as int),
            ) && final(self)@ == old(self)@.skip(len as int)),
    {
        if len > self.input.len() {
            return Err(Error::TooShort);
        }
        let bytes = self.pop(len);
        match utf8_text(bytes) {
            Some(text) => {
                proof {
                    encode_utf8_decode_utf8(text@);
                }
                Ok(text.to_string())
            },
            None => Err(malformed("invalid UTF-8 text")),
        }
    }

    /// Reads the index of a variant of an enum with `count` variants. Up to
    /// 256 variants every index is written in one byte; beyond that the width
    /// of an index on the wire depends on its value, so it cannot be read.
    pub fn deserialize_variant(&mut self, count: u32) -> (r: Result<u32>)
        ensures
            count > 256 ==> r matches Err(Error::Unsupported),
            count <= 256 && old(self)@.len() == 0 ==> r matches Err(Error::TooShort),
            count <= 256 && old(self)@.len() > 0 && old(self)@[0] >= count ==> r matches Err(
                Error::Message(_),
            ),
            count <= 256 && old(self)@.len() > 0 && old(self)@[0] < count ==> r == Ok::<u32, Error>(
                old(self)@[0] as u32,
            ) && final(self)@ == old(self)@.skip(1),
    {
        if count > 256 {
            return Err(Error::Unsupported);
        }
        if self.input.len() == 0 {
            return Err(Error::TooShort);
        }
        let b = self.pop(1);
        let index = b[0] as u32;
        if index >= count {
            return Err(malformed("invalid variant index"));
        }
        Ok(index)
    }

    /// A single Unicode scalar has no wire form.
    pub fn deserialize_char(&mut self) -> (r: Result<char>)
        ensures
            r matches Err(Error::Unsupported),
            final(self)@ == old(self)@,
    {
        Err(Error::Unsupported)
    }

    /// An optional value has no wire form.
    pub fn deserialize_option(&mut self) -> (r: Result<()>)
        ensures
            r matches Err(Error::Unsupported),
            final(self)@ == old(self)@,
    {
        Err(Error::Unsupported)
    }

    /// The wire form does not describe itself, so a value of unknown shape
    /// cannot be read.
    pub fn deserialize_any(&mut self) -> (r: Result<()>)
        ensures
            r matches Err(Error::Unsupported),
            final(self)@ == old(self)@,
    {
        Err(Error::Unsupported)
    }
}

impl FixedWidth for bool {
    open spec fn width() -> nat {
        1
    }

    proof fn lemma_width(self) {
        assert(Self::width() == 1);
    }

    proof fn lemma_injective(a: Self, b: Self) {
        assert(a.spec_encode()[0] == b.spec_encode()[0]);
        assert(a.spec_encode()[0] == if a { 1u8 } else { 0u8 });
        assert(b.spec_encode()[0] == if b { 1u8 } else { 0u8 });
    }
}

impl Decode for bool {
    fn decode(de: &mut Deserializer) -> (r: Result<Self>) {
        let ghost s = de@;
        if de.remaining() < 1 {
            return Err(Error::TooShort);
        }
        let b = de.pop(1);
        if b[0] == 0 {
            proof {
                assert(false.spec_encode() =~= s.take(1));
                lemma_decode_spec::<bool>(s, false);
            }
            Ok(false)
        } else if b[0] == 1 {
            proof {
                assert(true.spec_encode() =~= s.take(1));
                lemma_decode_spec::<bool>(s, true);
            }
            Ok(true)
        } else {
            assert forall|v: bool| v.spec_encode() != s.take(1) by {
                assert(v.spec_encode()[0] != s.take(1)[0]);
            }
            Err(malformed("invalid boolean"))
        }
    }
}

impl FixedWidth for u8 {
    open spec fn width() -> nat {
        1
    }

    proof fn lemma_width(self) {
        assert(Self::width() == 1);
    }

    proof fn lemma_injective(a: Self, b: Self) {
        assert(a.spec_encode()[0] == b.spec_encode()[0]);
        assert(a.spec_encode()[0] == a);
        assert(b.spec_encode()[0] == b);
    }
}

impl Decode for u8 {
    fn decode(de: &mut Deserializer) -> (r: Result<Self>) {
        let ghost s = de@;
        if de.remaining() < 1 {
            return Err(Error::TooShort);
        }
        let b = de.pop(1);
        let v = b[0];
        proof {
            assert(v.spec_encode() =~= s.take(1));
            lemma_decode_spec::<u8>(s, v);
        }
        Ok(v)
    }
}

impl FixedWidth for u16 {
    open spec fn width() -> nat {
        2
    }

    proof fn lemma_width(self) {
        assert(Self::width() == 2);
        lemma_auto_spec_u16_to_from_le_bytes();
    }

    proof fn lemma_injective(a: Self, b: Self) {
        lemma_auto_spec_u16_to_from_le_bytes();
        assert(spec_u16_to_le_bytes(a).len() == 2);
        assert(spec_u16_to_le_bytes(b).len() == 2);
        assert(spec_u16_from_le_bytes(spec_u16_to_le_bytes(a)) == a);
        assert(spec_u16_from_le_bytes(spec_u16_to_le_bytes(b)) == b);
    }
}

impl Decode for u16 {
    fn decode(de: &mut Deserializer) -> (r: Result<Self>) {
        let ghost s = de@;
        if de.remaining() < 2 {
            return Err(Error::TooShort);
        }
        let b = de.pop(2);
        let v = u16_from_le_bytes(b);
        proof {
            lemma_auto_spec_u16_to_from_le_bytes();
            lemma_decode_spec::<u16>(s, v);
        }
        Ok(v)
    }
}

impl FixedWidth for u32 {
    open spec fn width() -> nat {
        4
    }

    proof fn lemma_width(self) {
        assert(Self::width() == 4);
        lemma_auto_spec_u32_to_from_le_bytes();
    }

    proof fn lemma_injective(a: Self, b: Self) {
        lemma_auto_spec_u32_to_from_le_bytes();
        assert(spec_u32_to_le_bytes(a).len() == 4);
        assert(spec_u32_to_le_bytes(b).len() == 4);
        assert(spec_u32_from_le_bytes(spec_u32_to_le_bytes(a)) == a);
        assert(spec_u32_from_le_bytes(spec_u32_to_le_bytes(b)) == b);
    }
}

impl Decode for u32 {
    fn decode(de: &mut Deserializer) -> (r: Result<Self>) {
        let ghost s = de@;
        if de.remaining() < 4 {
            return Err(Error::TooShort);
        }
        let b = de.pop(4);
        let v = u32_from_le_bytes(b);
        proof {
            lemma_auto_spec_u32_to_from_le_bytes();
            lemma_decode_spec::<u32>(s, v);
        }
        Ok(v)
    }
}

impl FixedWidth for u64 {
    open spec fn width() -> nat {
        8
    }

    proof fn lemma_width(self) {
        assert(Self::width() == 8);
        lemma_auto_spec_u64_to_from_le_bytes();
    }

    proof fn lemma_injective(a: Self, b: Self) {
        lemma_auto_spec_u64_to_from_le_bytes();
        assert(spec_u64_to_le_bytes(a).len() == 8);
        assert(spec_u64_to_le_bytes(b).len() == 8);
        assert(spec_u64_from_le_bytes(spec_u64_to_le_bytes(a)) == a);
        assert(spec_u64_from_le_bytes(spec_u64_to_le_bytes(b)) == b);
    }
}

impl Decode for u64 {
    fn decode(de: &mut Deserializer) -> (r: Result<Self>) {
        let ghost s = de@;
        if de.remaining() < 8 {
            return Err(Error::TooShort);
        }
        let b = de.pop(8);
        let v = u64_from_le_bytes(b);
        proof {
            lemma_auto_spec_u64_to_from_le_bytes();
            lemma_decode_spec::<u64>(s, v);
        }
        Ok(v)
    }
}

impl FixedWidth for i8 {
    open spec fn width() -> nat {
        1
    }

    proof fn lemma_width(self) {
        assert(Self::width() == 1);
    }

    proof fn lemma_injective(a: Self, b: Self) {
        assert(a.spec_encode()[0] == b.spec_encode()[0]);
        assert(a.spec_encode()[0] == a as u8);
        assert(b.spec_encode()[0] == b as u8);
        assert((a as u8) as i8 == a) by (bit_vector);
        assert((b as u8) as i8 == b) by (bit_vector);
    }
}

impl Decode for i8 {
    fn decode(de: &mut Deserializer) -> (r: Result<Self>) {
        let ghost s = de@;
        if de.remaining() < 1 {
            return Err(Error::TooShort);
        }
        let b = de.pop(1);
        let u = b[0];
        let v = u as i8;
        proof {
            assert((u as i8) as u8 == u) by (bit_vector);
            assert(v.spec_encode() =~= s.take(1));
            lemma_decode_spec::<i8>(s, v);
        }
        Ok(v)
    }
}

impl FixedWidth for i16 {
    open spec fn width() -> nat {
        2
    }

    proof fn lemma_width(self) {
        assert(Self::width() == 2);
        lemma_auto_spec_u16_to_from_le_bytes();
    }

    proof fn lemma_injective(a: Self, b: Self) {
        lemma_auto_spec_u16_to_from_le_bytes();
        assert(spec_u16_to_le_bytes(a as u16).len() == 2);
        assert(spec_u16_to_le_bytes(b as u16).len() == 2);
        assert(spec_u16_from_le_bytes(spec_u16_to_le_bytes(a as u16)) == a as u16);
        assert(spec_u16_from_le_bytes(spec_u16_to_le_bytes(b as u16)) == b as u16);
        assert((a as u16) as i16 == a) by (bit_vector);
        assert((b as u16) as i16 == b) by (bit_vector);
    }
}

impl Decode for i16 {
    fn decode(de: &mut Deserializer) -> (r: Result<Self>) {
        let ghost s = de@;
        if de.remaining() < 2 {
            return Err(Error::TooShort);
        }
        let b = de.pop(2);
        let u = u16_from_le_bytes(b);
        let v = u as i16;
        proof {
            assert((u as i16) as u16 == u) by (bit_vector);
            lemma_auto_spec_u16_to_from_le_bytes();
            lemma_decode_spec::<i16>(s, v);
        }
        Ok(v)
    }
}

impl FixedWidth for i32 {
    open spec fn width() -> nat {
        4
    }

    proof fn lemma_width(self) {
        assert(Self::width() == 4);
        lemma_auto_spec_u32_to_from_le_bytes();
    }

    proof fn lemma_injective(a: Self, b: Self) {
        lemma_auto_spec_u32_to_from_le_bytes();
        assert(spec_u32_to_le_bytes(a as u32).len() == 4);
        assert(spec_u32_to_le_bytes(b as u32).len() == 4);
        assert(spec_u32_from_le_bytes(spec_u32_to_le_bytes(a as u32)) == a as u32);
        assert(spec_u32_from_le_bytes(spec_u32_to_le_bytes(b as u32)) == b as u32);
        assert((a as u32) as i32 == a) by (bit_vector);
        assert((b as u32) as i32 == b) by (bit_vector);
    }
}

impl Decode for i32 {
    fn decode(de: &mut Deserializer) -> (r: Result<Self>) {
        let ghost s = de@;
        if de.remaining() < 4 {
            return Err(Error::TooShort);
        }
        let b = de.pop(4);
        let u = u32_from_le_bytes(b);
        let v = u as i32;
        proof {
            assert((u as i32) as u32 == u) by (bit_vector);
            lemma_auto_spec_u32_to_from_le_bytes();
            lemma_decode_spec::<i32>(s, v);
        }
        Ok(v)
    }
}

impl FixedWidth for i64 {
    open spec fn width() -> nat {
        8
    }

    proof fn lemma_width(self) {
        assert(Self::width() == 8);
        lemma_auto_spec_u64_to_from_le_bytes();
    }

    proof fn lemma_injective(a: Self, b: Self) {
        lemma_auto_spec_u64_to_from_le_bytes();
        assert(spec_u64_to_le_bytes(a as u64).len() == 8);
        assert(spec_u64_to_le_bytes(b as u64).len() == 8);
        assert(spec_u64_from_le_bytes(spec_u64_to_le_bytes(a as u64)) == a as u64);
        assert(spec_u64_from_le_bytes(spec_u64_to_le_bytes(b as u64)) == b as u64);
        assert((a as u64) as i64 == a) by (bit_vector);
        assert((b as u64) as i64 == b) by (bit_vector);
    }
}

impl Decode for i64 {
    fn decode(de: &mut Deserializer) -> (r: Result<Self>) {
        let ghost s = de@;
        if de.remaining() < 8 {
            return Err(Error::TooShort);
        }
        let b = de.pop(8);
        let u = u64_from_le_bytes(b);
        let v = u as i64;
        proof {
            assert((u as i64) as u64 == u) by (bit_vector);
            lemma_auto_spec_u64_to_from_le_bytes();
            lemma_decode_spec::<i64>(s, v);
        }
        Ok(v)
    }
}

impl<const N: usize> FixedWidth for [u8; N] {
    open spec fn width() -> nat {
        N as nat
    }

    proof fn lemma_width(self) {
    }

    proof fn lemma_injective(a: Self, b: Self) {
        assert(a =~= b);
    }
}

impl<const N: usize> Decode for [u8; N] {
    fn decode(de: &mut Deserializer) -> (r: Result<Self>) {
        let ghost s = de@;
        if de.remaining() < N {
            return Err(Error::TooShort);
        }
        let v: [u8; N] = de.pop_ref();
        proof {
            lemma_decode_spec::<[u8; N]>(s, v);
        }
        Ok(v)
    }
}

} // verus!
