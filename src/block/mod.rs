//! BESS data blocks.

use vstd::bytes::*;
use vstd::prelude::*;
use vstd::slice::slice_to_vec;
use vstd::utf8::*;

pub mod core_state;
pub mod end;
pub mod info;
pub mod name;

pub use self::core_state::Core;
pub use self::end::End;
pub use self::info::Info;
pub use self::name::Name;
use crate::de::{
    decode_spec, decode_whole, lemma_decode_spec, lemma_u32_total, whole_spec, Decode,
    Deserializer, FixedWidth,
};
use crate::error::{Error, Fault, Result};
use crate::ser::{Encode, Serializer};

verus! {

/// The identifier of `NAME` blocks.
pub open spec fn name_ident() -> Seq<u8> {
    seq![0x4eu8, 0x41, 0x4d, 0x45]
}

/// The identifier of `INFO` blocks.
pub open spec fn info_ident() -> Seq<u8> {
    seq![0x49u8, 0x4e, 0x46, 0x4f]
}

/// The identifier of `CORE` blocks.
pub open spec fn core_ident() -> Seq<u8> {
    seq![0x43u8, 0x4f, 0x52, 0x45]
}

/// The identifier of `END ` blocks.
pub open spec fn end_ident() -> Seq<u8> {
    seq![0x45u8, 0x4e, 0x44, 0x20]
}

/// Blocks with this identifier have a body of a kind this library reads.
pub open spec fn is_known(ident: Seq<u8>) -> bool {
    ident == name_ident() || ident == info_ident() || ident == core_ident() || ident
        == end_ident()
}

/// Block kind identifier.
///
/// Four bytes, conventionally ASCII.
#[derive(Debug, Clone, Copy, PartialEq, Eq)]
pub struct Ident([u8; 4]);

impl View for Ident {
    type V = Seq<u8>;

    closed spec fn view(&self) -> Seq<u8> {
        self.0@
    }
}

impl Ident {
    /// Constructs a new `Ident`.
    pub fn new(value: [u8; 4]) -> (r: Self)
        ensures
            r@ == value@,
    {
        Ident(value)
    }

    /// The four bytes of this identifier.
    pub fn bytes(&self) -> (r: [u8; 4])
        ensures
            r@ == self@,
    {
        self.0
    }

    /// Whether two identifiers are the same four bytes.
    pub fn same_as(&self, other: &Ident) -> (r: bool)
        ensures
            r == (self@ == other@),
    {
        let r = self.0[0] == other.0[0] && self.0[1] == other.0[1] && self.0[2] == other.0[2]
            && self.0[3] == other.0[3];
        proof {
            if r {
                assert(self.0@ =~= other.0@);
            } else {
                assert(self.0@ != other.0@);
            }
        }
        r
    }

    /// The identifier as text, or `None` where its bytes are not UTF-8.
    pub fn to_string(&self) -> (r: String)
        ensures
            valid_utf8(self@) ==> r@ == decode_utf8(self@),
            !valid_utf8(self@) ==> r@ == "None"@,
    {
        match crate::de::utf8_text(self.0.as_slice()) {
            Some(text) => {
                proof {
                    encode_utf8_decode_utf8(text@);
                }
                text.to_string()
            },
            None => "None".to_string(),
        }
    }

    pub proof fn lemma_len(self)
        ensures
            self@.len() == 4,
    {
    }
}

impl Encode for Ident {
    open spec fn spec_encode(&self) -> Seq<u8> {
        self@
    }

    fn encode(&self, ser: &mut Serializer) {
        self.0.encode(ser);
    }
}

impl FixedWidth for Ident {
    open spec fn width() -> nat {
        4
    }

    proof fn lemma_width(self) {
        assert(Self::width() == 4);
    }

    proof fn lemma_injective(a: Self, b: Self) {
        assert(a.0 =~= b.0);
    }
}

impl Decode for Ident {
    fn decode(de: &mut Deserializer) -> (r: Result<Self>) {
        let ghost s = de@;
        if de.remaining() < 4 {
            return Err(Error::TooShort);
        }
        let v = Ident(de.pop_ref());
        proof {
            lemma_decode_spec::<Ident>(s, v);
        }
        Ok(v)
    }
}

/// Header preceding block data.
#[derive(Debug, Clone, Copy)]
pub struct Header {
    /// Unique identifier specifying the block type.
    ident: Ident,
    /// Length of the block, in bytes, excluding this header.
    len: u32,
}

impl View for Header {
    type V = (Seq<u8>, u32);

    closed spec fn view(&self) -> (Seq<u8>, u32) {
        (self.ident@, self.len)
    }
}

impl Header {
    /// The identifier of the block kind.
    pub fn ident(&self) -> (r: &Ident)
        ensures
            r@ == self@.0,
    {
        &self.ident
    }

    /// The length of the body, in bytes.
    pub fn len(&self) -> (r: u32)
        ensures
            r == self@.1,
    {
        self.len
    }
}

impl Encode for Header {
    open spec fn spec_encode(&self) -> Seq<u8> {
        self@.0 + spec_u32_to_le_bytes(self@.1)
    }

    fn encode(&self, ser: &mut Serializer) {
        self.ident.encode(ser);
        self.len.encode(ser);
        proof {
            assert(old(ser)@ + self.ident@ + self.len.spec_encode() =~= old(ser)@
                + self.spec_encode());
        }
    }
}

impl FixedWidth for Header {
    open spec fn width() -> nat {
        8
    }

    proof fn lemma_width(self) {
        assert(Self::width() == 8);
        self.len.lemma_width();
    }

    proof fn lemma_injective(a: Self, b: Self) {
        crate::de::lemma_split::<Ident>(a.ident, a.len.spec_encode(), b.ident, b.len.spec_encode());
        u32::lemma_injective(a.len, b.len);
    }
}

impl Header {
    /// Any eight bytes are a `Header`.
    proof fn lemma_total(s: Seq<u8>)
        requires
            s.len() >= 8,
        ensures
            decode_spec::<Header>(s) is Ok,
    {
        crate::de::lemma_array_total::<4>(s);
        let a = decode_spec::<[u8; 4]>(s)->Ok_0.0;
        lemma_auto_spec_u32_to_from_le_bytes();
        let b = s.subrange(4, 8);
        assert(b.len() == 4);
        let v = Header { ident: Ident(a), len: spec_u32_from_le_bytes(b) };
        assert(v.spec_encode() =~= s.take(8));
        lemma_decode_spec::<Header>(s, v);
    }
}

impl Decode for Header {
    fn decode(de: &mut Deserializer) -> (r: Result<Self>) {
        let ghost s = de@;
        if de.remaining() < 8 {
            return Err(Error::TooShort);
        }
        proof {
            assert(Self::width() == 8);
        }
        let ident = Ident(de.pop_ref());
        let ghost s1 = de@;
        proof {
            lemma_u32_total(s1);
        }
        let len = u32::decode(de)?;
        let v = Header { ident, len };
        proof {
            len.lemma_width();
            assert(v.spec_encode() =~= s.take(8));
            lemma_decode_spec::<Header>(s, v);
            assert(de@ =~= s.skip(8));
        }
        Ok(v)
    }
}

/// The model of a block body: what it holds, without the header that is
/// derived from it.
pub enum BodyView {
    Name(Seq<char>),
    Info(Info),
    Core(Core),
    End,
    /// A body of a kind this library does not read: its identifier and raw
    /// bytes.
    Unknown(Seq<u8>, Seq<u8>),
}

impl BodyView {
    /// The identifier of the block that holds this body.
    pub open spec fn ident(self) -> Seq<u8> {
        match self {
            BodyView::Name(_) => name_ident(),
            BodyView::Info(_) => info_ident(),
            BodyView::Core(_) => core_ident(),
            BodyView::End => end_ident(),
            BodyView::Unknown(ident, _) => ident,
        }
    }

    /// The wire form of this body.
    pub open spec fn bytes(self) -> Seq<u8> {
        match self {
            BodyView::Name(text) => encode_utf8(text),
            BodyView::Info(info) => info.spec_encode(),
            BodyView::Core(core) => core.spec_encode(),
            BodyView::End => Seq::empty(),
            BodyView::Unknown(_, data) => data,
        }
    }

    /// The body fits a block: its length fits the header, and an unknown
    /// body does not claim a known identifier.
    pub open spec fn wf(self) -> bool {
        &&& self.bytes().len() <= u32::MAX
        &&& self is Unknown ==> self.ident().len() == 4 && !is_known(self.ident())
    }

    /// The wire form of the whole block: identifier, length, body.
    pub open spec fn encoding(self) -> Seq<u8> {
        self.ident() + spec_u32_to_le_bytes(self.bytes().len() as u32) + self.bytes()
    }
}

/// What the body of a block with identifier `ident` and body bytes `data`
/// reads as.
pub open spec fn parse_body(ident: Seq<u8>, data: Seq<u8>) -> Result<BodyView, Fault> {
    if ident == name_ident() {
        if valid_utf8(data) {
            Ok(BodyView::Name(decode_utf8(data)))
        } else {
            Err(Fault::Malformed)
        }
    } else if ident == info_ident() {
        match whole_spec::<Info>(data) {
            Ok(info) => Ok(BodyView::Info(info)),
            Err(f) => Err(f),
        }
    } else if ident == core_ident() {
        match whole_spec::<Core>(data) {
            Ok(core) => Ok(BodyView::Core(core)),
            Err(f) => Err(f),
        }
    } else if ident == end_ident() {
        match whole_spec::<End>(data) {
            Ok(_) => Ok(BodyView::End),
            Err(f) => Err(f),
        }
    } else {
        Ok(BodyView::Unknown(ident, data))
    }
}

/// The body length that the header at the front of `s` declares.
pub open spec fn declared_len(s: Seq<u8>) -> int {
    spec_u32_from_le_bytes(s.subrange(4, 8)) as int
}

/// What reading one block off the front of `s` gives: its body and the
/// bytes it took.
pub open spec fn parse_block(s: Seq<u8>) -> Result<(BodyView, nat), Fault> {
    if s.len() < 8 {
        Err(Fault::TooShort)
    } else if s.len() < 8 + declared_len(s) {
        Err(Fault::TooShort)
    } else {
        match parse_body(s.take(4), s.subrange(8, 8 + declared_len(s))) {
            Ok(body) => Ok((body, (8 + declared_len(s)) as nat)),
            Err(f) => Err(f),
        }
    }
}

/// Block body containing data.
pub trait Data: Encode + Sized {
    /// The identifier of blocks of this kind.
    spec fn spec_ident() -> Seq<u8>;

    /// The model of this body.
    spec fn body_view(&self) -> BodyView;

    proof fn lemma_body_view(&self)
        ensures
            self.body_view().ident() == Self::spec_ident(),
            self.body_view().bytes() == self.spec_encode(),
    ;

    /// Gets this block kind's identifier.
    fn ident() -> (r: Ident)
        ensures
            r@ == Self::spec_ident(),
    ;

    /// Gets the length of this body's wire form.
    fn len(&self) -> (r: u32)
        ensures
            r as nat == self.spec_encode().len(),
    ;

    /// Generates the header for this body.
    fn header(&self) -> (r: Header)
        ensures
            r@.0 == Self::spec_ident(),
            r@.1 as nat == self.spec_encode().len(),
    {
        Header { ident: Self::ident(), len: self.len() }
    }

    /// Turns this value into a block body.
    fn into_body(self) -> (r: Body)
        ensures
            r@ == self.body_view(),
            r@.wf(),
    ;
}

/// The body of a block: one of the kinds this library reads, or the raw
/// bytes of another kind.
#[derive(Debug)]
pub enum Body {
    Name(Name),
    Info(Info),
    Core(Core),
    End(End),
    Unknown(Ident, Vec<u8>),
}

impl View for Body {
    type V = BodyView;

    open spec fn view(&self) -> BodyView {
        match self {
            Body::Name(name) => BodyView::Name(name@),
            Body::Info(info) => BodyView::Info(*info),
            Body::Core(core) => BodyView::Core(*core),
            Body::End(_) => BodyView::End,
            Body::Unknown(ident, data) => BodyView::Unknown(ident@, data@),
        }
    }
}

impl Body {
    /// Reads the body of a block with identifier `ident` from the whole of
    /// `data`. An identifier of no known kind keeps the bytes as they are.
    pub fn decode(ident: Ident, data: &[u8]) -> (r: Result<Body>)
        requires
            data@.len() <= u32::MAX,
        ensures
            match parse_body(ident@, data@) {
                Ok(b) => r matches Ok(body) && body@ == b,
                Err(f) => r matches Err(e) && f.reported_by(e),
            },
    {
        if ident.same_as(&Name::ident()) {
            Ok(Body::Name(Name::from_bytes(data)?))
        } else if ident.same_as(&Info::ident()) {
            Ok(Body::Info(decode_whole::<Info>(data)?))
        } else if ident.same_as(&Core::ident()) {
            Ok(Body::Core(decode_whole::<Core>(data)?))
        } else if ident.same_as(&End::ident()) {
            Ok(Body::End(decode_whole::<End>(data)?))
        } else {
            Ok(Body::Unknown(ident, slice_to_vec(data)))
        }
    }

    fn encode_body(&self, ser: &mut Serializer)
        ensures
            final(ser)@ == old(ser)@ + self@.bytes(),
    {
        match self {
            Body::Name(name) => name.encode(ser),
            Body::Info(info) => info.encode(ser),
            Body::Core(core) => core.encode(ser),
            Body::End(end) => end.encode(ser),
            Body::Unknown(_, data) => ser.serialize_bytes(data.as_slice()),
        }
    }
}

/// Complete block structure: a header and the body it describes.
#[derive(Debug)]
pub struct Block {
    head: Header,
    body: Body,
}

impl View for Block {
    type V = BodyView;

    closed spec fn view(&self) -> BodyView {
        self.body@
    }
}

impl Block {
    /// The header always describes the body.
    #[verifier::type_invariant]
    spec fn consistent(self) -> bool {
        &&& self.head@.0 == self.body@.ident()
        &&& self.head@.1 as nat == self.body@.bytes().len()
        &&& self.body@.wf()
    }

    /// Builds a block around `body`, with the header derived from it.
    pub fn from<T: Data>(body: T) -> (r: Block)
        ensures
            r@ == body.body_view(),
            r@.wf(),
    {
        proof {
            body.lemma_body_view();
        }
        let head = body.header();
        let body = body.into_body();
        Block { head, body }
    }

    /// Gets the block's identifier.
    pub fn ident(&self) -> (r: &Ident)
        ensures
            r@ == self@.ident(),
    {
        proof {
            use_type_invariant(self);
        }
        &self.head.ident
    }

    /// Gets the block's length: that of its body's wire form.
    pub fn len(&self) -> (r: u32)
        ensures
            r as nat == self@.bytes().len(),
    {
        proof {
            use_type_invariant(self);
        }
        self.head.len
    }

    /// Gets the block's body.
    pub fn body(&self) -> (r: &Body)
        ensures
            r@ == self@,
    {
        &self.body
    }

    /// Reads one block off the front of `de`: a header, then as many body
    /// bytes as it declares, read as the kind its identifier names.
    pub fn decode(de: &mut Deserializer) -> (r: Result<Block>)
        ensures
            match parse_block(old(de)@) {
                Ok((b, n)) => r matches Ok(blk) && blk@ == b && blk@.wf() && final(de)@ == old(
                    de,
                )@.skip(n as int),
                Err(f) => r matches Err(e) && f.reported_by(e),
            },
    {
        let ghost s = de@;
        proof {
            assert(Header::width() == 8);
            if s.len() >= 8 {
                Header::lemma_total(s);
            }
        }
        let head = Header::decode(de)?;
        proof {
            head.ident.lemma_len();
            lemma_auto_spec_u32_to_from_le_bytes();
            assert(spec_u32_to_le_bytes(head@.1).len() == 4);
            assert(head.spec_encode() == s.take(8));
            assert(head.spec_encode().subrange(4, 8) =~= spec_u32_to_le_bytes(head@.1));
            assert(head.spec_encode().subrange(0, 4) =~= head@.0);
            assert(head@.0 =~= s.take(4));
            assert(spec_u32_to_le_bytes(head@.1) =~= s.subrange(4, 8));
            assert(s.subrange(4, 8).len() == 4);
        }
        let data = de.deserialize_bytes(head.len as usize)?;
        proof {
            assert(data@ =~= s.subrange(8, 8 + declared_len(s)));
            assert(de@ =~= s.skip(8 + declared_len(s)));
        }
        let body = Body::decode(head.ident, data)?;
        proof {
            lemma_parsed_body_wf(head@.0, data@);
        }
        Ok(Block { head, body })
    }
}

/// A body read from bytes fits a block again, and has the identifier and
/// bytes it was read from.
pub proof fn lemma_parsed_body_wf(ident: Seq<u8>, data: Seq<u8>)
    requires
        ident.len() == 4,
        data.len() <= u32::MAX,
        parse_body(ident, data) is Ok,
    ensures
        parse_body(ident, data)->Ok_0.wf(),
        parse_body(ident, data)->Ok_0.ident() == ident,
        parse_body(ident, data)->Ok_0.bytes() == data,
{
    if ident == name_ident() {
        decode_utf8_encode_utf8(data);
    } else if ident == info_ident() {
        lemma_whole_bytes::<Info>(data);
    } else if ident == core_ident() {
        lemma_whole_bytes::<Core>(data);
    } else if ident == end_ident() {
        lemma_whole_bytes::<End>(data);
    }
}

/// A value read from the whole of `data` has `data` as its wire form.
pub proof fn lemma_whole_bytes<T: FixedWidth>(data: Seq<u8>)
    requires
        whole_spec::<T>(data) is Ok,
    ensures
        whole_spec::<T>(data)->Ok_0.spec_encode() == data,
{
    assert(data.take(data.len() as int) =~= data);
}

impl Encode for Block {
    open spec fn spec_encode(&self) -> Seq<u8> {
        self@.encoding()
    }

    fn encode(&self, ser: &mut Serializer) {
        proof {
            use_type_invariant(self);
        }
        self.head.encode(ser);
        self.body.encode_body(ser);
        proof {
            assert(old(ser)@ + self.head.spec_encode() + self.body@.bytes() =~= old(ser)@
                + self.spec_encode());
        }
    }
}

} // verus!
