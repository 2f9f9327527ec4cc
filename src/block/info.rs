//! Information about the ROM this save state originates from.

use vstd::bytes::*;
use vstd::prelude::*;

use super::{Body, BodyView, Data, Ident};
use crate::de::{lemma_decode_spec, lemma_u16_total, Decode, Deserializer, FixedWidth};
use crate::error::{Error, Result};
use crate::ser::{Encode, Serializer};

verus! {

/// `INFO` block.
///
/// Contains information about the ROM this save state originates from. This
/// is an *optional* block; when used, it comes after `NAME` and before
/// `CORE`.
#[derive(Debug, Clone, Copy, PartialEq, Eq)]
pub struct Info {
    /// Title provided by the ROM header (bytes 0x134-0x143 of the ROM).
    title: [u8; 16],
    /// Global checksum provided by the ROM header (bytes 0x14E-0x14F).
    gchk: u16,
}

impl View for Info {
    type V = (Seq<u8>, u16);

    closed spec fn view(&self) -> (Seq<u8>, u16) {
        (self.title@, self.gchk)
    }
}

impl Info {
    /// Constructs a new `Info`.
    pub fn new(title: [u8; 16], gchk: u16) -> (r: Self)
        ensures
            r@ == (title@, gchk),
    {
        Info { title, gchk }
    }

    /// The ROM title.
    pub fn title(&self) -> (r: [u8; 16])
        ensures
            r@ == self@.0,
    {
        self.title
    }

    /// The ROM's global checksum.
    pub fn gchk(&self) -> (r: u16)
        ensures
            r == self@.1,
    {
        self.gchk
    }

    proof fn lemma_view_len(self)
        ensures
            self@.0.len() == 16,
    {
    }
}

impl Encode for Info {
    open spec fn spec_encode(&self) -> Seq<u8> {
        self@.0 + spec_u16_to_le_bytes(self@.1)
    }

    fn encode(&self, ser: &mut Serializer) {
        self.title.encode(ser);
        self.gchk.encode(ser);
        proof {
            assert(old(ser)@ + self.title@ + self.gchk.spec_encode() =~= old(ser)@ + self.spec_encode());
        }
    }
}

impl FixedWidth for Info {
    open spec fn width() -> nat {
        18
    }

    proof fn lemma_width(self) {
        assert(Self::width() == 18);
        self.lemma_view_len();
        self.gchk.lemma_width();
    }

    proof fn lemma_injective(a: Self, b: Self) {
        a.lemma_view_len();
        b.lemma_view_len();
        crate::de::lemma_split::<[u8; 16]>(a.title, a.gchk.spec_encode(), b.title, b.gchk.spec_encode());
        u16::lemma_injective(a.gchk, b.gchk);
    }
}

impl Decode for Info {
    fn decode(de: &mut Deserializer) -> (r: Result<Self>) {
        let ghost s = de@;
        proof {
            assert(Self::width() == 18);
        }
        if de.remaining() < 18 {
            return Err(Error::TooShort);
        }
        let title: [u8; 16] = de.pop_ref();
        let ghost s1 = de@;
        proof {
            lemma_u16_total(s1);
        }
        let gchk = u16::decode(de)?;
        let v = Info { title, gchk };
        proof {
            gchk.lemma_width();
            assert(v.spec_encode() =~= s.take(18));
            lemma_decode_spec::<Info>(s, v);
            assert(de@ =~= s.skip(18));
        }
        Ok(v)
    }
}

impl Data for Info {
    open spec fn spec_ident() -> Seq<u8> {
        super::info_ident()
    }

    open spec fn body_view(&self) -> BodyView {
        BodyView::Info(*self)
    }

    proof fn lemma_body_view(&self) {
    }

    fn ident() -> (r: Ident) {
        Ident::new([0x49u8, 0x4e, 0x46, 0x4f])
    }

    fn len(&self) -> (r: u32) {
        proof {
            self.lemma_width();
        }
        18
    }

    fn into_body(self) -> (r: Body) {
        proof {
            self.lemma_width();
        }
        Body::Info(self)
    }
}

} // verus!
