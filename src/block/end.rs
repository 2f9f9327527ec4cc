//! Mark the end of BESS data.

use vstd::prelude::*;

use super::{Body, BodyView, Data, Ident};
use crate::de::{Decode, Deserializer, FixedWidth};
use crate::error::Result;
use crate::ser::{Encode, Serializer};

verus! {

/// `END` block.
///
/// Contains no data itself, but marks the end of BESS data. This is a
/// **required** block, and it must be the last one.
#[derive(Debug, Clone, Copy, PartialEq, Eq, Default)]
pub struct End;

impl Encode for End {
    open spec fn spec_encode(&self) -> Seq<u8> {
        Seq::empty()
    }

    fn encode(&self, ser: &mut Serializer) {
        proof {
            assert(old(ser)@ + Seq::<u8>::empty() =~= old(ser)@);
        }
    }
}

impl FixedWidth for End {
    open spec fn width() -> nat {
        0
    }

    proof fn lemma_width(self) {
        assert(Self::width() == 0);
    }

    proof fn lemma_injective(a: Self, b: Self) {
    }
}

impl Decode for End {
    fn decode(de: &mut Deserializer) -> (r: Result<Self>) {
        proof {
            assert(de@.skip(0) =~= de@);
            assert(End.spec_encode() =~= de@.take(0));
            crate::de::lemma_decode_spec::<End>(de@, End);
        }
        Ok(End)
    }
}

impl Data for End {
    open spec fn spec_ident() -> Seq<u8> {
        super::end_ident()
    }

    open spec fn body_view(&self) -> BodyView {
        BodyView::End
    }

    proof fn lemma_body_view(&self) {
    }

    fn ident() -> (r: Ident) {
        Ident::new([0x45u8, 0x4e, 0x44, 0x20])
    }

    fn len(&self) -> (r: u32) {
        0
    }

    fn into_body(self) -> (r: Body) {
        Body::End(self)
    }
}

} // verus!
