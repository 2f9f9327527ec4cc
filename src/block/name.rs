//! Name of the emulator that created this save state.

use vstd::prelude::*;
use vstd::string::StringSliceAdditionalSpecFns;
use vstd::utf8::*;

use super::{Body, BodyView, Data, Ident};
use crate::de::Deserializer;
use crate::error::Result;
use crate::ser::{Encode, Serializer};

verus! {

broadcast use vstd::string::group_string_axioms;

/// `NAME` block.
///
/// Contains the name and version of the originating emulator in ASCII. This
/// is an *optional* block, but highly recommended: it tells the user which
/// emulator can read the native save state in this file. When used, it comes
/// first.
#[derive(Debug)]
pub struct Name(String);

impl View for Name {
    type V = Seq<char>;

    closed spec fn view(&self) -> Seq<char> {
        self.0@
    }
}

impl Name {
    /// The text fits the block's 32-bit length field.
    #[verifier::type_invariant]
    spec fn fits(self) -> bool {
        encode_utf8(self.0@).len() <= u32::MAX
    }

    /// Constructs a new `Name`.
    pub fn new(name: &str) -> (r: Self)
        requires
            name.spec_bytes().len() <= u32::MAX,
        ensures
            r@ == name@,
    {
        Name(name.to_string())
    }

    /// Reads a name from the whole of `data`, which must be UTF-8.
    pub fn from_bytes(data: &[u8]) -> (r: Result<Self>)
        requires
            data@.len() <= u32::MAX,
        ensures
            valid_utf8(data@) ==> (r matches Ok(n) && n@ == decode_utf8(data@)),
            !valid_utf8(data@) ==> r matches Err(crate::error::Error::Message(_)),
    {
        let mut de = Deserializer::from_bytes(data);
        proof {
            assert(data@.take(data@.len() as int) =~= data@);
        }
        let text = de.deserialize_str(data.len())?;
        Ok(Name(text))
    }

    /// The name as text.
    pub fn as_str(&self) -> (r: &str)
        ensures
            r@ == self@,
    {
        self.0.as_str()
    }
}

impl Encode for Name {
    open spec fn spec_encode(&self) -> Seq<u8> {
        encode_utf8(self@)
    }

    fn encode(&self, ser: &mut Serializer) {
        ser.serialize_str(self.0.as_str());
    }
}

impl Data for Name {
    open spec fn spec_ident() -> Seq<u8> {
        super::name_ident()
    }

    open spec fn body_view(&self) -> BodyView {
        BodyView::Name(self@)
    }

    proof fn lemma_body_view(&self) {
    }

    fn ident() -> (r: Ident) {
        Ident::new([0x4eu8, 0x41, 0x4d, 0x45])
    }

    fn len(&self) -> (r: u32) {
        proof {
            use_type_invariant(self);
        }
        self.0.as_str().len() as u32
    }

    fn into_body(self) -> (r: Body) {
        proof {
            use_type_invariant(&self);
        }
        Body::Name(self)
    }
}

} // verus!
