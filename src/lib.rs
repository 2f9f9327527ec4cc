//! Best Effort Save State (BESS): a portable container for emulator save
//! states, appended after an implementation-specific blob.
//!
//! A BESS document is the blob ("context"), then a stream of blocks, each an
//! identifier, a length and a body, then an eight-byte footer that tells
//! where the blocks begin.

use vstd::bytes::*;
use vstd::prelude::*;
use vstd::slice::{slice_subrange, slice_to_vec};

pub mod block;
pub mod builder;
pub mod de;
pub mod error;
pub mod laws;
pub mod ser;

pub use self::block::{Block, Data};
pub use self::builder::Builder;
pub use self::error::{Error, Fault, Result};

use self::block::{parse_block, BodyView};
use self::de::{lemma_u32_total, Decode, Deserializer, FixedWidth};
use self::ser::{Encode, Serializer};

verus! {

/// Magic number for BESS files: the ASCII string "BESS" read as a
/// little-endian integer.
pub const MAGIC: u32 = 0x5353_4542;

/// BESS document.
#[derive(Debug)]
pub struct Bess {
    /// Context for BESS file.
    ctx: Vec<u8>,
    /// Blocks specifying contents.
    blx: Vec<Block>,
    /// Footer for BESS file.
    end: Footer,
}

/// The model of a document: its context and the bodies of its blocks, in
/// order. The headers and the footer are derived from them.
pub struct BessView {
    pub ctx: Seq<u8>,
    pub blocks: Seq<BodyView>,
}

impl BessView {
    /// The context fits the footer and every body fits a block.
    pub open spec fn wf(self) -> bool {
        &&& self.ctx.len() <= u32::MAX
        &&& forall|i: int| 0 <= i < self.blocks.len() ==> #[trigger] self.blocks[i].wf()
    }

    /// The wire form of the document.
    pub open spec fn encoding(self) -> Seq<u8> {
        self.ctx + encode_blocks(self.blocks) + footer_bytes(self.ctx.len())
    }
}

/// The wire form of a footer whose block stream begins at `start`.
pub open spec fn footer_bytes(start: nat) -> Seq<u8> {
    spec_u32_to_le_bytes(start as u32) + spec_u32_to_le_bytes(MAGIC)
}

/// The wire forms of `blocks`, one after another.
pub open spec fn encode_blocks(blocks: Seq<BodyView>) -> Seq<u8>
    decreases blocks.len(),
{
    if blocks.len() == 0 {
        Seq::empty()
    } else {
        blocks[0].encoding() + encode_blocks(blocks.skip(1))
    }
}

/// `rest` read after `first`: the bodies of both, or the fault that stopped
/// the reading.
pub open spec fn then_blocks(first: Seq<BodyView>, rest: Result<Seq<BodyView>, Fault>) -> Result<
    Seq<BodyView>,
    Fault,
> {
    match rest {
        Ok(more) => Ok(first + more),
        Err(f) => Err(f),
    }
}

/// What reading blocks until `region` is exhausted gives.
pub open spec fn parse_blocks(region: Seq<u8>) -> Result<Seq<BodyView>, Fault>
    decreases region.len(),
{
    if region.len() == 0 {
        Ok(Seq::empty())
    } else {
        match parse_block(region) {
            Ok((body, n)) => if 0 < n <= region.len() {
                then_blocks(seq![body], parse_blocks(region.skip(n as int)))
            } else {
                Err(Fault::Malformed)
            },
            Err(f) => Err(f),
        }
    }
}

/// The offset that the footer at the end of `b` gives for the block stream.
pub open spec fn footer_start(b: Seq<u8>) -> int {
    spec_u32_from_le_bytes(b.subrange(b.len() - 8, b.len() - 4)) as int
}

/// The magic number in the footer at the end of `b`.
pub open spec fn footer_magic(b: Seq<u8>) -> u32 {
    spec_u32_from_le_bytes(b.subrange(b.len() - 4, b.len() as int))
}

/// What decoding the whole of `b` as a document gives: the footer is read
/// first, then the context before the offset it gives, then the blocks
/// between that offset and the footer.
pub open spec fn parse_doc(b: Seq<u8>) -> Result<BessView, Fault> {
    if b.len() < 8 {
        Err(Fault::TooShort)
    } else if footer_magic(b) != MAGIC {
        Err(Fault::Malformed)
    } else if footer_start(b) > b.len() - 8 {
        Err(Fault::TooShort)
    } else {
        match parse_blocks(b.subrange(footer_start(b), b.len() - 8)) {
            Ok(blocks) => Ok(BessView { ctx: b.take(footer_start(b)), blocks }),
            Err(f) => Err(f),
        }
    }
}

impl View for Bess {
    type V = BessView;

    closed spec fn view(&self) -> BessView {
        BessView { ctx: self.ctx@, blocks: self.blx@.map_values(|b: Block| b@) }
    }
}

impl Bess {
    /// The footer locates the blocks, and every part fits its wire field.
    #[verifier::type_invariant]
    spec fn consistent(self) -> bool {
        &&& self.end.start as nat == self.ctx@.len()
        &&& self.end.magic == MAGIC
        &&& self@.wf()
    }

    /// Puts a document together from its context and its blocks.
    pub(crate) fn assemble(ctx: Vec<u8>, blx: Vec<Block>) -> (r: Bess)
        requires
            ctx@.len() <= u32::MAX,
            forall|i: int| 0 <= i < blx@.len() ==> #[trigger] blx@[i]@.wf(),
        ensures
            r@ == (BessView { ctx: ctx@, blocks: blx@.map_values(|b: Block| b@) }),
    {
        let end = Footer::new(ctx.len() as u32);
        proof {
            let views = blx@.map_values(|b: Block| b@);
            assert forall|i: int| 0 <= i < views.len() implies #[trigger] views[i].wf() by {
                assert(views[i] == blx@[i]@);
            }
        }
        Bess { ctx, blx, end }
    }

    /// The context that precedes the blocks.
    pub fn context(&self) -> (r: &[u8])
        ensures
            r@ == self@.ctx,
    {
        self.ctx.as_slice()
    }

    /// The blocks, in order.
    pub fn blocks(&self) -> (r: &[Block])
        ensures
            r@.map_values(|b: Block| b@) == self@.blocks,
    {
        self.blx.as_slice()
    }

    /// Serializes `self` as a byte vector.
    pub fn to_bytes(self) -> (r: Vec<u8>)
        ensures
            r@ == self@.encoding(),
            self@.wf(),
    {
        to_bytes(&self)
    }
}

/// Serializes the given document as a byte vector: the context, each block
/// in order, then the footer.
pub fn to_bytes(bess: &Bess) -> (r: Vec<u8>)
    ensures
        r@ == bess@.encoding(),
        bess@.wf(),
{
    proof {
        use_type_invariant(bess);
    }
    let mut ser = Serializer::new();
    ser.serialize_bytes(bess.ctx.as_slice());
    let ghost views = bess@.blocks;
    let ghost start = ser@;
    let mut i: usize = 0;
    proof {
        assert(views.skip(0) =~= views);
    }
    while i < bess.blx.len()
        invariant
            i <= bess.blx@.len(),
            views == bess.blx@.map_values(|b: Block| b@),
            ser@ + encode_blocks(views.skip(i as int)) == start + encode_blocks(views),
        decreases bess.blx@.len() - i,
    {
        let ghost before = ser@;
        let ghost rest = views.skip(i as int);
        proof {
            assert(rest.skip(1) =~= views.skip(i + 1));
            assert(rest[0] == bess.blx@[i as int]@);
        }
        bess.blx[i].encode(&mut ser);
        proof {
            assert(before + encode_blocks(rest) =~= ser@ + encode_blocks(views.skip(i + 1)));
        }
        i = i + 1;
    }
    proof {
        assert(views.skip(i as int) =~= Seq::<BodyView>::empty());
        assert(ser@ =~= bess.ctx@ + encode_blocks(views));
    }
    bess.end.encode(&mut ser);
    ser.into_bytes()
}

/// Deserializes a document from the whole of `bytes`: the footer in the
/// last eight bytes gives where the context ends and the blocks begin, and
/// blocks are read until the footer is reached.
pub fn from_bytes(bytes: &[u8]) -> (r: Result<Bess>)
    ensures
        match parse_doc(bytes@) {
            Ok(d) => r matches Ok(b) && b@ == d,
            Err(f) => r matches Err(e) && f.reported_by(e),
        },
{
    let len = bytes.len();
    if len < 8 {
        return Err(Error::TooShort);
    }
    let end = len - 8;
    let tail = slice_subrange(bytes, end, len);
    let mut footer = Deserializer::from_bytes(tail);
    proof {
        lemma_u32_total(footer@);
    }
    let start = u32::decode(&mut footer)?;
    proof {
        lemma_u32_total(footer@);
        assert(tail@.take(4) =~= bytes@.subrange(end as int, end + 4));
        assert(footer@.take(4) =~= bytes@.subrange(end + 4, len as int));
    }
    let magic = u32::decode(&mut footer)?;
    if magic != MAGIC {
        return Err(crate::de::malformed("no BESS footer"));
    }
    let start_at = start as usize;
    if start_at > end {
        return Err(Error::TooShort);
    }
    let ctx = slice_to_vec(slice_subrange(bytes, 0, start_at));
    let region = slice_subrange(bytes, start_at, end);
    let mut de = Deserializer::from_bytes(region);
    let mut blx: Vec<Block> = Vec::new();
    proof {
        assert(ctx@ =~= bytes@.take(start as int));
        assert(footer_start(bytes@) == start as int);
        assert(footer_magic(bytes@) == magic);
        assert(region@ =~= bytes@.subrange(start as int, end as int));
        assert(then_blocks(blx@.map_values(|b: Block| b@), parse_blocks(de@)) == parse_blocks(
            region@,
        )) by {
            assert(blx@.map_values(|b: Block| b@) =~= Seq::<BodyView>::empty());
            if parse_blocks(region@) is Ok {
                assert(Seq::<BodyView>::empty() + parse_blocks(region@)->Ok_0 =~= parse_blocks(
                    region@,
                )->Ok_0);
            }
        }
    }
    while de.remaining() > 0
        invariant
            parse_blocks(region@) == then_blocks(
                blx@.map_values(|b: Block| b@),
                parse_blocks(de@),
            ),
            forall|i: int| 0 <= i < blx@.len() ==> #[trigger] blx@[i]@.wf(),
            parse_doc(bytes@) == match parse_blocks(region@) {
                Ok(blocks) => Ok(BessView { ctx: ctx@, blocks }),
                Err(f) => Err::<BessView, Fault>(f),
            },
            ctx@.len() == start,
        decreases de@.len(),
    {
        let ghost cur = de@;
        let ghost acc = blx@.map_values(|b: Block| b@);
        let blk = Block::decode(&mut de)?;
        proof {
            let n = parse_block(cur)->Ok_0.1;
            assert(parse_blocks(cur) == then_blocks(seq![blk@], parse_blocks(de@)));
            let next = blx@.push(blk).map_values(|b: Block| b@);
            assert(next =~= acc + seq![blk@]);
            if parse_blocks(de@) is Ok {
                assert(acc + (seq![blk@] + parse_blocks(de@)->Ok_0) =~= next + parse_blocks(
                    de@,
                )->Ok_0);
            }
        }
        blx.push(blk);
    }
    proof {
        let acc = blx@.map_values(|b: Block| b@);
        assert(acc + Seq::<BodyView>::empty() =~= acc);
        assert forall|i: int| 0 <= i < acc.len() implies #[trigger] acc[i].wf() by {
            assert(acc[i] == blx@[i]@);
        }
    }
    Ok(Bess { ctx, blx, end: Footer::new(start) })
}

/// Footer appended to declare BESS files.
#[derive(Debug, Clone, Copy)]
pub struct Footer {
    start: u32,
    magic: u32,
}

impl View for Footer {
    type V = (u32, u32);

    closed spec fn view(&self) -> (u32, u32) {
        (self.start, self.magic)
    }
}

impl Footer {
    /// Constructs a new `Footer` for blocks that begin at `start`.
    pub fn new(start: u32) -> (r: Self)
        ensures
            r@ == (start, MAGIC),
            r.spec_encode() == footer_bytes(start as nat),
    {
        Footer { start, magic: MAGIC }
    }
}

impl Encode for Footer {
    closed spec fn spec_encode(&self) -> Seq<u8> {
        spec_u32_to_le_bytes(self.start) + spec_u32_to_le_bytes(self.magic)
    }

    fn encode(&self, ser: &mut Serializer) {
        self.start.encode(ser);
        self.magic.encode(ser);
        proof {
            assert(old(ser)@ + self.start.spec_encode() + self.magic.spec_encode() =~= old(ser)@
                + self.spec_encode());
        }
    }
}

} // verus!
