//! What holds of encoding and decoding taken together.

use vstd::bytes::*;
use vstd::prelude::*;
use vstd::utf8::*;

use crate::block::core_state::Core;
use crate::block::end::End;
use crate::block::info::Info;
use crate::block::{
    declared_len, is_known, lemma_parsed_body_wf, parse_block, parse_body, BodyView,
};
use crate::de::{lemma_decode_spec, FixedWidth};
use crate::error::Fault;
use crate::ser::Encode;
use crate::{encode_blocks, footer_bytes, parse_blocks, parse_doc, then_blocks, BessView, MAGIC};

verus! {

/// A well-formed body reads back, from its identifier and wire form, as
/// itself.
pub proof fn lemma_body_round_trip(b: BodyView)
    requires
        b.wf(),
    ensures
        parse_body(b.ident(), b.bytes()) == Ok::<BodyView, Fault>(b),
{
    match b {
        BodyView::Name(text) => {
            encode_utf8_valid_utf8(text);
            encode_utf8_decode_utf8(text);
        },
        BodyView::Info(info) => {
            info.lemma_width();
            assert(info.spec_encode().take(18) =~= info.spec_encode());
            lemma_decode_spec::<Info>(info.spec_encode(), info);
            assert(b.ident() != crate::block::name_ident());
        },
        BodyView::Core(core) => {
            core.lemma_width();
            assert(core.spec_encode().take(208) =~= core.spec_encode());
            lemma_decode_spec::<Core>(core.spec_encode(), core);
            assert(b.ident() != crate::block::name_ident());
            assert(b.ident() != crate::block::info_ident());
        },
        BodyView::End => {
            assert(Seq::<u8>::empty().take(0) =~= Seq::<u8>::empty());
            lemma_decode_spec::<End>(Seq::empty(), End);
            assert(b.ident() != crate::block::name_ident());
            assert(b.ident() != crate::block::info_ident());
            assert(b.ident() != crate::block::core_ident());
        },
        BodyView::Unknown(..) => {},
    }
}

/// A well-formed block reads back from its wire form, whatever follows it.
pub proof fn lemma_block_round_trip(b: BodyView, rest: Seq<u8>)
    requires
        b.wf(),
    ensures
        parse_block(b.encoding() + rest) == Ok::<(BodyView, nat), Fault>(
            (b, b.encoding().len()),
        ),
{
    let s = b.encoding() + rest;
    let n = b.bytes().len();
    let len = spec_u32_to_le_bytes(n as u32);
    lemma_auto_spec_u32_to_from_le_bytes();
    assert(len.len() == 4);
    assert(b.ident().len() == 4);
    assert(s.take(4) =~= b.ident());
    assert(s.subrange(4, 8) =~= len);
    assert(declared_len(s) == n);
    assert(s.subrange(8, 8 + n as int) =~= b.bytes());
    lemma_body_round_trip(b);
}

/// Well-formed blocks read back from their wire forms.
pub proof fn lemma_blocks_round_trip(bs: Seq<BodyView>)
    requires
        forall|i: int| 0 <= i < bs.len() ==> #[trigger] bs[i].wf(),
    ensures
        parse_blocks(encode_blocks(bs)) == Ok::<Seq<BodyView>, Fault>(bs),
    decreases bs.len(),
{
    if bs.len() == 0 {
        assert(bs =~= Seq::<BodyView>::empty());
    } else {
        let region = encode_blocks(bs);
        let tail = encode_blocks(bs.skip(1));
        let n = bs[0].encoding().len();
        assert(bs[0].wf());
        lemma_block_round_trip(bs[0], tail);
        assert(region == bs[0].encoding() + tail);
        assert(bs[0].ident().len() == 4);
        lemma_auto_spec_u32_to_from_le_bytes();
        assert(spec_u32_to_le_bytes(bs[0].bytes().len() as u32).len() == 4);
        assert(0 < n <= region.len());
        assert forall|i: int| 0 <= i < bs.skip(1).len() implies #[trigger] bs.skip(1)[i].wf() by {
            assert(bs.skip(1)[i] == bs[i + 1]);
        }
        lemma_blocks_round_trip(bs.skip(1));
        assert(region.skip(n as int) =~= tail);
        assert(seq![bs[0]] + bs.skip(1) =~= bs);
    }
}

/// Decoding the wire form of a well-formed document gives that document
/// back: the same context, and the same blocks in the same order.
pub proof fn law_round_trip(d: BessView)
    requires
        d.wf(),
    ensures
        parse_doc(d.encoding()) == Ok::<BessView, Fault>(d),
{
    let b = d.encoding();
    let region = encode_blocks(d.blocks);
    let start = d.ctx.len();
    lemma_auto_spec_u32_to_from_le_bytes();
    assert(spec_u32_to_le_bytes(start as u32).len() == 4);
    assert(spec_u32_to_le_bytes(MAGIC).len() == 4);
    let end = b.len() - 8;
    assert(b.subrange(end, end + 4) =~= spec_u32_to_le_bytes(start as u32));
    assert(b.subrange(end + 4, b.len() as int) =~= spec_u32_to_le_bytes(MAGIC));
    assert(b.subrange(start as int, end) =~= region);
    assert(b.take(start as int) =~= d.ctx);
    lemma_blocks_round_trip(d.blocks);
}

/// Blocks read from a region are well formed, and their wire forms make up
/// the region again.
pub proof fn lemma_blocks_reencode(region: Seq<u8>)
    requires
        parse_blocks(region) is Ok,
    ensures
        encode_blocks(parse_blocks(region)->Ok_0) == region,
        forall|i: int|
            0 <= i < parse_blocks(region)->Ok_0.len() ==> #[trigger] parse_blocks(
                region,
            )->Ok_0[i].wf(),
    decreases region.len(),
{
    let bs = parse_blocks(region)->Ok_0;
    if region.len() == 0 {
        assert(bs =~= Seq::<BodyView>::empty());
    } else {
        let (body, n) = parse_block(region)->Ok_0;
        let ident = region.take(4);
        let data = region.subrange(8, n as int);
        lemma_auto_spec_u32_to_from_le_bytes();
        assert(region.subrange(4, 8).len() == 4);
        lemma_parsed_body_wf(ident, data);
        let rest = region.skip(n as int);
        lemma_blocks_reencode(rest);
        let more = parse_blocks(rest)->Ok_0;
        assert(bs == seq![body] + more);
        assert(spec_u32_to_le_bytes(data.len() as u32) == region.subrange(4, 8));
        assert(body.encoding() =~= region.take(n as int));
        assert(bs[0] == body);
        assert(bs.skip(1) =~= more);
        assert(region =~= region.take(n as int) + rest);
        assert forall|i: int| 0 <= i < bs.len() implies #[trigger] bs[i].wf() by {
            if i > 0 {
                assert(bs[i] == more[i - 1]);
            }
        }
    }
}

/// Encoding a decoded document reproduces the decoded bytes exactly, and
/// what decoding gives is a well-formed document.
pub proof fn law_reencode(b: Seq<u8>)
    requires
        parse_doc(b) is Ok,
    ensures
        parse_doc(b)->Ok_0.wf(),
        parse_doc(b)->Ok_0.encoding() == b,
{
    let d = parse_doc(b)->Ok_0;
    let end = b.len() - 8;
    let start = crate::footer_start(b);
    let region = b.subrange(start, end);
    lemma_blocks_reencode(region);
    lemma_auto_spec_u32_to_from_le_bytes();
    assert(b.subrange(end, end + 4).len() == 4);
    assert(b.subrange(end + 4, b.len() as int).len() == 4);
    assert(d.ctx.len() == start);
    assert(footer_bytes(d.ctx.len()) =~= b.subrange(end, b.len() as int));
    assert(d.encoding() =~= b);
}

/// A block of a kind this library does not read is kept as it is, bytes
/// unchanged, and the blocks after it are read as if it were not there.
pub proof fn law_unknown_kept(ident: Seq<u8>, data: Seq<u8>, rest: Seq<u8>)
    requires
        ident.len() == 4,
        !is_known(ident),
        data.len() <= u32::MAX,
    ensures
        parse_block(BodyView::Unknown(ident, data).encoding() + rest) == Ok::<
            (BodyView, nat),
            Fault,
        >((BodyView::Unknown(ident, data), 8 + data.len())),
        parse_blocks(BodyView::Unknown(ident, data).encoding() + rest) == then_blocks(
            seq![BodyView::Unknown(ident, data)],
            parse_blocks(rest),
        ),
{
    let b = BodyView::Unknown(ident, data);
    lemma_auto_spec_u32_to_from_le_bytes();
    assert(spec_u32_to_le_bytes(data.len() as u32).len() == 4);
    lemma_block_round_trip(b, rest);
    assert((b.encoding() + rest).skip(b.encoding().len() as int) =~= rest);
}

/// The length a block's header declares is the length of the wire form of
/// the body read from it, and that body is well formed.
pub proof fn law_declared_len(s: Seq<u8>)
    requires
        parse_block(s) is Ok,
    ensures
        parse_block(s)->Ok_0.0.bytes().len() == declared_len(s),
        parse_block(s)->Ok_0.0.wf(),
        parse_block(s)->Ok_0.1 == 8 + declared_len(s),
{
    lemma_auto_spec_u32_to_from_le_bytes();
    assert(s.subrange(4, 8).len() == 4);
    lemma_parsed_body_wf(s.take(4), s.subrange(8, 8 + declared_len(s)));
}

/// A buffer shorter than a footer is too short to decode.
pub proof fn law_short_buffer(b: Seq<u8>)
    requires
        b.len() < 8,
    ensures
        parse_doc(b) == Err::<BessView, Fault>(Fault::TooShort),
{
}

/// A block that declares more body bytes than remain is too short, and so
/// is the stream it begins.
pub proof fn law_short_block(s: Seq<u8>)
    requires
        s.len() >= 8,
        declared_len(s) > s.len() - 8,
    ensures
        parse_block(s) == Err::<(BodyView, nat), Fault>(Fault::TooShort),
        parse_blocks(s) == Err::<Seq<BodyView>, Fault>(Fault::TooShort),
{
}

} // verus!
