//! Assembling a document, block by block.

use vstd::prelude::*;
use vstd::string::StringSliceAdditionalSpecFns;

use crate::block::core_state::Core;
use crate::block::end::End;
use crate::block::info::Info;
use crate::block::name::Name;
use crate::block::{core_ident, Block, BodyView, Data};
use crate::error::{Error, Result};
use crate::{Bess, BessView};

verus! {

/// The model of a builder: what has been supplied so far.
pub struct BuilderView {
    pub name: Option<Seq<char>>,
    pub info: Option<Info>,
    pub core: Option<Core>,
    pub xtra: Seq<BodyView>,
}

impl BuilderView {
    /// The blocks of a document built with `core` as its `CORE` block:
    /// `NAME` if present, then `INFO` if present, then `CORE`, then the
    /// additional blocks in the order they were added, then `END `.
    pub open spec fn blocks(self, core: Core) -> Seq<BodyView> {
        let name = match self.name {
            Some(text) => seq![BodyView::Name(text)],
            None => Seq::empty(),
        };
        let info = match self.info {
            Some(info) => seq![BodyView::Info(info)],
            None => Seq::empty(),
        };
        name + info + seq![BodyView::Core(core)] + self.xtra + seq![BodyView::End]
    }
}

/// Whatever was supplied, a built document holds `NAME` first if it was
/// supplied, then `INFO` if it was supplied, then `CORE`, then the additional
/// blocks in the order they were added, and `END ` last.
pub proof fn law_block_order(v: BuilderView, core: Core)
    ensures
        ({
            let bs = v.blocks(core);
            let k = (if v.name is Some { 1int } else { 0int }) + (if v.info is Some { 1int } else { 0int });
            &&& v.name matches Some(text) ==> bs[0] == BodyView::Name(text)
            &&& v.info matches Some(info) ==> bs[k - 1] == BodyView::Info(info)
            &&& bs[k] == BodyView::Core(core)
            &&& forall|i: int| 0 <= i < v.xtra.len() ==> #[trigger] bs[k + 1 + i] == v.xtra[i]
            &&& bs.len() == k + v.xtra.len() + 2
            &&& bs.last() == BodyView::End
        }),
{
}

impl Bess {
    /// Creates a builder for `Bess`.
    pub fn builder() -> (r: Builder)
        ensures
            r@ == (BuilderView { name: None, info: None, core: None, xtra: Seq::empty() }),
    {
        let r = Builder { name: None, info: None, core: None, xtra: Vec::new() };
        proof {
            assert(r.xtra@.map_values(|b: Block| b@) =~= Seq::<BodyView>::empty());
        }
        r
    }
}

/// Builder for `Bess`.
#[derive(Debug)]
pub struct Builder {
    name: Option<Name>,
    info: Option<Info>,
    core: Option<Core>,
    xtra: Vec<Block>,
}

impl View for Builder {
    type V = BuilderView;

    closed spec fn view(&self) -> BuilderView {
        BuilderView {
            name: match self.name {
                Some(name) => Some(name@),
                None => None,
            },
            info: self.info,
            core: self.core,
            xtra: self.xtra@.map_values(|b: Block| b@),
        }
    }
}

impl Builder {
    /// Every additional block fits a block.
    #[verifier::type_invariant]
    spec fn extras_fit(self) -> bool {
        forall|i: int| 0 <= i < self.xtra@.len() ==> #[trigger] self.xtra@[i]@.wf()
    }

    /// Builds a new `Bess` around the context blob `ctx`. The blocks come in
    /// the fixed order of the format, and the footer locates them after
    /// `ctx`.
    pub fn build(self, ctx: Vec<u8>) -> (r: Result<Bess>)
        ensures
            self@.core is None ==> (r matches Err(Error::Required(id)) && id@ == core_ident()),
            self@.core is Some && ctx@.len() > u32::MAX ==> r matches Err(Error::TooLarge),
            self@.core is Some && ctx@.len() <= u32::MAX ==> (r matches Ok(d) && d@ == (BessView {
                ctx: ctx@,
                blocks: self@.blocks(self@.core->Some_0),
            })),
    {
        proof {
            use_type_invariant(&self);
        }
        let ghost view = self@;
        let ghost xs = self.xtra@;
        let core = match self.core {
            Some(core) => core,
            None => return Err(Error::Required(Core::ident())),
        };
        let mut blx: Vec<Block> = Vec::new();
        match self.name {
            Some(name) => blx.push(Block::from(name)),
            None => {},
        }
        match self.info {
            Some(info) => blx.push(Block::from(info)),
            None => {},
        }
        blx.push(Block::from(core));
        let ghost head = blx@;
        let mut xtra = self.xtra;
        blx.append(&mut xtra);
        blx.push(Block::from(End));
        if ctx.len() as u64 > u32::MAX as u64 {
            return Err(Error::TooLarge);
        }
        proof {
            let views = blx@.map_values(|b: Block| b@);
            assert(views =~= view.blocks(core));
            assert forall|i: int| 0 <= i < blx@.len() implies #[trigger] blx@[i]@.wf() by {
                if i >= head.len() && i < blx@.len() - 1 {
                    assert(blx@[i] == xs[i - head.len()]);
                }
            }
        }
        Ok(Bess::assemble(ctx, blx))
    }

    /// Supplies the `NAME` block.
    pub fn name(self, name: &str) -> (r: Self)
        requires
            name.spec_bytes().len() <= u32::MAX,
        ensures
            r@ == (BuilderView { name: Some(name@), ..self@ }),
    {
        proof {
            use_type_invariant(&self);
        }
        Builder { name: Some(Name::new(name)), ..self }
    }

    /// Supplies the `INFO` block.
    pub fn info(self, info: Info) -> (r: Self)
        ensures
            r@ == (BuilderView { info: Some(info), ..self@ }),
    {
        proof {
            use_type_invariant(&self);
        }
        Builder { info: Some(info), ..self }
    }

    /// Supplies the `CORE` block.
    pub fn core_block(self, core: Core) -> (r: Self)
        ensures
            r@ == (BuilderView { core: Some(core), ..self@ }),
    {
        proof {
            use_type_invariant(&self);
        }
        Builder { core: Some(core), ..self }
    }

    /// Adds a block after `CORE`, after those added before it.
    pub fn block<T: Data>(self, body: T) -> (r: Self)
        ensures
            r@ == (BuilderView { xtra: self@.xtra.push(body.body_view()), ..self@ }),
    {
        proof {
            use_type_invariant(&self);
        }
        let mut xtra = self.xtra;
        let ghost before = xtra@;
        xtra.push(Block::from(body));
        proof {
            assert(xtra@.map_values(|b: Block| b@) =~= before.map_values(|b: Block| b@).push(
                body.body_view(),
            ));
        }
        Builder { xtra, ..self }
    }
}

} // verus!
