use vstd::prelude::*;
use crate::vm::CtxType;

verus! {

/// Where code runs: the scope it sees.
#[derive(Clone, Copy)]
pub struct Env {
    ctx: CtxType,
}

impl Env {
    pub fn new(ctx: CtxType) -> (res: Self)
        ensures
            res.spec_ctx() == ctx,
    {
        Self { ctx }
    }

    pub closed spec fn spec_ctx(&self) -> CtxType {
        self.ctx
    }

    /// The scope.
    pub fn ctx(&self) -> (res: CtxType)
        ensures
            res == self.spec_ctx(),
    {
        self.ctx
    }
}

} // verus!
