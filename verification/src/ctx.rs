//! Request context: the authenticated subject of one request, created
//! only after resolution fully succeeds and dropped at request end.

use vstd::prelude::*;

verus! {

#[derive(Clone, Copy, Debug, PartialEq, Eq, Structural)]
pub enum CtxError {
    CtxCannotNewRootCtx,
}

impl CtxError {
    /// Short diagnostic name of the variant.
    pub fn as_text(&self) -> (r: &'static str)
        ensures
            r@ == "CtxCannotNewRootCtx"@,
    {
        "CtxCannotNewRootCtx"
    }
}

/// Resolved per-request identity.  The id 0 is reserved for the internal
/// root context, which session resolution can never produce.
#[derive(Clone, Copy, Debug, PartialEq, Eq, Structural)]
pub struct Ctx {
    pub user_id: i64,
}

impl Ctx {
    /// The internal root context, for system operations outside any request.
    pub fn root_ctx() -> (r: Ctx)
        ensures
            r.user_id == 0,
    {
        Ctx { user_id: 0 }
    }

    /// Creates a context for a real subject; the reserved root id is refused.
    pub fn new(user_id: i64) -> (r: Result<Ctx, CtxError>)
        ensures
            match r {
                Ok(c) => user_id != 0 && c.user_id == user_id,
                Err(e) => user_id == 0 && e == CtxError::CtxCannotNewRootCtx,
            },
    {
        if user_id == 0 {
            Err(CtxError::CtxCannotNewRootCtx)
        } else {
            Ok(Ctx { user_id })
        }
    }

    pub fn user_id(&self) -> (r: i64)
        ensures
            r == self.user_id,
    {
        self.user_id
    }
}

} // verus!
