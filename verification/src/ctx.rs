//! The caller's context: who runs the batch and, when set, which
//! conversation it belongs to.  The root context is reserved for the
//! system itself.

use vstd::prelude::*;

verus! {

/// Why a context could not be made.
#[derive(Debug)]
pub enum Error {
    /// User zero is the root context and cannot be created directly.
    CtxCannotNewRootCtx,
}

/// The caller's identity for one run.
pub struct Ctx {
    user_id: i64,
    conv_id: Option<i64>,
}

impl Ctx {
    /// The user this context stands for, as specifications see it.
    pub closed spec fn spec_user_id(&self) -> i64 {
        self.user_id
    }

    /// The conversation binding, as specifications see it.
    pub closed spec fn spec_conv_id(&self) -> Option<i64> {
        self.conv_id
    }

    /// The system's own context: user zero, no conversation.
    pub fn root_ctx() -> (c: Ctx)
        ensures
            c.spec_user_id() == 0,
            c.spec_conv_id() is None,
    {
        Ctx { user_id: 0, conv_id: None }
    }

    /// A context for the given user; user zero is refused.
    pub fn new(user_id: i64) -> (r: Result<Ctx, Error>)
        ensures
            user_id == 0 <==> r is Err,
            r matches Ok(c) ==> c.spec_user_id() == user_id && c.spec_conv_id() is None,
    {
        if user_id == 0 {
            Err(Error::CtxCannotNewRootCtx)
        } else {
            Ok(Ctx { user_id, conv_id: None })
        }
    }

    /// The same context bound to a conversation.
    pub fn add_conv_id(&self, conv_id: i64) -> (c: Ctx)
        ensures
            c.spec_user_id() == self.spec_user_id(),
            c.spec_conv_id() == Some(conv_id),
    {
        Ctx { user_id: self.user_id, conv_id: Some(conv_id) }
    }

    /// The user this context stands for.
    pub fn user_id(&self) -> (u: i64)
        ensures
            u == self.spec_user_id(),
    {
        self.user_id
    }

    /// The conversation this context is bound to, if any.
    pub fn conv_id(&self) -> (c: Option<i64>)
        ensures
            c == self.spec_conv_id(),
    {
        self.conv_id
    }
}

} // verus!
