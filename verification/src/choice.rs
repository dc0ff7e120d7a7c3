//! A labelled action for a menu: a prompt to show beside a number, and
//! the operation to run when the user picks it.

use vstd::prelude::*;

verus! {

/// One menu entry: its prompt, and the operation it triggers on the
/// menu's subject.  The operation takes the subject and hands it back,
/// possibly changed, beside its result.
#[verifier::reject_recursive_types(Args)]
#[verifier::reject_recursive_types(Res)]
pub struct Choice<Args, Res, F: Fn(Args) -> (Args, Res)> {
    pub prompt: String,
    pub callback: F,
    pub marker: core::marker::PhantomData<(Args, Res)>,
}

impl<Args, Res, F: Fn(Args) -> (Args, Res)> Choice<Args, Res, F> {
    pub fn new(prompt: String, callback: F) -> (r: Choice<Args, Res, F>)
        ensures
            r.prompt == prompt,
            r.callback == callback,
    {
        Choice { prompt, callback, marker: core::marker::PhantomData }
    }

    /// Run the entry's operation on the menu's subject.  What the call
    /// asks of its argument, and what it promises of the subject it
    /// returns and its result, are the closure's own contract.
    pub fn call(&self, args: Args) -> (r: (Args, Res))
        requires
            call_requires(self.callback, (args,)),
        ensures
            call_ensures(self.callback, (args,), r),
    {
        (self.callback)(args)
    }
}

} // verus!
