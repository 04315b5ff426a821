//! The dynamic-dispatch handle behind which a callback's concrete type is
//! hidden, and the adapter that carries a closure into it.

use crate::mainloop::admits;
use vstd::prelude::*;

verus! {

/// One iteration of work on a state of type `T`, with the type of the code
/// that does the work erased.
///
/// An exclusive borrow `call` of the state stands for one invocation: `*call`
/// is the state that the invocation starts on, `*final(call)` the state that
/// it leaves.
pub trait Callback<T> {
    /// The callback may be invoked on a state whose value is `pre`.
    spec fn accepts(&self, pre: T) -> bool;

    /// `call` is an invocation that this callback can perform.
    spec fn effect(&self, call: &mut T) -> bool;

    /// Performs one iteration on `state`, in place.
    fn invoke(&self, state: &mut T)
        requires
            self.accepts(*old(state)),
        ensures
            exists|call: &mut T|
                *call == *old(state) && *final(call) == *final(state) && #[trigger] self.effect(
                    call,
                ),
    ;
}

/// The handle for a closure or function item: the one type that is hidden
/// when a callback is registered and recovered when it is invoked.
pub struct Adapter<F> {
    pub func: F,
}

impl<T, F: Fn(&mut T)> Callback<T> for Adapter<F> {
    open spec fn accepts(&self, pre: T) -> bool {
        admits(self.func, pre)
    }

    open spec fn effect(&self, call: &mut T) -> bool {
        self.func.ensures((call,), ())
    }

    fn invoke(&self, state: &mut T) {
        (self.func)(state);
        assert(forall|call: &mut T| #[trigger]
            self.func.ensures((call,), ()) ==> self.effect(call));
    }
}

} // verus!
