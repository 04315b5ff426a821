//! The registration record, its construction and the entry point that the
//! driver invokes.

use crate::callback::Adapter;
use crate::callback::Callback;
use vstd::prelude::*;

verus! {

/// The registration record: a type-erased callback together with the state
/// that it works on. The driver holds the record as its opaque context and
/// hands it back, unchanged, on every invocation.
///
/// The record owns both. The state lives in a heap allocation of its own, so
/// that it stays where it is while the record is handed about.
#[verifier::reject_recursive_types(T)]
pub struct WrappedMainData<'a, T: 'a> {
    user_data: Box<T>,
    func: Box<dyn Callback<T> + 'a>,
}

/// A registration record as contracts see it.
///
/// An exclusive borrow `call` of the state stands for one invocation: `*call`
/// is the state that the invocation starts on, `*final(call)` the state that
/// it leaves.
#[verifier::reject_recursive_types(T)]
pub struct Registration<'a, T: 'a> {
    /// The current value of the state.
    pub state: T,
    /// The states on which the callback may be invoked.
    pub accepts: spec_fn(T) -> bool,
    /// The invocations that the callback can perform.
    pub effect: spec_fn(&'a mut T) -> bool,
}

/// `func` may be called on any exclusive borrow of a state whose value is
/// `pre`.
pub open spec fn admits<T, F: Fn(&mut T)>(func: F, pre: T) -> bool {
    forall|call: &mut T| *call == pre ==> #[trigger] func.requires((call,))
}

/// The registration of `func` with a state of value `state`: the callback
/// accepts what `func` requires and performs what `func` ensures.
pub open spec fn registration_of<'a, T: 'a, F: Fn(&mut T)>(func: F, state: T) -> Registration<
    'a,
    T,
> {
    Registration {
        state,
        accepts: |pre: T| admits(func, pre),
        effect: |call: &'a mut T| func.ensures((call,), ()),
    }
}

impl<'a, T: 'a> View for WrappedMainData<'a, T> {
    type V = Registration<'a, T>;

    closed spec fn view(&self) -> Registration<'a, T> {
        Registration {
            state: *self.user_data,
            accepts: |pre: T| self.func.accepts(pre),
            effect: |call: &'a mut T| self.func.effect(call),
        }
    }
}

impl<'a, T: 'a> WrappedMainData<'a, T> {
    /// Read access to the state, as the last invocation left it.
    pub fn user_data(&self) -> (state: &T)
        ensures
            *state == self@.state,
    {
        &*self.user_data
    }
}

/// What the driver's registration call is given, besides the entry point.
#[verifier::reject_recursive_types(T)]
pub struct MainLoop<'a, T: 'a> {
    /// The context that the driver hands back on every invocation.
    pub data: Box<WrappedMainData<'a, T>>,
    /// The requested rate of invocations per second; 0 leaves the rate to the
    /// driver.
    pub fps: i32,
    /// Whether the driver is to keep the calling context alive for as long as
    /// it invokes.
    pub simulate_infinite_loop: bool,
}

/// Registers `func` with the state `data`: stores both in a record, with the
/// type of `func` erased, and asks for invocations at the driver's own rate,
/// without end.
///
/// Registration invokes nothing: the record holds the state as it was given.
/// From then on the entry point may be invoked on the record whenever the
/// callback accepts the state that the record holds.
pub fn run<'a, F, T: 'a>(func: F, data: Box<T>) -> (request: MainLoop<'a, T>) where
    F: Fn(&mut T) + 'a,

    ensures
        request.data@ == registration_of(func, *data),
        request.fps == 0,
        request.simulate_infinite_loop,
{
    let wrapped_data = Box::new(
        WrappedMainData { user_data: data, func: Box::new(Adapter { func }) },
    );
    assert(wrapped_data@.accepts =~= registration_of(func, *data).accepts);
    assert(wrapped_data@.effect =~= registration_of(func, *data).effect);
    MainLoop { data: wrapped_data, fps: 0, simulate_infinite_loop: true }
}

/// The entry point that the driver invokes with the record as its context:
/// recovers the callback and the state and performs one invocation of the one
/// on the other, in place.
///
/// The state goes from its value before the call to its value after it by an
/// invocation `call` that the callback can perform. The callback itself stays
/// what it was.
pub fn mainloop_trampoline_ud<T>(user_data: &mut WrappedMainData<T>)
    requires
        (old(user_data)@.accepts)(old(user_data)@.state),
    ensures
        final(user_data)@.accepts == old(user_data)@.accepts,
        final(user_data)@.effect == old(user_data)@.effect,
        exists|call: &mut T|
            *call == old(user_data)@.state && *final(call) == final(user_data)@.state
                && #[trigger] (old(user_data)@.effect)(call),
{
    user_data.func.invoke(&mut *user_data.user_data);
    assert(forall|call: &mut T| #[trigger]
        old(user_data).func.effect(call) ==> (old(user_data)@.effect)(call));
}

} // verus!
