//! What holds of every registration, whatever the callback and the state.

use crate::mainloop::registration_of;
use crate::runs::interleaved;
use crate::runs::reach;
use crate::runs::turn;
use crate::runs::turns;
use vstd::prelude::*;

verus! {

/// Erasing the callback's type changes nothing: the runs of `n` invocations
/// through the registration of `func` are exactly the runs of `n` direct calls
/// of `func`, for every `n` and from every state.
pub proof fn lemma_registered_runs_are_direct_runs<'a, T: 'a, F: Fn(&mut T)>(
    func: F,
    state: T,
    pre: T,
    n: nat,
    post: T,
)
    ensures
        reach(
            |a: T, b: T|
                exists|call: &mut T|
                    *call == a && *final(call) == b && #[trigger] (registration_of(
                        func,
                        state,
                    ).effect)(call),
            pre,
            n,
            post,
        ) == reach(
            |a: T, b: T|
                exists|call: &mut T|
                    *call == a && *final(call) == b && #[trigger] func.ensures((call,), ()),
            pre,
            n,
            post,
        ),
{
    let registered = |a: T, b: T|
        exists|call: &mut T|
            *call == a && *final(call) == b && #[trigger] (registration_of(func, state).effect)(
                call,
            );
    let direct = |a: T, b: T|
        exists|call: &mut T|
            *call == a && *final(call) == b && #[trigger] func.ensures((call,), ());
    assert forall|a: T, b: T| #[trigger] registered(a, b) == direct(a, b) by {
        if registered(a, b) {
            let call = choose|call: &mut T|
                *call == a && *final(call) == b && #[trigger] (registration_of(
                    func,
                    state,
                ).effect)(call);
            assert(func.ensures((call,), ()));
        }
        if direct(a, b) {
            let call = choose|call: &mut T|
                *call == a && *final(call) == b && #[trigger] func.ensures((call,), ());
            assert((registration_of(func, state).effect)(call));
        }
    }
    assert(registered =~= direct);
}

/// Where a step leaves no choice, a run leaves none: two runs of `n` steps
/// from the same state end in the same state. So `n` invocations through a
/// registration and `n` direct calls of a callback that is a function of the
/// state give the same state.
pub proof fn lemma_reach_deterministic<T>(
    step: spec_fn(T, T) -> bool,
    pre: T,
    n: nat,
    one: T,
    other: T,
)
    requires
        forall|a: T, b: T, c: T| #[trigger] step(a, b) && #[trigger] step(a, c) ==> b == c,
        reach(step, pre, n, one),
        reach(step, pre, n, other),
    ensures
        one == other,
    decreases n,
{
    if n > 0 {
        let mid_one = choose|mid: T|
            reach(step, pre, (n - 1) as nat, mid) && #[trigger] step(mid, one);
        let mid_other = choose|mid: T|
            reach(step, pre, (n - 1) as nat, mid) && #[trigger] step(mid, other);
        lemma_reach_deterministic(step, pre, (n - 1) as nat, mid_one, mid_other);
    }
}

/// Induction over a run: what holds of the state before the first step, and
/// is carried by every step from one count of steps to the next, holds of the
/// state after `n` steps.
pub proof fn lemma_reach_induct<T>(
    step: spec_fn(T, T) -> bool,
    holds: spec_fn(nat, T) -> bool,
    pre: T,
    n: nat,
    post: T,
)
    requires
        holds(0, pre),
        forall|k: nat, a: T, b: T| #[trigger] holds(k, a) && #[trigger] step(a, b) ==> holds(k + 1, b),
        reach(step, pre, n, post),
    ensures
        holds(n, post),
    decreases n,
{
    if n > 0 {
        let mid = choose|mid: T| reach(step, pre, (n - 1) as nat, mid) && #[trigger] step(mid, post);
        lemma_reach_induct(step, holds, pre, (n - 1) as nat, mid);
    }
}

/// Every invocation counts, and counts once: where each step adds one to a
/// number that is read from the state, `n` steps add `n`. With no step, the
/// number is what it was.
pub proof fn lemma_reach_counts<T>(
    step: spec_fn(T, T) -> bool,
    count: spec_fn(T) -> int,
    pre: T,
    n: nat,
    post: T,
)
    requires
        forall|a: T, b: T| #[trigger] step(a, b) ==> count(b) == count(a) + 1,
        reach(step, pre, n, post),
    ensures
        count(post) == count(pre) + n,
{
    let holds = |k: nat, s: T| count(s) == count(pre) + k;
    lemma_reach_induct(step, holds, pre, n, post);
}

/// Isolation: however the invocations of two registrations are interleaved,
/// each state goes through a run of its own callback alone, of as many steps
/// as the schedule gives that registration turns. Neither state shows a trace
/// of the other's invocations.
pub proof fn lemma_interleaving_isolates<A, B>(
    first: spec_fn(A, A) -> bool,
    second: spec_fn(B, B) -> bool,
    pre: (A, B),
    schedule: Seq<bool>,
    post: (A, B),
)
    requires
        interleaved(first, second, pre, schedule, post),
    ensures
        reach(first, pre.0, turns(schedule, true), post.0),
        reach(second, pre.1, turns(schedule, false), post.1),
    decreases schedule.len(),
{
    if schedule.len() > 0 {
        let mid = choose|mid: (A, B)|
            interleaved(first, second, pre, schedule.drop_last(), mid) && #[trigger] turn(
                first,
                second,
                schedule.last(),
                mid,
                post,
            );
        lemma_interleaving_isolates(first, second, pre, schedule.drop_last(), mid);
        if schedule.last() {
            assert(reach(first, pre.0, turns(schedule.drop_last(), true), mid.0) && first(
                mid.0,
                post.0,
            ));
        } else {
            assert(reach(second, pre.1, turns(schedule.drop_last(), false), mid.1) && second(
                mid.1,
                post.1,
            ));
        }
    }
}

} // verus!
