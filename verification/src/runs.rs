//! Runs: what repeated invocations do to a state, as a relation between the
//! state before the first invocation and the state after the last.
//!
//! A step relation `step(a, b)` says that one invocation can take the state
//! from `a` to `b`. For a registration `r` it is
//! `|a, b| exists|call: &mut T| *call == a && *final(call) == b && (r.effect)(call)`.

use vstd::prelude::*;

verus! {

/// `post` can be reached from `pre` by exactly `n` steps of `step`, each
/// starting on the state that the one before it left.
pub open spec fn reach<T>(step: spec_fn(T, T) -> bool, pre: T, n: nat, post: T) -> bool
    decreases n,
{
    if n == 0 {
        post == pre
    } else {
        exists|mid: T| reach(step, pre, (n - 1) as nat, mid) && #[trigger] step(mid, post)
    }
}

/// How many of the turns in `schedule` belong to `who`.
pub open spec fn turns(schedule: Seq<bool>, who: bool) -> nat
    decreases schedule.len(),
{
    if schedule.len() == 0 {
        0
    } else {
        turns(schedule.drop_last(), who) + if schedule.last() == who {
            1nat
        } else {
            0nat
        }
    }
}

/// One turn in a loop that serves two registrations: an invocation of the
/// first where `who` is `true`, of the second where it is `false`. The
/// invocation steps the state of its own registration; it has no access to the
/// other, which stays as it is.
pub open spec fn turn<A, B>(
    first: spec_fn(A, A) -> bool,
    second: spec_fn(B, B) -> bool,
    who: bool,
    pre: (A, B),
    post: (A, B),
) -> bool {
    if who {
        first(pre.0, post.0) && post.1 == pre.1
    } else {
        second(pre.1, post.1) && post.0 == pre.0
    }
}

/// `post` is a pair of states that the turns listed in `schedule`, taken in
/// order, can lead to from the pair `pre`.
pub open spec fn interleaved<A, B>(
    first: spec_fn(A, A) -> bool,
    second: spec_fn(B, B) -> bool,
    pre: (A, B),
    schedule: Seq<bool>,
    post: (A, B),
) -> bool
    decreases schedule.len(),
{
    if schedule.len() == 0 {
        post == pre
    } else {
        exists|mid: (A, B)|
            interleaved(first, second, pre, schedule.drop_last(), mid) && #[trigger] turn(
                first,
                second,
                schedule.last(),
                mid,
                post,
            )
    }
}

} // verus!
