//! A driver that runs in the caller's own thread, for hosts that bring no
//! loop of their own.

use crate::laws::lemma_interleaving_isolates;
use crate::mainloop::mainloop_trampoline_ud;
use crate::mainloop::WrappedMainData;
use crate::runs::interleaved;
use crate::runs::reach;
use crate::runs::turn;
use crate::runs::turns;
use vstd::prelude::*;

verus! {

/// Invokes the entry point `frames` times on `user_data`, each invocation
/// starting on the state that the one before it left.
///
/// The callback has to accept every state that fewer than `frames`
/// invocations can lead to. With `frames == 0` nothing is invoked and the
/// state stays as it is.
pub fn drive<T>(user_data: &mut WrappedMainData<T>, frames: u64)
    requires
        ({
            let step = |a: T, b: T|
                exists|call: &mut T|
                    *call == a && *final(call) == b && #[trigger] (old(user_data)@.effect)(call);
            forall|k: nat, mid: T|
                k < frames && #[trigger] reach(step, old(user_data)@.state, k, mid) ==> (old(
                    user_data,
                )@.accepts)(mid)
        }),
    ensures
        final(user_data)@.accepts == old(user_data)@.accepts,
        final(user_data)@.effect == old(user_data)@.effect,
        reach(
            |a: T, b: T|
                exists|call: &mut T|
                    *call == a && *final(call) == b && #[trigger] (old(user_data)@.effect)(call),
            old(user_data)@.state,
            frames as nat,
            final(user_data)@.state,
        ),
        frames == 0 ==> final(user_data)@.state == old(user_data)@.state,
{
    let mut done: u64 = 0;
    while done < frames
        invariant
            done <= frames,
            user_data@.accepts == old(user_data)@.accepts,
            user_data@.effect == old(user_data)@.effect,
            ({
                let step = |a: T, b: T|
                    exists|call: &mut T|
                        *call == a && *final(call) == b && #[trigger] (old(user_data)@.effect)(
                            call,
                        );
                &&& reach(step, old(user_data)@.state, done as nat, user_data@.state)
                &&& forall|k: nat, mid: T|
                    k < frames && #[trigger] reach(step, old(user_data)@.state, k, mid) ==> (old(
                        user_data,
                    )@.accepts)(mid)
            }),
        decreases frames - done,
    {
        let ghost before = user_data@.state;
        mainloop_trampoline_ud(user_data);
        done = done + 1;
        proof {
            let step = |a: T, b: T|
                exists|call: &mut T|
                    *call == a && *final(call) == b && #[trigger] (old(user_data)@.effect)(call);
            assert(step(before, user_data@.state));
        }
    }
}

/// Serves two registrations from one loop: takes the turns that `schedule`
/// lists, in order, and invokes the entry point on `first` for `true` and on
/// `second` for `false`.
///
/// Each callback has to accept every state that the turns before one of its
/// own can lead to. However the turns are mixed, each state goes through a run
/// of its own callback alone.
pub fn drive_pair<A, B>(
    first: &mut WrappedMainData<A>,
    second: &mut WrappedMainData<B>,
    schedule: &[bool],
)
    requires
        ({
            let first_step = |a: A, b: A|
                exists|call: &mut A|
                    *call == a && *final(call) == b && #[trigger] (old(first)@.effect)(call);
            let second_step = |a: B, b: B|
                exists|call: &mut B|
                    *call == a && *final(call) == b && #[trigger] (old(second)@.effect)(call);
            forall|k: int, mid: (A, B)|
                0 <= k < schedule@.len() && #[trigger] interleaved(
                    first_step,
                    second_step,
                    (old(first)@.state, old(second)@.state),
                    schedule@.take(k),
                    mid,
                ) ==> if schedule@[k] {
                    (old(first)@.accepts)(mid.0)
                } else {
                    (old(second)@.accepts)(mid.1)
                }
        }),
    ensures
        final(first)@.accepts == old(first)@.accepts,
        final(first)@.effect == old(first)@.effect,
        final(second)@.accepts == old(second)@.accepts,
        final(second)@.effect == old(second)@.effect,
        ({
            let first_step = |a: A, b: A|
                exists|call: &mut A|
                    *call == a && *final(call) == b && #[trigger] (old(first)@.effect)(call);
            let second_step = |a: B, b: B|
                exists|call: &mut B|
                    *call == a && *final(call) == b && #[trigger] (old(second)@.effect)(call);
            &&& interleaved(
                first_step,
                second_step,
                (old(first)@.state, old(second)@.state),
                schedule@,
                (final(first)@.state, final(second)@.state),
            )
            &&& reach(
                first_step,
                old(first)@.state,
                turns(schedule@, true),
                final(first)@.state,
            )
            &&& reach(
                second_step,
                old(second)@.state,
                turns(schedule@, false),
                final(second)@.state,
            )
        }),
{
    let mut at: usize = 0;
    while at < schedule.len()
        invariant
            at <= schedule@.len(),
            first@.accepts == old(first)@.accepts,
            first@.effect == old(first)@.effect,
            second@.accepts == old(second)@.accepts,
            second@.effect == old(second)@.effect,
            ({
                let first_step = |a: A, b: A|
                    exists|call: &mut A|
                        *call == a && *final(call) == b && #[trigger] (old(first)@.effect)(call);
                let second_step = |a: B, b: B|
                    exists|call: &mut B|
                        *call == a && *final(call) == b && #[trigger] (old(second)@.effect)(call);
                &&& interleaved(
                    first_step,
                    second_step,
                    (old(first)@.state, old(second)@.state),
                    schedule@.take(at as int),
                    (first@.state, second@.state),
                )
                &&& forall|k: int, mid: (A, B)|
                    0 <= k < schedule@.len() && #[trigger] interleaved(
                        first_step,
                        second_step,
                        (old(first)@.state, old(second)@.state),
                        schedule@.take(k),
                        mid,
                    ) ==> if schedule@[k] {
                        (old(first)@.accepts)(mid.0)
                    } else {
                        (old(second)@.accepts)(mid.1)
                    }
            }),
        decreases schedule@.len() - at,
    {
        let ghost before = (first@.state, second@.state);
        if schedule[at] {
            mainloop_trampoline_ud(first);
        } else {
            mainloop_trampoline_ud(second);
        }
        at = at + 1;
        proof {
            let first_step = |a: A, b: A|
                exists|call: &mut A|
                    *call == a && *final(call) == b && #[trigger] (old(first)@.effect)(call);
            let second_step = |a: B, b: B|
                exists|call: &mut B|
                    *call == a && *final(call) == b && #[trigger] (old(second)@.effect)(call);
            let taken = schedule@.take(at as int);
            assert(taken.drop_last() =~= schedule@.take(at - 1));
            assert(turn(
                first_step,
                second_step,
                taken.last(),
                before,
                (first@.state, second@.state),
            ));
        }
    }
    proof {
        let first_step = |a: A, b: A|
            exists|call: &mut A|
                *call == a && *final(call) == b && #[trigger] (old(first)@.effect)(call);
        let second_step = |a: B, b: B|
            exists|call: &mut B|
                *call == a && *final(call) == b && #[trigger] (old(second)@.effect)(call);
        assert(schedule@.take(at as int) =~= schedule@);
        lemma_interleaving_isolates(
            first_step,
            second_step,
            (old(first)@.state, old(second)@.state),
            schedule@,
            (first@.state, second@.state),
        );
    }
}

} // verus!
