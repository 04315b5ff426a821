use trampoline::drive;
use trampoline::drive_pair;
use trampoline::mainloop_trampoline_ud;
use trampoline::run;

struct Tally {
    total: i64,
    calls: u32,
}

#[test]
fn interleaved_registrations_do_not_see_each_other() {
    let mut up = run(
        |state: &mut Tally| {
            state.total += 2;
            state.calls += 1;
        },
        Box::new(Tally { total: 0, calls: 0 }),
    );
    let mut down = run(
        |state: &mut Tally| {
            state.total -= 5;
            state.calls += 1;
        },
        Box::new(Tally { total: 100, calls: 0 }),
    );
    let schedule = [true, false, false, true, true, false, true, true, false, true];
    let mut up_turns = 0i64;
    let mut down_turns = 0i64;
    for first in schedule {
        if first {
            mainloop_trampoline_ud(&mut up.data);
            up_turns += 1;
        } else {
            mainloop_trampoline_ud(&mut down.data);
            down_turns += 1;
        }
        assert_eq!(up.data.user_data().total, 2 * up_turns);
        assert_eq!(down.data.user_data().total, 100 - 5 * down_turns);
    }
    assert_eq!(up.data.user_data().calls, 6);
    assert_eq!(down.data.user_data().calls, 4);
    assert_eq!(up.data.user_data().total, 12);
    assert_eq!(down.data.user_data().total, 80);
}

#[test]
fn interleaving_gives_what_running_alone_gives() {
    fn collatz(state: &mut u64) {
        *state = if *state % 2 == 0 { *state / 2 } else { 3 * *state + 1 };
    }
    fn square_mod(state: &mut u64) {
        *state = (*state * *state) % 1_000_003;
    }
    let mut alone_a = run(collatz, Box::new(27u64));
    let mut alone_b = run(square_mod, Box::new(12345u64));
    for _ in 0..40 {
        mainloop_trampoline_ud(&mut alone_a.data);
    }
    for _ in 0..25 {
        mainloop_trampoline_ud(&mut alone_b.data);
    }

    let mut mixed_a = run(collatz, Box::new(27u64));
    let mut mixed_b = run(square_mod, Box::new(12345u64));
    let mut a_left = 40;
    let mut b_left = 25;
    let mut round = 0u32;
    while a_left > 0 || b_left > 0 {
        if a_left > 0 && (round % 3 != 0 || b_left == 0) {
            mainloop_trampoline_ud(&mut mixed_a.data);
            a_left -= 1;
        } else {
            mainloop_trampoline_ud(&mut mixed_b.data);
            b_left -= 1;
        }
        round += 1;
    }
    assert_eq!(*mixed_a.data.user_data(), *alone_a.data.user_data());
    assert_eq!(*mixed_b.data.user_data(), *alone_b.data.user_data());
}

#[test]
fn same_callback_registered_twice_keeps_two_states() {
    fn double(state: &mut u32) {
        *state *= 2;
    }
    let mut small = run(double, Box::new(1u32));
    let mut large = run(double, Box::new(1000u32));
    mainloop_trampoline_ud(&mut small.data);
    mainloop_trampoline_ud(&mut large.data);
    mainloop_trampoline_ud(&mut small.data);
    assert_eq!(*small.data.user_data(), 4);
    assert_eq!(*large.data.user_data(), 2000);
}

#[test]
fn registrations_of_different_state_types_share_a_loop() {
    let mut words = run(|state: &mut String| state.push('x'), Box::new(String::from("a")));
    let mut numbers = run(|state: &mut Vec<u8>| state.push(state.len() as u8), Box::new(Vec::new()));
    for turn in 0..6 {
        if turn % 2 == 0 {
            mainloop_trampoline_ud(&mut words.data);
        } else {
            mainloop_trampoline_ud(&mut numbers.data);
        }
    }
    assert_eq!(words.data.user_data().as_str(), "axxx");
    assert_eq!(*numbers.data.user_data(), vec![0u8, 1, 2]);
}

#[test]
fn drive_pair_takes_the_turns_in_order() {
    let mut log_a = run(|state: &mut Vec<u32>| state.push(state.len() as u32), Box::new(Vec::new()));
    let mut log_b = run(|state: &mut String| state.push('b'), Box::new(String::new()));
    drive_pair(&mut log_a.data, &mut log_b.data, &[true, true, false, true, false, false, false]);
    assert_eq!(*log_a.data.user_data(), vec![0, 1, 2]);
    assert_eq!(log_b.data.user_data().as_str(), "bbbb");
}

#[test]
fn drive_pair_gives_each_state_its_own_run() {
    fn triple(state: &mut u64) {
        *state = state.wrapping_mul(3);
    }
    fn decrement(state: &mut i32) {
        *state -= 1;
    }
    let schedule = [false, true, false, false, true, true, true, false, true];
    let mut mixed_a = run(triple, Box::new(1u64));
    let mut mixed_b = run(decrement, Box::new(0i32));
    drive_pair(&mut mixed_a.data, &mut mixed_b.data, &schedule);

    let mut alone_a = run(triple, Box::new(1u64));
    let mut alone_b = run(decrement, Box::new(0i32));
    drive(&mut alone_a.data, 5);
    drive(&mut alone_b.data, 4);
    assert_eq!(*mixed_a.data.user_data(), 243);
    assert_eq!(*mixed_b.data.user_data(), -4);
    assert_eq!(*mixed_a.data.user_data(), *alone_a.data.user_data());
    assert_eq!(*mixed_b.data.user_data(), *alone_b.data.user_data());
}

#[test]
fn drive_pair_with_no_turns_invokes_nothing() {
    let mut a = run(|state: &mut u8| *state = 255, Box::new(1u8));
    let mut b = run(|state: &mut u8| *state = 254, Box::new(2u8));
    drive_pair(&mut a.data, &mut b.data, &[]);
    assert_eq!(*a.data.user_data(), 1);
    assert_eq!(*b.data.user_data(), 2);
}

#[test]
fn drive_pair_with_one_side_only_leaves_the_other() {
    let mut a = run(|state: &mut u8| *state += 1, Box::new(1u8));
    let mut b = run(|state: &mut u8| *state = 254, Box::new(2u8));
    drive_pair(&mut a.data, &mut b.data, &[true, true, true]);
    assert_eq!(*a.data.user_data(), 4);
    assert_eq!(*b.data.user_data(), 2);
    drive_pair(&mut a.data, &mut b.data, &[false]);
    assert_eq!(*a.data.user_data(), 4);
    assert_eq!(*b.data.user_data(), 254);
}
