//! A trampoline between a typed callback with owned state and a driver loop
//! that only knows "one entry point, one opaque context".
//!
//! [`run`] stores a callback and its state in a registration record, hides the
//! callback's type behind a dynamic-dispatch handle and prepares what the
//! driver's registration call is given. [`mainloop_trampoline_ud`] is what the
//! driver then invokes, once per iteration, with that record as its context:
//! it recovers the callback and the state and runs the one on the other, in
//! place. [`drive`] and [`drive_pair`] are drivers for hosts that have no loop
//! of their own.
//!
//! Contracts speak of a record through its view, a [`mainloop::Registration`],
//! and of repeated invocations through [`runs::reach`]. What holds of every
//! registration is proved in [`laws`].

mod callback;
pub mod driver;
pub mod laws;
pub mod mainloop;
pub mod runs;

pub use driver::drive;
pub use driver::drive_pair;
pub use mainloop::mainloop_trampoline_ud;
pub use mainloop::run;
pub use mainloop::MainLoop;
pub use mainloop::WrappedMainData;
