//! Discrete-time signals under linear time-invariant system theory: a signal
//! reads as zero outside its samples; it can be split into impulses, steps or
//! even and odd parts, added to another signal, and convolved with a kernel.
pub mod convolution;
pub mod decomposition;
pub mod signal;

pub use decomposition::{even_odd_decomposition, impulse_decomposition, step_decomposition, SignalError};
pub use signal::{AperiodicSignal, Signal};
