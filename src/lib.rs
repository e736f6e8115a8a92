//! A two-phase middleware chain: middleware are entered in the order they
//! were linked and exited in reverse, and an "unwind" signal on the way in
//! stops the forward pass while still exiting everything that had entered.

pub mod middleware;
pub mod stackchain;
pub mod laws;
