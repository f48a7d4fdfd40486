//! A sampling stack profiler for a virtual machine, seen from outside the guest.
//!
//! The library holds the decisions of the profiler: it reads register and memory
//! dumps, follows the chain of saved frame pointers, folds known recursive call
//! cycles, counts the folded stacks and says which monitor command comes next.
//! Talking to the hypervisor and waiting for the timer is left to the caller.

pub mod collapse;
pub mod digits;
pub mod monitor;
pub mod sampler;
pub mod signature;
pub mod symbols;
pub mod table;
pub mod walker;
