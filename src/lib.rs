use vstd::prelude::*;

pub mod abi;
pub mod context;
pub mod frame;
pub mod page_table;
pub mod thread;
pub mod kernel;
pub mod syscall;
pub mod trap;
pub mod semaphore;
pub mod parker;
pub mod board;
pub mod stdio;
pub mod client;
pub mod fork;
pub mod laws;

verus! {

} // verus!
