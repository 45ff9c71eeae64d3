//! Resource management for the tasks of one process in a small teaching kernel:
//! the table of mapped virtual regions of a task, the per-process slots of
//! mutexes, semaphores and condition variables with their accounting matrices,
//! and the safety check that is run before a blocking acquisition is granted.
//!
//! Nothing here suspends a task or touches hardware. An operation that may have
//! to wait is a step of a state machine: it changes the tables and tells the
//! scheduler what to do next (see [`action::Outcome`]). The process-wide lock
//! of the kernel is the exclusive borrow of a table: a step holds it from its
//! first line to its last, and no step ever waits.
//!
//! The tables are well formed from the start and stay so: they are made by
//! their `new` functions and changed by the functions of this library only.
//!
//! - [`memory`]: the address region table and the page table, with mapping
//!   and unmapping; [`replay`]: what a sequence of such calls leaves behind.
//! - [`primitive`]: mutexes, semaphores and condition variables.
//! - [`detector`]: the safety check; [`safe_state`]: what its verdict means.
//! - [`model`]: the resource slot table as a mathematical value;
//!   [`resource`]: the table itself; [`reuse`]: how slots are given away again;
//!   [`safety`]: the questions that the table asks the detector.
//! - [`syscall`]: the system calls for synchronization.
//! - [`process`], [`task`], [`fs`]: what the other system calls decide.

pub mod action;
pub mod detector;
pub mod error;
pub mod fs;
pub mod memory;
pub mod model;
pub mod primitive;
pub mod process;
pub mod replay;
pub mod resource;
pub mod reuse;
pub mod safe_state;
pub mod safety;
pub mod slots;
pub mod syscall;
pub mod task;
