//! Core of a preemptive multitasking kernel: the thread pool and its run-queue
//! policy, the per-CPU executor, the blocking primitives built on them, and
//! the system calls that act on threads and processes. Beside it stands what
//! the drivers and the socket layer decide by themselves.
//!
//! Everything here is a sequential state machine. The code that switches
//! stacks, masks interrupts, touches device and user memory or asks the
//! network stack drives it from outside: it calls a function with what it has
//! read, and does what the answer says.

pub mod condvar;
pub mod dev;
pub mod e1000;
pub mod errno;
pub mod exit_codes;
pub mod fairness;
pub mod futex;
pub mod ipi;
pub mod laws;
pub mod net;
pub mod process;
pub mod processor;
pub mod scheduler;
pub mod semaphore;
pub mod serial;
pub mod sockaddr;
pub mod spin;
pub mod syscall;
pub mod thread_pool;
