//! A cooperative, user-space fiber scheduler for the System V x86-64 ABI.
//!
//! A fixed pool of fibers, each with a stack of its own, runs on one thread.
//! One fiber runs at a time; it keeps the CPU until it yields or its task
//! returns, and the CPU then goes to the next fiber round the pool.
//!
//! The crate holds everything about the scheduler that is data and decision:
//!
//! - [`context`]: the saved register set and the order of its words;
//! - [`stack`]: the layout of a stack that is ready for a fiber's first run;
//! - [`thread`]: a fiber and its life cycle;
//! - [`schedule`]: the round-robin rule, stated on the fiber states;
//! - [`runtime`]: the pool, and the operations that spawn, yield and return;
//! - [`sim`]: a simulator that drives scripted tasks through a runtime and
//!   logs what they do.
//!
//! The few instructions that move the CPU from one stack to another are not
//! here. Every operation that hands the CPU on names the two fibers involved,
//! and the embedding program switches between them.
//!
//! [`coroutine`] stands apart from the fibers: it is the state machine of a
//! stackless coroutine that awaits two requests in turn.
pub mod context;
pub mod stack;
pub mod thread;
pub mod schedule;
pub mod runtime;
pub mod sim;
pub mod coroutine;
