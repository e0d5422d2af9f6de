//! A batched-inference engine for text embeddings.
//!
//! Callers hand in requests; an admission controller bounds how many are in
//! flight at once; admitted requests wait in a bounded first-in-first-out
//! queue; a scheduler drains the queue into batches for the model and hands
//! each request its own vector, or the failure of the batch it travelled in.
//!
//! The engine itself performs no input or output and never blocks. It is a
//! state machine: every method takes the present state and one event, and
//! returns what has to be done next. The surrounding program owns the threads,
//! the channels and the model, and carries out what the engine decides.
//!
//! The parts, from the leaves up:
//!
//! - [`error`]: the failures of a request and of a call;
//! - [`tokens`] and [`batch`]: a tokenized text, and a batch of them laid out
//!   for the model;
//! - [`request`]: what goes into the engine and what comes out;
//! - [`admission`]: the pool of permits and its waiting line;
//! - [`queue`]: the bounded request queue;
//! - [`scheduler`]: who gets what after a forward pass;
//! - [`engine`]: the three put together;
//! - [`facade`]: the results of one call gathered into its answer;
//! - [`lifecycle`]: the one-time initialization of the model;
//! - [`trace`] and [`calls`]: what holds of every run of the engine, and of
//!   every call on it.

pub mod admission;
pub mod batch;
pub mod calls;
pub mod engine;
pub mod error;
pub mod facade;
pub mod lifecycle;
pub mod queue;
pub mod request;
pub mod scheduler;
pub mod tokens;
pub mod trace;
