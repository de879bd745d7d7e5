//! Bounded single-producer/single-consumer ring buffers.
//!
//! Four variants of one design are provided, each removing an inefficiency of
//! the one before it:
//!
//! * [`r0::RingBuf0`]: single owner, slots found by remainder;
//! * [`r1::RingBuf`]: single owner, slots found by bit mask;
//! * [`r2`]: a buffer shared by a [`r2::Producer`] and a [`r2::Consumer`],
//!   with atomic indices;
//! * [`r3`]: the same protocol with padded index groups and cached copies of
//!   the peer's index.
//!
//! All of them keep the items in a power-of-two number of slots and count
//! with indices that only grow and wrap around at the largest `usize`.
//! [`index`] holds that arithmetic, [`ring`] the proof that slots and indices
//! make a first-in first-out queue, and [`queue`] what such a queue does.
//!
//! What a variant returns and holds is proved of the forms that one owner
//! holds: [`r0::RingBuf0`], [`r1::RingBuf`], [`r2::Core`] and [`r3::Core`].
//! Of the two forms that threads share, [`r2::Buffer`] and [`r3::Buffer`],
//! the contracts fix the decisions only; the shared forms take these, the
//! slots and the next indices from the same verified functions as the
//! single-owner forms. [`protocol`] is a model of the steps that one
//! producer and one consumer take, with the proof that in the model the
//! steps may interleave in any way without losing, repeating or reordering
//! an item. [`r2::Core`] and [`r3::Core`] are proved to take the model's
//! steps; the proof of the interleavings is of the model, not of the
//! running threads.
//!
//! [`cores`], [`variant`], [`report`] and [`text`] serve a program that
//! measures the variants: they choose the processor cores, name the
//! variants, work out the throughput and format what is printed.
pub mod cores;
pub mod helper;
pub mod index;
pub mod protocol;
pub mod queue;
pub mod report;
pub mod r0;
pub mod r1;
pub mod r2;
pub mod r3;
pub mod ring;
pub mod slot;
pub mod text;
pub mod variant;
