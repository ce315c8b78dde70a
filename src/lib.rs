//! A fixed-capacity double-ended ring buffer.
//!
//! The buffer stores its elements in an array of `CAPACITY` optional slots and tracks the two
//! ends with a `front` and a `back` cursor. The two cursors are equal exactly when the buffer is
//! empty, and one step apart (`back + 1 == front`, wrapping) exactly when it is full, so at most
//! `CAPACITY - 1` elements fit.
//!
//! The elements stand in the slots after `front` up to `back` inclusive, read upwards and
//! wrapping round at `CAPACITY`; the slot under `front` is the unused one. A push at the back
//! fills the slot past `back` and moves `back` onto it; a pop at the back takes the slot under
//! `back` and moves it down. A push at the front fills the slot under `front` and moves `front`
//! down; a pop at the front moves `front` up and takes the slot under it. The model of a
//! buffer (its view) is the sequence of its elements, first to last.

pub mod ring;

pub use ring::RingBuffer;

pub mod laws;
