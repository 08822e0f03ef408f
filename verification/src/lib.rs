//! Singly-linked lists under three ownership disciplines.
//!
//! - [`box_no_ref`]: each node owns the next, and a change rebuilds the list.
//! - [`box_ref`]: each node owns the next, and a change is made in place
//!   through a cursor.
//! - [`shared_ref`]: the nodes are shared through handles and changed in
//!   place.
//!
//! Every list is read through its view, the sequence of its values from the
//! entry to the end of the chain, and every operation states how it changes
//! that sequence. [`laws`] holds what follows for all three lists, and
//! [`render`] the line of text that shows a list.
pub mod box_no_ref;
pub mod box_ref;
pub mod laws;
pub mod render;
pub mod shared_ref;
mod steps;
