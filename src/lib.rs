//! Draining and splicing for a growable contiguous array.
//!
//! A [`Drain`] takes a contiguous range out of a [`Vector`], hands its
//! elements out one at a time from either end, and on release closes the gap
//! by moving the untouched tail down. A [`Splice`] does the same and fills the
//! gap from a [`Replacement`] source, opening more room when the source has
//! more elements than the gap holds.

pub mod drain;
pub mod splice;
pub mod vector;

pub use drain::Drain;
pub use splice::{Replacement, Splice};
pub use vector::Vector;
