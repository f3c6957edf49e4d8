//! Verified core of a terminal explorer for escape-time fractals: the grid of
//! escape counts, the banded fill that produces it, the dirty checker that
//! decides when to refill it, and the histogram analysis that derives a
//! display window from it.
//!
//! Everything here works on integers. Callers that animate real-valued
//! quantities keep those numbers themselves and hand this crate the orderings
//! and bit patterns it decides on.

pub mod animator;
pub mod ansi;
pub mod coordlist;
pub mod dirtychecker;
pub mod error;
pub mod exposure;
pub mod fractalcalc;
pub mod histogram;
pub mod input;
pub mod matrix;
pub mod textbuffer;
pub mod timing;
pub mod view;
