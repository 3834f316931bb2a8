//! Merges timestamped line files into one synchronized stream.
//!
//! Each input is a sequence of lines whose first whitespace-separated token
//! is a timestamp. All inputs must advance through the same timestamps and
//! end at the same step; each step produces one output record holding the
//! shared timestamp followed by every input's payload, in input order.

pub mod cli;
pub mod col;
pub mod directive;
pub mod laws;
pub mod level;
pub mod text;
