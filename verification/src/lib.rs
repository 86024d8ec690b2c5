//! Verified core of the Dumb Voice Protocol terminal: argument and
//! configuration merging, post-processing specs, output framing and
//! address computation, and device selection.

pub mod text;
pub mod args;
pub mod paths;
pub mod post_proc;
pub mod output;
pub mod device;
