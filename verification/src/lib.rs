//! A verified line/word/byte counting library.
//!
//! The core is a single-pass byte classifier ([`counter`]) that detects line
//! and word boundaries while scanning raw bytes exactly once.  Around it stand
//! a flag scanner ([`options`]) that turns a raw argument list into a field
//! selection, and a formatter ([`format`]) that renders one result record as
//! an aligned text line.  File and stream I/O is left to the caller, which
//! hands each input to the counter as plain bytes.

pub mod counter;
pub mod format;
pub mod options;
