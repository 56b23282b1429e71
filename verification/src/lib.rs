//! A read-once, bounded-lookback tape for building lexical scanners.
//!
//! The heart of the crate is the [`LexBuf`] trait: a two-pointer view of an
//! item stream, with a *tail* (the left boundary, behind which items are
//! permanently consumed) and a *head* (the current read position). The span
//! `[tail, head)` is the *highlight*: items read but not yet committed or
//! discarded. A scanner probes forward with `get`/`unget`, then either
//! commits the highlight with `move_on` or abandons it with `give_up`.
//!
//! [`SeqTape`] is a backing store over an in-memory sequence, and
//! [`LexIter`] adapts any tape to `next`-style iteration so that standard
//! sequence-processing idioms can drive the probing.

pub mod laws;
pub mod seq_tape;
pub mod tape;

pub use seq_tape::SeqTape;
pub use tape::LexBuf;
pub use tape::LexIter;

