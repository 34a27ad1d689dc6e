//! A streaming translator from ANSI/VT escape sequences to native console
//! operations: plain bytes pass through, recognized sequences become commands.
//!
//! - `bytes`: the pushback byte queue that recognition reads from.
//! - `sequence`: the escape-sequence grammar as a model (`step`, `run`).
//! - `recognizer`: one recognition step on the queue, proved against `step`.
//! - `colorable`: the stream adapter, whose `write` is proved against `run`.
//! - `chunking`: why the result does not depend on how input is split.
//! - `palette`: colour tables and the nearest-native-colour resolver.
//! - `graphics`: SGR parameters and their effect on the attribute word.
//! - `cursor`: cursor movement and erase regions.
pub mod bytes;
pub mod sequence;
pub mod recognizer;
pub mod colorable;
pub mod chunking;
pub mod palette;
pub mod graphics;
pub mod cursor;
