//! What the operations of the library are for, said from their inputs and results
//! alone.
//!
//! The statements here speak of characters, bytes, positions and replies. They say
//! what the definitions of the library come to, in words of their own.
pub mod chars;
pub mod texts;
pub mod paths;
pub mod references;
pub mod bytes;
pub mod walks;
pub mod expansion;
pub mod probes;
pub mod sources;
pub mod runs;
pub mod words;
pub mod messages;
pub mod views;
pub mod script;
