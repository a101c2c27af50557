//! `magicjarlib` is the engine behind the `magicjar` binary.
//!
//! It resolves an input down to a single concrete `.jar` on disk, then prepends
//! a shell preamble and marks the result executable, producing one portable
//! self-executing file. The input may be:
//!
//! - a `.jar` file (by suffix, case-insensitive, or by ZIP magic);
//! - a symlink to a `.jar`;
//! - a conda/bioconda wrapper script (the `jar_wrapper` shim) that points at a
//!   jar elsewhere in the install;
//! - a shell alias whose definition launches a jar.
//!
//! The library decides; it does not touch files, processes or the environment.
//! [`run()`] and [`resolve_source`] give state machines: as long as
//! [`Run::request`] asks for something, the caller performs it and hands the
//! [`Reply`] to [`Run::answer`]; then [`Run::finish`] gives the outcome. What a
//! request means is said at [`Request`].
//!
//! - [`text`], [`path`], [`reference`] and [`expand`] are about texts: lines and
//!   words, file names, references to jars, and shell variables.
//! - [`shell`] and [`preamble`] make the shell preamble; [`layout`] is about what
//!   it is made of.
//! - [`source`] tells by its first bytes what a file is.
//! - [`walk`], [`resolve`], [`locate`] and [`run`](mod@run) are the machines, each
//!   one made of those before it. [`protocol`] has the requests and replies, and
//!   [`error`] what can go wrong.
//! - [`files`] says what a run does to files, and [`laws`] what the operations are
//!   for.
//!
//! Each machine has a spec function that says what it comes to in a world that
//! answers every request, and laws that lead from its first state to that result.
pub mod text;
pub mod path;
pub mod reference;
pub mod expand;
pub mod error;
pub mod shell;
pub mod preamble;
pub mod layout;
pub mod source;
pub mod protocol;
pub mod walk;
pub mod resolve;
pub mod locate;
pub mod run;
pub mod files;
pub mod laws;

pub use crate::error::{Error, WriteStage};
pub use crate::expand::Environment;
pub use crate::locate::{resolve_source, SourceSearch};
pub use crate::path::default_output_name;
pub use crate::preamble::{build_preamble, PreambleOptions};
pub use crate::protocol::{
    DirEntry, EntryKind, Location, OutputState, Place, Prefix, Reply, Request,
};
pub use crate::run::{run, Outcome, Run};
