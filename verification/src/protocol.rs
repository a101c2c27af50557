//! What the library asks of its caller, and what the caller answers.
//!
//! The library itself touches neither files nor the shell. Its searches are state
//! machines: each names the [`Request`] to perform next, and goes on with the
//! [`Reply`]. Files that the caller holds are known by a number that the caller
//! chose, together with their path as text.
//!
//! Each type is generic over its texts, bytes and listings: `String`, `Vec<u8>`
//! and `Vec<DirEntry>` at run time; in contracts the sequences that are their
//! views.
use vstd::prelude::*;
use crate::error::WriteStage;

verus! {

/// The permissions of an executable file: all for its owner, reading and executing
/// for everyone.
pub const EXECUTABLE_MODE: u32 = 0o755;

/// A path that the caller holds.
#[derive(Debug, Clone)]
pub struct LocationOf<T> {
    /// The number by which the caller knows the path.
    pub id: u64,
    /// The path as text.
    pub path: T,
}

/// An install prefix.
#[derive(Debug)]
pub struct PrefixOf<T> {
    /// The number of the wrapper script that it was inferred from.
    pub script: u64,
    /// The prefix as text.
    pub path: T,
}

/// What an entry of a directory is. A symbolic link is neither a file nor a
/// directory.
#[derive(Debug, Clone, Copy, PartialEq, Eq, Structural)]
pub enum EntryKind {
    /// A regular file.
    File,
    /// A directory.
    Dir,
    /// Anything else.
    Other,
}

/// An entry of a directory.
#[derive(Debug)]
pub struct DirEntryOf<T, B> {
    /// Where the entry is.
    pub at: LocationOf<T>,
    /// Its name as text.
    pub name: T,
    /// The bytes of its name, by which directories are ordered.
    pub sort_key: B,
    /// What it is.
    pub kind: EntryKind,
}

/// A directory to list.
#[derive(Debug)]
pub enum PlaceOf<T> {
    /// The directory of this name in the install prefix of a wrapper script.
    UnderPrefix { script: u64, name: T },
    /// The directory of a wrapper script.
    ScriptDir { script: u64 },
    /// The install prefix of a wrapper script: the directory above its own.
    Prefix { script: u64 },
    /// An entry of a directory that was listed before.
    Entry(u64),
}

/// What the caller is to do next.
#[derive(Debug)]
pub enum RequestOf<T> {
    /// Find out whether `path` exists, and canonicalize it.
    Locate { path: T },
    /// Read once, at most `limit` bytes, from the beginning of a file.
    ReadHead { file: u64, limit: usize },
    /// Read exactly `len` bytes from the beginning of a file.
    ReadStart { file: u64, len: usize },
    /// Run `shell -ic command`, and tell the working directory.
    AskShell { shell: T, command: T },
    /// Canonicalize `path`, if it exists.
    FindExisting { path: T },
    /// Canonicalize the path of a file.
    Canonicalize { file: u64 },
    /// List a directory.
    List { place: PlaceOf<T> },
    /// Find out whether a file is a regular one.
    Examine { file: u64 },
    /// Find out what stands at `output`.
    CheckOutput { output: T, source: u64 },
    /// Write `preamble` and the bytes of the file `source` to `output`, and give it
    /// the permissions `mode`.
    Write { preamble: T, source: u64, output: T, mode: u32 },
}

/// What stands at the path of an output.
#[derive(Debug)]
pub struct OutputStateOf<B> {
    /// Whether it is a directory.
    pub is_dir: bool,
    /// Whether there is anything.
    pub exists: bool,
    /// Whether it is the very file of the source, under whatever path: a second hard
    /// link has a canonical path of its own.
    pub is_source: bool,
    /// The bytes of its canonical path, if it has one.
    pub canonical: Option<B>,
    /// The bytes of the canonical path of the source, if it has one.
    pub canonical_source: Option<B>,
}

/// What the caller found, for each kind of request.
#[derive(Debug)]
pub enum ReplyOf<T, B, L> {
    /// To `Locate`: there is nothing at the path.
    Missing,
    /// To `Locate`: something is there, but the path cannot be canonicalized.
    Unresolvable { cause: T },
    /// To `Locate`: the canonical path.
    Located(LocationOf<T>),
    /// To `ReadHead`: the bytes, unless the file cannot be read.
    Head(Option<B>),
    /// To `ReadStart`: the bytes, unless the file has fewer or cannot be read.
    Start(Option<B>),
    /// To `AskShell`: what the shell printed, or why it could not be run; and the
    /// working directory, if it is known.
    Shell { said: Result<B, T>, cwd: Option<T> },
    /// To `FindExisting`: the canonical path, if there is one.
    Existing(Option<LocationOf<T>>),
    /// To `Canonicalize`: the canonical path, if there is one.
    Canonical(Option<LocationOf<T>>),
    /// To `List`: the entries, unless the directory cannot be listed.
    Listing(Option<L>),
    /// To `Examine`: whether it is a regular file, or why that cannot be told.
    Examined(Result<bool, T>),
    /// To `CheckOutput`: what stands there.
    Output(OutputStateOf<B>),
    /// To `Write`: whether it was done, or what failed and why.
    Written(Result<(), (WriteStage, T)>),
}

/// A path that the caller holds.
pub type Location = LocationOf<String>;

/// An install prefix.
pub type Prefix = PrefixOf<String>;

/// An entry of a directory.
pub type DirEntry = DirEntryOf<String, Vec<u8>>;

/// A directory to list.
pub type Place = PlaceOf<String>;

/// What the caller is to do next.
pub type Request = RequestOf<String>;

/// What stands at the path of an output.
pub type OutputState = OutputStateOf<Vec<u8>>;

/// What the caller found.
pub type Reply = ReplyOf<String, Vec<u8>, Vec<DirEntry>>;

/// The view of a [`Location`].
pub type LocationModel = LocationOf<Seq<char>>;

/// The view of a [`Prefix`].
pub type PrefixModel = PrefixOf<Seq<char>>;

/// The view of a [`DirEntry`].
pub type EntryModel = DirEntryOf<Seq<char>, Seq<u8>>;

/// The view of a [`Place`].
pub type PlaceModel = PlaceOf<Seq<char>>;

/// The view of a [`Request`].
pub type RequestModel = RequestOf<Seq<char>>;

/// The view of an [`OutputState`].
pub type OutputModel = OutputStateOf<Seq<u8>>;

/// The view of a [`Reply`].
pub type ReplyModel = ReplyOf<Seq<char>, Seq<u8>, Seq<EntryModel>>;

/// A world: what it answers to every request.
pub type World = spec_fn(RequestModel) -> ReplyModel;

/// Whether `reply` is of the kind that `request` asks for.
pub open spec fn fits(request: RequestModel, reply: ReplyModel) -> bool {
    match request {
        RequestOf::Locate { .. } => reply is Missing || reply is Unresolvable || reply is Located,
        RequestOf::ReadHead { .. } => reply is Head,
        RequestOf::ReadStart { .. } => reply is Start,
        RequestOf::AskShell { .. } => reply is Shell,
        RequestOf::FindExisting { .. } => reply is Existing,
        RequestOf::Canonicalize { .. } => reply is Canonical,
        RequestOf::List { .. } => reply is Listing,
        RequestOf::Examine { .. } => reply is Examined,
        RequestOf::CheckOutput { .. } => reply is Output,
        RequestOf::Write { .. } => reply is Written,
    }
}

/// Whether a world answers every request with a reply of its kind.
pub open spec fn answers_all(w: World) -> bool {
    forall|request: RequestModel| fits(request, #[trigger] w(request))
}

/// The location that `o` holds, by its view.
pub open spec fn opt_location(o: Option<Location>) -> Option<LocationModel> {
    match o {
        Some(at) => Some(at@),
        None => None,
    }
}

/// The prefix that `o` holds, by its view.
pub open spec fn opt_prefix(o: Option<&Prefix>) -> Option<PrefixModel> {
    match o {
        Some(prefix) => Some(prefix@),
        None => None,
    }
}

/// The text of the prefix that `o` holds.
pub open spec fn prefix_text(o: Option<PrefixModel>) -> Option<Seq<char>> {
    match o {
        Some(prefix) => Some(prefix.path),
        None => None,
    }
}

/// The entries `v`, by their views.
pub open spec fn entries(v: Seq<DirEntry>) -> Seq<EntryModel> {
    v.map_values(|e: DirEntry| e@)
}

impl View for LocationOf<String> {
    type V = LocationModel;

    open spec fn view(&self) -> LocationModel {
        LocationOf { id: self.id, path: self.path@ }
    }
}

impl View for PrefixOf<String> {
    type V = PrefixModel;

    open spec fn view(&self) -> PrefixModel {
        PrefixOf { script: self.script, path: self.path@ }
    }
}

impl View for DirEntryOf<String, Vec<u8>> {
    type V = EntryModel;

    open spec fn view(&self) -> EntryModel {
        DirEntryOf {
            at: self.at@,
            name: self.name@,
            sort_key: self.sort_key@,
            kind: self.kind,
        }
    }
}

impl View for PlaceOf<String> {
    type V = PlaceModel;

    open spec fn view(&self) -> PlaceModel {
        match *self {
            PlaceOf::UnderPrefix { script, name } => PlaceOf::UnderPrefix { script, name: name@ },
            PlaceOf::ScriptDir { script } => PlaceOf::ScriptDir { script },
            PlaceOf::Prefix { script } => PlaceOf::Prefix { script },
            PlaceOf::Entry(id) => PlaceOf::Entry(id),
        }
    }
}

impl View for RequestOf<String> {
    type V = RequestModel;

    open spec fn view(&self) -> RequestModel {
        match *self {
            RequestOf::Locate { path } => RequestOf::Locate { path: path@ },
            RequestOf::ReadHead { file, limit } => RequestOf::ReadHead { file, limit },
            RequestOf::ReadStart { file, len } => RequestOf::ReadStart { file, len },
            RequestOf::AskShell { shell, command } => RequestOf::AskShell {
                shell: shell@,
                command: command@,
            },
            RequestOf::FindExisting { path } => RequestOf::FindExisting { path: path@ },
            RequestOf::Canonicalize { file } => RequestOf::Canonicalize { file },
            RequestOf::List { place } => RequestOf::List { place: place@ },
            RequestOf::Examine { file } => RequestOf::Examine { file },
            RequestOf::CheckOutput { output, source } => RequestOf::CheckOutput {
                output: output@,
                source,
            },
            RequestOf::Write { preamble, source, output, mode } => RequestOf::Write {
                preamble: preamble@,
                source,
                output: output@,
                mode,
            },
        }
    }
}

impl View for OutputStateOf<Vec<u8>> {
    type V = OutputModel;

    open spec fn view(&self) -> OutputModel {
        OutputStateOf {
            is_dir: self.is_dir,
            exists: self.exists,
            is_source: self.is_source,
            canonical: match self.canonical {
                Some(b) => Some(b@),
                None => None,
            },
            canonical_source: match self.canonical_source {
                Some(b) => Some(b@),
                None => None,
            },
        }
    }
}

impl View for ReplyOf<String, Vec<u8>, Vec<DirEntry>> {
    type V = ReplyModel;

    open spec fn view(&self) -> ReplyModel {
        match *self {
            ReplyOf::Missing => ReplyOf::Missing,
            ReplyOf::Unresolvable { cause } => ReplyOf::Unresolvable { cause: cause@ },
            ReplyOf::Located(at) => ReplyOf::Located(at@),
            ReplyOf::Head(bytes) => ReplyOf::Head(
                match bytes {
                    Some(b) => Some(b@),
                    None => None,
                },
            ),
            ReplyOf::Start(bytes) => ReplyOf::Start(
                match bytes {
                    Some(b) => Some(b@),
                    None => None,
                },
            ),
            ReplyOf::Shell { said, cwd } => ReplyOf::Shell {
                said: match said {
                    Ok(b) => Ok(b@),
                    Err(cause) => Err(cause@),
                },
                cwd: match cwd {
                    Some(dir) => Some(dir@),
                    None => None,
                },
            },
            ReplyOf::Existing(at) => ReplyOf::Existing(opt_location(at)),
            ReplyOf::Canonical(at) => ReplyOf::Canonical(opt_location(at)),
            ReplyOf::Listing(list) => ReplyOf::Listing(
                match list {
                    Some(v) => Some(entries(v@)),
                    None => None,
                },
            ),
            ReplyOf::Examined(r) => ReplyOf::Examined(
                match r {
                    Ok(b) => Ok(b),
                    Err(cause) => Err(cause@),
                },
            ),
            ReplyOf::Output(found) => ReplyOf::Output(found@),
            ReplyOf::Written(r) => ReplyOf::Written(
                match r {
                    Ok(()) => Ok(()),
                    Err((stage, cause)) => Err((stage, cause@)),
                },
            ),
        }
    }
}

impl LocationOf<String> {
    /// The same location again.
    pub fn copied(&self) -> (r: Location)
        ensures
            r@ == self@,
    {
        LocationOf { id: self.id, path: self.path.clone() }
    }
}

impl PlaceOf<String> {
    /// The same place again.
    pub fn copied(&self) -> (r: Place)
        ensures
            r@ == self@,
    {
        match self {
            PlaceOf::UnderPrefix { script, name } => PlaceOf::UnderPrefix {
                script: *script,
                name: name.clone(),
            },
            PlaceOf::ScriptDir { script } => PlaceOf::ScriptDir { script: *script },
            PlaceOf::Prefix { script } => PlaceOf::Prefix { script: *script },
            PlaceOf::Entry(id) => PlaceOf::Entry(*id),
        }
    }
}

} // verus!
