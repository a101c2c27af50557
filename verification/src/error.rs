//! What can go wrong.
use vstd::prelude::*;

verus! {

/// The part of writing an output that failed.
#[derive(Debug, Clone, Copy, PartialEq, Eq, Structural)]
pub enum WriteStage {
    /// Opening the source jar.
    OpenSource,
    /// Creating the output file.
    CreateOutput,
    /// Writing the preamble.
    WritePreamble,
    /// Appending the bytes of the jar.
    AppendJar,
    /// Flushing the output file.
    Flush,
    /// Reading the permissions of the output file.
    ReadMode,
    /// Marking the output file executable.
    SetMode,
}

/// Why no output was written, over texts of type `T`: `String` at run time, a
/// `Seq<char>` in contracts.
#[derive(Debug)]
pub enum ErrorOf<T> {
    /// The input exists but its path cannot be canonicalized.
    CannotResolve { input: T, cause: T },
    /// The input has been made self-executing before.
    AlreadyWrapped { path: T },
    /// The input is neither a jar nor text.
    NotJarNorWrapper { path: T },
    /// The wrapper script refers to no jar that can be found.
    WrapperUnresolved { script: T },
    /// There is no such file, and the shell could not be run.
    ShellFailed { name: T, shell: T, cause: T },
    /// There is neither a file nor an alias of this name.
    NoSuchAlias { name: T },
    /// The alias refers to no jar that can be found.
    AliasUnresolved { name: T, line: T },
    /// The source jar cannot be examined.
    SourceMissing { path: T, cause: T },
    /// The source jar is no regular file.
    SourceNotRegular { path: T },
    /// The source has neither the suffix nor the first bytes of a jar.
    SourceNotJar { path: T },
    /// The JVM options cannot be split into words.
    InvalidJvmOpts { options: T, cause: T },
    /// The output path names a directory.
    OutputIsDirectory { output: T },
    /// The output is the source jar itself.
    SameFile { output: T },
    /// The output exists and may not be overwritten.
    OutputExists { output: T },
    /// Writing the output failed.
    WriteFailed { stage: WriteStage, source: T, output: T, cause: T },
}

/// An error, with the texts that its message names.
pub type Error = ErrorOf<String>;

impl View for ErrorOf<String> {
    type V = ErrorOf<Seq<char>>;

    open spec fn view(&self) -> ErrorOf<Seq<char>> {
        match *self {
            ErrorOf::CannotResolve { input, cause } => ErrorOf::CannotResolve {
                input: input@,
                cause: cause@,
            },
            ErrorOf::AlreadyWrapped { path } => ErrorOf::AlreadyWrapped { path: path@ },
            ErrorOf::NotJarNorWrapper { path } => ErrorOf::NotJarNorWrapper { path: path@ },
            ErrorOf::WrapperUnresolved { script } => ErrorOf::WrapperUnresolved { script: script@ },
            ErrorOf::ShellFailed { name, shell, cause } => ErrorOf::ShellFailed {
                name: name@,
                shell: shell@,
                cause: cause@,
            },
            ErrorOf::NoSuchAlias { name } => ErrorOf::NoSuchAlias { name: name@ },
            ErrorOf::AliasUnresolved { name, line } => ErrorOf::AliasUnresolved {
                name: name@,
                line: line@,
            },
            ErrorOf::SourceMissing { path, cause } => ErrorOf::SourceMissing {
                path: path@,
                cause: cause@,
            },
            ErrorOf::SourceNotRegular { path } => ErrorOf::SourceNotRegular { path: path@ },
            ErrorOf::SourceNotJar { path } => ErrorOf::SourceNotJar { path: path@ },
            ErrorOf::InvalidJvmOpts { options, cause } => ErrorOf::InvalidJvmOpts {
                options: options@,
                cause: cause@,
            },
            ErrorOf::OutputIsDirectory { output } => ErrorOf::OutputIsDirectory { output: output@ },
            ErrorOf::SameFile { output } => ErrorOf::SameFile { output: output@ },
            ErrorOf::OutputExists { output } => ErrorOf::OutputExists { output: output@ },
            ErrorOf::WriteFailed { stage, source, output, cause } => ErrorOf::WriteFailed {
                stage,
                source: source@,
                output: output@,
                cause: cause@,
            },
        }
    }
}

/// The message of an error, from the outermost circumstance to the cause.
pub open spec fn message_of(e: ErrorOf<Seq<char>>) -> Seq<char> {
    match e {
        ErrorOf::CannotResolve { input, cause } => "cannot resolve path: "@ + input + ": "@ + cause,
        ErrorOf::AlreadyWrapped { path } => path
            + " is already a magicjar self-executing file; pass the original .jar instead"@,
        ErrorOf::NotJarNorWrapper { path } => path
            + " is neither a .jar nor a text wrapper script that references one"@,
        ErrorOf::WrapperUnresolved { script } =>
        "could not find the .jar referenced by wrapper script "@ + script
            + ": no resolvable .jar reference found"@,
        ErrorOf::ShellFailed { name, shell, cause } => "no file '"@ + name
            + "', and failed to run "@ + shell + " to look up an alias: "@ + cause,
        ErrorOf::NoSuchAlias { name } => "no file or shell alias named '"@ + name + "'"@,
        ErrorOf::AliasUnresolved { name, line } => "shell alias '"@ + name
            + "' does not resolve to a .jar: "@ + line + ": no resolvable .jar reference found"@,
        ErrorOf::SourceMissing { path, cause } => "source jar does not exist: "@ + path + ": "@
            + cause,
        ErrorOf::SourceNotRegular { path } => "source is not a regular file: "@ + path,
        ErrorOf::SourceNotJar { path } =>
        "source does not look like a .jar (no .jar suffix or ZIP magic): "@ + path,
        ErrorOf::InvalidJvmOpts { options, cause } => "invalid --default-jvm-opts: "@ + options
            + ": "@ + cause,
        ErrorOf::OutputIsDirectory { output } => "output path is a directory: "@ + output,
        ErrorOf::SameFile { output } => "input and output are the same file: "@ + output,
        ErrorOf::OutputExists { output } => output
            + " already exists (use --force to overwrite)"@,
        ErrorOf::WriteFailed { stage, source, output, cause } => match stage {
            WriteStage::OpenSource => "cannot open source jar: "@ + source + ": "@ + cause,
            WriteStage::CreateOutput => "cannot create output: "@ + output + ": "@ + cause,
            WriteStage::WritePreamble => "failed writing preamble to "@ + output + ": "@ + cause,
            WriteStage::AppendJar => "failed appending jar to "@ + output + ": "@ + cause,
            WriteStage::Flush => cause,
            WriteStage::ReadMode => cause,
            WriteStage::SetMode => "failed to chmod "@ + output + ": "@ + cause,
        },
    }
}

/// `a`, `b`, `c` and `d`, one after the other.
fn glue(a: &str, b: &str, c: &str, d: &str) -> (r: String)
    ensures
        r@ == a@ + b@ + c@ + d@,
{
    let mut r: String = a.to_owned();
    r.append(b);
    r.append(c);
    r.append(d);
    r
}

impl ErrorOf<String> {
    /// The message of the error, from the outermost circumstance to the cause.
    pub fn message(&self) -> (r: String)
        ensures
            r@ == message_of(self@),
    {
        proof {
            reveal_strlit("");
        }
        let r: String = match self {
            ErrorOf::CannotResolve { input, cause } => glue(
                "cannot resolve path: ",
                input.as_str(),
                ": ",
                cause.as_str(),
            ),
            ErrorOf::AlreadyWrapped { path } => glue(
                path.as_str(),
                " is already a magicjar self-executing file; pass the original .jar instead",
                "",
                "",
            ),
            ErrorOf::NotJarNorWrapper { path } => glue(
                path.as_str(),
                " is neither a .jar nor a text wrapper script that references one",
                "",
                "",
            ),
            ErrorOf::WrapperUnresolved { script } => glue(
                "could not find the .jar referenced by wrapper script ",
                script.as_str(),
                ": no resolvable .jar reference found",
                "",
            ),
            ErrorOf::ShellFailed { name, shell, cause } => {
                let start: String = glue(
                    "no file '",
                    name.as_str(),
                    "', and failed to run ",
                    shell.as_str(),
                );
                glue(start.as_str(), " to look up an alias: ", cause.as_str(), "")
            },
            ErrorOf::NoSuchAlias { name } => glue(
                "no file or shell alias named '",
                name.as_str(),
                "'",
                "",
            ),
            ErrorOf::AliasUnresolved { name, line } => {
                let start: String = glue(
                    "shell alias '",
                    name.as_str(),
                    "' does not resolve to a .jar: ",
                    line.as_str(),
                );
                glue(start.as_str(), ": no resolvable .jar reference found", "", "")
            },
            ErrorOf::SourceMissing { path, cause } => glue(
                "source jar does not exist: ",
                path.as_str(),
                ": ",
                cause.as_str(),
            ),
            ErrorOf::SourceNotRegular { path } => glue(
                "source is not a regular file: ",
                path.as_str(),
                "",
                "",
            ),
            ErrorOf::SourceNotJar { path } => glue(
                "source does not look like a .jar (no .jar suffix or ZIP magic): ",
                path.as_str(),
                "",
                "",
            ),
            ErrorOf::InvalidJvmOpts { options, cause } => glue(
                "invalid --default-jvm-opts: ",
                options.as_str(),
                ": ",
                cause.as_str(),
            ),
            ErrorOf::OutputIsDirectory { output } => glue(
                "output path is a directory: ",
                output.as_str(),
                "",
                "",
            ),
            ErrorOf::SameFile { output } => glue(
                "input and output are the same file: ",
                output.as_str(),
                "",
                "",
            ),
            ErrorOf::OutputExists { output } => glue(
                output.as_str(),
                " already exists (use --force to overwrite)",
                "",
                "",
            ),
            ErrorOf::WriteFailed { stage, source, output, cause } => match stage {
                WriteStage::OpenSource => glue(
                    "cannot open source jar: ",
                    source.as_str(),
                    ": ",
                    cause.as_str(),
                ),
                WriteStage::CreateOutput => glue(
                    "cannot create output: ",
                    output.as_str(),
                    ": ",
                    cause.as_str(),
                ),
                WriteStage::WritePreamble => glue(
                    "failed writing preamble to ",
                    output.as_str(),
                    ": ",
                    cause.as_str(),
                ),
                WriteStage::AppendJar => glue(
                    "failed appending jar to ",
                    output.as_str(),
                    ": ",
                    cause.as_str(),
                ),
                WriteStage::Flush => cause.clone(),
                WriteStage::ReadMode => cause.clone(),
                WriteStage::SetMode => glue(
                    "failed to chmod ",
                    output.as_str(),
                    ": ",
                    cause.as_str(),
                ),
            },
        };
        assert(r@ =~= message_of(self@));
        r
    }
}

} // verus!
