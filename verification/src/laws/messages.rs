//! What is said of an error: the same words for all texts.
use vstd::prelude::*;
use crate::error;
use crate::error::{ErrorOf, WriteStage};

verus! {

/// What is said of an input that leads to no source: the texts of the error stand
/// in it as they are.
pub proof fn law_unresolved(a: Seq<char>, b: Seq<char>, c: Seq<char>)
    ensures
        error::message_of(ErrorOf::CannotResolve { input: a, cause: b }) == "cannot resolve path: "@
            + a + ": "@ + b,
        error::message_of(ErrorOf::AlreadyWrapped { path: a }) == a
            + " is already a magicjar self-executing file; pass the original .jar instead"@,
        error::message_of(ErrorOf::NotJarNorWrapper { path: a }) == a
            + " is neither a .jar nor a text wrapper script that references one"@,
        error::message_of(ErrorOf::WrapperUnresolved { script: a })
            == "could not find the .jar referenced by wrapper script "@ + a
            + ": no resolvable .jar reference found"@,
        error::message_of(ErrorOf::ShellFailed { name: a, shell: b, cause: c }) == "no file '"@ + a
            + "', and failed to run "@ + b + " to look up an alias: "@ + c,
        error::message_of(ErrorOf::NoSuchAlias { name: a }) == "no file or shell alias named '"@ + a
            + "'"@,
        error::message_of(ErrorOf::AliasUnresolved { name: a, line: b }) == "shell alias '"@ + a
            + "' does not resolve to a .jar: "@ + b + ": no resolvable .jar reference found"@,
{
}

/// What is said of a source, of options or of an output that is refused.
pub proof fn law_refused(a: Seq<char>, b: Seq<char>)
    ensures
        error::message_of(ErrorOf::SourceMissing { path: a, cause: b })
            == "source jar does not exist: "@ + a + ": "@ + b,
        error::message_of(ErrorOf::SourceNotRegular { path: a })
            == "source is not a regular file: "@ + a,
        error::message_of(ErrorOf::SourceNotJar { path: a })
            == "source does not look like a .jar (no .jar suffix or ZIP magic): "@ + a,
        error::message_of(ErrorOf::InvalidJvmOpts { options: a, cause: b })
            == "invalid --default-jvm-opts: "@ + a + ": "@ + b,
        error::message_of(ErrorOf::OutputIsDirectory { output: a })
            == "output path is a directory: "@ + a,
        error::message_of(ErrorOf::SameFile { output: a })
            == "input and output are the same file: "@ + a,
        error::message_of(ErrorOf::OutputExists { output: a }) == a
            + " already exists (use --force to overwrite)"@,
{
}

/// What is said of an output that could not be written, for each thing that can
/// fail.
pub proof fn law_unwritten(stage: WriteStage, source: Seq<char>, output: Seq<char>, cause: Seq<char>)
    ensures
        error::message_of(ErrorOf::WriteFailed { stage, source, output, cause }) == (match stage {
            WriteStage::OpenSource => "cannot open source jar: "@ + source + ": "@ + cause,
            WriteStage::CreateOutput => "cannot create output: "@ + output + ": "@ + cause,
            WriteStage::WritePreamble => "failed writing preamble to "@ + output + ": "@ + cause,
            WriteStage::AppendJar => "failed appending jar to "@ + output + ": "@ + cause,
            WriteStage::Flush => cause,
            WriteStage::ReadMode => cause,
            WriteStage::SetMode => "failed to chmod "@ + output + ": "@ + cause,
        }),
{
}

} // verus!
