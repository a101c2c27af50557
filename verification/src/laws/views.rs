//! What contracts take values for: themselves, item by item.
use vstd::prelude::*;
use crate::error::{Error, ErrorOf};
use crate::expand;
use crate::locate;
use crate::protocol::{
    DirEntry, Location, LocationModel, OutputState, PlaceOf, Prefix, PrefixModel, ReplyOf, Request,
    RequestOf, Reply,
};
use crate::protocol;
use crate::resolve::Probe;
use crate::resolve;
use crate::run::{Outcome, OutcomeModel};
use crate::run;
use crate::source;
use crate::text;

verus! {

/// What may be absent is taken as absent just when it is; what is there is taken as
/// it is, empty or not.
pub proof fn law_options(
    s: &str,
    b: &[u8],
    at: Location,
    prefix: &Prefix,
    model: PrefixModel,
)
    ensures
        expand::opt_text(Some(s)) == Some(s@),
        expand::opt_text(None) is None,
        source::opt_bytes(Some(b)) == Some(b@),
        source::opt_bytes(None) is None,
        protocol::opt_location(Some(at)) == Some(at@),
        protocol::opt_location(None) is None,
        protocol::opt_prefix(Some(prefix)) == Some(prefix@),
        protocol::opt_prefix(None) is None,
        protocol::prefix_text(Some(model)) == Some(model.path),
        protocol::prefix_text(None) is None,
        at@.id == at.id,
        at@.path == at.path@,
        prefix@.script == prefix.script,
        prefix@.path == prefix.path@,
{
}

/// Results are taken as they are: a success for a success, an error for that error.
pub proof fn law_results(
    at: Location,
    outcome: Outcome,
    e: Error,
    is_file: bool,
    cause: String,
)
    ensures
        locate::location_result(Ok(at)) == Ok::<_, ErrorOf<Seq<char>>>(at@),
        locate::location_result(Err(e)) == Err::<LocationModel, _>(e@),
        run::outcome_result(Ok(outcome)) == Ok::<_, ErrorOf<Seq<char>>>(outcome@),
        run::outcome_result(Err(e)) == Err::<OutcomeModel, _>(e@),
        outcome@.output == outcome.output@,
        outcome@.source == outcome.source@,
        source::verdict_view(Ok(())) == Ok::<_, ErrorOf<Seq<char>>>(()),
        source::verdict_view(Err(e)) == Err::<(), _>(e@),
        source::is_file_view(Ok(is_file)) == Ok::<_, Seq<char>>(is_file),
        source::is_file_view(Err(cause)) == Err::<bool, _>(cause@),
{
}

/// A request asks for what it holds.
pub proof fn law_request(request: Request)
    ensures
        request matches RequestOf::Locate { path } ==> request@ == (RequestOf::Locate {
            path: path@,
        }),
        request matches RequestOf::ReadHead { file, limit } ==> request@ == (RequestOf::<
            Seq<char>,
        >::ReadHead { file, limit }),
        request matches RequestOf::ReadStart { file, len } ==> request@ == (RequestOf::<
            Seq<char>,
        >::ReadStart { file, len }),
        request matches RequestOf::AskShell { shell, command } ==> request@ == (
        RequestOf::AskShell { shell: shell@, command: command@ }),
        request matches RequestOf::FindExisting { path } ==> request@ == (RequestOf::FindExisting {
            path: path@,
        }),
        request matches RequestOf::Canonicalize { file } ==> request@ == (RequestOf::<
            Seq<char>,
        >::Canonicalize { file }),
        request matches RequestOf::Examine { file } ==> request@ == (RequestOf::<
            Seq<char>,
        >::Examine { file }),
        request matches RequestOf::CheckOutput { output, source } ==> request@ == (
        RequestOf::CheckOutput { output: output@, source }),
        request matches RequestOf::Write { preamble, source, output, mode } ==> request@ == (
        RequestOf::Write { preamble: preamble@, source, output: output@, mode }),
        request matches RequestOf::List { place } ==> request@ == (RequestOf::List {
            place: match place {
                PlaceOf::UnderPrefix { script, name } => PlaceOf::UnderPrefix { script, name: name@ },
                PlaceOf::ScriptDir { script } => PlaceOf::ScriptDir { script },
                PlaceOf::Prefix { script } => PlaceOf::Prefix { script },
                PlaceOf::Entry(id) => PlaceOf::Entry(id),
            },
        }),
{
}

/// A reply tells what it holds.
pub proof fn law_reply(reply: Reply, found: OutputState)
    ensures
        reply is Missing <==> reply@ is Missing,
        reply matches ReplyOf::Unresolvable { cause } ==> (reply@ matches ReplyOf::Unresolvable {
            cause: c,
        } && c == cause@),
        reply matches ReplyOf::Located(at) ==> (reply@ matches ReplyOf::Located(a) && a == at@),
        reply matches ReplyOf::Head(Some(b)) ==> (reply@ matches ReplyOf::Head(Some(h)) && h == b@),
        reply matches ReplyOf::Head(None) ==> (reply@ matches ReplyOf::Head(h) && h is None),
        reply matches ReplyOf::Start(Some(b)) ==> (reply@ matches ReplyOf::Start(Some(h)) && h
            == b@),
        reply matches ReplyOf::Start(None) ==> (reply@ matches ReplyOf::Start(h) && h is None),
        reply matches ReplyOf::Shell { said, cwd } ==> (reply@ matches ReplyOf::Shell {
            said: s,
            cwd: c,
        } && (said matches Ok(b) ==> s == Ok::<_, Seq<char>>(b@)) && (said matches Err(cause) ==> s
            == Err::<Seq<u8>, _>(cause@)) && (cwd matches Some(d) ==> c == Some(d@)) && (cwd is None
            ==> c is None)),
        reply matches ReplyOf::Existing(at) ==> (reply@ matches ReplyOf::Existing(a) && a
            == protocol::opt_location(at)),
        reply matches ReplyOf::Canonical(at) ==> (reply@ matches ReplyOf::Canonical(a) && a
            == protocol::opt_location(at)),
        reply matches ReplyOf::Listing(Some(v)) ==> (reply@ matches ReplyOf::Listing(Some(l)) && l
            == protocol::entries(v@)),
        reply matches ReplyOf::Listing(None) ==> (reply@ matches ReplyOf::Listing(l) && l is None),
        reply matches ReplyOf::Examined(Ok(b)) ==> (reply@ matches ReplyOf::Examined(e) && e
            == Ok::<_, Seq<char>>(b)),
        reply matches ReplyOf::Examined(Err(cause)) ==> (reply@ matches ReplyOf::Examined(e) && e
            == Err::<bool, _>(cause@)),
        reply matches ReplyOf::Output(o) ==> (reply@ matches ReplyOf::Output(m) && m == o@),
        reply matches ReplyOf::Written(Ok(())) ==> (reply@ matches ReplyOf::Written(r) && r is Ok),
        reply matches ReplyOf::Written(Err((stage, cause))) ==> (reply@ matches ReplyOf::Written(
            Err((s, c)),
        ) && s == stage && c == cause@),
        found@.is_dir == found.is_dir,
        found@.exists == found.exists,
        found@.is_source == found.is_source,
        found.canonical matches Some(b) ==> found@.canonical == Some(b@),
        found.canonical is None ==> found@.canonical is None,
        found.canonical_source matches Some(b) ==> found@.canonical_source == Some(b@),
        found.canonical_source is None ==> found@.canonical_source is None,
{
}

/// Sequences are taken item by item.
pub proof fn law_sequences(
    words: Seq<String>,
    lines: Seq<Vec<char>>,
    entries: Seq<DirEntry>,
    probes: Seq<Probe>,
    i: int,
)
    ensures
        text::strings(words).len() == words.len(),
        0 <= i < words.len() ==> text::strings(words)[i] == words[i]@,
        text::texts(lines).len() == lines.len(),
        0 <= i < lines.len() ==> text::texts(lines)[i] == lines[i]@,
        protocol::entries(entries).len() == entries.len(),
        0 <= i < entries.len() ==> protocol::entries(entries)[i] == entries[i]@,
        0 <= i < entries.len() ==> entries[i]@.name == entries[i].name@ && entries[i]@.sort_key
            == entries[i].sort_key@ && entries[i]@.kind == entries[i].kind && entries[i]@.at
            == entries[i].at@,
        resolve::probes_view(probes).len() == probes.len(),
        0 <= i < probes.len() ==> resolve::probes_view(probes)[i] == probes[i]@,
{
}

} // verus!
