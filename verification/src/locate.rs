//! From the input to the jar that it stands for: a jar, a symlink to one, a wrapper
//! script, or a shell alias.
use vstd::prelude::*;
use crate::error::{Error, ErrorOf};
use crate::expand;
use crate::expand::Environment;
use crate::path;
use crate::protocol;
use crate::protocol::{
    Location, LocationModel, Prefix, PrefixModel, PrefixOf, Reply, ReplyModel, ReplyOf, Request, RequestModel, RequestOf, World,
};
use crate::reference;
use crate::resolve;
use crate::resolve::{JarSearch, JarSearchModel, ProbeModel, StageModel};
use crate::source;
use crate::text;

verus! {

// ---------------------------------------------------------------------------
// Scripts and aliases
// ---------------------------------------------------------------------------
/// The directory of the script at `script`.
pub open spec fn script_dir(script: Seq<char>) -> Seq<char> {
    match path::parent_of(script) {
        Some(dir) => dir,
        None => "."@,
    }
}

/// The install prefix of the script at `script`: the directory above its own.
pub open spec fn script_prefix(script: LocationModel) -> Option<PrefixModel> {
    match path::parent_of(script_dir(script.path)) {
        Some(dir) => Some(PrefixOf { script: script.id, path: dir }),
        None => None,
    }
}

/// Where the jar that the script at `script` refers to is looked for.
pub open spec fn script_probes(
    script: LocationModel,
    text: Seq<char>,
    env: Map<Seq<char>, Seq<char>>,
) -> Seq<ProbeModel> {
    resolve::probes_of(text, script_dir(script.path), script_prefix(script), env)
}

/// Starts the search for the jar referenced by a wrapper script located at
/// `script`.
///
/// When the wrapper sits at `<prefix>/bin/<tool>`, the directory above its own is
/// the conda/install prefix that holds the jar under `share/`.
pub fn resolve_wrapper_jar(script: &Location, text: &str, env: &Environment) -> (r: JarSearch)
    ensures
        r@ == resolve::search_of(script_probes(script@, text@, env@)),
{
    let base_dir: String = match path::parent(script.path.as_str()) {
        Some(dir) => dir,
        None => ".".to_owned(),
    };
    match path::parent(base_dir.as_str()) {
        Some(dir) => {
            let prefix: Prefix = PrefixOf { script: script.id, path: dir };
            resolve::resolve_jar_from_text(text, base_dir.as_str(), Some(&prefix), env)
        },
        None => resolve::resolve_jar_from_text(text, base_dir.as_str(), None, env),
    }
}

/// The shell that is asked about aliases.
pub open spec fn user_shell(env: Map<Seq<char>, Seq<char>>) -> Seq<char> {
    if env.contains_key("SHELL"@) {
        env["SHELL"@]
    } else {
        "/bin/sh"@
    }
}

/// The shell that is asked about aliases: `$SHELL`, or else `/bin/sh`.
pub fn alias_shell(env: &Environment) -> (r: String)
    ensures
        r@ == user_shell(env@),
{
    match env.get("SHELL") {
        Some(shell) => shell.to_owned(),
        None => "/bin/sh".to_owned(),
    }
}

/// The directory that an alias is resolved from.
pub open spec fn alias_dir(cwd: Option<Seq<char>>) -> Seq<char> {
    match cwd {
        Some(dir) => dir,
        None => "."@,
    }
}

/// Where the jar that the alias line `line` launches is looked for.
pub open spec fn alias_probes(
    line: Seq<char>,
    name: Seq<char>,
    cwd: Option<Seq<char>>,
    env: Map<Seq<char>, Seq<char>>,
) -> Seq<ProbeModel> {
    resolve::probes_of(reference::alias_command(line, name), alias_dir(cwd), None, env)
}

/// Starts the search for the jar that the alias `name` launches, given what the
/// shell printed about it and the working directory: the line that defines the
/// alias, and the search.
pub fn resolve_alias(name: &str, printed: &str, cwd: Option<&str>, env: &Environment) -> (r: Result<
    (String, JarSearch),
    Error,
>)
    ensures
        match reference::first_line_with(text::lines(printed@), name@) {
            Some(line) => r matches Ok((l, search)) && l@ == line && search@ == resolve::search_of(
                alias_probes(line, name@, expand::opt_text(cwd), env@),
            ),
            None => r matches Err(e) && e@ == (ErrorOf::NoSuchAlias { name: name@ }),
        },
{
    match reference::alias_line(printed, name) {
        Some(line) => {
            let value: String = reference::alias_value(line.as_str(), name);
            let search: JarSearch = match cwd {
                Some(dir) => resolve::resolve_jar_from_text(value.as_str(), dir, None, env),
                None => resolve::resolve_jar_from_text(value.as_str(), ".", None, env),
            };
            Ok((line, search))
        },
        None => Err(ErrorOf::NoSuchAlias { name: name.to_owned() }),
    }
}

// ---------------------------------------------------------------------------
// The search for the source
// ---------------------------------------------------------------------------
/// What refers to the jar.
#[derive(Debug)]
enum Origin {
    Script(String),
    Alias(String),
}

/// What refers to the jar.
pub enum OriginModel {
    /// The wrapper script at this path.
    Script(Seq<char>),
    /// The alias that this line defines.
    Alias(Seq<char>),
}

/// What the search for a source is at.
#[derive(Debug)]
enum Stage {
    Locating,
    CheckingMarker(Location),
    CheckingMagic(Location),
    ReadingText(Location),
    AskingShell(String),
    Tracing(Origin, JarSearch),
    CheckingFound(Location),
    Over(Result<Location, Error>),
}

/// What the search for a source is at.
pub enum SourceStage {
    /// Finding out whether the input is a file.
    Locating,
    /// Looking for the marker in a file.
    CheckingMarker(LocationModel),
    /// Looking at the first bytes of a file.
    CheckingMagic(LocationModel),
    /// Reading a file as text.
    ReadingText(LocationModel),
    /// Asking the shell about an alias.
    AskingShell(Seq<char>),
    /// Searching for the jar that a script or an alias refers to.
    Tracing(OriginModel, JarSearchModel),
    /// Looking for the marker in the jar that was found.
    CheckingFound(LocationModel),
    /// At its end, with the jar or with an error.
    Over(Result<LocationModel, ErrorOf<Seq<char>>>),
}

/// A search for the concrete `.jar` that an input stands for.
#[derive(Debug)]
pub struct SourceSearch {
    input: String,
    env: Environment,
    stage: Stage,
}

/// The view of a [`SourceSearch`].
#[verifier::ext_equal]
pub struct SourceSearchModel {
    /// The input.
    pub input: Seq<char>,
    /// The environment.
    pub env: Map<Seq<char>, Seq<char>>,
    /// What the search is at.
    pub stage: SourceStage,
}

/// A result by its view.
pub open spec fn location_result(r: Result<Location, Error>) -> Result<
    LocationModel,
    ErrorOf<Seq<char>>,
> {
    match r {
        Ok(at) => Ok(at@),
        Err(e) => Err(e@),
    }
}

/// An origin by its view.
spec fn origin_view(o: Origin) -> OriginModel {
    match o {
        Origin::Script(script) => OriginModel::Script(script@),
        Origin::Alias(line) => OriginModel::Alias(line@),
    }
}

/// A stage by its view.
spec fn stage_view(stage: Stage) -> SourceStage {
    match stage {
        Stage::Locating => SourceStage::Locating,
        Stage::CheckingMarker(at) => SourceStage::CheckingMarker(at@),
        Stage::CheckingMagic(at) => SourceStage::CheckingMagic(at@),
        Stage::ReadingText(at) => SourceStage::ReadingText(at@),
        Stage::AskingShell(shell) => SourceStage::AskingShell(shell@),
        Stage::Tracing(origin, search) => SourceStage::Tracing(origin_view(origin), search@),
        Stage::CheckingFound(at) => SourceStage::CheckingFound(at@),
        Stage::Over(r) => SourceStage::Over(location_result(r)),
    }
}

impl View for SourceSearch {
    type V = SourceSearchModel;

    closed spec fn view(&self) -> SourceSearchModel {
        SourceSearchModel {
            input: self.input@,
            env: self.env@,
            stage: stage_view(self.stage),
        }
    }
}

/// The error when what refers to a jar leads to none.
pub open spec fn unresolved(input: Seq<char>, origin: OriginModel) -> ErrorOf<Seq<char>> {
    match origin {
        OriginModel::Script(script) => ErrorOf::WrapperUnresolved { script },
        OriginModel::Alias(line) => ErrorOf::AliasUnresolved { name: input, line },
    }
}

/// What a search is at while the jar that `origin` refers to is searched for: at
/// that jar, or at the end, once that search is over.
pub open spec fn tracing(input: Seq<char>, origin: OriginModel, search: JarSearchModel) -> SourceStage {
    match search.stage {
        StageModel::Over(Some(at)) => SourceStage::CheckingFound(at),
        StageModel::Over(None) => SourceStage::Over(Err(unresolved(input, origin))),
        _ => SourceStage::Tracing(origin, search),
    }
}

/// The search for the source that `input` stands for, at its beginning.
pub open spec fn source_start(input: Seq<char>, env: Map<Seq<char>, Seq<char>>) -> SourceSearchModel {
    SourceSearchModel { input, env, stage: SourceStage::Locating }
}

/// What a search asks for next; nothing once it is over.
pub open spec fn source_request(m: SourceSearchModel) -> Option<RequestModel> {
    match m.stage {
        SourceStage::Locating => Some(RequestOf::Locate { path: m.input }),
        SourceStage::CheckingMarker(at) => Some(
            RequestOf::ReadHead { file: at.id, limit: source::MARKER_HEAD_LEN },
        ),
        SourceStage::CheckingMagic(at) => Some(
            RequestOf::ReadStart { file: at.id, len: source::MAGIC_LEN },
        ),
        SourceStage::ReadingText(at) => Some(
            RequestOf::ReadHead { file: at.id, limit: source::TEXT_HEAD_LEN },
        ),
        SourceStage::AskingShell(shell) => Some(
            RequestOf::AskShell { shell, command: "alias "@ + m.input },
        ),
        SourceStage::Tracing(_, search) => resolve::search_request(search),
        SourceStage::CheckingFound(at) => Some(
            RequestOf::ReadHead { file: at.id, limit: source::MARKER_HEAD_LEN },
        ),
        SourceStage::Over(_) => None,
    }
}

/// What a search is at after a reply.
///
/// An input that exists is refused when it carries the marker; it is the source
/// when it looks like a jar; and it is a wrapper script when it is text. An input
/// that does not exist is the name of an alias. The jar that a script or an alias
/// leads to is refused, too, when it carries the marker.
pub open spec fn next_stage(m: SourceSearchModel, reply: ReplyModel) -> SourceStage {
    match (m.stage, reply) {
        (SourceStage::Locating, ReplyOf::Missing) => SourceStage::AskingShell(user_shell(m.env)),
        (SourceStage::Locating, ReplyOf::Unresolvable { cause }) => SourceStage::Over(
            Err(ErrorOf::CannotResolve { input: m.input, cause }),
        ),
        (SourceStage::Locating, ReplyOf::Located(at)) => SourceStage::CheckingMarker(at),
        (SourceStage::CheckingMarker(at), ReplyOf::Head(head)) => if head matches Some(bytes)
            && source::is_marked(bytes) {
            SourceStage::Over(Err(ErrorOf::AlreadyWrapped { path: at.path }))
        } else if path::ends_with_jar(at.path) {
            SourceStage::Over(Ok(at))
        } else {
            SourceStage::CheckingMagic(at)
        },
        (SourceStage::CheckingMagic(at), ReplyOf::Start(start)) => if source::is_jar_like(
            at.path,
            start,
        ) {
            SourceStage::Over(Ok(at))
        } else {
            SourceStage::ReadingText(at)
        },
        (SourceStage::ReadingText(at), ReplyOf::Head(head)) => match source::head_text(head) {
            Some(text) => tracing(
                m.input,
                OriginModel::Script(at.path),
                resolve::search_of(script_probes(at, text, m.env)),
            ),
            None => SourceStage::Over(Err(ErrorOf::NotJarNorWrapper { path: at.path })),
        },
        (SourceStage::AskingShell(shell), ReplyOf::Shell { said, cwd }) => match said {
            Err(cause) => SourceStage::Over(
                Err(ErrorOf::ShellFailed { name: m.input, shell, cause }),
            ),
            Ok(bytes) => match reference::first_line_with(
                text::lines(source::lossy_utf8(bytes)),
                m.input,
            ) {
                Some(line) => tracing(
                    m.input,
                    OriginModel::Alias(line),
                    resolve::search_of(alias_probes(line, m.input, cwd, m.env)),
                ),
                None => SourceStage::Over(Err(ErrorOf::NoSuchAlias { name: m.input })),
            },
        },
        (SourceStage::Tracing(origin, search), _) => tracing(
            m.input,
            origin,
            resolve::search_answered(search, reply),
        ),
        (SourceStage::CheckingFound(at), ReplyOf::Head(head)) => SourceStage::Over(
            if head matches Some(bytes) && source::is_marked(bytes) {
                Err(ErrorOf::AlreadyWrapped { path: at.path })
            } else {
                Ok(at)
            },
        ),
        (stage, _) => stage,
    }
}

/// How a search goes on with a reply.
pub open spec fn source_answered(m: SourceSearchModel, reply: ReplyModel) -> SourceSearchModel {
    SourceSearchModel { stage: next_stage(m, reply), ..m }
}

/// What a search is at while the jar that `origin` refers to is searched for.
fn trace(input: &String, origin: Origin, search: JarSearch) -> (r: Stage)
    ensures
        stage_view(r) == tracing(input@, origin_view(origin), search@),
{
    if !search.is_over() {
        return Stage::Tracing(origin, search);
    }
    match search.found() {
        Some(at) => Stage::CheckingFound(at),
        None => Stage::Over(
            Err(
                match origin {
                    Origin::Script(script) => ErrorOf::WrapperUnresolved { script },
                    Origin::Alias(line) => ErrorOf::AliasUnresolved { name: input.clone(), line },
                },
            ),
        ),
    }
}

/// Whether the head of a file, where it can be read, carries the marker.
fn is_head_marked(head: &Option<Vec<u8>>) -> (r: bool)
    ensures
        r == (head matches Some(bytes) && source::is_marked(bytes@)),
{
    match head {
        Some(bytes) => source::is_already_magicked(Some(bytes.as_slice())),
        None => source::is_already_magicked(None),
    }
}

/// Starts resolving an input string to the concrete `.jar` it stands for.
///
/// If the input is an existing path it is canonicalized (following symlinks); a
/// resolved jar is returned directly, otherwise a text file is treated as a
/// wrapper script. A non-existent path is treated as a shell alias name. A jar that
/// carries the marker is refused, however it was reached.
pub fn resolve_source(input: &str, env: Environment) -> (r: SourceSearch)
    ensures
        r@ == source_start(input@, env@),
{
    SourceSearch { input: input.to_owned(), env, stage: Stage::Locating }
}

impl SourceSearch {
    /// What the search asks for next; `None` once it is over.
    pub fn request(&self) -> (r: Option<Request>)
        ensures
            match r {
                Some(request) => source_request(self@) == Some(request@),
                None => source_request(self@) is None,
            },
    {
        match &self.stage {
            Stage::Locating => Some(RequestOf::Locate { path: self.input.clone() }),
            Stage::CheckingMarker(at) => Some(
                RequestOf::ReadHead { file: at.id, limit: source::MARKER_HEAD_LEN },
            ),
            Stage::CheckingMagic(at) => Some(
                RequestOf::ReadStart { file: at.id, len: source::MAGIC_LEN },
            ),
            Stage::ReadingText(at) => Some(
                RequestOf::ReadHead { file: at.id, limit: source::TEXT_HEAD_LEN },
            ),
            Stage::AskingShell(shell) => {
                let mut command: String = "alias ".to_owned();
                command.append(self.input.as_str());
                Some(RequestOf::AskShell { shell: shell.clone(), command })
            },
            Stage::Tracing(_, search) => search.request(),
            Stage::CheckingFound(at) => Some(
                RequestOf::ReadHead { file: at.id, limit: source::MARKER_HEAD_LEN },
            ),
            Stage::Over(_) => None,
        }
    }

    /// Goes on with a reply. One that was not asked for changes nothing.
    pub fn answer(self, reply: Reply) -> (r: SourceSearch)
        ensures
            r@ == source_answered(self@, reply@),
    {
        let input: String = self.input;
        let env: Environment = self.env;
        let stage: Stage = match (self.stage, reply) {
            (Stage::Locating, ReplyOf::Missing) => Stage::AskingShell(alias_shell(&env)),
            (Stage::Locating, ReplyOf::Unresolvable { cause }) => Stage::Over(
                Err(ErrorOf::CannotResolve { input: input.clone(), cause }),
            ),
            (Stage::Locating, ReplyOf::Located(at)) => Stage::CheckingMarker(at),
            (Stage::CheckingMarker(at), ReplyOf::Head(head)) => {
                if is_head_marked(&head) {
                    Stage::Over(Err(ErrorOf::AlreadyWrapped { path: at.path }))
                } else if path::has_jar_suffix(at.path.as_str()) {
                    Stage::Over(Ok(at))
                } else {
                    Stage::CheckingMagic(at)
                }
            },
            (Stage::CheckingMagic(at), ReplyOf::Start(start)) => {
                let is_jar: bool = match &start {
                    Some(bytes) => source::looks_like_jar(
                        at.path.as_str(),
                        Some(bytes.as_slice()),
                    ),
                    None => source::looks_like_jar(at.path.as_str(), None),
                };
                if is_jar {
                    Stage::Over(Ok(at))
                } else {
                    Stage::ReadingText(at)
                }
            },
            (Stage::ReadingText(at), ReplyOf::Head(head)) => match source::read_text_head(head) {
                Some(text) => {
                    let search: JarSearch = resolve_wrapper_jar(&at, text.as_str(), &env);
                    trace(&input, Origin::Script(at.path), search)
                },
                None => Stage::Over(Err(ErrorOf::NotJarNorWrapper { path: at.path })),
            },
            (Stage::AskingShell(shell), ReplyOf::Shell { said, cwd }) => match said {
                Err(cause) => Stage::Over(
                    Err(ErrorOf::ShellFailed { name: input.clone(), shell, cause }),
                ),
                Ok(bytes) => {
                    let printed: String = source::lossy_text(bytes.as_slice());
                    let found: Result<(String, JarSearch), Error> = match &cwd {
                        Some(dir) => resolve_alias(
                            input.as_str(),
                            printed.as_str(),
                            Some(dir.as_str()),
                            &env,
                        ),
                        None => resolve_alias(input.as_str(), printed.as_str(), None, &env),
                    };
                    match found {
                        Ok((line, search)) => trace(&input, Origin::Alias(line), search),
                        Err(e) => Stage::Over(Err(e)),
                    }
                },
            },
            (Stage::Tracing(origin, search), reply) => trace(
                &input,
                origin,
                search.answer(reply),
            ),
            (Stage::CheckingFound(at), ReplyOf::Head(head)) => Stage::Over(
                if is_head_marked(&head) {
                    Err(ErrorOf::AlreadyWrapped { path: at.path })
                } else {
                    Ok(at)
                },
            ),
            (stage, _) => stage,
        };
        SourceSearch { input, env, stage }
    }

    /// The source, or the search itself where it is not over yet.
    pub fn finish(self) -> (r: Result<Result<Location, Error>, SourceSearch>)
        ensures
            match self@.stage {
                SourceStage::Over(result) => r matches Ok(found) && location_result(found)
                    == result,
                _ => r matches Err(search) && search@ == self@,
            },
    {
        match self.stage {
            Stage::Over(r) => Ok(r),
            stage => Err(SourceSearch { input: self.input, env: self.env, stage }),
        }
    }
}

// ---------------------------------------------------------------------------
// What a search for a source comes to
// ---------------------------------------------------------------------------
/// What one read of the file `file` gives, of at most `limit` bytes.
pub open spec fn head_of(w: World, file: u64, limit: usize) -> Option<Seq<u8>> {
    match w(RequestOf::ReadHead { file, limit }) {
        ReplyOf::Head(head) => head,
        _ => None,
    }
}

/// The first bytes of the file `file` that tell a ZIP archive.
pub open spec fn start_of(w: World, file: u64) -> Option<Seq<u8>> {
    match w(RequestOf::ReadStart { file, len: source::MAGIC_LEN }) {
        ReplyOf::Start(start) => start,
        _ => None,
    }
}

/// Whether the file at `at` looks like a jar.
pub open spec fn is_jar(w: World, at: LocationModel) -> bool {
    source::is_jar_like(at.path, start_of(w, at.id))
}

/// Whether the file at `at` carries the marker.
pub open spec fn is_wrapped(w: World, at: LocationModel) -> bool {
    head_of(w, at.id, source::MARKER_HEAD_LEN) matches Some(head) && source::is_marked(head)
}

/// The file at `at`, unless it carries the marker.
pub open spec fn vetted(w: World, at: LocationModel) -> Result<LocationModel, ErrorOf<Seq<char>>> {
    if is_wrapped(w, at) {
        Err(ErrorOf::AlreadyWrapped { path: at.path })
    } else {
        Ok(at)
    }
}

/// The jar that was found, unless it carries the marker, or the error that what
/// refers to it leads to none.
pub open spec fn traced(
    w: World,
    input: Seq<char>,
    origin: OriginModel,
    found: Option<LocationModel>,
) -> Result<LocationModel, ErrorOf<Seq<char>>> {
    match found {
        Some(at) => vetted(w, at),
        None => Err(unresolved(input, origin)),
    }
}

/// The source that the file at `at` stands for, which is no jar: the jar that it
/// refers to, if it is text.
pub open spec fn script_result(
    w: World,
    input: Seq<char>,
    at: LocationModel,
    env: Map<Seq<char>, Seq<char>>,
) -> Result<LocationModel, ErrorOf<Seq<char>>> {
    match source::head_text(head_of(w, at.id, source::TEXT_HEAD_LEN)) {
        Some(text) => traced(
            w,
            input,
            OriginModel::Script(at.path),
            resolve::first_result(w, script_probes(at, text, env)),
        ),
        None => Err(ErrorOf::NotJarNorWrapper { path: at.path }),
    }
}

/// The source that the file at `at` stands for: itself, if it is a jar.
pub open spec fn jar_result(
    w: World,
    input: Seq<char>,
    at: LocationModel,
    env: Map<Seq<char>, Seq<char>>,
) -> Result<LocationModel, ErrorOf<Seq<char>>> {
    if is_jar(w, at) {
        Ok(at)
    } else {
        script_result(w, input, at, env)
    }
}

/// The source that the file at `at` stands for: none, if it carries the marker.
pub open spec fn file_result(
    w: World,
    input: Seq<char>,
    at: LocationModel,
    env: Map<Seq<char>, Seq<char>>,
) -> Result<LocationModel, ErrorOf<Seq<char>>> {
    if is_wrapped(w, at) {
        Err(ErrorOf::AlreadyWrapped { path: at.path })
    } else {
        jar_result(w, input, at, env)
    }
}

/// The source that the alias `name` stands for.
pub open spec fn alias_result(
    w: World,
    name: Seq<char>,
    shell: Seq<char>,
    env: Map<Seq<char>, Seq<char>>,
) -> Result<LocationModel, ErrorOf<Seq<char>>> {
    match w(RequestOf::AskShell { shell, command: "alias "@ + name }) {
        ReplyOf::Shell { said: Err(cause), .. } => Err(
            ErrorOf::ShellFailed { name, shell, cause },
        ),
        ReplyOf::Shell { said: Ok(bytes), cwd } => match reference::first_line_with(
            text::lines(source::lossy_utf8(bytes)),
            name,
        ) {
            Some(line) => traced(
                w,
                name,
                OriginModel::Alias(line),
                resolve::first_result(w, alias_probes(line, name, cwd, env)),
            ),
            None => Err(ErrorOf::NoSuchAlias { name }),
        },
        _ => Err(ErrorOf::NoSuchAlias { name }),
    }
}

/// The source that `input` stands for.
pub open spec fn input_result(w: World, input: Seq<char>, env: Map<Seq<char>, Seq<char>>) -> Result<
    LocationModel,
    ErrorOf<Seq<char>>,
> {
    match w(RequestOf::Locate { path: input }) {
        ReplyOf::Located(at) => file_result(w, input, at, env),
        ReplyOf::Unresolvable { cause } => Err(ErrorOf::CannotResolve { input, cause }),
        _ => alias_result(w, input, user_shell(env), env),
    }
}

/// What a search in the state `m` comes to in the world `w`.
pub open spec fn source_result(w: World, m: SourceSearchModel) -> Result<
    LocationModel,
    ErrorOf<Seq<char>>,
> {
    match m.stage {
        SourceStage::Locating => input_result(w, m.input, m.env),
        SourceStage::CheckingMarker(at) => file_result(w, m.input, at, m.env),
        SourceStage::CheckingMagic(at) => jar_result(w, m.input, at, m.env),
        SourceStage::ReadingText(at) => script_result(w, m.input, at, m.env),
        SourceStage::AskingShell(shell) => alias_result(w, m.input, shell, m.env),
        SourceStage::Tracing(origin, search) => traced(
            w,
            m.input,
            origin,
            resolve::search_result(w, search),
        ),
        SourceStage::CheckingFound(at) => vetted(w, at),
        SourceStage::Over(r) => r,
    }
}

/// How many requests it takes to trace the script at `at`.
pub open spec fn script_work(w: World, at: LocationModel, env: Map<Seq<char>, Seq<char>>) -> nat {
    1 + match source::head_text(head_of(w, at.id, source::TEXT_HEAD_LEN)) {
        Some(text) => 1 + resolve::probes_work(w, script_probes(at, text, env)),
        None => 0,
    }
}

/// How many requests it takes to trace the alias `name`.
pub open spec fn alias_work(
    w: World,
    name: Seq<char>,
    shell: Seq<char>,
    env: Map<Seq<char>, Seq<char>>,
) -> nat {
    1 + match w(RequestOf::AskShell { shell, command: "alias "@ + name }) {
        ReplyOf::Shell { said: Ok(bytes), cwd } => match reference::first_line_with(
            text::lines(source::lossy_utf8(bytes)),
            name,
        ) {
            Some(line) => 1 + resolve::probes_work(w, alias_probes(line, name, cwd, env)),
            None => 0,
        },
        _ => 0,
    }
}

/// How many requests a search in the state `m` makes at most.
pub open spec fn source_work(w: World, m: SourceSearchModel) -> nat {
    match m.stage {
        SourceStage::Locating => 1 + match w(RequestOf::Locate { path: m.input }) {
            ReplyOf::Located(at) => 2 + script_work(w, at, m.env),
            _ => alias_work(w, m.input, user_shell(m.env), m.env),
        },
        SourceStage::CheckingMarker(at) => 2 + script_work(w, at, m.env),
        SourceStage::CheckingMagic(at) => 1 + script_work(w, at, m.env),
        SourceStage::ReadingText(at) => script_work(w, at, m.env),
        SourceStage::AskingShell(shell) => alias_work(w, m.input, shell, m.env),
        SourceStage::Tracing(_, search) => 1 + resolve::search_work(w, search),
        SourceStage::CheckingFound(_) => 1,
        SourceStage::Over(_) => 0,
    }
}

// ---------------------------------------------------------------------------
// Laws
// ---------------------------------------------------------------------------
/// A search comes to the source that its input stands for.
pub proof fn law_source_start(w: World, input: Seq<char>, env: Map<Seq<char>, Seq<char>>)
    ensures
        source_result(w, source_start(input, env)) == input_result(w, input, env),
{
}

/// What a search comes to in the end is what it stood for at the beginning: a
/// reply that is true of the world changes nothing about it. Each reply brings the
/// search closer to its end.
pub proof fn law_source_step(w: World, m: SourceSearchModel)
    requires
        protocol::answers_all(w),
        source_request(m) is Some,
    ensures
        source_result(w, source_answered(m, w(source_request(m)->0))) == source_result(w, m),
        source_work(w, source_answered(m, w(source_request(m)->0))) < source_work(w, m),
{
    let request = source_request(m)->0;
    assert(protocol::fits(request, w(request)));
    match (m.stage, w(request)) {
        (SourceStage::ReadingText(at), ReplyOf::Head(head)) => {
            if let Some(text) = source::head_text(head) {
                resolve::law_search_start(w, script_probes(at, text, m.env));
            }
        },
        (SourceStage::AskingShell(_), ReplyOf::Shell { said: Ok(bytes), cwd }) => {
            if let Some(line) = reference::first_line_with(
                text::lines(source::lossy_utf8(bytes)),
                m.input,
            ) {
                resolve::law_search_start(w, alias_probes(line, m.input, cwd, m.env));
            }
        },
        (SourceStage::Tracing(_, search), _) => {
            resolve::law_search_step(w, search);
        },
        _ => {},
    }
}

/// Whether the search that `m` is at still asks for something.
pub open spec fn is_live(m: SourceSearchModel) -> bool {
    m.stage matches SourceStage::Tracing(_, search) ==> resolve::is_live(search)
        && resolve::search_request(search) is Some
}

/// A search is at the search for a jar only as long as that asks for something: at
/// its beginning, and after every reply.
pub proof fn law_source_live(
    m: SourceSearchModel,
    input: Seq<char>,
    env: Map<Seq<char>, Seq<char>>,
    reply: ReplyModel,
)
    ensures
        is_live(source_start(input, env)),
        is_live(m) ==> is_live(source_answered(m, reply)),
{
    match (m.stage, reply) {
        (SourceStage::ReadingText(at), ReplyOf::Head(head)) => {
            if let Some(text) = source::head_text(head) {
                let probes = script_probes(at, text, m.env);
                resolve::law_search_live(resolve::search_of(probes), probes, reply);
            }
        },
        (SourceStage::AskingShell(_), ReplyOf::Shell { said: Ok(bytes), cwd }) => {
            if let Some(line) = reference::first_line_with(
                text::lines(source::lossy_utf8(bytes)),
                m.input,
            ) {
                let probes = alias_probes(line, m.input, cwd, m.env);
                resolve::law_search_live(resolve::search_of(probes), probes, reply);
            }
        },
        (SourceStage::Tracing(_, search), _) => {
            resolve::law_search_live(search, Seq::empty(), reply);
        },
        _ => {},
    }
}

/// A search that asks for nothing more has come to its result.
pub proof fn law_source_end(w: World, m: SourceSearchModel)
    requires
        is_live(m),
        source_request(m) is None,
    ensures
        m.stage == SourceStage::Over(source_result(w, m)),
{
}

/// The file that `input` leads to, before it is looked for the marker that refuses
/// it: a file that is wrapped already or looks like a jar leads to itself, a
/// script or an alias to the jar that it refers to.
pub open spec fn leads_to(w: World, input: Seq<char>, env: Map<Seq<char>, Seq<char>>) -> Option<
    LocationModel,
> {
    match w(RequestOf::Locate { path: input }) {
        ReplyOf::Located(at) => if is_wrapped(w, at) || is_jar(w, at) {
            Some(at)
        } else {
            match source::head_text(head_of(w, at.id, source::TEXT_HEAD_LEN)) {
                Some(text) => resolve::first_result(w, script_probes(at, text, env)),
                None => None,
            }
        },
        ReplyOf::Unresolvable { .. } => None,
        _ => match w(RequestOf::AskShell { shell: user_shell(env), command: "alias "@ + input }) {
            ReplyOf::Shell { said: Ok(bytes), cwd } => match reference::first_line_with(
                text::lines(source::lossy_utf8(bytes)),
                input,
            ) {
                Some(line) => resolve::first_result(w, alias_probes(line, input, cwd, env)),
                None => None,
            },
            _ => None,
        },
    }
}

/// An input stands for the file that it leads to, unless that carries the marker;
/// and there is no source where it leads to none. So no source carries the marker,
/// whether the input is the file itself, a script or an alias.
pub proof fn law_no_source_is_wrapped(w: World, input: Seq<char>, env: Map<Seq<char>, Seq<char>>)
    ensures
        match leads_to(w, input, env) {
            Some(at) => input_result(w, input, env) == vetted(w, at),
            None => input_result(w, input, env) is Err,
        },
        input_result(w, input, env) matches Ok(at) ==> !is_wrapped(w, at),
{
}

/// A jar is its own source: an input that exists, looks like a jar and does not
/// carry the marker stands for the file that it is at.
pub proof fn law_jar_is_source(
    w: World,
    input: Seq<char>,
    env: Map<Seq<char>, Seq<char>>,
    at: LocationModel,
)
    requires
        w(RequestOf::Locate { path: input }) == ReplyOf::<
            Seq<char>,
            Seq<u8>,
            Seq<protocol::EntryModel>,
        >::Located(at),
        is_jar(w, at),
        !is_wrapped(w, at),
    ensures
        input_result(w, input, env) == Ok::<_, ErrorOf<Seq<char>>>(at),
{
}

} // verus!
