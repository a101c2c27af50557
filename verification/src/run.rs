//! The whole run: from the input to the executable file.
use vstd::prelude::*;
use crate::error::{Error, ErrorOf, WriteStage};
use crate::expand;
use crate::expand::Environment;
use crate::locate;
use crate::locate::{SourceSearch, SourceSearchModel, SourceStage};
use crate::path;
use crate::preamble;
use crate::preamble::PreambleOptions;
use crate::protocol;
use crate::protocol::{
    Location, LocationModel, OutputModel, OutputState, Reply, ReplyModel, ReplyOf, Request,
    RequestModel, RequestOf, World,
};
use crate::source;

verus! {

// ---------------------------------------------------------------------------
// The output
// ---------------------------------------------------------------------------
/// Whether two canonical paths are there and the same.
pub open spec fn is_same_file(a: Option<Seq<u8>>, b: Option<Seq<u8>>) -> bool {
    a is Some && a == b
}

/// Whether two slices hold the same bytes.
fn same_bytes(x: &[u8], y: &[u8]) -> (r: bool)
    ensures
        r == (x@ == y@),
{
    if x.len() != y.len() {
        return false;
    }
    let mut i: usize = 0;
    while i < x.len()
        invariant
            i <= x@.len(),
            x@.len() == y@.len(),
            forall|j: int| 0 <= j < i ==> x@[j] == y@[j],
        decreases x@.len() - i,
    {
        if x[i] != y[i] {
            return false;
        }
        i = i + 1;
    }
    assert(x@ =~= y@);
    true
}

/// Whether two paths refer to the same existing file, given the bytes of their
/// canonical paths: `None` where a path has none.
pub fn same_file(a: Option<&[u8]>, b: Option<&[u8]>) -> (r: bool)
    ensures
        r == is_same_file(source::opt_bytes(a), source::opt_bytes(b)),
{
    match (a, b) {
        (Some(x), Some(y)) => same_bytes(x, y),
        _ => false,
    }
}

/// Whether the executable may be written to `output`, where there is `found`.
pub open spec fn output_verdict(output: Seq<char>, found: OutputModel, force: bool) -> Result<
    (),
    ErrorOf<Seq<char>>,
> {
    if found.is_dir {
        Err(ErrorOf::OutputIsDirectory { output })
    } else if found.exists && (found.is_source || is_same_file(
        found.canonical_source,
        found.canonical,
    )) {
        Err(ErrorOf::SameFile { output })
    } else if found.exists && !force {
        Err(ErrorOf::OutputExists { output })
    } else {
        Ok(())
    }
}

/// Decides whether the executable may be written to `output`. Refuses to clobber an
/// existing file (unless `force`) or to write onto the source itself, also where
/// that stands there under another path.
pub fn write_executable(output: &str, found: &OutputState, force: bool) -> (r: Result<(), Error>)
    ensures
        source::verdict_view(r) == output_verdict(output@, found@, force),
{
    if found.is_dir {
        return Err(ErrorOf::OutputIsDirectory { output: output.to_owned() });
    }
    if found.exists {
        let canonical: Option<&[u8]> = match &found.canonical {
            Some(bytes) => Some(bytes.as_slice()),
            None => None,
        };
        let canonical_source: Option<&[u8]> = match &found.canonical_source {
            Some(bytes) => Some(bytes.as_slice()),
            None => None,
        };
        if found.is_source || same_file(canonical_source, canonical) {
            return Err(ErrorOf::SameFile { output: output.to_owned() });
        }
        if !force {
            return Err(ErrorOf::OutputExists { output: output.to_owned() });
        }
    }
    Ok(())
}

// ---------------------------------------------------------------------------
// The run
// ---------------------------------------------------------------------------
/// The result of a successful [`run`].
#[derive(Debug, Clone)]
pub struct Outcome {
    /// The executable file that was written.
    pub output: String,
    /// The concrete source `.jar` the input resolved to.
    pub source: Location,
}

/// The view of an [`Outcome`].
pub struct OutcomeModel {
    /// The executable file that was written.
    pub output: Seq<char>,
    /// The concrete source `.jar` the input resolved to.
    pub source: LocationModel,
}

impl View for Outcome {
    type V = OutcomeModel;

    open spec fn view(&self) -> OutcomeModel {
        OutcomeModel { output: self.output@, source: self.source@ }
    }
}

/// What is to be done.
#[derive(Debug)]
struct Task {
    input: String,
    output: String,
    force: bool,
    options: PreambleOptions,
}

/// What is to be done.
#[verifier::ext_equal]
pub struct TaskModel {
    /// The input.
    pub input: Seq<char>,
    /// The name of the output.
    pub output: Seq<char>,
    /// Whether an output that exists is overwritten.
    pub force: bool,
    /// Whether the preamble has the malloc block.
    pub malloc_arena_max: bool,
    /// The JVM options of the preamble.
    pub default_jvm_opts: Seq<char>,
}

/// What a run is at.
#[derive(Debug)]
enum Stage {
    Resolving(SourceSearch),
    Examining(Location),
    CheckingMagic(Location),
    CheckingOutput(Location, String),
    Writing(Location, String),
    Over(Result<Outcome, Error>),
}

/// What a run is at.
pub enum RunStage {
    /// Searching for the source.
    Resolving(SourceSearchModel),
    /// Finding out whether the source is a regular file.
    Examining(LocationModel),
    /// Looking at the first bytes of the source.
    CheckingMagic(LocationModel),
    /// Finding out what stands at the output, for this source and preamble.
    CheckingOutput(LocationModel, Seq<char>),
    /// Writing the output from this source and preamble.
    Writing(LocationModel, Seq<char>),
    /// At its end.
    Over(Result<OutcomeModel, ErrorOf<Seq<char>>>),
}

/// A run.
#[derive(Debug)]
pub struct Run {
    task: Task,
    stage: Stage,
}

/// The view of a [`Run`].
#[verifier::ext_equal]
pub struct RunModel {
    /// What is to be done.
    pub task: TaskModel,
    /// What the run is at.
    pub stage: RunStage,
}

/// A result by its view.
pub open spec fn outcome_result(r: Result<Outcome, Error>) -> Result<OutcomeModel, ErrorOf<Seq<char>>> {
    match r {
        Ok(outcome) => Ok(outcome@),
        Err(e) => Err(e@),
    }
}

/// A task by its view.
spec fn task_view(task: Task) -> TaskModel {
    TaskModel {
        input: task.input@,
        output: task.output@,
        force: task.force,
        malloc_arena_max: task.options.malloc_arena_max,
        default_jvm_opts: task.options.default_jvm_opts@,
    }
}

/// A stage by its view.
spec fn stage_view(stage: Stage) -> RunStage {
    match stage {
        Stage::Resolving(search) => RunStage::Resolving(search@),
        Stage::Examining(at) => RunStage::Examining(at@),
        Stage::CheckingMagic(at) => RunStage::CheckingMagic(at@),
        Stage::CheckingOutput(at, preamble) => RunStage::CheckingOutput(at@, preamble@),
        Stage::Writing(at, preamble) => RunStage::Writing(at@, preamble@),
        Stage::Over(r) => RunStage::Over(outcome_result(r)),
    }
}

impl View for Run {
    type V = RunModel;

    closed spec fn view(&self) -> RunModel {
        RunModel { task: task_view(self.task), stage: stage_view(self.stage) }
    }
}

/// What is to be done with these arguments. The name of the output, where none is
/// given, is the input's basename with a trailing `.jar` removed.
pub open spec fn task_of(
    input: Seq<char>,
    output: Option<Seq<char>>,
    force: bool,
    options: PreambleOptions,
) -> TaskModel {
    TaskModel {
        input,
        output: match output {
            Some(name) => name,
            None => path::default_name(input),
        },
        force,
        malloc_arena_max: options.malloc_arena_max,
        default_jvm_opts: options.default_jvm_opts@,
    }
}

/// The run of a task, at its beginning.
pub open spec fn run_start(task: TaskModel, env: Map<Seq<char>, Seq<char>>) -> RunModel {
    RunModel { task, stage: RunStage::Resolving(locate::source_start(task.input, env)) }
}

/// The request that writes the output of a task from the source at `at`.
pub open spec fn write_request(task: TaskModel, at: LocationModel, preamble: Seq<char>) -> RequestModel {
    RequestOf::Write {
        preamble,
        source: at.id,
        output: task.output,
        mode: protocol::EXECUTABLE_MODE,
    }
}

/// What a run asks for next; nothing once it is over.
pub open spec fn run_request(m: RunModel) -> Option<RequestModel> {
    match m.stage {
        RunStage::Resolving(search) => locate::source_request(search),
        RunStage::Examining(at) => Some(RequestOf::Examine { file: at.id }),
        RunStage::CheckingMagic(at) => Some(
            RequestOf::ReadStart { file: at.id, len: source::MAGIC_LEN },
        ),
        RunStage::CheckingOutput(at, _) => Some(
            RequestOf::CheckOutput { output: m.task.output, source: at.id },
        ),
        RunStage::Writing(at, preamble) => Some(
            write_request(m.task, at, preamble),
        ),
        RunStage::Over(_) => None,
    }
}

/// What a run is at while the source is searched for: the next thing, once that
/// search is over.
pub open spec fn resolving(search: SourceSearchModel) -> RunStage {
    match search.stage {
        SourceStage::Over(Ok(at)) => RunStage::Examining(at),
        SourceStage::Over(Err(e)) => RunStage::Over(Err(e)),
        _ => RunStage::Resolving(search),
    }
}

/// The preamble of a task, or why there is none.
pub open spec fn task_preamble(task: TaskModel) -> Result<Seq<char>, ErrorOf<Seq<char>>> {
    match preamble::option_words(task.default_jvm_opts) {
        Some(words) => Ok(preamble::preamble_text(words, task.malloc_arena_max)),
        None => Err(
            ErrorOf::InvalidJvmOpts {
                options: task.default_jvm_opts,
                cause: "missing closing quote"@,
            },
        ),
    }
}

/// What a run is at once the source at `at` is known to be, or not to be, a jar.
pub open spec fn validated(
    task: TaskModel,
    at: LocationModel,
    is_file: Result<bool, Seq<char>>,
    start: Option<Seq<u8>>,
) -> RunStage {
    match source::source_verdict(at.path, is_file, start) {
        Ok(()) => match task_preamble(task) {
            Ok(preamble) => RunStage::CheckingOutput(at, preamble),
            Err(e) => RunStage::Over(Err(e)),
        },
        Err(e) => RunStage::Over(Err(e)),
    }
}

/// What a run comes to when the output is written, or could not be.
pub open spec fn written(
    task: TaskModel,
    at: LocationModel,
    r: Result<(), (WriteStage, Seq<char>)>,
) -> Result<OutcomeModel, ErrorOf<Seq<char>>> {
    match r {
        Ok(()) => Ok(OutcomeModel { output: task.output, source: at }),
        Err((stage, cause)) => Err(
            ErrorOf::WriteFailed { stage, source: at.path, output: task.output, cause },
        ),
    }
}

/// What a run is at after a reply.
pub open spec fn next_stage(m: RunModel, reply: ReplyModel) -> RunStage {
    match (m.stage, reply) {
        (RunStage::Resolving(search), _) => resolving(locate::source_answered(search, reply)),
        (RunStage::Examining(at), ReplyOf::Examined(is_file)) => if is_file == Ok::<
            bool,
            Seq<char>,
        >(true) && !path::ends_with_jar(at.path) {
            RunStage::CheckingMagic(at)
        } else {
            validated(m.task, at, is_file, None)
        },
        (RunStage::CheckingMagic(at), ReplyOf::Start(start)) => validated(
            m.task,
            at,
            Ok(true),
            start,
        ),
        (RunStage::CheckingOutput(at, preamble), ReplyOf::Output(found)) => match output_verdict(
            m.task.output,
            found,
            m.task.force,
        ) {
            Ok(()) => RunStage::Writing(at, preamble),
            Err(e) => RunStage::Over(Err(e)),
        },
        (RunStage::Writing(at, _), ReplyOf::Written(r)) => RunStage::Over(written(m.task, at, r)),
        (stage, _) => stage,
    }
}

/// How a run goes on with a reply.
pub open spec fn run_answered(m: RunModel, reply: ReplyModel) -> RunModel {
    RunModel { stage: next_stage(m, reply), ..m }
}

/// Starts a run: resolve `input`, prepend the preamble to its jar, and write an
/// executable `output`.
///
/// When `output` is `None` it defaults to the input's basename with a trailing
/// (case-insensitive) `.jar` removed. An existing output is not overwritten
/// unless `force` is set.
pub fn run(
    input: &str,
    output: Option<&str>,
    force: bool,
    options: &PreambleOptions,
    env: Environment,
) -> (r: Run)
    ensures
        r@ == run_start(task_of(input@, expand::opt_text(output), force, *options), env@),
        output matches Some(name) ==> r@.task.output == name@,
{
    let output: String = match output {
        Some(name) => name.to_owned(),
        None => path::default_output_name(input),
    };
    let options: PreambleOptions = PreambleOptions {
        malloc_arena_max: options.malloc_arena_max,
        default_jvm_opts: options.default_jvm_opts.clone(),
    };
    Run {
        task: Task { input: input.to_owned(), output, force, options },
        stage: Stage::Resolving(locate::resolve_source(input, env)),
    }
}

/// What a run is at while the source is searched for.
fn resolve(search: SourceSearch) -> (r: Stage)
    ensures
        stage_view(r) == resolving(search@),
{
    match search.finish() {
        Ok(Ok(at)) => Stage::Examining(at),
        Ok(Err(e)) => Stage::Over(Err(e)),
        Err(search) => Stage::Resolving(search),
    }
}

/// What a run is at once the source at `at` is known to be, or not to be, a jar.
fn validate(
    task: &Task,
    at: Location,
    is_file: Result<bool, String>,
    start: Option<&[u8]>,
) -> (r: Stage)
    ensures
        stage_view(r) == validated(
            task_view(*task),
            at@,
            source::is_file_view(is_file),
            source::opt_bytes(start),
        ),
{
    match source::validate_source(at.path.as_str(), is_file, start) {
        Ok(()) => match preamble::build_preamble(&task.options) {
            Ok(preamble) => Stage::CheckingOutput(at, preamble),
            Err(e) => Stage::Over(Err(e)),
        },
        Err(e) => Stage::Over(Err(e)),
    }
}

impl Run {
    /// What the run asks for next; `None` once it is over.
    pub fn request(&self) -> (r: Option<Request>)
        ensures
            match r {
                Some(request) => run_request(self@) == Some(request@),
                None => run_request(self@) is None,
            },
    {
        match &self.stage {
            Stage::Resolving(search) => search.request(),
            Stage::Examining(at) => Some(RequestOf::Examine { file: at.id }),
            Stage::CheckingMagic(at) => Some(
                RequestOf::ReadStart { file: at.id, len: source::MAGIC_LEN },
            ),
            Stage::CheckingOutput(at, _) => Some(
                RequestOf::CheckOutput { output: self.task.output.clone(), source: at.id },
            ),
            Stage::Writing(at, preamble) => Some(
                RequestOf::Write {
                    preamble: preamble.clone(),
                    source: at.id,
                    output: self.task.output.clone(),
                    mode: protocol::EXECUTABLE_MODE,
                },
            ),
            Stage::Over(_) => None,
        }
    }

    /// Goes on with a reply. One that was not asked for changes nothing.
    pub fn answer(self, reply: Reply) -> (r: Run)
        ensures
            r@ == run_answered(self@, reply@),
    {
        let task: Task = self.task;
        let stage: Stage = match (self.stage, reply) {
            (Stage::Resolving(search), reply) => resolve(search.answer(reply)),
            (Stage::Examining(at), ReplyOf::Examined(is_file)) => {
                let is_regular: bool = match &is_file {
                    Ok(b) => *b,
                    Err(_) => false,
                };
                if is_regular && !path::has_jar_suffix(at.path.as_str()) {
                    Stage::CheckingMagic(at)
                } else {
                    validate(&task, at, is_file, None)
                }
            },
            (Stage::CheckingMagic(at), ReplyOf::Start(start)) => match &start {
                Some(bytes) => validate(&task, at, Ok(true), Some(bytes.as_slice())),
                None => validate(&task, at, Ok(true), None),
            },
            (Stage::CheckingOutput(at, preamble), ReplyOf::Output(found)) => {
                match write_executable(task.output.as_str(), &found, task.force) {
                    Ok(()) => Stage::Writing(at, preamble),
                    Err(e) => Stage::Over(Err(e)),
                }
            },
            (Stage::Writing(at, _), ReplyOf::Written(r)) => match r {
                Ok(()) => Stage::Over(Ok(Outcome { output: task.output.clone(), source: at })),
                Err((stage, cause)) => Stage::Over(
                    Err(
                        ErrorOf::WriteFailed {
                            stage,
                            source: at.path,
                            output: task.output.clone(),
                            cause,
                        },
                    ),
                ),
            },
            (stage, _) => stage,
        };
        Run { task, stage }
    }

    /// The outcome, or the run itself where it is not over yet.
    pub fn finish(self) -> (r: Result<Result<Outcome, Error>, Run>)
        ensures
            match self@.stage {
                RunStage::Over(result) => r matches Ok(outcome) && outcome_result(outcome)
                    == result,
                _ => r matches Err(run) && run@ == self@,
            },
    {
        match self.stage {
            Stage::Over(r) => Ok(r),
            stage => Err(Run { task: self.task, stage }),
        }
    }
}

// ---------------------------------------------------------------------------
// What a run comes to
// ---------------------------------------------------------------------------
/// Whether the file `file` is a regular one, or why that cannot be told.
pub open spec fn examined(w: World, file: u64) -> Result<bool, Seq<char>> {
    match w(RequestOf::Examine { file }) {
        ReplyOf::Examined(is_file) => is_file,
        _ => Ok(false),
    }
}

/// What the file at `at` is as a source.
pub open spec fn source_state(w: World, at: LocationModel) -> Result<(), ErrorOf<Seq<char>>> {
    source::source_verdict(at.path, examined(w, at.id), locate::start_of(w, at.id))
}

/// Whether the output of a task may be written from the source at `at`.
pub open spec fn output_state(w: World, task: TaskModel, at: LocationModel) -> Result<
    (),
    ErrorOf<Seq<char>>,
> {
    match w(RequestOf::CheckOutput { output: task.output, source: at.id }) {
        ReplyOf::Output(found) => output_verdict(task.output, found, task.force),
        _ => Ok(()),
    }
}

/// What writing the output of a task from the source at `at` comes to.
pub open spec fn write_result(w: World, task: TaskModel, at: LocationModel, preamble: Seq<char>) -> Result<
    OutcomeModel,
    ErrorOf<Seq<char>>,
> {
    match w(write_request(task, at, preamble)) {
        ReplyOf::Written(r) => written(task, at, r),
        _ => Ok(OutcomeModel { output: task.output, source: at }),
    }
}

/// What a run comes to in the world `w`: the input is resolved to a source, which
/// is a regular file that looks like a jar; there is a preamble; the output may be
/// written; and it is. The first of these that fails is the error.
pub open spec fn run_result(w: World, task: TaskModel, env: Map<Seq<char>, Seq<char>>) -> Result<
    OutcomeModel,
    ErrorOf<Seq<char>>,
> {
    match locate::input_result(w, task.input, env) {
        Err(e) => Err(e),
        Ok(at) => match source_state(w, at) {
            Err(e) => Err(e),
            Ok(()) => match task_preamble(task) {
                Err(e) => Err(e),
                Ok(preamble) => match output_state(w, task, at) {
                    Err(e) => Err(e),
                    Ok(()) => write_result(w, task, at, preamble),
                },
            },
        },
    }
}

/// Whether a run that began with `task` and `env` in the world `w` can be in the
/// state `m`: what it has found out is true of the world.
pub open spec fn is_run_of(
    w: World,
    task: TaskModel,
    env: Map<Seq<char>, Seq<char>>,
    m: RunModel,
) -> bool {
    let source = locate::input_result(w, task.input, env);
    &&& m.task == task
    &&& match m.stage {
        RunStage::Resolving(search) => {
            &&& locate::source_result(w, search) == source
            &&& locate::is_live(search)
            &&& locate::source_request(search) is Some
        },
        RunStage::Examining(at) => source == Ok::<_, ErrorOf<Seq<char>>>(at),
        RunStage::CheckingMagic(at) => {
            &&& source == Ok::<_, ErrorOf<Seq<char>>>(at)
            &&& examined(w, at.id) == Ok::<_, Seq<char>>(true)
        },
        RunStage::CheckingOutput(at, preamble) => {
            &&& source == Ok::<_, ErrorOf<Seq<char>>>(at)
            &&& source_state(w, at) is Ok
            &&& task_preamble(task) == Ok::<_, ErrorOf<Seq<char>>>(preamble)
        },
        RunStage::Writing(at, preamble) => {
            &&& source == Ok::<_, ErrorOf<Seq<char>>>(at)
            &&& source_state(w, at) is Ok
            &&& task_preamble(task) == Ok::<_, ErrorOf<Seq<char>>>(preamble)
            &&& output_state(w, task, at) is Ok
        },
        RunStage::Over(r) => r == run_result(w, task, env),
    }
}

/// How many requests a run in the state `m` makes at most.
pub open spec fn run_work(w: World, m: RunModel) -> nat {
    match m.stage {
        RunStage::Resolving(search) => 4 + locate::source_work(w, search),
        RunStage::Examining(_) => 4,
        RunStage::CheckingMagic(_) => 3,
        RunStage::CheckingOutput(_, _) => 2,
        RunStage::Writing(_, _) => 1,
        RunStage::Over(_) => 0,
    }
}

// ---------------------------------------------------------------------------
// Laws
// ---------------------------------------------------------------------------
/// Each reply brings a run closer to its end.
pub proof fn law_run_advances(w: World, m: RunModel)
    requires
        protocol::answers_all(w),
        run_request(m) is Some,
    ensures
        run_work(w, run_answered(m, w(run_request(m)->0))) < run_work(w, m),
{
    let request = run_request(m)->0;
    assert(protocol::fits(request, w(request)));
    if let RunStage::Resolving(search) = m.stage {
        locate::law_source_step(w, search);
    }
}

/// A run has found out nothing at its beginning that is not true of the world.
pub proof fn law_run_start(w: World, task: TaskModel, env: Map<Seq<char>, Seq<char>>)
    ensures
        is_run_of(w, task, env, run_start(task, env)),
{
    locate::law_source_start(w, task.input, env);
}

/// What a run has found out stays true of the world with every reply that is.
pub proof fn law_run_step(
    w: World,
    task: TaskModel,
    env: Map<Seq<char>, Seq<char>>,
    m: RunModel,
)
    requires
        protocol::answers_all(w),
        is_run_of(w, task, env, m),
        run_request(m) is Some,
    ensures
        is_run_of(w, task, env, run_answered(m, w(run_request(m)->0))),
{
    let request = run_request(m)->0;
    assert(protocol::fits(request, w(request)));
    match m.stage {
        RunStage::Resolving(search) => {
            locate::law_source_step(w, search);
            locate::law_source_live(search, task.input, env, w(request));
            let next = locate::source_answered(search, w(request));
            if locate::source_request(next) is None {
                locate::law_source_end(w, next);
            }
        },
        _ => {},
    }
}

/// A run that asks for nothing more has come to its result.
pub proof fn law_run_end(
    w: World,
    task: TaskModel,
    env: Map<Seq<char>, Seq<char>>,
    m: RunModel,
)
    requires
        is_run_of(w, task, env, m),
        run_request(m) is None,
    ensures
        m.stage == RunStage::Over(run_result(w, task, env)),
{
}

/// The run `m` after all its requests have been answered by the world `w`.
pub open spec fn driven(w: World, m: RunModel) -> RunModel
    decreases run_work(w, m),
{
    if protocol::answers_all(w) && run_request(m) is Some {
        proof {
            law_run_advances(w, m);
        }
        driven(w, run_answered(m, w(run_request(m)->0)))
    } else {
        m
    }
}

/// Every run comes to an end, and to the result that the world has for its task.
pub proof fn law_run(w: World, task: TaskModel, env: Map<Seq<char>, Seq<char>>)
    requires
        protocol::answers_all(w),
    ensures
        driven(w, run_start(task, env)).stage == RunStage::Over(run_result(w, task, env)),
{
    law_run_start(w, task, env);
    lemma_driven(w, task, env, run_start(task, env));
}

/// [`law_run`] from any state that the run can be in.
proof fn lemma_driven(w: World, task: TaskModel, env: Map<Seq<char>, Seq<char>>, m: RunModel)
    requires
        protocol::answers_all(w),
        is_run_of(w, task, env, m),
    ensures
        driven(w, m).stage == RunStage::Over(run_result(w, task, env)),
    decreases run_work(w, m),
{
    if run_request(m) is Some {
        law_run_advances(w, m);
        law_run_step(w, task, env, m);
        lemma_driven(w, task, env, run_answered(m, w(run_request(m)->0)));
    } else {
        law_run_end(w, task, env, m);
    }
}

/// A run writes only what it may: the output of its task, with the preamble of its
/// options, from the source that its input stands for, which is a regular file that
/// looks like a jar and does not carry the marker. It writes onto no directory,
/// not onto the file of the source, under whatever path, and onto a file that exists
/// only when it is forced to. It writes nothing at all when it comes to any other
/// error than that writing failed.
pub proof fn law_write_is_allowed(
    w: World,
    task: TaskModel,
    env: Map<Seq<char>, Seq<char>>,
    m: RunModel,
    preamble: Seq<char>,
    file: u64,
    output: Seq<char>,
    mode: u32,
)
    requires
        protocol::answers_all(w),
        is_run_of(w, task, env, m),
        run_request(m) == Some(RequestOf::Write { preamble, source: file, output, mode }),
    ensures
        output == task.output,
        mode == protocol::EXECUTABLE_MODE,
        task_preamble(task) == Ok::<_, ErrorOf<Seq<char>>>(preamble),
        locate::input_result(w, task.input, env) matches Ok(at) && at.id == file && examined(
            w,
            file,
        ) == Ok::<_, Seq<char>>(true) && source::is_jar_like(at.path, locate::start_of(w, file))
            && !locate::is_wrapped(w, at),
        w(RequestOf::CheckOutput { output, source: file }) matches ReplyOf::Output(found)
            && !found.is_dir && (found.exists ==> task.force && !found.is_source && !is_same_file(
            found.canonical_source,
            found.canonical,
        )),
        match run_result(w, task, env) {
            Ok(_) => true,
            Err(e) => e is WriteFailed,
        },
{
    match m.stage {
        RunStage::Resolving(search) => {
            lemma_search_writes_nothing(search);
        },
        RunStage::Writing(at, _) => {
            locate::law_no_source_is_wrapped(w, task.input, env);
            assert(protocol::fits(
                RequestOf::CheckOutput { output, source: file },
                w(RequestOf::CheckOutput { output, source: file }),
            ));
        },
        _ => {},
    }
}

/// The search for a source never asks to write.
pub proof fn lemma_search_writes_nothing(m: SourceSearchModel)
    ensures
        locate::source_request(m) matches Some(request) ==> !(request is Write),
{
}

/// What success means: the outcome names the output of the task and the source that
/// the input stands for, which is a regular file that looks like a jar and does not
/// carry the marker; and the output was written from that source, with the preamble
/// of the options and the permissions of an executable file.
pub proof fn law_run_succeeds(
    w: World,
    task: TaskModel,
    env: Map<Seq<char>, Seq<char>>,
    outcome: OutcomeModel,
)
    requires
        protocol::answers_all(w),
        run_result(w, task, env) == Ok::<_, ErrorOf<Seq<char>>>(outcome),
    ensures
        outcome.output == task.output,
        locate::input_result(w, task.input, env) == Ok::<_, ErrorOf<Seq<char>>>(outcome.source),
        examined(w, outcome.source.id) == Ok::<_, Seq<char>>(true),
        locate::is_jar(w, outcome.source),
        !locate::is_wrapped(w, outcome.source),
        output_state(w, task, outcome.source) is Ok,
        task_preamble(task) matches Ok(preamble) && w(
            RequestOf::Write {
                preamble,
                source: outcome.source.id,
                output: outcome.output,
                mode: protocol::EXECUTABLE_MODE,
            },
        ) matches ReplyOf::Written(r) && r is Ok,
{
    locate::law_no_source_is_wrapped(w, task.input, env);
    let request = write_request(task, outcome.source, task_preamble(task)->Ok_0);
    assert(protocol::fits(request, w(request)));
}

/// A file that was made self-executing is refused: whatever its options and its jar
/// were, no run takes it for its source as soon as one read of the file reaches the
/// end of the marker; and a run whose input leads to it, being the file itself, a
/// script or an alias, comes to an error. By [`law_write_is_allowed`] nothing is
/// written.
pub proof fn law_no_double_wrap(
    w: World,
    task: TaskModel,
    env: Map<Seq<char>, Seq<char>>,
    at: LocationModel,
    words: Seq<Seq<char>>,
    malloc_arena_max: bool,
    jar: Seq<u8>,
    n: nat,
)
    requires
        source::marker_end() <= n,
        locate::head_of(w, at.id, source::MARKER_HEAD_LEN) == Some(
            source::first_bytes(
                source::wrapped_bytes(preamble::preamble_text(words, malloc_arena_max), jar),
                n,
            ),
        ),
    ensures
        locate::leads_to(w, task.input, env) == Some(at) ==> run_result(w, task, env) == Err::<
            OutcomeModel,
            _,
        >(ErrorOf::AlreadyWrapped { path: at.path }),
        run_result(w, task, env) matches Ok(outcome) ==> outcome.source != at,
{
    source::law_wrapped_is_detected(words, malloc_arena_max, jar, n);
    locate::law_no_source_is_wrapped(w, task.input, env);
}

} // verus!
