//! Whole runs: what is asked for, what is written, and what comes of it.
use vstd::prelude::*;
use crate::error::ErrorOf;
use crate::laws::bytes;
use crate::laws::chars;
use crate::laws::paths;
use crate::laws::texts;
use crate::locate;
use crate::preamble::PreambleOptions;
use crate::preamble;
use crate::protocol::{
    EntryModel, LocationModel, OutputModel, ReplyOf, RequestOf, World,
};
use crate::protocol;
use crate::run::{OutcomeModel, RunModel, RunStage, TaskModel};
use crate::run;
use crate::shell;
use crate::text;

verus! {

/// The run `m` once `n` of its requests have been answered.
pub open spec fn after(w: World, m: RunModel, n: nat) -> RunModel
    decreases n,
{
    if n == 0 {
        m
    } else {
        let before = after(w, m, (n - 1) as nat);
        match run::run_request(before) {
            Some(request) => run::run_answered(before, w(request)),
            None => before,
        }
    }
}

/// A run keeps to its task.
proof fn lemma_after(w: World, m: RunModel, n: nat)
    requires
        m.stage matches RunStage::Over(r) ==> (r matches Ok(outcome) ==> outcome.output
            == m.task.output),
    ensures
        after(w, m, n).task == m.task,
        after(w, m, n).stage matches RunStage::Over(r) ==> (r matches Ok(outcome) ==> outcome.output
            == m.task.output),
    decreases n,
{
    if n > 0 {
        lemma_after(w, m, (n - 1) as nat);
    }
}

/// Whether all that a run is to do with its output, in the state `m`, it does to
/// `output`: what it looks at, what it writes, as an executable file, and what it
/// says it wrote.
pub open spec fn is_about(m: RunModel, output: Seq<char>) -> bool {
    &&& run::run_request(m) matches Some(RequestOf::CheckOutput { output: o, .. }) ==> o == output
    &&& run::run_request(m) matches Some(RequestOf::Write { output: o, mode, .. }) ==> o == output
        && mode == 493
    &&& m.stage matches RunStage::Over(r) ==> (r matches Ok(outcome) ==> outcome.output == output)
}

/// The name that is given for an output is the output, character by character,
/// wherever the input is: that is looked at, that is written, and that is reported.
pub proof fn law_given_output(
    w: World,
    input: Seq<char>,
    name: Seq<char>,
    force: bool,
    options: PreambleOptions,
    env: Map<Seq<char>, Seq<char>>,
    n: nat,
)
    ensures
        run::task_of(input, Some(name), force, options).output == name,
        is_about(after(w, run::run_start(run::task_of(input, Some(name), force, options), env), n), name),
{
    lemma_after(w, run::run_start(run::task_of(input, Some(name), force, options), env), n);
}

/// Where no name is given, the output is named after the last component of the
/// input, without its `.jar`, wherever the input is.
pub proof fn law_default_output(
    w: World,
    a: Seq<char>,
    n: Seq<char>,
    t: Seq<char>,
    force: bool,
    options: PreambleOptions,
    env: Map<Seq<char>, Seq<char>>,
    steps: nat,
)
    requires
        paths::opens(a),
        paths::is_component(n),
        !paths::is_dot(n),
        !paths::is_dots(n),
        paths::is_tail(t),
    ensures
        is_about(
            after(w, run::run_start(run::task_of(a + n + t, None, force, options), env), steps),
            if paths::has_jar_end(n) {
                n.take(n.len() - 4)
            } else {
                n
            },
        ),
{
    paths::law_default_output(a, n, t);
    lemma_after(w, run::run_start(run::task_of(a + n + t, None, force, options), env), steps);
}

/// A run is about its input: that is what is located first, and it is done with the
/// options that were given.
pub proof fn law_first_request(
    input: Seq<char>,
    output: Option<Seq<char>>,
    force: bool,
    options: PreambleOptions,
    env: Map<Seq<char>, Seq<char>>,
)
    ensures
        run::run_request(run::run_start(run::task_of(input, output, force, options), env)) == Some(
            RequestOf::Locate { path: input },
        ),
        run::task_of(input, output, force, options).force == force,
        run::task_of(input, output, force, options).malloc_arena_max == options.malloc_arena_max,
        run::task_of(input, output, force, options).default_jvm_opts == options.default_jvm_opts@,
{
}

/// Whether two canonical paths are known and have the same bytes.
pub open spec fn same_path(a: Option<Seq<u8>>, b: Option<Seq<u8>>) -> bool {
    a matches Some(x) && b matches Some(y) && x.len() == y.len() && forall|i: int|
        0 <= i < x.len() ==> x[i] == #[trigger] y[i]
}

/// Whether an output is the file of its source.
pub open spec fn is_onto_source(found: OutputModel) -> bool {
    found.is_source || same_path(found.canonical, found.canonical_source)
}

/// An output is refused where there is a directory, where the file of the source
/// stands, however it is called, and, unless it is forced, where there is anything.
/// It is allowed in every other case.
pub proof fn law_output(output: Seq<char>, found: OutputModel, force: bool)
    ensures
        found.is_dir ==> run::output_verdict(output, found, force) == Err::<(), _>(
            ErrorOf::OutputIsDirectory { output },
        ),
        !found.is_dir && found.exists && is_onto_source(found) ==> run::output_verdict(
            output,
            found,
            force,
        ) == Err::<(), _>(ErrorOf::SameFile { output }),
        !found.is_dir && found.exists && !is_onto_source(found) && !force ==> run::output_verdict(
            output,
            found,
            force,
        ) == Err::<(), _>(ErrorOf::OutputExists { output }),
        !found.is_dir && !found.exists ==> run::output_verdict(output, found, force) is Ok,
        !found.is_dir && !is_onto_source(found) && force ==> run::output_verdict(
            output,
            found,
            force,
        ) is Ok,
{
    if let (Some(x), Some(y)) = (found.canonical, found.canonical_source) {
        if same_path(Some(x), Some(y)) {
            assert(x =~= y);
        }
    }
}

/// Whether the file `id` begins with the bytes of an archive.
pub open spec fn begins_archive(w: World, id: u64) -> bool {
    w(RequestOf::ReadStart { file: id, len: 4 }) matches ReplyOf::Start(Some(b))
        && bytes::is_archive(b)
}

/// What a run comes to, once its source is known to be at `at`: the first thing that
/// is amiss is the error, in the order of these clauses; and the outcome names the
/// output and the source.
pub proof fn law_run_from_source(
    w: World,
    task: TaskModel,
    env: Map<Seq<char>, Seq<char>>,
    at: LocationModel,
    is_file: Result<bool, Seq<char>>,
    found: OutputModel,
)
    requires
        protocol::answers_all(w),
        locate::input_result(w, task.input, env) == Ok::<_, ErrorOf<Seq<char>>>(at),
        w(RequestOf::Examine { file: at.id }) == ReplyOf::<
            Seq<char>,
            Seq<u8>,
            Seq<EntryModel>,
        >::Examined(is_file),
        w(RequestOf::CheckOutput { output: task.output, source: at.id }) == ReplyOf::<
            Seq<char>,
            Seq<u8>,
            Seq<EntryModel>,
        >::Output(found),
    ensures
        ({
            let r = run::driven(w, run::run_start(task, env)).stage->Over_0;
            let fits = paths::has_jar_end(at.path) || begins_archive(w, at.id);
            let words = preamble::option_words(task.default_jvm_opts);
            let script = preamble::preamble_text(words->0, task.malloc_arena_max);
            let write = RequestOf::Write {
                preamble: script,
                source: at.id,
                output: task.output,
                mode: 493,
            };
            let allowed = !found.is_dir && (found.exists ==> task.force && !is_onto_source(found));
            &&& run::driven(w, run::run_start(task, env)).stage is Over
            &&& is_file matches Err(cause) ==> r == Err::<OutcomeModel, _>(
                ErrorOf::SourceMissing { path: at.path, cause },
            )
            &&& is_file == Ok::<_, Seq<char>>(false) ==> r == Err::<OutcomeModel, _>(
                ErrorOf::SourceNotRegular { path: at.path },
            )
            &&& is_file == Ok::<_, Seq<char>>(true) && !fits ==> r == Err::<OutcomeModel, _>(
                ErrorOf::SourceNotJar { path: at.path },
            )
            &&& is_file == Ok::<_, Seq<char>>(true) && fits && words is None ==> (r matches Err(e)
                && e is InvalidJvmOpts)
            &&& is_file == Ok::<_, Seq<char>>(true) && fits && words is Some && !allowed
                ==> (run::output_verdict(task.output, found, task.force) matches Err(e) && r
                == Err::<OutcomeModel, _>(e))
            &&& is_file == Ok::<_, Seq<char>>(true) && fits && words is Some && allowed ==> (w(
                write,
            ) matches ReplyOf::Written(done) && match done {
                Ok(()) => r matches Ok(outcome) && outcome.output == task.output && outcome.source
                    == at,
                Err((stage, cause)) => r == Err::<OutcomeModel, _>(
                    ErrorOf::WriteFailed { stage, source: at.path, output: task.output, cause },
                ),
            })
        }),
{
    run::law_run(w, task, env);
    law_output(task.output, found, task.force);
    let start = RequestOf::<Seq<char>>::ReadStart { file: at.id, len: 4 };
    assert(protocol::fits(start, w(start)));
    bytes::law_jar_like(at.path, locate::start_of(w, at.id));
    if let Some(words) = preamble::option_words(task.default_jvm_opts) {
        let script = preamble::preamble_text(words, task.malloc_arena_max);
        let write = RequestOf::Write {
            preamble: script,
            source: at.id,
            output: task.output,
            mode: 493,
        };
        assert(protocol::fits(write, w(write)));
        assert(write == run::write_request(task, at, script));
    }
}

/// A run whose input leads to no source comes to the error that says why.
pub proof fn law_run_without_source(
    w: World,
    task: TaskModel,
    env: Map<Seq<char>, Seq<char>>,
    e: ErrorOf<Seq<char>>,
)
    requires
        protocol::answers_all(w),
        locate::input_result(w, task.input, env) == Err::<LocationModel, _>(e),
    ensures
        run::driven(w, run::run_start(task, env)).stage == RunStage::Over(Err(e)),
{
    run::law_run(w, task, env);
}

/// Options that hold nothing but white space are no words; others are the words
/// that a shell takes them for.
pub proof fn law_options(options: Seq<char>)
    ensures
        texts::all_white(options) ==> preamble::option_words(options) == Some(
            Seq::<Seq<char>>::empty(),
        ),
        !texts::all_white(options) ==> preamble::option_words(options)
            == shell::shell_split(options),
{
    let (a, b) = texts::lemma_trimmed(options);
    let none = Seq::<char>::empty();
    if texts::all_white(options) {
        assert(options =~= options + none + none);
        texts::law_trim(options, none, none);
    } else if text::trim(options).len() == 0 {
        assert(text::trim(options) =~= none);
        assert(options =~= a + b);
        assert forall|i: int| 0 <= i < options.len() implies chars::white(
            #[trigger] options[i],
        ) by {
            if i < a.len() {
                assert(options[i] == a[i]);
            } else {
                assert(options[i] == b[i - a.len()]);
            }
        }
    }
}

/// Options that cannot be split are reported as they were given.
pub proof fn law_bad_options(task: TaskModel)
    requires
        preamble::option_words(task.default_jvm_opts) is None,
    ensures
        run::task_preamble(task) matches Err(ErrorOf::InvalidJvmOpts { options, cause }) && options
            == task.default_jvm_opts && cause == "missing closing quote"@,
{
}

} // verus!
