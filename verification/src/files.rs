//! What a run does to files: the bytes and the permissions of its output, and that
//! it leaves everything else as it is.
//!
//! A [`Disk`] says what performing a request means; the caller performs it.
use vstd::prelude::*;
use crate::error::{ErrorOf, WriteStage};
use crate::locate;
use crate::protocol;
use crate::protocol::{LocationModel, ReplyModel, ReplyOf, RequestModel, RequestOf, World};
use crate::run;
use crate::run::{OutcomeModel, RunModel, RunStage, TaskModel};
use crate::source;

verus! {

/// A file: its bytes and its permissions.
#[verifier::ext_equal]
pub struct FileModel {
    /// The bytes.
    pub bytes: Seq<u8>,
    /// The permissions.
    pub mode: u32,
}

/// The files of a machine, and how they are known.
pub struct Disk {
    /// The files.
    pub files: Map<int, FileModel>,
    /// Which file a path leads to, or which one is created there.
    pub named: spec_fn(Seq<char>) -> int,
    /// Which file a number of the caller stands for.
    pub held: spec_fn(u64) -> int,
    /// What a write that fails at the given stage leaves at its output.
    pub left: spec_fn(WriteStage) -> Option<FileModel>,
}

/// The disk `d` with `file`, or nothing, at `output`.
pub open spec fn with_file(d: Disk, output: Seq<char>, file: Option<FileModel>) -> Disk {
    Disk {
        files: match file {
            Some(file) => d.files.insert((d.named)(output), file),
            None => d.files.remove((d.named)(output)),
        },
        ..d
    }
}

/// The disk `d` once `request` has been performed and was answered by `reply`. Only
/// a write changes anything. It changes its output alone; and it opens its source
/// before it touches that.
pub open spec fn performed(d: Disk, request: RequestModel, reply: ReplyModel) -> Disk {
    match (request, reply) {
        (
            RequestOf::Write { output, .. },
            ReplyOf::Written(Err((stage, _))),
        ) => if stage == WriteStage::OpenSource {
            d
        } else {
            with_file(d, output, (d.left)(stage))
        },
        (RequestOf::Write { preamble, source, output, mode }, _) => with_file(
            d,
            output,
            Some(
                FileModel {
                    bytes: source::wrapped_bytes(preamble, d.files[(d.held)(source)].bytes),
                    mode,
                },
            ),
        ),
        _ => d,
    }
}

/// The disk `d` once all of `requests` have been performed in the world `w`.
pub open spec fn all_performed(w: World, d: Disk, requests: Seq<RequestModel>) -> Disk
    decreases requests.len(),
{
    if requests.len() == 0 {
        d
    } else {
        performed(
            all_performed(w, d, requests.drop_last()),
            requests.last(),
            w(requests.last()),
        )
    }
}

/// All that a run in the state `m` asks for in the world `w`.
pub open spec fn requests_of(w: World, m: RunModel) -> Seq<RequestModel>
    decreases run::run_work(w, m),
{
    if protocol::answers_all(w) && run::run_request(m) is Some {
        proof {
            run::law_run_advances(w, m);
        }
        seq![run::run_request(m)->0] + requests_of(
            w,
            run::run_answered(m, w(run::run_request(m)->0)),
        )
    } else {
        Seq::empty()
    }
}

/// The disk `d` after the run of a task.
pub open spec fn after_run(w: World, d: Disk, task: TaskModel, env: Map<Seq<char>, Seq<char>>) -> Disk {
    all_performed(w, d, requests_of(w, run::run_start(task, env)))
}

/// Whether what the world `w` says about the output of a task is true of the disk:
/// it is the file of the source just when the world says so.
pub open spec fn tells_output_from_source(w: World, d: Disk, task: TaskModel, at: LocationModel) -> bool {
    w(RequestOf::CheckOutput { output: task.output, source: at.id }) matches ReplyOf::Output(found)
        ==> (found.exists && found.is_source <==> (d.named)(task.output) == (d.held)(at.id))
}

/// Whether the disks `d` and `after` differ at `output` alone.
pub open spec fn differ_at(d: Disk, after: Disk, output: Seq<char>) -> bool {
    forall|f: int|
        f != (d.named)(output) ==> (#[trigger] after.files.contains_key(f))
            == d.files.contains_key(f) && after.files[f] == d.files[f]
}

/// What a run does to the disk from the state `m` on: what its one write does, or
/// nothing.
proof fn lemma_after_run(
    w: World,
    d: Disk,
    task: TaskModel,
    env: Map<Seq<char>, Seq<char>>,
    m: RunModel,
)
    requires
        protocol::answers_all(w),
        run::is_run_of(w, task, env, m),
        !(m.stage is Over),
    ensures
        ({
            let after = all_performed(w, d, requests_of(w, m));
            let result = run::run_result(w, task, env);
            if result is Ok || result->Err_0 is WriteFailed {
                &&& locate::input_result(w, task.input, env) is Ok
                &&& task_write(w, task, env) is Write
                &&& w(task_write(w, task, env)) is Written
                &&& after == performed(d, task_write(w, task, env), w(task_write(w, task, env)))
            } else {
                after == d
            }
        }),
    decreases run::run_work(w, m),
{
    let request = run::run_request(m)->0;
    let next = run::run_answered(m, w(request));
    assert(run::run_request(m) is Some);
    assert(protocol::fits(request, w(request)));
    run::law_run_advances(w, m);
    run::law_run_step(w, task, env, m);
    let rest = requests_of(w, next);
    assert(requests_of(w, m) == seq![request] + rest);
    lemma_performed_first(w, d, request, rest);
    lemma_only_write_changes(d, m, request, w(request));
    lemma_unwritten(w, task, env);
    if next.stage is Over {
        assert(rest =~= Seq::empty());
        assert(all_performed(w, performed(d, request, w(request)), rest) == performed(
            d,
            request,
            w(request),
        ));
    } else {
        lemma_after_run(w, d, task, env, next);
    }
}

/// The write that a task comes to.
spec fn task_write(w: World, task: TaskModel, env: Map<Seq<char>, Seq<char>>) -> RequestModel {
    run::write_request(
        task,
        locate::input_result(w, task.input, env)->Ok_0,
        run::task_preamble(task)->Ok_0,
    )
}

/// No error that comes before the write says that writing failed.
proof fn lemma_unwritten(w: World, task: TaskModel, env: Map<Seq<char>, Seq<char>>)
    ensures
        locate::input_result(w, task.input, env) matches Err(e) ==> !(e is WriteFailed),
        locate::input_result(w, task.input, env) matches Ok(at) ==> (run::source_state(
            w,
            at,
        ) matches Err(e) ==> !(e is WriteFailed)),
        run::task_preamble(task) matches Err(e) ==> !(e is WriteFailed),
        locate::input_result(w, task.input, env) matches Ok(at) ==> (run::output_state(
            w,
            task,
            at,
        ) matches Err(e) ==> !(e is WriteFailed)),
{
}

/// The first of several requests is performed first.
proof fn lemma_performed_first(w: World, d: Disk, first: RequestModel, rest: Seq<RequestModel>)
    ensures
        all_performed(w, d, seq![first] + rest) == all_performed(
            w,
            performed(d, first, w(first)),
            rest,
        ),
    decreases rest.len(),
{
    let all = seq![first] + rest;
    if rest.len() == 0 {
        assert(all.drop_last() =~= Seq::empty());
        assert(all.last() == first);
        assert(all_performed(w, d, all.drop_last()) == d);
    } else {
        assert(all.drop_last() =~= seq![first] + rest.drop_last());
        assert(all.last() == rest.last());
        lemma_performed_first(w, d, first, rest.drop_last());
    }
}

/// A run that is not at writing changes nothing.
proof fn lemma_only_write_changes(d: Disk, m: RunModel, request: RequestModel, reply: ReplyModel)
    requires
        run::run_request(m) == Some(request),
    ensures
        !(m.stage is Writing) ==> performed(d, request, reply) == d,
{
    if let RunStage::Resolving(search) = m.stage {
        run::lemma_search_writes_nothing(search);
    }
}

/// A run that succeeds leaves at its output the preamble of its options, followed by
/// the bytes of its source, with the permissions of an executable file. Every other
/// file is as it was, the source among them.
pub proof fn law_run_files(
    w: World,
    d: Disk,
    task: TaskModel,
    env: Map<Seq<char>, Seq<char>>,
    outcome: OutcomeModel,
)
    requires
        protocol::answers_all(w),
        run::run_result(w, task, env) == Ok::<_, ErrorOf<Seq<char>>>(outcome),
    ensures
        ({
            let after = after_run(w, d, task, env);
            let output = (d.named)(outcome.output);
            let source = (d.held)(outcome.source.id);
            &&& outcome.output == task.output
            &&& after.files.contains_key(output)
            &&& after.files[output] == (FileModel {
                bytes: source::wrapped_bytes(
                    run::task_preamble(task)->Ok_0,
                    d.files[source].bytes,
                ),
                mode: protocol::EXECUTABLE_MODE,
            })
            &&& differ_at(d, after, task.output)
            &&& tells_output_from_source(w, d, task, outcome.source) ==> output != source
                && after.files[source] == d.files[source]
        }),
{
    run::law_run_start(w, task, env);
    lemma_after_run(w, d, task, env, run::run_start(task, env));
    run::law_run_succeeds(w, task, env, outcome);
    let check = RequestOf::CheckOutput { output: task.output, source: outcome.source.id };
    assert(protocol::fits(check, w(check)));
}

/// A run that comes to an error leaves all files as they were, unless writing failed
/// once the source was open; and then all files but its output, the source among
/// them.
pub proof fn law_failed_run_files(
    w: World,
    d: Disk,
    task: TaskModel,
    env: Map<Seq<char>, Seq<char>>,
    e: ErrorOf<Seq<char>>,
)
    requires
        protocol::answers_all(w),
        run::run_result(w, task, env) == Err::<OutcomeModel, _>(e),
    ensures
        ({
            let after = after_run(w, d, task, env);
            &&& !(e is WriteFailed) ==> after == d
            &&& e matches ErrorOf::WriteFailed { stage, .. } ==> stage == WriteStage::OpenSource
                ==> after == d
            &&& differ_at(d, after, task.output)
            &&& locate::input_result(w, task.input, env) matches Ok(at) ==> e is WriteFailed
                ==> tells_output_from_source(w, d, task, at) ==> (d.named)(task.output) != (d.held)(
                at.id,
            ) && after.files[(d.held)(at.id)] == d.files[(d.held)(at.id)]
        }),
{
    run::law_run_start(w, task, env);
    lemma_after_run(w, d, task, env, run::run_start(task, env));
    lemma_unwritten(w, task, env);
    if e is WriteFailed {
        let at = locate::input_result(w, task.input, env)->Ok_0;
        let check = RequestOf::CheckOutput { output: task.output, source: at.id };
        assert(protocol::fits(check, w(check)));
    }
}

} // verus!
