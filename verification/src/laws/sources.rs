//! From an input to its source: files, scripts, aliases.
use vstd::prelude::*;
use crate::error::ErrorOf;
use crate::expand;
use crate::laws::bytes;
use crate::laws::paths;
use crate::laws::probes;
use crate::laws::references;
use crate::laws::texts;
use crate::locate;
use crate::protocol::{EntryModel, LocationModel, PrefixOf, ReplyOf, RequestOf, World};
use crate::reference;
use crate::resolve::ProbeOf;
use crate::resolve;
use crate::source;
use crate::text;

verus! {

/// A script at `<dir>/<sub>/<tool>`, whatever its directory is called, is read from
/// `<dir>/<sub>`, and its install prefix is `<dir>`.
pub proof fn law_script(
    script: LocationModel,
    dir: Seq<char>,
    sub: Seq<char>,
    tool: Seq<char>,
    text: Seq<char>,
    env: Map<Seq<char>, Seq<char>>,
)
    requires
        paths::ends_in_component(dir),
        paths::is_component(sub),
        !paths::is_dot(sub),
        paths::is_component(tool),
        !paths::is_dot(tool),
        script.path == dir + seq!['/'] + sub + seq!['/'] + tool,
    ensures
        locate::script_probes(script, text, env) == resolve::probes_of(
            text,
            dir + seq!['/'] + sub,
            Some(PrefixOf { script: script.id, path: dir }),
            env,
        ),
{
    let slash = seq!['/'];
    let none = Seq::<char>::empty();
    let base = dir + slash + sub;
    assert(base.last() == sub[sub.len() - 1]);
    if sub.len() >= 2 {
        assert(base[base.len() - 2] == sub[sub.len() - 2]);
    }
    paths::law_parent(base, slash, tool, none);
    assert(base + slash + tool + none =~= script.path);
    paths::law_parent(dir, slash, sub, none);
    assert(dir + slash + sub + none =~= base);
}

/// Each jar token in the text of a script at `<dir>/<sub>/<tool>` is looked for at
/// its path and, by its file name, in the install prefix of the script.
pub proof fn law_script_tokens(
    script: LocationModel,
    dir: Seq<char>,
    sub: Seq<char>,
    tool: Seq<char>,
    text: Seq<char>,
    env: Map<Seq<char>, Seq<char>>,
    from: int,
    dot: int,
    before: Seq<char>,
    name: Seq<char>,
)
    requires
        paths::ends_in_component(dir),
        paths::is_component(sub),
        !paths::is_dot(sub),
        paths::is_component(tool),
        !paths::is_dot(tool),
        script.path == dir + seq!['/'] + sub + seq!['/'] + tool,
        references::token_stands(text, from, dot),
        text.subrange(from, dot + 4) == before + name,
        paths::opens(before),
        paths::is_component(name),
    ensures
        locate::script_probes(script, text, env).contains(
            ProbeOf::Search { script: script.id, name },
        ),
        locate::script_probes(script, text, env).contains(
            ProbeOf::File(
                expand::expanded(before + name, dir + seq!['/'] + sub, Some(dir), env),
            ),
        ),
{
    let prefix = PrefixOf { script: script.id, path: dir };
    law_script(script, dir, sub, tool, text, env);
    probes::law_tokens_by_name(
        text,
        dir + seq!['/'] + sub,
        prefix,
        env,
        from,
        dot,
        before,
        name,
    );
}

/// The directories and prefixes of scripts near the root, and of relative ones.
pub proof fn law_shallow_script(
    script: LocationModel,
    sub: Seq<char>,
    tool: Seq<char>,
    text: Seq<char>,
    env: Map<Seq<char>, Seq<char>>,
)
    requires
        paths::is_component(sub),
        !paths::is_dot(sub),
        paths::is_component(tool),
        !paths::is_dot(tool),
    ensures
        script.path == seq!['/'] + sub + seq!['/'] + tool ==> locate::script_probes(
            script,
            text,
            env,
        ) == resolve::probes_of(
            text,
            seq!['/'] + sub,
            Some(PrefixOf { script: script.id, path: seq!['/'] }),
            env,
        ),
        script.path == seq!['/'] + tool ==> locate::script_probes(script, text, env)
            == resolve::probes_of(text, seq!['/'], None, env),
        script.path == sub + seq!['/'] + tool ==> locate::script_probes(script, text, env)
            == resolve::probes_of(
            text,
            sub,
            Some(PrefixOf { script: script.id, path: Seq::<char>::empty() }),
            env,
        ),
        script.path == tool ==> locate::script_probes(script, text, env) == resolve::probes_of(
            text,
            Seq::<char>::empty(),
            None,
            env,
        ),
        paths::is_tail(script.path) ==> locate::script_probes(script, text, env)
            == resolve::probes_of(
            text,
            seq!['.'],
            Some(PrefixOf { script: script.id, path: Seq::<char>::empty() }),
            env,
        ),
{
    let slash = seq!['/'];
    let none = Seq::<char>::empty();
    let base = slash + sub;
    assert(base.last() == sub[sub.len() - 1]);
    if sub.len() >= 2 {
        assert(base[base.len() - 2] == sub[sub.len() - 2]);
    }
    paths::law_parent(base, slash, tool, none);
    assert(base + slash + tool + none =~= slash + sub + slash + tool);
    paths::law_parent(none, slash, sub, none);
    assert(slash + sub + none =~= base);
    assert(slash + tool + none =~= slash + tool);
    paths::law_parent(none, slash, tool, slash);
    assert(tool + none =~= tool);
    assert(sub + none =~= sub);
    if sub.len() >= 2 {
        assert(sub[sub.len() - 2] != '/');
    }
    assert(sub[sub.len() - 1] != '/');
    paths::law_parent(sub, slash, tool, none);
    assert(sub + slash + tool + none =~= sub + slash + tool);
    if paths::is_tail(script.path) {
        reveal_strlit(".");
        assert("."@ =~= seq!['.']);
        paths::law_parent(none, slash, tool, script.path);
        paths::law_parent(none, slash, seq!['.'], none);
        assert(seq!['.'] + none =~= seq!['.']);
    }
}

/// Whether the bytes of the marker stand in what one read of the file `id` gives.
pub open spec fn carries_marker(w: World, id: u64) -> bool {
    w(RequestOf::ReadHead { file: id, limit: 2048 }) matches ReplyOf::Head(Some(b)) && texts::holds(
        b,
        bytes::marker(),
    )
}

/// Whether the file at `at` looks like a jar.
pub open spec fn looks_like_jar(w: World, at: LocationModel) -> bool {
    paths::has_jar_end(at.path) || (w(
        RequestOf::ReadStart { file: at.id, len: 4 },
    ) matches ReplyOf::Start(Some(b)) && bytes::is_archive(b))
}

/// A file carries the marker just when its bytes stand in the first two kibibytes.
pub proof fn law_is_wrapped(w: World, at: LocationModel)
    ensures
        locate::is_wrapped(w, at) <==> carries_marker(w, at.id),
        locate::is_jar(w, at) <==> looks_like_jar(w, at),
{
    if let Some(head) = locate::head_of(w, at.id, 2048) {
        bytes::law_marked(head);
    }
    bytes::law_jar_like(at.path, locate::start_of(w, at.id));
}

/// What comes of a jar that was found, or of none.
pub open spec fn comes_to(
    w: World,
    found: Option<LocationModel>,
    none: ErrorOf<Seq<char>>,
    r: Result<LocationModel, ErrorOf<Seq<char>>>,
) -> bool {
    match found {
        Some(at) => if carries_marker(w, at.id) {
            r == Err::<LocationModel, _>(ErrorOf::AlreadyWrapped { path: at.path })
        } else {
            r == Ok::<_, ErrorOf<Seq<char>>>(at)
        },
        None => r == Err::<LocationModel, _>(none),
    }
}

/// An input that exists: it is refused when it carries the marker; else it is the
/// source when it looks like a jar; else, when it is text, the jar that this refers
/// to is, unless that carries the marker.
pub proof fn law_existing_input(
    w: World,
    input: Seq<char>,
    env: Map<Seq<char>, Seq<char>>,
    at: LocationModel,
    head: Option<Seq<u8>>,
)
    requires
        w(RequestOf::Locate { path: input }) == ReplyOf::<
            Seq<char>,
            Seq<u8>,
            Seq<EntryModel>,
        >::Located(at),
        w(RequestOf::ReadHead { file: at.id, limit: 1048576 }) == ReplyOf::<
            Seq<char>,
            Seq<u8>,
            Seq<EntryModel>,
        >::Head(head),
    ensures
        carries_marker(w, at.id) ==> locate::input_result(w, input, env) == Err::<LocationModel, _>(
            ErrorOf::AlreadyWrapped { path: at.path },
        ),
        !carries_marker(w, at.id) && looks_like_jar(w, at) ==> locate::input_result(w, input, env)
            == Ok::<_, ErrorOf<Seq<char>>>(at),
        !carries_marker(w, at.id) && !looks_like_jar(w, at) ==> match source::head_text(head) {
            Some(text) => comes_to(
                w,
                resolve::first_result(w, locate::script_probes(at, text, env)),
                ErrorOf::WrapperUnresolved { script: at.path },
                locate::input_result(w, input, env),
            ),
            None => locate::input_result(w, input, env) == Err::<LocationModel, _>(
                ErrorOf::NotJarNorWrapper { path: at.path },
            ),
        },
{
    law_is_wrapped(w, at);
    if let Some(text) = source::head_text(head) {
        if let Some(found) = resolve::first_result(w, locate::script_probes(at, text, env)) {
            law_is_wrapped(w, found);
        }
    }
}

/// An input that exists but has no canonical path is an error, and no alias.
pub proof fn law_unresolvable_input(
    w: World,
    input: Seq<char>,
    env: Map<Seq<char>, Seq<char>>,
    cause: Seq<char>,
)
    requires
        w(RequestOf::Locate { path: input }) == (ReplyOf::<
            Seq<char>,
            Seq<u8>,
            Seq<EntryModel>,
        >::Unresolvable { cause }),
    ensures
        locate::input_result(w, input, env) == Err::<LocationModel, _>(
            ErrorOf::CannotResolve { input, cause },
        ),
{
}

/// The shell that is asked: the one that `SHELL` names, or else `/bin/sh`.
pub open spec fn is_shell(env: Map<Seq<char>, Seq<char>>, shell: Seq<char>) -> bool {
    if env.contains_key("SHELL"@) {
        shell == env["SHELL"@]
    } else {
        shell == "/bin/sh"@
    }
}

/// Where an alias is read from: the working directory, or else `.`.
pub open spec fn is_alias_dir(cwd: Option<Seq<char>>, dir: Seq<char>) -> bool {
    match cwd {
        Some(d) => dir == d,
        None => dir == seq!['.'],
    }
}

/// An input that does not exist is the name of an alias: the shell is asked about
/// it, and the command in the line that defines it is read, from the working
/// directory and without an install prefix. The jar that this refers to is the
/// source, unless it carries the marker.
pub proof fn law_missing_input(
    w: World,
    input: Seq<char>,
    env: Map<Seq<char>, Seq<char>>,
    shell: Seq<char>,
    said: Result<Seq<u8>, Seq<char>>,
    cwd: Option<Seq<char>>,
    dir: Seq<char>,
)
    requires
        w(RequestOf::Locate { path: input }) is Missing,
        is_shell(env, shell),
        w(RequestOf::AskShell { shell, command: "alias "@ + input }) == (ReplyOf::<
            Seq<char>,
            Seq<u8>,
            Seq<EntryModel>,
        >::Shell { said, cwd }),
        is_alias_dir(cwd, dir),
    ensures
        said matches Err(cause) ==> locate::input_result(w, input, env) == Err::<LocationModel, _>(
            ErrorOf::ShellFailed { name: input, shell, cause },
        ),
        said matches Ok(b) ==> match reference::first_line_with(
            text::lines(source::lossy_utf8(b)),
            input,
        ) {
            Some(line) => comes_to(
                w,
                resolve::first_result(
                    w,
                    resolve::probes_of(reference::alias_command(line, input), dir, None, env),
                ),
                ErrorOf::AliasUnresolved { name: input, line },
                locate::input_result(w, input, env),
            ),
            None => locate::input_result(w, input, env) == Err::<LocationModel, _>(
                ErrorOf::NoSuchAlias { name: input },
            ),
        },
{
    reveal_strlit(".");
    assert("."@ =~= seq!['.']);
    assert(dir == locate::alias_dir(cwd));
    if let Ok(b) = said {
        if let Some(line) = reference::first_line_with(text::lines(source::lossy_utf8(b)), input) {
            let probes = resolve::probes_of(reference::alias_command(line, input), dir, None, env);
            if let Some(found) = resolve::first_result(w, probes) {
                law_is_wrapped(w, found);
            }
        }
    }
}

/// A file in whose head the bytes of the marker stand nowhere is not taken as
/// wrapped: where it looks like a jar, an input that is there stands for it.
pub proof fn law_unmarked_is_source(
    w: World,
    input: Seq<char>,
    env: Map<Seq<char>, Seq<char>>,
    at: LocationModel,
    head: Seq<u8>,
)
    requires
        w(RequestOf::Locate { path: input }) == ReplyOf::<
            Seq<char>,
            Seq<u8>,
            Seq<EntryModel>,
        >::Located(at),
        w(RequestOf::ReadHead { file: at.id, limit: 2048 }) == ReplyOf::<
            Seq<char>,
            Seq<u8>,
            Seq<EntryModel>,
        >::Head(Some(head)),
        forall|i: int| !#[trigger] texts::stands(head, bytes::marker(), i),
        looks_like_jar(w, at),
    ensures
        locate::input_result(w, input, env) == Ok::<_, ErrorOf<Seq<char>>>(at),
{
    law_is_wrapped(w, at);
    assert(!texts::holds(head, bytes::marker()));
}

} // verus!
