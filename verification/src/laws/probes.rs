//! Where a jar is looked for, in which order, and what is found there.
use vstd::prelude::*;
use crate::expand;
use crate::laws::paths;
use crate::laws::references;
use crate::laws::texts;
use crate::path;
use crate::protocol::{PrefixModel, ReplyOf, RequestOf, World};
use crate::protocol;
use crate::reference;
use crate::resolve::{ProbeModel, ProbeOf};
use crate::resolve;
use crate::shell;
use crate::text;
use crate::walk;

verus! {

/// `-jar`.
pub open spec fn jar_flag() -> Seq<char> {
    seq!['-', 'j', 'a', 'r']
}

/// `-jar`, as a literal.
proof fn lemma_flag()
    ensures
        "-jar"@ == jar_flag(),
{
    reveal_strlit("-jar");
    assert("-jar"@ =~= jar_flag());
}

/// A command launches the word behind its first `-jar`, if that ends with `.jar`; it
/// launches none where there is no such word.
pub proof fn law_jar_argument(words: Seq<Seq<char>>, i: int)
    requires
        0 <= i <= words.len(),
        forall|j: int| 0 <= j < i ==> #[trigger] words[j] != jar_flag(),
        i < words.len() ==> words[i] == jar_flag(),
    ensures
        i + 1 < words.len() && paths::has_jar_end(words[i + 1]) ==> resolve::jar_argument_of(words)
            == Some(words[i + 1]),
        !(i + 1 < words.len() && paths::has_jar_end(words[i + 1])) ==> resolve::jar_argument_of(
            words,
        ) is None,
    decreases words.len(),
{
    lemma_flag();
    if i > 0 {
        let rest = words.drop_first();
        assert(words[0] != jar_flag());
        assert forall|j: int| 0 <= j < i - 1 implies #[trigger] rest[j] != jar_flag() by {
            assert(rest[j] == words[j + 1]);
        }
        if i < words.len() {
            assert(rest[i - 1] == words[i]);
            if i + 1 < words.len() {
                assert(rest[i] == words[i + 1]);
            }
        }
        law_jar_argument(rest, i - 1);
    } else if words.len() > 1 {
        paths::law_jar_suffix(words[1]);
    }
}

/// A line launches what its words launch, as a shell would part them once it is
/// trimmed; a line in which `-jar` stands nowhere launches nothing.
pub proof fn law_launched_jar(before: Seq<char>, command: Seq<char>, after: Seq<char>)
    requires
        texts::all_white(before),
        texts::is_tight(command),
        texts::all_white(after),
    ensures
        !texts::holds(before + command + after, jar_flag()) ==> resolve::launched_jar(
            before + command + after,
        ) is None,
        texts::holds(before + command + after, jar_flag()) ==> match shell::shell_split(command) {
            Some(words) => resolve::launched_jar(before + command + after)
                == resolve::jar_argument_of(words),
            None => resolve::launched_jar(before + command + after) is None,
        },
{
    lemma_flag();
    texts::law_contains(before + command + after, jar_flag());
    texts::law_trim(before, command, after);
}

/// Every line that launches a jar gives one probe, at its expanded path, in the
/// order of the lines; no other line gives any.
pub proof fn law_launched(
    a: Seq<Seq<char>>,
    line: Seq<char>,
    b: Seq<Seq<char>>,
    base_dir: Seq<char>,
    prefix: Option<Seq<char>>,
    env: Map<Seq<char>, Seq<char>>,
)
    ensures
        resolve::launched_probes(a + b, base_dir, prefix, env) == resolve::launched_probes(
            a,
            base_dir,
            prefix,
            env,
        ) + resolve::launched_probes(b, base_dir, prefix, env),
        resolve::launched_jar(line) matches Some(jar) ==> resolve::launched_probes(
            seq![line],
            base_dir,
            prefix,
            env,
        ) == seq![ProbeOf::File(expand::expanded(jar, base_dir, prefix, env))],
        resolve::launched_jar(line) is None ==> resolve::launched_probes(
            seq![line],
            base_dir,
            prefix,
            env,
        ) == Seq::<ProbeModel>::empty(),
    decreases b.len(),
{
    let one = seq![line];
    assert(one.drop_last() =~= Seq::<Seq<char>>::empty());
    assert(resolve::launched_probes(one.drop_last(), base_dir, prefix, env)
        =~= Seq::<ProbeModel>::empty());
    if let Some(jar) = resolve::launched_jar(line) {
        assert(resolve::launched_probes(one, base_dir, prefix, env) =~= seq![
            ProbeOf::File(expand::expanded(jar, base_dir, prefix, env)),
        ]);
    }
    if b.len() == 0 {
        assert(a + b =~= a);
        assert(resolve::launched_probes(a + b, base_dir, prefix, env) =~= resolve::launched_probes(
            a,
            base_dir,
            prefix,
            env,
        ) + resolve::launched_probes(b, base_dir, prefix, env));
    } else {
        law_launched(a, line, b.drop_last(), base_dir, prefix, env);
        assert((a + b).drop_last() =~= a + b.drop_last());
        assert((a + b).last() == b.last());
        assert(resolve::launched_probes(a + b, base_dir, prefix, env) =~= resolve::launched_probes(
            a,
            base_dir,
            prefix,
            env,
        ) + resolve::launched_probes(b, base_dir, prefix, env));
    }
}

/// Every token that has a file name gives one probe, by that name, in the order of
/// the tokens; no other token gives any.
pub proof fn law_named(a: Seq<Seq<char>>, token: Seq<char>, b: Seq<Seq<char>>, script: u64)
    ensures
        resolve::name_probes(a + b, script) == resolve::name_probes(a, script)
            + resolve::name_probes(b, script),
        path::file_name_of(token) matches Some(name) ==> resolve::name_probes(seq![token], script)
            == seq![ProbeOf::Search { script, name }],
        path::file_name_of(token) is None ==> resolve::name_probes(seq![token], script) == Seq::<
            ProbeModel,
        >::empty(),
    decreases b.len(),
{
    let one = seq![token];
    assert(one.drop_last() =~= Seq::<Seq<char>>::empty());
    assert(resolve::name_probes(one.drop_last(), script) =~= Seq::<ProbeModel>::empty());
    if let Some(name) = path::file_name_of(token) {
        assert(resolve::name_probes(one, script) =~= seq![ProbeOf::Search { script, name }]);
    }
    if b.len() == 0 {
        assert(a + b =~= a);
        assert(resolve::name_probes(a + b, script) =~= resolve::name_probes(a, script)
            + resolve::name_probes(b, script));
    } else {
        law_named(a, token, b.drop_last(), script);
        assert((a + b).drop_last() =~= a + b.drop_last());
        assert((a + b).last() == b.last());
        assert(resolve::name_probes(a + b, script) =~= resolve::name_probes(a, script)
            + resolve::name_probes(b, script));
    }
}

/// A token with a file name is searched for by it.
proof fn lemma_named(tokens: Seq<Seq<char>>, i: int, name: Seq<char>, script: u64)
    requires
        0 <= i < tokens.len(),
        path::file_name_of(tokens[i]) == Some(name),
    ensures
        resolve::name_probes(tokens, script).contains(ProbeOf::Search { script, name }),
    decreases tokens.len(),
{
    let init = tokens.drop_last();
    let all = resolve::name_probes(tokens, script);
    let fewer = resolve::name_probes(init, script);
    if i < init.len() {
        assert(init[i] == tokens[i]);
        lemma_named(init, i, name, script);
        let k = choose|k: int|
            0 <= k < fewer.len() && fewer[k] == (ProbeOf::Search { script, name });
        assert(all[k] == fewer[k]);
    } else {
        assert(all[fewer.len() as int] == (ProbeOf::Search { script, name }));
    }
}

/// Where the jar of a text is looked for: first where lines launch it, then where it
/// is assigned, then at the path of every token, in order.
pub proof fn law_probes(
    text: Seq<char>,
    base_dir: Seq<char>,
    prefix: Option<PrefixModel>,
    env: Map<Seq<char>, Seq<char>>,
)
    ensures
        ({
            let all = resolve::probes_of(text, base_dir, prefix, env);
            let hint = match prefix {
                Some(p) => Some(p.path),
                None => None,
            };
            let launched = resolve::launched_probes(text::lines(text), base_dir, hint, env);
            let assigned = resolve::assigned_probes(text::lines(text), prefix);
            let tokens = reference::jar_candidates(text);
            let n = launched.len() + assigned.len();
            &&& n + tokens.len() <= all.len()
            &&& all.take(launched.len() as int) == launched
            &&& all.subrange(launched.len() as int, n as int) == assigned
            &&& forall|i: int|
                0 <= i < tokens.len() ==> all[n + i] == ProbeOf::File(
                    expand::expanded(#[trigger] tokens[i], base_dir, hint, env),
                )
            &&& prefix is None ==> all.len() == n + tokens.len()
            &&& prefix matches Some(p) ==> all.skip((n + tokens.len()) as int)
                == resolve::name_probes(tokens, p.script)
        }),
{
    let all = resolve::probes_of(text, base_dir, prefix, env);
    let hint = protocol::prefix_text(prefix);
    let launched = resolve::launched_probes(text::lines(text), base_dir, hint, env);
    let assigned = resolve::assigned_probes(text::lines(text), prefix);
    let tokens = reference::jar_candidates(text);
    let n = launched.len() + assigned.len();
    assert(all.take(launched.len() as int) =~= launched);
    assert(all.subrange(launched.len() as int, n as int) =~= assigned);
    if let Some(p) = prefix {
        assert(all.skip((n + tokens.len()) as int) =~= resolve::name_probes(tokens, p.script));
    }
}

/// Where there is an install prefix, every jar token of a text is also searched for
/// there by its file name.
pub proof fn law_tokens_by_name(
    text: Seq<char>,
    base_dir: Seq<char>,
    prefix: PrefixModel,
    env: Map<Seq<char>, Seq<char>>,
    from: int,
    dot: int,
    dir: Seq<char>,
    name: Seq<char>,
)
    requires
        references::token_stands(text, from, dot),
        text.subrange(from, dot + 4) == dir + name,
        paths::opens(dir),
        paths::is_component(name),
    ensures
        resolve::probes_of(text, base_dir, Some(prefix), env).contains(
            ProbeOf::Search { script: prefix.script, name },
        ),
        resolve::probes_of(text, base_dir, Some(prefix), env).contains(
            ProbeOf::File(expand::expanded(dir + name, base_dir, Some(prefix.path), env)),
        ),
{
    let none = Seq::<char>::empty();
    let token = dir + name;
    let all = resolve::probes_of(text, base_dir, Some(prefix), env);
    let tokens = reference::jar_candidates(text);
    references::law_tokens(text);
    assert(tokens.contains(token));
    let i = choose|i: int| 0 <= i < tokens.len() && tokens[i] == token;
    assert(dir + name + none =~= token);
    let last = text[dot + 3];
    assert(token.last() == text.subrange(from, dot + 4).last());
    assert(token.last() == last);
    assert(name.last() == token.last());
    paths::law_file_name(dir, name, none);
    lemma_named(tokens, i, name, prefix.script);
    let named = resolve::name_probes(tokens, prefix.script);
    let k = choose|k: int|
        0 <= k < named.len() && named[k] == (ProbeOf::Search { script: prefix.script, name });
    law_probes(text, base_dir, Some(prefix), env);
    let n = (all.len() - named.len()) as int;
    assert(all.skip(n)[k] == all[n + k]);
    assert(all[n + k] == (ProbeOf::Search { script: prefix.script, name }));
    assert(all[n - tokens.len() + i] == ProbeOf::<Seq<char>>::File(
        expand::expanded(tokens[i], base_dir, Some(prefix.path), env),
    ));
}

/// A bioconda wrapper that assigns `JAR_NAME` and `PKG_NAME` has its jar under
/// `share` in the install prefix, in the directory of the package; without the
/// latter it is searched for by its name alone. Without a prefix, or without the
/// name of a jar, nothing is looked for.
pub proof fn law_assigned(lines: Seq<Seq<char>>, prefix: PrefixModel)
    ensures
        resolve::assigned_probes(lines, None) == Seq::<ProbeModel>::empty(),
        reference::first_assigned(lines, "JAR_NAME"@) is None ==> resolve::assigned_probes(
            lines,
            Some(prefix),
        ) == Seq::<ProbeModel>::empty(),
        reference::first_assigned(lines, "JAR_NAME"@) matches Some(jar) ==> (if paths::has_jar_end(
            jar,
        ) {
            match reference::first_assigned(lines, "PKG_NAME"@) {
                None => resolve::assigned_probes(lines, Some(prefix)) == seq![
                    ProbeOf::Search { script: prefix.script, name: jar },
                ],
                Some(pkg) => {
                    &&& resolve::assigned_probes(lines, Some(prefix)).len() == 2
                    &&& resolve::assigned_probes(lines, Some(prefix))[1] == (ProbeOf::Search {
                        script: prefix.script,
                        name: jar,
                    })
                    &&& resolve::assigned_probes(lines, Some(prefix))[0] == ProbeOf::File(
                        path::joined(path::joined(path::joined(prefix.path, "share"@), pkg), jar),
                    )
                    &&& paths::ends_in_component(prefix.path) && paths::is_component(pkg)
                        && !paths::is_dot(pkg) && paths::is_component(jar)
                        ==> resolve::assigned_probes(lines, Some(prefix))[0] == ProbeOf::File(
                        prefix.path + seq!['/'] + "share"@ + seq!['/'] + pkg + seq!['/'] + jar,
                    )
                },
            }
        } else {
            resolve::assigned_probes(lines, Some(prefix)) == Seq::<ProbeModel>::empty()
        }),
{
    reveal_strlit("share");
    if let Some(jar) = reference::first_assigned(lines, "JAR_NAME"@) {
        paths::law_jar_suffix(jar);
        if let Some(pkg) = reference::first_assigned(lines, "PKG_NAME"@) {
            if paths::ends_in_component(prefix.path) && paths::is_component(pkg) && !paths::is_dot(
                pkg,
            ) && paths::is_component(jar) {
                let slash = seq!['/'];
                let share = prefix.path + slash + "share"@;
                let dir = share + slash + pkg;
                assert("share"@[0] == 's');
                paths::law_join(prefix.path, "share"@);
                assert(path::joined(prefix.path, "share"@) == share);
                assert(share.last() == 'e');
                assert(paths::ends_in_component(share));
                assert(pkg[0] != '/');
                paths::law_join(share, pkg);
                assert(dir.last() == pkg[pkg.len() - 1]);
                if pkg.len() >= 2 {
                    assert(dir[dir.len() - 2] == pkg[pkg.len() - 2]);
                }
                assert(paths::ends_in_component(dir));
                assert(jar[0] != '/');
                paths::law_join(dir, jar);
                assert(path::joined(path::joined(share, pkg), jar) == dir + slash + jar);
            }
        }
    }
}

/// A path is found where it exists; a name is found where the search of the prefix
/// finds it, and there at its canonical path, if it has one.
pub proof fn law_probe(w: World, path: Seq<char>, script: u64, name: Seq<char>)
    requires
        protocol::answers_all(w),
    ensures
        w(RequestOf::FindExisting { path }) matches ReplyOf::Existing(at) && resolve::probe_result(
            w,
            ProbeOf::File(path),
        ) == at,
        walk::walk_result(w, walk::search_start(script, name)) is None ==> resolve::probe_result(
            w,
            ProbeOf::Search { script, name },
        ) is None,
        walk::walk_result(w, walk::search_start(script, name)) matches Some(at) ==> (w(
            RequestOf::Canonicalize { file: at.id },
        ) matches ReplyOf::Canonical(canonical) && resolve::probe_result(
            w,
            ProbeOf::Search { script, name },
        ) == Some(
            match canonical {
                Some(c) => c,
                None => at,
            },
        )),
{
    let request = RequestOf::FindExisting { path };
    assert(protocol::fits(request, w(request)));
    walk::law_prefix_start(w, script, name);
    if let Some(at) = walk::walk_result(w, walk::search_start(script, name)) {
        let request = RequestOf::<Seq<char>>::Canonicalize { file: at.id };
        assert(protocol::fits(request, w(request)));
    }
}

/// A probe that finds a jar, after others that find none, decides what is found;
/// where none finds any, nothing is.
pub proof fn law_first_probe(w: World, before: Seq<ProbeModel>, probe: ProbeModel, after: Seq<ProbeModel>)
    requires
        forall|i: int|
            0 <= i < before.len() ==> resolve::probe_result(w, #[trigger] before[i]) is None,
    ensures
        resolve::first_result(w, before) is None,
        resolve::probe_result(w, probe) matches Some(at) ==> resolve::first_result(
            w,
            before.push(probe) + after,
        ) == Some(at),
    decreases before.len(),
{
    let all = before.push(probe) + after;
    if before.len() == 0 {
        assert(all[0] == probe);
    } else {
        let rest = before.drop_first();
        assert(resolve::probe_result(w, before[0]) is None);
        assert(all[0] == before[0]);
        assert forall|i: int| 0 <= i < rest.len() implies resolve::probe_result(
            w,
            #[trigger] rest[i],
        ) is None by {
            assert(rest[i] == before[i + 1]);
        }
        law_first_probe(w, rest, probe, after);
        assert(all.drop_first() =~= rest.push(probe) + after);
    }
}

} // verus!
