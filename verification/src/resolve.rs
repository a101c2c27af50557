//! From a text that refers to a jar to the jar: where to look, in which order.
use vstd::prelude::*;
use crate::expand::Environment;
use crate::expand;
use crate::path;
use crate::protocol::{
    Location, LocationModel, Prefix, PrefixModel, Reply, ReplyModel, ReplyOf, Request, RequestModel, RequestOf,
    World,
};
use crate::protocol;
use crate::reference;
use crate::shell;
use crate::text;
use crate::walk::{Walk, WalkModel};
use crate::walk;

verus! {

// ---------------------------------------------------------------------------
// Where to look
// ---------------------------------------------------------------------------
/// One way to find a jar.
#[derive(Debug)]
pub enum ProbeOf<T> {
    /// By the path of a file.
    File(T),
    /// By the name of a file somewhere in the install prefix of a script.
    Search { script: u64, name: T },
}

/// One way to find a jar.
pub type Probe = ProbeOf<String>;

/// The view of a [`Probe`].
pub type ProbeModel = ProbeOf<Seq<char>>;

impl View for ProbeOf<String> {
    type V = ProbeModel;

    open spec fn view(&self) -> ProbeModel {
        match *self {
            ProbeOf::File(path) => ProbeOf::File(path@),
            ProbeOf::Search { script, name } => ProbeOf::Search { script, name: name@ },
        }
    }
}

/// The probes `v`, by their views.
pub open spec fn probes_view(v: Seq<Probe>) -> Seq<ProbeModel> {
    v.map_values(|p: Probe| p@)
}

/// The word behind the first `-jar`, if it ends with `.jar`.
pub open spec fn jar_argument_of(words: Seq<Seq<char>>) -> Option<Seq<char>>
    decreases words.len(),
{
    if words.len() == 0 {
        None
    } else if words[0] == "-jar"@ {
        if words.len() > 1 && path::ends_with_jar(words[1]) {
            Some(words[1])
        } else {
            None
        }
    } else {
        jar_argument_of(words.drop_first())
    }
}

/// The jar that the command `line` launches with `-jar`: the word behind it, once
/// the line is split as a shell would. A line that cannot be split has none.
pub open spec fn launched_jar(line: Seq<char>) -> Option<Seq<char>> {
    if !text::contains(line, "-jar"@) {
        None
    } else {
        match shell::shell_split(text::trim(line)) {
            Some(words) => jar_argument_of(words),
            None => None,
        }
    }
}

/// The jars that `lines` launch with `-jar`, as paths.
pub open spec fn launched_probes(
    lines: Seq<Seq<char>>,
    base_dir: Seq<char>,
    prefix: Option<Seq<char>>,
    env: Map<Seq<char>, Seq<char>>,
) -> Seq<ProbeModel>
    decreases lines.len(),
{
    if lines.len() == 0 {
        Seq::empty()
    } else {
        let before = launched_probes(lines.drop_last(), base_dir, prefix, env);
        match launched_jar(lines.last()) {
            Some(jar) => before.push(ProbeOf::File(expand::expanded(jar, base_dir, prefix, env))),
            None => before,
        }
    }
}

/// The jar of a bioconda wrapper, which assigns `JAR_NAME` and `PKG_NAME`: at
/// `<prefix>/share/<PKG_NAME>/<JAR_NAME>`, or else by its name.
pub open spec fn assigned_probes(
    lines: Seq<Seq<char>>,
    prefix: Option<PrefixModel>,
) -> Seq<ProbeModel> {
    match (prefix, reference::first_assigned(lines, "JAR_NAME"@)) {
        (Some(prefix), Some(jar)) if path::ends_with_jar(jar) => {
            let by_name = seq![ProbeOf::Search { script: prefix.script, name: jar }];
            match reference::first_assigned(lines, "PKG_NAME"@) {
                Some(pkg) => seq![
                    ProbeOf::File(
                        path::joined(path::joined(path::joined(prefix.path, "share"@), pkg), jar),
                    ),
                ] + by_name,
                None => by_name,
            }
        },
        _ => Seq::empty(),
    }
}

/// Every jar token, as a path.
pub open spec fn token_probes(
    tokens: Seq<Seq<char>>,
    base_dir: Seq<char>,
    prefix: Option<Seq<char>>,
    env: Map<Seq<char>, Seq<char>>,
) -> Seq<ProbeModel> {
    tokens.map_values(
        |token: Seq<char>|
            ProbeOf::<Seq<char>>::File(expand::expanded(token, base_dir, prefix, env)),
    )
}

/// Every jar token, by the name of its file.
pub open spec fn name_probes(tokens: Seq<Seq<char>>, script: u64) -> Seq<ProbeModel>
    decreases tokens.len(),
{
    if tokens.len() == 0 {
        Seq::empty()
    } else {
        let before = name_probes(tokens.drop_last(), script);
        match path::file_name_of(tokens.last()) {
            Some(name) => before.push(ProbeOf::Search { script, name }),
            None => before,
        }
    }
}

/// Where the jar that `text` refers to is looked for, in this order: where a line
/// launches it with `-jar`; where a bioconda wrapper installs it; at the paths of
/// the jar tokens; and, where there is an install prefix, by their file names.
pub open spec fn probes_of(
    text: Seq<char>,
    base_dir: Seq<char>,
    prefix: Option<PrefixModel>,
    env: Map<Seq<char>, Seq<char>>,
) -> Seq<ProbeModel> {
    let lines = text::lines(text);
    let tokens = reference::jar_candidates(text);
    let hint = protocol::prefix_text(prefix);
    launched_probes(lines, base_dir, hint, env) + assigned_probes(lines, prefix) + token_probes(
        tokens,
        base_dir,
        hint,
        env,
    ) + (match prefix {
        Some(prefix) => name_probes(tokens, prefix.script),
        None => Seq::empty(),
    })
}

/// The word behind the first `-jar`, if it ends with `.jar`.
pub fn jar_argument(words: &Vec<String>) -> (r: Option<String>)
    ensures
        match r {
            Some(jar) => jar_argument_of(text::strings(words@)) == Some(jar@),
            None => jar_argument_of(text::strings(words@)) is None,
        },
{
    let ghost all = text::strings(words@);
    let flag: Vec<char> = text::chars_of("-jar");
    let mut i: usize = 0;
    assert(all.skip(0) == all);
    while i < words.len()
        invariant
            i <= words@.len(),
            flag@ == "-jar"@,
            all == text::strings(words@),
            jar_argument_of(all) == jar_argument_of(all.skip(i as int)),
        decreases words@.len() - i,
    {
        proof {
            assert(all.skip(i as int)[0] == words@[i as int]@);
            assert(all.skip(i as int).drop_first() == all.skip(i + 1));
            if i + 1 < words@.len() {
                assert(all.skip(i as int)[1] == words@[i + 1]@);
            }
        }
        let word: Vec<char> = text::chars_of(words[i].as_str());
        if text::same_chars(word.as_slice(), flag.as_slice()) {
            if words.len() - i > 1 && path::has_jar_suffix(words[i + 1].as_str()) {
                return Some(words[i + 1].clone());
            }
            return None;
        }
        i = i + 1;
    }
    None
}

/// The jar that a command line launches with `-jar`.
pub fn jar_launched_by(line: &str) -> (r: Option<String>)
    ensures
        match r {
            Some(jar) => launched_jar(line@) == Some(jar@),
            None => launched_jar(line@) is None,
        },
        text::contains(line@, "-jar"@) && shell::is_plain(text::trim(line@)) ==> (match r {
            Some(jar) => jar_argument_of(
                shell::blank_words(text::trim(line@), Seq::empty()),
            ) == Some(jar@),
            None => jar_argument_of(
                shell::blank_words(text::trim(line@), Seq::empty()),
            ) is None,
        }),
{
    let chars: Vec<char> = text::chars_of(line);
    let flag: Vec<char> = text::chars_of("-jar");
    if !text::has(chars.as_slice(), flag.as_slice()) {
        return None;
    }
    let command: String = text::text_of(text::trimmed(chars.as_slice()));
    match shell_words::split(command.as_str()) {
        Ok(words) => jar_argument(&words),
        Err(_) => None,
    }
}

/// The jars that the lines of a text launch with `-jar`.
fn probe_launched(
    lines: &Vec<Vec<char>>,
    base_dir: &str,
    prefix_hint: Option<&str>,
    env: &Environment,
) -> (r: Vec<Probe>)
    ensures
        probes_view(r@) == launched_probes(
            text::texts(lines@),
            base_dir@,
            expand::opt_text(prefix_hint),
            env@,
        ),
{
    let ghost all = text::texts(lines@);
    let ghost prefix = expand::opt_text(prefix_hint);
    let mut out: Vec<Probe> = Vec::new();
    let mut i: usize = 0;
    assert(all.take(0) =~= Seq::empty());
    assert(probes_view(out@) =~= Seq::empty());
    while i < lines.len()
        invariant
            i <= lines@.len(),
            all == text::texts(lines@),
            prefix == expand::opt_text(prefix_hint),
            probes_view(out@) == launched_probes(all.take(i as int), base_dir@, prefix, env@),
        decreases lines@.len() - i,
    {
        proof {
            assert(all.take(i + 1).drop_last() == all.take(i as int));
            assert(all.take(i + 1).last() == lines@[i as int]@);
        }
        let line: String = text::text_of(lines[i].as_slice());
        if let Some(jar) = jar_launched_by(line.as_str()) {
            let ghost before = out@;
            let probe: Probe = ProbeOf::File(
                expand::expand(jar.as_str(), base_dir, prefix_hint, env),
            );
            out.push(probe);
            assert(probes_view(out@) =~= probes_view(before).push(probe@));
        }
        i = i + 1;
    }
    assert(all.take(lines@.len() as int) == all);
    out
}

/// The jar of a bioconda wrapper.
fn probe_assigned(text: &str, prefix_hint: Option<&Prefix>) -> (r: Vec<Probe>)
    ensures
        probes_view(r@) == assigned_probes(text::lines(text@), protocol::opt_prefix(prefix_hint)),
{
    let mut out: Vec<Probe> = Vec::new();
    if let Some(prefix) = prefix_hint {
        if let Some(jar) = reference::assignment_value(text, "JAR_NAME") {
            if path::has_jar_suffix(jar.as_str()) {
                if let Some(pkg) = reference::assignment_value(text, "PKG_NAME") {
                    let share: String = path::join(prefix.path.as_str(), "share");
                    let dir: String = path::join(share.as_str(), pkg.as_str());
                    out.push(ProbeOf::File(path::join(dir.as_str(), jar.as_str())));
                }
                out.push(ProbeOf::Search { script: prefix.script, name: jar });
            }
        }
    }
    assert(probes_view(out@) =~= assigned_probes(
        text::lines(text@),
        protocol::opt_prefix(prefix_hint),
    ));
    out
}

/// Every jar token, as a path.
fn probe_tokens(
    tokens: &Vec<Vec<char>>,
    base_dir: &str,
    prefix_hint: Option<&str>,
    env: &Environment,
) -> (r: Vec<Probe>)
    ensures
        probes_view(r@) == token_probes(
            text::texts(tokens@),
            base_dir@,
            expand::opt_text(prefix_hint),
            env@,
        ),
{
    let ghost prefix = expand::opt_text(prefix_hint);
    let mut out: Vec<Probe> = Vec::new();
    let mut i: usize = 0;
    while i < tokens.len()
        invariant
            i <= tokens@.len(),
            prefix == expand::opt_text(prefix_hint),
            out@.len() == i,
            forall|j: int|
                0 <= j < i ==> (#[trigger] out@[j])@ == ProbeOf::<Seq<char>>::File(
                    expand::expanded(tokens@[j]@, base_dir@, prefix, env@),
                ),
        decreases tokens@.len() - i,
    {
        let token: String = text::text_of(tokens[i].as_slice());
        out.push(ProbeOf::File(expand::expand(token.as_str(), base_dir, prefix_hint, env)));
        i = i + 1;
    }
    assert(probes_view(out@) =~= token_probes(text::texts(tokens@), base_dir@, prefix, env@));
    out
}

/// Every jar token, by the name of its file.
fn probe_names(tokens: &Vec<Vec<char>>, script: u64) -> (r: Vec<Probe>)
    ensures
        probes_view(r@) == name_probes(text::texts(tokens@), script),
{
    let ghost all = text::texts(tokens@);
    let mut out: Vec<Probe> = Vec::new();
    let mut i: usize = 0;
    assert(all.take(0) =~= Seq::empty());
    assert(probes_view(out@) =~= Seq::empty());
    while i < tokens.len()
        invariant
            i <= tokens@.len(),
            all == text::texts(tokens@),
            probes_view(out@) == name_probes(all.take(i as int), script),
        decreases tokens@.len() - i,
    {
        proof {
            assert(all.take(i + 1).drop_last() == all.take(i as int));
            assert(all.take(i + 1).last() == tokens@[i as int]@);
        }
        if let Some(name) = path::final_name(tokens[i].as_slice()) {
            let ghost before = out@;
            let probe: Probe = ProbeOf::Search {
                script,
                name: text::text_of(name.as_slice()),
            };
            out.push(probe);
            assert(probes_view(out@) =~= probes_view(before).push(probe@));
        }
        i = i + 1;
    }
    assert(all.take(tokens@.len() as int) == all);
    out
}

/// Where the jar that `text` refers to is looked for, in order.
pub fn probes_for(text: &str, base_dir: &str, prefix_hint: Option<&Prefix>, env: &Environment) -> (r:
    Vec<Probe>)
    ensures
        probes_view(r@) == probes_of(text@, base_dir@, protocol::opt_prefix(prefix_hint), env@),
{
    let hint: Option<&str> = match prefix_hint {
        Some(prefix) => Some(prefix.path.as_str()),
        None => None,
    };
    let chars: Vec<char> = text::chars_of(text);
    let lines: Vec<Vec<char>> = text::split_lines(chars.as_slice());
    let tokens: Vec<Vec<char>> = reference::candidates_in(chars.as_slice());
    let mut out: Vec<Probe> = probe_launched(&lines, base_dir, hint, env);
    let mut assigned: Vec<Probe> = probe_assigned(text, prefix_hint);
    let mut by_path: Vec<Probe> = probe_tokens(&tokens, base_dir, hint, env);
    let mut by_name: Vec<Probe> = match prefix_hint {
        Some(prefix) => probe_names(&tokens, prefix.script),
        None => Vec::new(),
    };
    let ghost (a, b, c, d) = (out@, assigned@, by_path@, by_name@);
    out.append(&mut assigned);
    out.append(&mut by_path);
    out.append(&mut by_name);
    proof {
        if prefix_hint is None {
            assert(probes_view(d) =~= Seq::empty());
        }
        assert(probes_view(out@) =~= probes_view(a) + probes_view(b) + probes_view(c) + probes_view(
            d,
        ));
    }
    out
}

// ---------------------------------------------------------------------------
// The search
// ---------------------------------------------------------------------------
/// What a search for a jar is at.
#[derive(Debug)]
enum Stage {
    Trying(String),
    Walking(Walk),
    Settling(Location),
    Over(Option<Location>),
}

/// A search for a jar: what it is at, and the probes that are still to be tried.
#[derive(Debug)]
pub struct JarSearch {
    stage: Stage,
    rest: Vec<Probe>,
}

/// What a search for a jar is at.
pub enum StageModel {
    /// Trying the path of a file.
    Trying(Seq<char>),
    /// Searching for a name.
    Walking(WalkModel),
    /// Canonicalizing the file that a search found.
    Settling(LocationModel),
    /// At its end, with or without a jar.
    Over(Option<LocationModel>),
}

/// The view of a [`JarSearch`].
#[verifier::ext_equal]
pub struct JarSearchModel {
    /// What the search is at.
    pub stage: StageModel,
    /// The probes that are still to be tried.
    pub rest: Seq<ProbeModel>,
}

impl View for JarSearch {
    type V = JarSearchModel;

    closed spec fn view(&self) -> JarSearchModel {
        JarSearchModel {
            stage: match self.stage {
                Stage::Trying(path) => StageModel::Trying(path@),
                Stage::Walking(walk) => StageModel::Walking(walk@),
                Stage::Settling(at) => StageModel::Settling(at@),
                Stage::Over(at) => StageModel::Over(protocol::opt_location(at)),
            },
            rest: probes_view(self.rest@),
        }
    }
}

/// The search that tries `probes`, at its beginning.
pub open spec fn search_of(probes: Seq<ProbeModel>) -> JarSearchModel {
    if probes.len() == 0 {
        JarSearchModel { stage: StageModel::Over(None), rest: probes }
    } else {
        JarSearchModel {
            stage: match probes[0] {
                ProbeOf::File(path) => StageModel::Trying(path),
                ProbeOf::Search { script, name } => StageModel::Walking(
                    walk::search_start(script, name),
                ),
            },
            rest: probes.drop_first(),
        }
    }
}

/// What a search asks for next; nothing once it is over.
pub open spec fn search_request(m: JarSearchModel) -> Option<RequestModel> {
    match m.stage {
        StageModel::Trying(path) => Some(RequestOf::FindExisting { path }),
        StageModel::Walking(walk) => walk::walk_request(walk),
        StageModel::Settling(at) => Some(RequestOf::Canonicalize { file: at.id }),
        StageModel::Over(_) => None,
    }
}

/// How a search goes on with a reply: a jar that is found ends it, else the next
/// probe is tried. A file that was found by its name stays where it is when it
/// cannot be canonicalized.
pub open spec fn search_answered(m: JarSearchModel, reply: ReplyModel) -> JarSearchModel {
    match (m.stage, reply) {
        (StageModel::Trying(_), ReplyOf::Existing(Some(at))) => JarSearchModel {
            stage: StageModel::Over(Some(at)),
            ..m
        },
        (StageModel::Trying(_), ReplyOf::Existing(None)) => search_of(m.rest),
        (StageModel::Walking(walk), ReplyOf::Listing(_)) => {
            let next = walk::walk_answered(walk, reply);
            if walk::walk_request(next) is Some {
                JarSearchModel { stage: StageModel::Walking(next), ..m }
            } else {
                match next.found {
                    Some(at) => JarSearchModel { stage: StageModel::Settling(at), ..m },
                    None => search_of(m.rest),
                }
            }
        },
        (StageModel::Settling(at), ReplyOf::Canonical(canonical)) => JarSearchModel {
            stage: StageModel::Over(
                Some(
                    match canonical {
                        Some(canonical) => canonical,
                        None => at,
                    },
                ),
            ),
            ..m
        },
        _ => m,
    }
}

/// The search that tries `probes`, at its beginning.
fn start_search(probes: Vec<Probe>) -> (r: JarSearch)
    ensures
        r@ == search_of(probes_view(probes@)),
{
    let ghost all = probes_view(probes@);
    let mut rest: Vec<Probe> = probes;
    if rest.len() == 0 {
        return JarSearch { stage: Stage::Over(None), rest };
    }
    let first: Probe = rest.remove(0);
    assert(probes_view(rest@) =~= all.drop_first());
    assert(all[0] == first@);
    match first {
        ProbeOf::File(path) => JarSearch { stage: Stage::Trying(path), rest },
        ProbeOf::Search { script, name } => JarSearch {
            stage: Stage::Walking(walk::search_prefix_for_jar(script, name.as_str())),
            rest,
        },
    }
}

/// Starts the search for a concrete jar referenced by some shell/python text.
///
/// `base_dir` is the directory used to resolve script-relative references (the
/// wrapper's own directory, or the cwd for aliases). `prefix_hint`, when set, is
/// the install prefix searched as a last resort for a jar by basename.
pub fn resolve_jar_from_text(
    text: &str,
    base_dir: &str,
    prefix_hint: Option<&Prefix>,
    env: &Environment,
) -> (r: JarSearch)
    ensures
        r@ == search_of(probes_of(text@, base_dir@, protocol::opt_prefix(prefix_hint), env@)),
{
    start_search(probes_for(text, base_dir, prefix_hint, env))
}

impl JarSearch {
    /// What the search asks for next; `None` once it is over.
    pub fn request(&self) -> (r: Option<Request>)
        ensures
            match r {
                Some(request) => search_request(self@) == Some(request@),
                None => search_request(self@) is None,
            },
    {
        match &self.stage {
            Stage::Trying(path) => Some(RequestOf::FindExisting { path: path.clone() }),
            Stage::Walking(walk) => walk.request(),
            Stage::Settling(at) => Some(RequestOf::Canonicalize { file: at.id }),
            Stage::Over(_) => None,
        }
    }

    /// Goes on with a reply. One that was not asked for changes nothing.
    pub fn answer(self, reply: Reply) -> (r: JarSearch)
        ensures
            r@ == search_answered(self@, reply@),
    {
        let ghost m = self@;
        let rest: Vec<Probe> = self.rest;
        match (self.stage, reply) {
            (Stage::Trying(_), ReplyOf::Existing(Some(at))) => JarSearch {
                stage: Stage::Over(Some(at)),
                rest,
            },
            (Stage::Trying(_), ReplyOf::Existing(None)) => start_search(rest),
            (Stage::Walking(walk), ReplyOf::Listing(listing)) => {
                let next: Walk = walk.answer(ReplyOf::Listing(listing));
                if next.request().is_some() {
                    JarSearch { stage: Stage::Walking(next), rest }
                } else {
                    match next.found() {
                        Some(at) => JarSearch { stage: Stage::Settling(at), rest },
                        None => start_search(rest),
                    }
                }
            },
            (Stage::Settling(at), ReplyOf::Canonical(canonical)) => JarSearch {
                stage: Stage::Over(
                    Some(
                        match canonical {
                            Some(canonical) => canonical,
                            None => at,
                        },
                    ),
                ),
                rest,
            },
            (stage, _) => JarSearch { stage, rest },
        }
    }

    /// Whether the search is over.
    pub fn is_over(&self) -> (r: bool)
        ensures
            r == (self@.stage is Over),
    {
        match &self.stage {
            Stage::Over(_) => true,
            _ => false,
        }
    }

    /// The jar that was found, once the search is over.
    pub fn found(self) -> (r: Option<Location>)
        ensures
            match self@.stage {
                StageModel::Over(at) => protocol::opt_location(r) == at,
                _ => r is None,
            },
    {
        match self.stage {
            Stage::Over(at) => at,
            _ => None,
        }
    }
}

// ---------------------------------------------------------------------------
// What a search finds
// ---------------------------------------------------------------------------
/// Where the file at `at` is in the end: at its canonical path, if it has one.
pub open spec fn settled(w: World, at: LocationModel) -> LocationModel {
    match w(RequestOf::Canonicalize { file: at.id }) {
        ReplyOf::Canonical(Some(canonical)) => canonical,
        _ => at,
    }
}

/// What is found by one probe.
pub open spec fn probe_result(w: World, probe: ProbeModel) -> Option<LocationModel> {
    match probe {
        ProbeOf::File(path) => match w(RequestOf::FindExisting { path }) {
            ReplyOf::Existing(at) => at,
            _ => None,
        },
        ProbeOf::Search { script, name } => match walk::find_in_dirs(
            w,
            name,
            walk::search_places(script),
            (walk::SEARCH_DEPTH - 1) as nat,
        ) {
            Some(at) => Some(settled(w, at)),
            None => None,
        },
    }
}

/// What is found by the first of `probes` that finds anything.
pub open spec fn first_result(w: World, probes: Seq<ProbeModel>) -> Option<LocationModel>
    decreases probes.len(),
{
    if probes.len() == 0 {
        None
    } else {
        match probe_result(w, probes[0]) {
            Some(at) => Some(at),
            None => first_result(w, probes.drop_first()),
        }
    }
}

/// What a search in the state `m` comes to in the world `w`.
pub open spec fn search_result(w: World, m: JarSearchModel) -> Option<LocationModel> {
    match m.stage {
        StageModel::Trying(path) => match probe_result(w, ProbeOf::File(path)) {
            Some(at) => Some(at),
            None => first_result(w, m.rest),
        },
        StageModel::Walking(walk) => match walk::walk_result(w, walk) {
            Some(at) => Some(settled(w, at)),
            None => first_result(w, m.rest),
        },
        StageModel::Settling(at) => Some(settled(w, at)),
        StageModel::Over(at) => at,
    }
}

/// How many requests a probe makes at most.
pub open spec fn probe_work(w: World, probe: ProbeModel) -> nat {
    match probe {
        ProbeOf::File(_) => 1,
        ProbeOf::Search { script, name } => walk::walk_work(w, walk::search_start(script, name)) + 1,
    }
}

/// How many requests all of `probes` make at most.
pub open spec fn probes_work(w: World, probes: Seq<ProbeModel>) -> nat
    decreases probes.len(),
{
    if probes.len() == 0 {
        0
    } else {
        probe_work(w, probes[0]) + probes_work(w, probes.drop_first())
    }
}

/// How many requests a search in the state `m` makes at most.
pub open spec fn search_work(w: World, m: JarSearchModel) -> nat {
    match m.stage {
        StageModel::Trying(_) => 1 + probes_work(w, m.rest),
        StageModel::Walking(walk) => walk::walk_work(w, walk) + 1 + probes_work(w, m.rest),
        StageModel::Settling(_) => 1,
        StageModel::Over(_) => 0,
    }
}

// ---------------------------------------------------------------------------
// Laws
// ---------------------------------------------------------------------------
/// A search comes to what the first successful one of its probes finds.
pub proof fn law_search_start(w: World, probes: Seq<ProbeModel>)
    ensures
        search_result(w, search_of(probes)) == first_result(w, probes),
        search_work(w, search_of(probes)) == probes_work(w, probes),
{
    if probes.len() > 0 {
        match probes[0] {
            ProbeOf::File(_) => {},
            ProbeOf::Search { script, name } => {
                walk::law_prefix_start(w, script, name);
            },
        }
    }
}

/// What a search comes to in the end is what it stood for at the beginning: a
/// reply that is true of the world changes nothing about it. Each reply brings the
/// search closer to its end.
pub proof fn law_search_step(w: World, m: JarSearchModel)
    requires
        protocol::answers_all(w),
        search_request(m) is Some,
    ensures
        search_result(w, search_answered(m, w(search_request(m)->0))) == search_result(w, m),
        search_work(w, search_answered(m, w(search_request(m)->0))) < search_work(w, m),
{
    let request = search_request(m)->0;
    assert(protocol::fits(request, w(request)));
    law_search_start(w, m.rest);
    match m.stage {
        StageModel::Walking(walk) => {
            walk::law_walk_step(w, walk);
            let next = walk::walk_answered(walk, w(request));
            if walk::walk_request(next) is None {
                walk::law_walk_end(w, next);
            }
        },
        _ => {},
    }
}

/// Whether the walk that a search is at still asks for something.
pub open spec fn is_live(m: JarSearchModel) -> bool {
    m.stage matches StageModel::Walking(walk) ==> walk::walk_request(walk) is Some
}

/// A search is at a walk only as long as the walk asks for something: at its
/// beginning, and after every reply.
pub proof fn law_search_live(m: JarSearchModel, probes: Seq<ProbeModel>, reply: ReplyModel)
    ensures
        is_live(search_of(probes)),
        is_live(m) ==> is_live(search_answered(m, reply)),
{
}

/// A search that asks for nothing more has come to its result.
pub proof fn law_search_end(w: World, m: JarSearchModel)
    requires
        is_live(m),
        search_request(m) is None,
    ensures
        m.stage == StageModel::Over(search_result(w, m)),
{
}

/// The first probe that finds anything decides, whatever the later ones would
/// find; nothing is found just when no probe finds anything.
pub proof fn law_first_result(w: World, probes: Seq<ProbeModel>)
    ensures
        forall|i: int|
            0 <= i < probes.len() && (#[trigger] probe_result(w, probes[i])) is Some && (forall|j: int|
                0 <= j < i ==> (#[trigger] probe_result(w, probes[j])) is None) ==> first_result(
                w,
                probes,
            ) == probe_result(w, probes[i]),
        first_result(w, probes) is None <==> (forall|j: int|
            0 <= j < probes.len() ==> (#[trigger] probe_result(w, probes[j])) is None),
    decreases probes.len(),
{
    if probes.len() > 0 {
        let rest = probes.drop_first();
        law_first_result(w, rest);
        assert forall|j: int| 0 <= j < rest.len() implies #[trigger] probe_result(w, rest[j])
            == probe_result(w, probes[j + 1]) by {}
        if probe_result(w, probes[0]) is None {
            assert forall|i: int|
                0 <= i < probes.len() && (#[trigger] probe_result(w, probes[i])) is Some && (forall|
                    j: int,
                |
                    0 <= j < i ==> (#[trigger] probe_result(w, probes[j])) is None) implies first_result(
                w,
                probes,
            ) == probe_result(w, probes[i]) by {
                assert(probe_result(w, rest[i - 1]) == probe_result(w, probes[i]));
            }
            if first_result(w, rest) is None {
                assert forall|j: int| 0 <= j < probes.len() implies (#[trigger] probe_result(
                    w,
                    probes[j],
                )) is None by {
                    if j > 0 {
                        assert(probe_result(w, rest[j - 1]) is None);
                    }
                }
            }
        }
    }
}

} // verus!
