//! Searches and whole runs, in a world of files that is held in memory.
use magicjarlib::locate::{alias_shell, resolve_alias, resolve_wrapper_jar};
use magicjarlib::resolve::{probes_for, resolve_jar_from_text, JarSearch, ProbeOf};
use magicjarlib::run::{same_file, write_executable};
use magicjarlib::source::{is_already_magicked, looks_like_jar, validate_source};
use magicjarlib::walk::{search_prefix_for_jar, walk_find, Walk};
use magicjarlib::{
    build_preamble, resolve_source, run, DirEntry, EntryKind, Environment, Error, Location, Outcome,
    OutputState, Place, Prefix, PreambleOptions, Reply, Request, WriteStage,
};
use std::collections::{BTreeMap, BTreeSet};

const JAR: &[u8] = b"PK\x03\x04 fake jar bytes";

/// A world of files, directories and symbolic links, and a shell.
struct World {
    files: BTreeMap<String, Vec<u8>>,
    dirs: BTreeSet<String>,
    links: BTreeMap<String, String>,
    hard_links: BTreeMap<String, String>,
    executable: BTreeSet<String>,
    shell: Result<String, String>,
    cwd: String,
    held: Vec<String>,
    asked: Vec<String>,
    written: usize,
    write_fails: Option<(WriteStage, String)>,
}

fn world() -> World {
    let mut dirs = BTreeSet::new();
    dirs.insert("/".to_string());
    World {
        files: BTreeMap::new(),
        dirs,
        links: BTreeMap::new(),
        hard_links: BTreeMap::new(),
        executable: BTreeSet::new(),
        shell: Ok(String::new()),
        cwd: "/work".to_string(),
        held: Vec::new(),
        asked: Vec::new(),
        written: 0,
        write_fails: None,
    }
}

fn above(path: &str) -> String {
    match path.rfind('/') {
        Some(0) | None => "/".to_string(),
        Some(i) => path[..i].to_string(),
    }
}

fn below(dir: &str, name: &str) -> String {
    if dir == "/" {
        format!("/{}", name)
    } else {
        format!("{}/{}", dir, name)
    }
}

impl World {
    fn dir(&mut self, path: &str) {
        let mut dir = path.to_string();
        while dir != "/" {
            self.dirs.insert(dir.clone());
            dir = above(&dir);
        }
    }

    fn file(&mut self, path: &str, bytes: &[u8]) {
        self.dir(&above(path));
        self.files.insert(path.to_string(), bytes.to_vec());
    }

    fn link(&mut self, path: &str, target: &str) {
        self.dir(&above(path));
        self.links.insert(path.to_string(), target.to_string());
    }

    /// A second name of a file, with a canonical path of its own.
    fn hard_link(&mut self, path: &str, file: &str) {
        let bytes = self.files[file].clone();
        self.file(path, &bytes);
        self.hard_links.insert(path.to_string(), file.to_string());
    }

    /// The first name of a file.
    fn first_name(&self, path: &str) -> String {
        self.hard_links.get(path).cloned().unwrap_or_else(|| path.to_string())
    }

    fn hold(&mut self, path: &str) -> Location {
        self.held.push(path.to_string());
        Location { id: (self.held.len() - 1) as u64, path: path.to_string() }
    }

    fn canonical(&self, path: &str) -> Option<String> {
        let mut at = if path.starts_with('/') { "/".to_string() } else { self.cwd.clone() };
        if path.is_empty() {
            return None;
        }
        for part in path.split('/') {
            if part.is_empty() || part == "." {
                continue;
            }
            if !self.dirs.contains(&at) {
                return None;
            }
            at = if part == ".." { above(&at) } else { below(&at, part) };
            if let Some(target) = self.links.get(&at) {
                at = self.canonical(target)?;
            }
        }
        if self.files.contains_key(&at) || self.dirs.contains(&at) {
            Some(at)
        } else {
            None
        }
    }

    fn list(&self, dir: &str) -> Option<Vec<(String, EntryKind)>> {
        let dir = self.canonical(dir)?;
        if !self.dirs.contains(&dir) {
            return None;
        }
        let mut entries: Vec<(String, EntryKind)> = Vec::new();
        let mut all: Vec<(&String, EntryKind)> = Vec::new();
        all.extend(self.files.keys().map(|p| (p, EntryKind::File)));
        all.extend(self.dirs.iter().map(|p| (p, EntryKind::Dir)));
        all.extend(self.links.keys().map(|p| (p, EntryKind::Other)));
        for (path, kind) in all {
            if path != "/" && above(path) == dir {
                let name = path[path.rfind('/').unwrap() + 1..].to_string();
                entries.push((name, kind));
            }
        }
        // A directory is listed in no order of names.
        entries.reverse();
        Some(entries)
    }

    fn path_of(&self, place: &Place) -> String {
        match place {
            Place::UnderPrefix { script, name } => {
                below(&above(&above(&self.held[*script as usize])), name)
            }
            Place::ScriptDir { script } => above(&self.held[*script as usize]),
            Place::Prefix { script } => above(&above(&self.held[*script as usize])),
            Place::Entry(id) => self.held[*id as usize].clone(),
        }
    }

    fn bytes(&self, file: u64) -> Option<Vec<u8>> {
        let path = self.canonical(&self.held[file as usize])?;
        self.files.get(&path).cloned()
    }

    fn perform(&mut self, request: Request) -> Reply {
        match request {
            Request::Locate { path } => match self.canonical(&path) {
                Some(at) => Reply::Located(self.hold(&at)),
                None => Reply::Missing,
            },
            Request::ReadHead { file, limit } => Reply::Head(self.bytes(file).map(|mut b| {
                b.truncate(limit);
                b
            })),
            Request::ReadStart { file, len } => Reply::Start(match self.bytes(file) {
                Some(b) if b.len() >= len => Some(b[..len].to_vec()),
                _ => None,
            }),
            Request::AskShell { shell, command } => {
                self.asked.push(format!("{} -ic {}", shell, command));
                Reply::Shell {
                    said: self.shell.clone().map(|s| s.into_bytes()),
                    cwd: Some(self.cwd.clone()),
                }
            }
            Request::FindExisting { path } => match self.canonical(&path) {
                Some(at) => Reply::Existing(Some(self.hold(&at))),
                None => Reply::Existing(None),
            },
            Request::Canonicalize { file } => {
                match self.canonical(&self.held[file as usize].clone()) {
                    Some(at) => Reply::Canonical(Some(self.hold(&at))),
                    None => Reply::Canonical(None),
                }
            }
            Request::List { place } => {
                let dir = self.path_of(&place);
                match self.list(&dir) {
                    None => Reply::Listing(None),
                    Some(entries) => {
                        let mut listing: Vec<DirEntry> = Vec::new();
                        for (name, kind) in entries {
                            let at = self.hold(&below(&dir, &name));
                            let sort_key = name.as_bytes().to_vec();
                            listing.push(DirEntry { at, name, sort_key, kind });
                        }
                        Reply::Listing(Some(listing))
                    }
                }
            }
            Request::Examine { file } => {
                match self.canonical(&self.held[file as usize].clone()) {
                    Some(at) => Reply::Examined(Ok(self.files.contains_key(&at))),
                    None => Reply::Examined(Err("No such file".to_string())),
                }
            }
            Request::CheckOutput { output, source } => {
                let at = self.canonical(&output);
                let from = self.canonical(&self.held[source as usize].clone());
                let is_source = match (&at, &from) {
                    (Some(a), Some(b)) => self.first_name(a) == self.first_name(b),
                    _ => false,
                };
                Reply::Output(OutputState {
                    is_source,
                    is_dir: at.as_ref().map_or(false, |p| self.dirs.contains(p)),
                    exists: at.is_some(),
                    canonical: at.map(|p| p.into_bytes()),
                    canonical_source: from.map(|p| p.into_bytes()),
                })
            }
            Request::Write { preamble, source, output, mode } => {
                assert_eq!(mode & 0o777, 0o755);
                self.written += 1;
                if let Some((stage, cause)) = &self.write_fails {
                    return Reply::Written(Err((*stage, cause.clone())));
                }
                let mut bytes = preamble.into_bytes();
                bytes.extend(self.bytes(source).unwrap());
                let path = if output.starts_with('/') { output } else { below(&self.cwd, &output) };
                self.files.insert(path.clone(), bytes);
                self.executable.insert(path);
                Reply::Written(Ok(()))
            }
        }
    }

    fn run_with(
        &mut self,
        input: &str,
        output: Option<&str>,
        force: bool,
        options: &PreambleOptions,
        vars: &[(&str, &str)],
    ) -> Result<Outcome, Error> {
        let mut run = run(input, output, force, options, environment(vars));
        while let Some(request) = run.request() {
            run = run.answer(self.perform(request));
        }
        run.finish().unwrap()
    }

    fn run(&mut self, input: &str, output: Option<&str>, force: bool) -> Result<Outcome, Error> {
        self.run_with(input, output, force, &PreambleOptions::default(), &[])
    }

    fn resolve(&mut self, input: &str, vars: &[(&str, &str)]) -> Result<Location, Error> {
        let mut search = resolve_source(input, environment(vars));
        while let Some(request) = search.request() {
            search = search.answer(self.perform(request));
        }
        search.finish().unwrap()
    }

    fn search(&mut self, search: JarSearch) -> Option<String> {
        let mut search = search;
        while let Some(request) = search.request() {
            search = search.answer(self.perform(request));
        }
        assert!(search.is_over());
        search.found().map(|at| at.path)
    }

    fn walk(&mut self, walk: Walk) -> Option<String> {
        let mut walk = walk;
        while let Some(request) = walk.request() {
            walk = walk.answer(self.perform(request));
        }
        walk.found().map(|at| at.path)
    }

    fn prefix(&mut self, path: &str) -> Prefix {
        let script = self.hold(&format!("{}/bin/tool", path));
        Prefix { script: script.id, path: path.to_string() }
    }

    fn assert_layout(&self, output: &str, jar: &str, options: &PreambleOptions) {
        let mut expected = build_preamble(options).unwrap().into_bytes();
        expected.extend(self.files[jar].iter());
        assert_eq!(self.files[output], expected);
    }

    fn assert_magicjar_layout(&self, output: &str, jar: &str) {
        self.assert_layout(output, jar, &PreambleOptions::default());
    }
}

fn environment(vars: &[(&str, &str)]) -> Environment {
    Environment::new(vars.iter().map(|(k, v)| (k.to_string(), v.to_string())).collect())
}

// ---------------------------------------------------------------------------
// What files are
// ---------------------------------------------------------------------------

#[test]
fn detects_already_magicked_file() {
    let preamble = build_preamble(&PreambleOptions::default()).unwrap();
    let wrapped = format!("{preamble}PK\x03\x04 jar bytes").into_bytes();
    assert!(is_already_magicked(Some(&wrapped[..2048])));
    assert!(!is_already_magicked(Some(b"PK\x03\x04 not wrapped")));
}

#[test]
fn is_already_magicked_false_on_unreadable() {
    // A file that is missing and a directory both cannot be read.
    assert!(!is_already_magicked(None));
}

#[test]
fn looks_like_jar_by_magic() {
    let mut w = world();
    w.file("/t/noext", b"PK\x03\x04rest");
    w.file("/t/plain", b"not a zip");
    for (path, expected) in [("/t/noext", true), ("/t/plain", false)].iter() {
        let at = w.hold(path);
        match w.perform(Request::ReadStart { file: at.id, len: 4 }) {
            Reply::Start(start) => {
                assert_eq!(looks_like_jar(path, start.as_deref()), *expected)
            }
            _ => unreachable!(),
        }
    }
}

#[test]
fn looks_like_jar_false_for_short_or_missing_file() {
    let mut w = world();
    w.file("/t/tiny", b"hi"); // no .jar suffix, fewer than 4 bytes
    for path in ["/t/tiny", "/no/such/file"].iter() {
        let at = w.hold(path);
        match w.perform(Request::ReadStart { file: at.id, len: 4 }) {
            Reply::Start(start) => assert!(!looks_like_jar(path, start.as_deref())),
            _ => unreachable!(),
        }
    }
}

#[test]
fn validate_source_covers_every_branch() {
    let missing: Result<bool, String> = Err("No such file".to_string());
    assert!(validate_source("/t/nope.jar", missing, None).is_err()); // missing
    assert!(validate_source("/t", Ok(false), None).is_err()); // not a regular file
    assert!(validate_source("/t/notes.txt", Ok(true), Some(b"plai")).is_err()); // not jar-like
    assert!(validate_source("/t/ok.jar", Ok(true), Some(b"PK\x03\x04")).is_ok()); // valid
}

#[test]
fn same_file_false_when_a_path_is_missing() {
    assert!(!same_file(Some(b"/t/real"), None));
    assert!(!same_file(None, Some(b"/t/real")));
    assert!(!same_file(None, None));
    assert!(!same_file(Some(b"/t/real"), Some(b"/t/ghost")));
    assert!(!same_file(Some(b"/t/real"), Some(b"/t/rea")));
    assert!(same_file(Some(b"/t/real"), Some(b"/t/real")));
}

// ---------------------------------------------------------------------------
// The search for a jar
// ---------------------------------------------------------------------------

#[test]
fn resolve_jar_via_explicit_jar_flag() {
    let mut w = world();
    w.file("/t/app.jar", b"PK\x03\x04 fake");
    let text = "exec java -jar \"/t/app.jar\" \"$@\"";
    let search = resolve_jar_from_text(text, "/t", None, &environment(&[]));
    assert_eq!(w.search(search).as_deref(), Some("/t/app.jar"));
}

#[test]
fn resolve_jar_via_bioconda_template() {
    // `<prefix>/bin/<tool>` + `<prefix>/share/<pkg>/<jar>`.
    let mut w = world();
    w.dir("/p/bin");
    w.file("/p/share/fgbio/fgbio.jar", b"PK\x03\x04 fake");
    let prefix = w.prefix("/p");
    let text = "JAR_NAME = 'fgbio.jar'\nPKG_NAME = 'fgbio'\n";
    let search = resolve_jar_from_text(text, "/p/bin", Some(&prefix), &environment(&[]));
    assert_eq!(w.search(search).as_deref(), Some("/p/share/fgbio/fgbio.jar"));
}

#[test]
fn resolve_jar_via_prefix_search_fallback() {
    // Jar basename is known but its directory is not named after the package.
    let mut w = world();
    w.file("/p/share/fgbio-2.0.0-0/fgbio.jar", b"PK\x03\x04 fake");
    let prefix = w.prefix("/p");
    let text = "JAR_NAME = 'fgbio.jar'\n"; // no PKG_NAME match for the dir
    let search = resolve_jar_from_text(text, "/p/bin", Some(&prefix), &environment(&[]));
    assert_eq!(w.search(search).as_deref(), Some("/p/share/fgbio-2.0.0-0/fgbio.jar"));
}

#[test]
fn resolve_jar_from_text_tier3_direct_path() {
    let mut w = world();
    w.file("/t/plain.jar", JAR);
    // No `-jar` flag and no JAR_NAME assignment, so tier 3 resolves the bare path.
    let text = "# launches /t/plain.jar\n";
    let search = resolve_jar_from_text(text, "/t", None, &environment(&[]));
    assert_eq!(w.search(search).as_deref(), Some("/t/plain.jar"));
}

#[test]
fn resolve_jar_from_text_tier3_prefix_search_by_basename() {
    let mut w = world();
    w.file("/p/opt/hidden.jar", JAR);
    let prefix = w.prefix("/p");
    // Referenced only by basename; the direct path does not exist, so the
    // function falls back to searching the prefix.
    let text = "launch hidden.jar now\n";
    let search = resolve_jar_from_text(text, "/p/bin", Some(&prefix), &environment(&[]));
    assert_eq!(w.search(search).as_deref(), Some("/p/opt/hidden.jar"));
}

#[test]
fn resolve_jar_from_text_bails_when_nothing_resolves() {
    let mut w = world();
    w.dir("/p/lib/nested");
    let prefix = w.prefix("/p");
    let text = "needs ghost.jar\n";
    let search = resolve_jar_from_text(text, "/p/bin", Some(&prefix), &environment(&[]));
    assert_eq!(w.search(search), None);

    w.file("/p/bin/tool", text.as_bytes());
    let err = w.resolve("/p/bin/tool", &[]).unwrap_err();
    assert!(err.message().contains("no resolvable .jar"));
}

#[test]
fn resolve_jar_from_text_skips_unparseable_jar_line() {
    let mut w = world();
    w.file("/t/real.jar", JAR);
    // First line has `-jar` but an unbalanced quote (shell-words can't split
    // it); the resolver must skip it and find the jar on the next line.
    let text = "java -jar \"unterminated\nexec java -jar /t/real.jar\n";
    let search = resolve_jar_from_text(text, "/t", None, &environment(&[]));
    assert_eq!(w.search(search).as_deref(), Some("/t/real.jar"));
}

#[test]
fn probes_come_in_order() {
    let prefix = Prefix { script: 9, path: "/p".to_string() };
    let text = "java -jar $HERE/a.jar\nPKG_NAME=pkg\nJAR_NAME=b.jar\njava -jar ~/c.jar\n";
    let env = environment(&[("HOME", "/h")]);
    let shown: Vec<String> = probes_for(text, "/p/bin", Some(&prefix), &env)
        .iter()
        .map(|probe| match probe {
            ProbeOf::File(path) => path.clone(),
            ProbeOf::Search { script, name } => format!("{}?{}", script, name),
        })
        .collect();
    assert_eq!(
        shown,
        vec![
            "/p/bin/a.jar",
            "/h/c.jar",
            "/p/share/pkg/b.jar",
            "9?b.jar",
            "/p/bin/a.jar",
            "b.jar",
            "/h/c.jar",
            "9?a.jar",
            "9?b.jar",
            "9?c.jar",
        ]
    );
    assert_eq!(probes_for(text, "/p/bin", None, &env).len(), 5);
}

#[test]
fn the_first_probe_that_finds_a_jar_wins() {
    let mut w = world();
    w.file("/t/second.jar", JAR);
    w.file("/t/third.jar", JAR);
    let text = "java -jar /t/first.jar\njava -jar /t/second.jar\njava -jar /t/third.jar\n";
    let search = resolve_jar_from_text(text, "/t", None, &environment(&[]));
    assert_eq!(w.search(search).as_deref(), Some("/t/second.jar"));
}

// ---------------------------------------------------------------------------
// The walk
// ---------------------------------------------------------------------------

#[test]
fn walk_find_returns_none_at_zero_depth() {
    let mut w = world();
    w.file("/t/anything.jar", JAR);
    let script = w.hold("/t/tool").id;
    let walk = walk_find(Place::ScriptDir { script }, "anything.jar", 0);
    assert!(walk.request().is_none());
    assert!(w.walk(walk).is_none());
}

#[test]
fn walk_find_stops_at_its_depth() {
    let mut w = world();
    w.file("/t/a/b/x.jar", JAR);
    let script = w.hold("/t/tool").id;
    assert_eq!(w.walk(walk_find(Place::ScriptDir { script }, "x.jar", 2)), None);
    assert_eq!(
        w.walk(walk_find(Place::ScriptDir { script }, "X.JAR", 3)).as_deref(),
        Some("/t/a/b/x.jar")
    );
}

#[test]
fn walk_find_takes_files_first_and_directories_in_order() {
    let mut w = world();
    w.file("/t/b/x.jar", JAR);
    w.file("/t/a/deep/x.jar", JAR);
    let script = w.hold("/t/tool").id;
    assert_eq!(
        w.walk(walk_find(Place::ScriptDir { script }, "x.jar", 7)).as_deref(),
        Some("/t/a/deep/x.jar")
    );
    w.file("/t/x.jar", JAR);
    assert_eq!(
        w.walk(walk_find(Place::ScriptDir { script }, "x.jar", 7)).as_deref(),
        Some("/t/x.jar")
    );
}

#[test]
fn walk_find_does_not_depend_on_the_order_of_a_listing() {
    let entry = |id: u64, name: &str, kind: EntryKind| DirEntry {
        at: Location { id, path: format!("/t/{}", name) },
        name: name.to_string(),
        sort_key: name.as_bytes().to_vec(),
        kind,
    };
    for order in [[0usize, 1, 2], [2, 1, 0], [1, 2, 0]].iter() {
        let all = ["a.jar", "A.jar", "b.jar"];
        let listing = order.iter().map(|i| entry(*i as u64, all[*i], EntryKind::File)).collect();
        let walk = walk_find(Place::Entry(9), "a.jar", 1).answer(Reply::Listing(Some(listing)));
        assert_eq!(walk.found().map(|at| at.path).as_deref(), Some("/t/A.jar"));
        let dirs = order.iter().map(|i| entry(*i as u64, all[*i], EntryKind::Dir)).collect();
        let walk = walk_find(Place::Entry(9), "a.jar", 2).answer(Reply::Listing(Some(dirs)));
        assert!(matches!(walk.request(), Some(Request::List { place: Place::Entry(1) })));
    }
}

#[test]
fn walk_find_follows_no_links_and_takes_no_directory() {
    let mut w = world();
    w.file("/elsewhere/x.jar", JAR);
    w.link("/t/x.jar", "/elsewhere/x.jar");
    w.link("/t/more", "/elsewhere");
    w.dir("/t/sub/x.jar");
    let script = w.hold("/t/tool").id;
    assert_eq!(w.walk(walk_find(Place::ScriptDir { script }, "x.jar", 7)), None);
}

#[test]
fn the_usual_places_come_first() {
    let mut w = world();
    let script = w.hold("/p/bin/tool").id;
    for place in ["", "/bin", "/jars", "/lib", "/libexec", "/opt", "/share"].iter() {
        w.file(&format!("/p{}/x.jar", place), JAR);
        assert_eq!(
            w.walk(search_prefix_for_jar(script, "x.jar")),
            Some(format!("/p{}/x.jar", place))
        );
    }
}

#[test]
fn a_reply_that_was_not_asked_for_changes_nothing() {
    let walk = walk_find(Place::Entry(3), "x.jar", 2).answer(Reply::Missing);
    assert!(matches!(walk.request(), Some(Request::List { place: Place::Entry(3) })));
    let search = resolve_source("in", environment(&[])).answer(Reply::Existing(None));
    assert!(matches!(search.request(), Some(Request::Locate { .. })));
    let run = run("in", None, false, &PreambleOptions::default(), environment(&[]));
    let run = run.answer(Reply::Written(Ok(())));
    assert!(matches!(run.request(), Some(Request::Locate { .. })));
    assert!(run.finish().is_err());
}

// ---------------------------------------------------------------------------
// The search for the source
// ---------------------------------------------------------------------------

#[test]
fn resolve_source_text_wrapper_without_a_jar_errors() {
    let mut w = world();
    w.file("/t/bin/toolwrap", b"#!/bin/sh\necho 'this wrapper launches nothing'\n");
    let err = w.resolve("/t/bin/toolwrap", &[]).unwrap_err();
    assert!(err.message().contains("could not find the .jar"));
}

#[test]
fn resolve_alias_errors_for_an_unresolvable_name() {
    let mut w = world();
    // Either the shell cannot be run, or it runs and reports no such alias.
    w.shell = Err("Permission denied".to_string());
    let err = w.resolve("some-unlikely-alias-name-xyz", &[("SHELL", "/t/not-a-shell")]).unwrap_err();
    assert_eq!(
        err.message(),
        "no file 'some-unlikely-alias-name-xyz', and failed to run /t/not-a-shell to look up an alias: Permission denied"
    );
    w.shell = Ok("sh: alias: not found\n".to_string());
    assert!(w.resolve("some-unlikely-alias-name-xyz", &[]).is_err());
}

#[test]
fn errors_on_unknown_alias() {
    let mut w = world();
    // A shell that knows no aliases (prints nothing).
    w.shell = Ok("\n".to_string());
    let err = w.run("definitely-not-a-real-thing", Some("/work/out"), false).unwrap_err();
    assert!(err.message().contains("no file or shell alias"));
    assert_eq!(w.asked, vec!["/bin/sh -ic alias definitely-not-a-real-thing"]);
}

#[test]
fn an_alias_that_leads_nowhere() {
    let mut w = world();
    w.shell = Ok("tool='java -jar /none.jar'\n".to_string());
    let err = w.resolve("tool", &[]).unwrap_err();
    assert_eq!(
        err.message(),
        "shell alias 'tool' does not resolve to a .jar: tool='java -jar /none.jar': no resolvable .jar reference found"
    );
}

#[test]
fn an_alias_is_resolved_from_the_working_directory() {
    let mut w = world();
    w.file("/work/app.jar", JAR);
    w.shell = Ok("tool='java -jar $HERE/app.jar'\n".to_string());
    assert_eq!(w.resolve("tool", &[]).unwrap().path, "/work/app.jar");
}

#[test]
fn what_the_shell_printed_need_not_be_text() {
    let search = resolve_source("tool", environment(&[])).answer(Reply::Missing);
    let said = b"\xff\xfe\ntool='java -jar /t/\xffapp.jar'\n".to_vec();
    let search = search.answer(Reply::Shell { said: Ok(said), cwd: None });
    match search.request() {
        Some(Request::FindExisting { path }) => assert_eq!(path, "/t/\u{fffd}app.jar"),
        _ => panic!("the alias names a path"),
    }
}

#[test]
fn the_shell_is_that_of_the_user() {
    assert_eq!(alias_shell(&environment(&[("SHELL", "/bin/zsh")])), "/bin/zsh");
    assert_eq!(alias_shell(&environment(&[])), "/bin/sh");
}

#[test]
fn alias_definitions() {
    let env = environment(&[]);
    let (line, search) = resolve_alias("foo", "x\n foo='java -jar a.jar'\n", None, &env).unwrap();
    assert_eq!(line, "foo='java -jar a.jar'");
    match search.request() {
        Some(Request::FindExisting { path }) => assert_eq!(path, "a.jar"),
        _ => panic!("the alias names a path"),
    }
    let err = resolve_alias("foo", "nothing\n", None, &env).unwrap_err();
    assert_eq!(err.message(), "no file or shell alias named 'foo'");
}

#[test]
fn a_wrapper_looks_in_its_own_prefix() {
    let env = environment(&[]);
    let script = Location { id: 5, path: "/p/bin/tool".to_string() };
    let search = resolve_wrapper_jar(&script, "java -jar $PREFIX/$DIR/x.jar", &env);
    match search.request() {
        Some(Request::FindExisting { path }) => assert_eq!(path, "/p//p/bin/x.jar"),
        _ => panic!("the script names a path"),
    }
    let search = resolve_wrapper_jar(&script, "JAR_NAME=x.jar", &env);
    assert!(matches!(
        search.request(),
        Some(Request::List { place: Place::UnderPrefix { script: 5, .. } })
    ));
}

#[test]
fn an_input_that_cannot_be_resolved() {
    let search = resolve_source("in", environment(&[]));
    let search = search.answer(Reply::Unresolvable { cause: "loop".to_string() });
    let err = search.finish().unwrap().unwrap_err();
    assert_eq!(err.message(), "cannot resolve path: in: loop");
}

#[test]
fn a_marked_jar_is_refused_before_its_name_counts() {
    let mut w = world();
    w.file("/t/app.jar", b"#!/usr/bin/env bash\n# magicjar:self-executing-jar\nPK\x03\x04");
    let err = w.resolve("/t/app.jar", &[]).unwrap_err();
    assert!(err.message().contains("already a magicjar"));
}

#[test]
fn a_jar_without_its_suffix_is_a_source() {
    let mut w = world();
    w.file("/t/app", JAR);
    assert_eq!(w.resolve("/t/app", &[]).unwrap().path, "/t/app");
}

// ---------------------------------------------------------------------------
// Runs
// ---------------------------------------------------------------------------

#[test]
fn run_writes_executable_with_explicit_output() {
    let mut w = world();
    w.file("/t/tool.jar", JAR);
    let outcome = w.run("/t/tool.jar", Some("/t/tool.out"), false).unwrap();
    assert_eq!(outcome.output, "/t/tool.out");
    assert_eq!(outcome.source.path, "/t/tool.jar");
    assert!(w.files.contains_key("/t/tool.out"));
    assert!(w.executable.contains("/t/tool.out"));
}

#[test]
fn run_refuses_a_directory_as_output() {
    let mut w = world();
    w.file("/t/tool.jar", JAR);
    w.dir("/t/outdir");
    let err = w.run("/t/tool.jar", Some("/t/outdir"), true).unwrap_err();
    assert!(err.message().contains("is a directory"));
    assert_eq!(w.written, 0);
}

#[test]
fn prepends_preamble_and_marks_executable() {
    let mut w = world();
    w.file("/t/app.jar", JAR);
    w.run("/t/app.jar", Some("/t/app"), false).unwrap();
    w.assert_magicjar_layout("/t/app", "/t/app.jar");
    assert!(w.executable.contains("/t/app"), "output should be executable");
}

#[test]
fn default_output_name_strips_jar_suffix() {
    let mut w = world();
    w.file("/work/app.jar", JAR);
    // No output argument: defaults to "app" in the working directory.
    let outcome = w.run("app.jar", None, false).unwrap();
    assert_eq!(outcome.output, "app");
    assert!(w.files.contains_key("/work/app"), "default output 'app' should exist");
    w.assert_magicjar_layout("/work/app", "/work/app.jar");
}

#[test]
fn refuses_to_clobber_then_force_overwrites() {
    let mut w = world();
    w.file("/t/app.jar", JAR);
    w.file("/t/out", b"preexisting");
    let err = w.run("/t/app.jar", Some("/t/out"), false).unwrap_err();
    assert!(err.message().contains("already exists"));
    assert_eq!(w.files["/t/out"], b"preexisting");
    w.run("/t/app.jar", Some("/t/out"), true).unwrap();
    w.assert_magicjar_layout("/t/out", "/t/app.jar");
}

#[test]
fn rejects_identical_input_and_output() {
    let mut w = world();
    w.file("/t/app.jar", JAR);
    let err = w.run("/t/app.jar", Some("/t/app.jar"), true).unwrap_err();
    assert!(err.message().contains("same file"));
    assert_eq!(w.written, 0);
    assert_eq!(w.files["/t/app.jar"], JAR);
}

#[test]
fn rejects_the_source_under_another_name() {
    let mut w = world();
    w.file("/t/app.jar", JAR);
    w.link("/t/out", "/t/app.jar");
    let err = w.run("/t/app.jar", Some("/t/out"), true).unwrap_err();
    assert_eq!(err.message(), "input and output are the same file: /t/out");
}

#[test]
fn rejects_a_second_hard_link_to_the_source() {
    let mut w = world();
    w.file("/t/app.jar", JAR);
    w.hard_link("/t/second", "/t/app.jar");
    let err = w.run("/t/app.jar", Some("/t/second"), true).unwrap_err();
    assert_eq!(err.message(), "input and output are the same file: /t/second");
    assert_eq!(w.written, 0);
    assert_eq!(w.files["/t/app.jar"], JAR);
    assert_eq!(w.files["/t/second"], JAR);

    // Another file with the same bytes is no second name of it.
    w.file("/t/copy", JAR);
    w.run("/t/app.jar", Some("/t/copy"), true).unwrap();
    w.assert_magicjar_layout("/t/copy", "/t/app.jar");
}

#[test]
fn resolves_symlink_to_jar() {
    let mut w = world();
    w.file("/t/app.jar", JAR);
    w.link("/t/link.jar", "/t/app.jar");
    let outcome = w.run("/t/link.jar", Some("/t/out"), false).unwrap();
    assert_eq!(outcome.source.path, "/t/app.jar");
    w.assert_magicjar_layout("/t/out", "/t/app.jar");
}

#[test]
fn rejects_non_jar_binary() {
    let mut w = world();
    w.file("/t/blob", &[0u8, 1, 2, 3, 0, 9]);
    let err = w.run("/t/blob", Some("/t/out"), false).unwrap_err();
    assert!(err.message().contains("neither a .jar"));
}

#[test]
fn resolves_real_bioconda_fgbio_shim() {
    //   <prefix>/bin/fgbio           (the Python wrapper)
    //   <prefix>/share/fgbio/fgbio.jar
    let mut w = world();
    let shim = "#!/usr/bin/env python3\nimport os\nimport sys\n\nPKG_NAME = 'fgbio'\nJAR_NAME = 'fgbio.jar'\n\ndef main():\n    java_args += ['-jar', os.path.join(jar_dir, JAR_NAME)]\n";
    w.file("/p/bin/fgbio", shim.as_bytes());
    w.file("/p/share/fgbio/fgbio.jar", JAR);
    w.run("/p/bin/fgbio", Some("/p/fgbio"), false).unwrap();
    w.assert_magicjar_layout("/p/fgbio", "/p/share/fgbio/fgbio.jar");
}

#[test]
fn resolves_mocked_shell_alias() {
    let mut w = world();
    w.file("/t/app.jar", JAR);
    w.shell = Ok("myalias='java -jar /t/app.jar'\n".to_string());
    w.run_with(
        "myalias",
        Some("/t/aliased"),
        false,
        &PreambleOptions::default(),
        &[("SHELL", "/t/mock_shell.sh")],
    )
    .unwrap();
    w.assert_magicjar_layout("/t/aliased", "/t/app.jar");
    assert_eq!(w.asked, vec!["/t/mock_shell.sh -ic alias myalias"]);
}

#[test]
fn resolves_shell_wrapper_using_prefix_variable() {
    // Layout: <prefix>/bin/toolwrap + <prefix>/lib/tool.jar.
    let mut w = world();
    w.file("/p/lib/tool.jar", JAR);
    w.file(
        "/p/bin/toolwrap",
        b"#!/usr/bin/env bash\nexec java -jar \"$PREFIX/lib/tool.jar\" \"$@\"\n",
    );
    w.run("/p/bin/toolwrap", Some("/t/toolwrap.exe"), false).unwrap();
    w.assert_magicjar_layout("/t/toolwrap.exe", "/p/lib/tool.jar");
}

#[test]
fn no_malloc_arena_max_flag_omits_the_block() {
    let mut w = world();
    w.file("/t/app.jar", JAR);
    let options = PreambleOptions { malloc_arena_max: false, ..Default::default() };
    w.run_with("/t/app.jar", Some("/t/app"), false, &options, &[]).unwrap();
    let preamble = build_preamble(&options).unwrap();
    assert!(!preamble.contains("MALLOC_ARENA_MAX"), "malloc block should be omitted");
    w.assert_layout("/t/app", "/t/app.jar", &options);
}

#[test]
fn default_jvm_opts_empty_omits_heap_defaults() {
    let mut w = world();
    w.file("/t/app.jar", JAR);
    let options = PreambleOptions { default_jvm_opts: String::new(), ..Default::default() };
    w.run_with("/t/app.jar", Some("/t/app"), false, &options, &[]).unwrap();
    let preamble = build_preamble(&options).unwrap();
    assert!(!preamble.contains("-Xms512m"), "default heap opts should be omitted");
    assert!(
        preamble.contains("DEFAULT_MEM_OPTS=()"),
        "expected an empty default mem opts array"
    );
    w.assert_layout("/t/app", "/t/app.jar", &options);
}

#[test]
fn errors_on_double_wrap() {
    let mut w = world();
    w.file("/t/app.jar", JAR);
    w.run("/t/app.jar", Some("/t/once"), false).unwrap();
    // A file that is already wrapped must be refused, not wrapped twice.
    let err = w.run("/t/once", Some("/t/twice"), false).unwrap_err();
    assert!(err.message().contains("already a magicjar"));
    assert!(
        !w.files.contains_key("/t/twice"),
        "no output should be written on a double-wrap attempt"
    );
}

#[test]
fn a_wrapped_jar_is_refused_however_it_is_reached() {
    let mut w = world();
    w.file("/t/app.jar", JAR);
    w.run("/t/app.jar", Some("/t/once.jar"), false).unwrap();
    w.written = 0;
    let before = w.files["/t/once.jar"].clone();

    w.file("/p/bin/tool", b"#!/bin/sh\nexec java -jar /t/once.jar \"$@\"\n");
    let err = w.run("/p/bin/tool", Some("/t/out"), true).unwrap_err();
    assert!(err.message().contains("/t/once.jar is already a magicjar"));

    w.shell = Ok("tool='java -jar /t/once.jar'\n".to_string());
    let err = w.run("tool", Some("/t/out"), true).unwrap_err();
    assert!(err.message().contains("/t/once.jar is already a magicjar"));

    w.link("/t/link.jar", "/t/once.jar");
    assert!(w.run("/t/link.jar", Some("/t/out"), true).is_err());

    assert_eq!(w.written, 0);
    assert!(!w.files.contains_key("/t/out"));
    assert_eq!(w.files["/t/once.jar"], before);
}

#[test]
fn a_run_changes_only_its_output() {
    let mut w = world();
    w.file("/t/app.jar", JAR);
    w.file("/t/other", b"other");
    let mut expected = w.files.clone();
    let outcome = w.run("/t/app.jar", Some("/t/app"), false).unwrap();
    let mut bytes = build_preamble(&PreambleOptions::default()).unwrap().into_bytes();
    bytes.extend(JAR);
    expected.insert("/t/app".to_string(), bytes);
    assert_eq!(w.files, expected);
    assert_eq!(w.written, 1);
    let again = outcome.clone();
    assert_eq!(again.output, outcome.output);
    assert_eq!(again.source.path, outcome.source.path);
}

#[test]
fn custom_default_jvm_opts_with_hyphen_value() {
    let mut w = world();
    w.file("/t/app.jar", JAR);
    let options = PreambleOptions {
        default_jvm_opts: "-Xms64m -Xmx128m".to_string(),
        ..Default::default()
    };
    w.run_with("/t/app.jar", Some("/t/app"), false, &options, &[]).unwrap();
    let preamble = build_preamble(&options).unwrap();
    assert!(preamble.contains("-Xms64m") && preamble.contains("-Xmx128m"));
    w.assert_layout("/t/app", "/t/app.jar", &options);
}

#[test]
fn malformed_options_write_nothing() {
    let mut w = world();
    w.file("/t/app.jar", JAR);
    let options = PreambleOptions {
        default_jvm_opts: "'".to_string(),
        ..Default::default()
    };
    let err = w.run_with("/t/app.jar", Some("/t/app"), false, &options, &[]).unwrap_err();
    assert!(err.message().contains("invalid --default-jvm-opts"));
    assert_eq!(w.written, 0);
}

#[test]
fn a_directory_named_like_a_jar_is_no_source() {
    let mut w = world();
    w.dir("/t/app.jar");
    let err = w.run("/t/app.jar", Some("/t/app"), false).unwrap_err();
    assert_eq!(err.message(), "source is not a regular file: /t/app.jar");
}

#[test]
fn a_script_that_names_a_text_file_as_its_jar() {
    let mut w = world();
    w.file("/t/bin/tool", b"java -jar /t/link.jar\n");
    w.file("/t/notes", b"no jar at all");
    w.link("/t/link.jar", "/t/notes");
    let err = w.run("/t/bin/tool", Some("/t/out"), false).unwrap_err();
    assert_eq!(
        err.message(),
        "source does not look like a .jar (no .jar suffix or ZIP magic): /t/notes"
    );
}

#[test]
fn a_write_that_fails_is_reported() {
    let mut w = world();
    w.file("/t/app.jar", JAR);
    w.write_fails = Some((WriteStage::CreateOutput, "Permission denied".to_string()));
    let err = w.run("/t/app.jar", Some("/t/app"), false).unwrap_err();
    assert_eq!(err.message(), "cannot create output: /t/app: Permission denied");
}

#[test]
fn a_source_that_vanishes_is_missing() {
    let run = run("/t/app.jar", None, false, &PreambleOptions::default(), environment(&[]));
    let at = Location { id: 0, path: "/t/app.jar".to_string() };
    let run = run.answer(Reply::Located(at)).answer(Reply::Head(None));
    assert!(matches!(run.request(), Some(Request::Examine { file: 0 })));
    let run = run.answer(Reply::Examined(Err("gone".to_string())));
    let err = run.finish().unwrap().unwrap_err();
    assert_eq!(err.message(), "source jar does not exist: /t/app.jar: gone");
}

#[test]
fn outputs_are_judged_in_order() {
    let state = |is_dir: bool, exists: bool, same: bool| OutputState {
        is_dir,
        exists,
        is_source: false,
        canonical: Some(b"/a".to_vec()),
        canonical_source: Some(if same { b"/a".to_vec() } else { b"/b".to_vec() }),
    };
    let judge = |found: OutputState, force: bool| match write_executable("o", &found, force) {
        Ok(()) => "ok".to_string(),
        Err(e) => e.message(),
    };
    assert_eq!(judge(state(true, true, true), true), "output path is a directory: o");
    assert_eq!(judge(state(false, true, true), true), "input and output are the same file: o");
    assert_eq!(judge(state(false, true, true), false), "input and output are the same file: o");
    assert_eq!(
        judge(state(false, true, false), false),
        "o already exists (use --force to overwrite)"
    );
    assert_eq!(judge(state(false, true, false), true), "ok");
    let linked = |exists: bool| OutputState { is_source: true, ..state(false, exists, false) };
    assert_eq!(judge(linked(true), true), "input and output are the same file: o");
    assert_eq!(judge(linked(true), false), "input and output are the same file: o");
    assert_eq!(judge(state(false, false, true), false), "ok");
}
