//! Texts: file names, references to jars, expansion, the preamble, messages.
use magicjarlib::error::ErrorOf;
use magicjarlib::expand::{expand, expand_env, is_var_name};
use magicjarlib::path::{file_name, has_jar_suffix, join, parent, strip_jar_suffix};
use magicjarlib::preamble::{
    render_preamble, MAGICJAR_MARKER, MALLOC_BLOCK, PREAMBLE_LAUNCH, PREAMBLE_OPTIONS,
    PREAMBLE_SORT, PREAMBLE_START,
};
use magicjarlib::reference::{
    alias_line, alias_value, assignment_value, collect_jar_candidates, is_delim, is_token_char,
    strip_outer_quotes,
};
use magicjarlib::resolve::jar_launched_by;
use magicjarlib::source::{
    contains_subslice, is_already_magicked, looks_like_jar, read_text_head, validate_source,
};
use magicjarlib::text::{chars_of, is_whitespace, replaced, split_lines, text_of, trimmed};
use magicjarlib::{
    build_preamble, default_output_name, Environment, Error, PreambleOptions, WriteStage,
};
use std::path::Path;

fn environment(vars: &[(&str, &str)]) -> Environment {
    Environment::new(vars.iter().map(|(k, v)| (k.to_string(), v.to_string())).collect())
}

fn no_environment() -> Environment {
    environment(&[])
}

fn words(list: &[&str]) -> Vec<String> {
    list.iter().map(|w| w.to_string()).collect()
}

// ---------------------------------------------------------------------------
// File names
// ---------------------------------------------------------------------------

#[test]
fn jar_suffix() {
    assert_eq!(has_jar_suffix("fgbio.jar"), true);
    assert_eq!(has_jar_suffix("FGBIO.JAR"), true);
    assert_eq!(has_jar_suffix("Tool.Jar"), true);
    assert_eq!(has_jar_suffix("noext"), false);
    assert_eq!(has_jar_suffix("jar"), false);
    assert_eq!(has_jar_suffix("x.jarx"), false);
}

#[test]
fn jar_suffix_at_the_edges() {
    assert!(has_jar_suffix(".jar"));
    assert!(!has_jar_suffix(""));
    assert!(!has_jar_suffix("\u{e9}jar"));
    assert!(!has_jar_suffix("a\u{1f600}"));
    assert!(!has_jar_suffix(".j\u{e5}r"));
    assert!(has_jar_suffix("\u{1f600}.jar"));
}

#[test]
fn strips_only_a_jar_suffix() {
    assert_eq!(strip_jar_suffix("app.jar"), "app");
    assert_eq!(strip_jar_suffix("app.jAr"), "app");
    assert_eq!(strip_jar_suffix("app.jar.jar"), "app.jar");
    assert_eq!(strip_jar_suffix(".jar"), "");
    assert_eq!(strip_jar_suffix("app.zip"), "app.zip");
    assert_eq!(strip_jar_suffix("\u{e9}.jar"), "\u{e9}");
}

#[test]
fn default_output() {
    assert_eq!(default_output_name("fgbio.jar"), "fgbio");
    assert_eq!(default_output_name("path/to/fgbio.jar"), "fgbio");
    assert_eq!(default_output_name("/opt/conda/bin/fgbio"), "fgbio");
    assert_eq!(default_output_name("Tool.JAR"), "Tool");
    assert_eq!(default_output_name("fgbio"), "fgbio");
}

#[test]
fn default_output_of_odd_inputs() {
    assert_eq!(default_output_name(""), "");
    assert_eq!(default_output_name("/"), "/");
    assert_eq!(default_output_name(".."), "..");
    assert_eq!(default_output_name("a/.."), "a/..");
    assert_eq!(default_output_name("dir/tool.jar/"), "tool");
    assert_eq!(default_output_name("dir/tool.jar/."), "tool");
}

#[test]
fn paths_are_taken_apart_as_std_does() {
    let paths = [
        "", "/", "//", ".", "..", "./", "../", "/.", "/..", "a", "a/", "a//", "/a", "//a", "a/b",
        "a//b", "a/./b", "a/b/.", "a/b/..", "a/..", "./a", "./a/.", "../a", "/a/b/c.jar",
        "a/b//./.", ".a", "a.", "...", "/./a", "/.//", "a/.//./", "x/../y", "/a/./", " ",
        "\u{e9}/\u{fc}.jar", "$(dirname", "a\\b",
    ];
    for p in paths.iter() {
        let expected = Path::new(p).file_name().map(|n| n.to_str().unwrap().to_string());
        assert_eq!(file_name(p), expected, "file name of {:?}", p);
        let expected = Path::new(p).parent().map(|n| n.to_str().unwrap().to_string());
        assert_eq!(parent(p), expected, "parent of {:?}", p);
        for q in paths.iter() {
            let expected = Path::new(p).join(q).to_str().unwrap().to_string();
            assert_eq!(join(p, q), expected, "{:?} joined with {:?}", p, q);
        }
    }
}

#[test]
fn a_joined_name_is_the_file_name() {
    let joined = join("/opt/share", "app.jar");
    assert_eq!(joined, "/opt/share/app.jar");
    assert_eq!(file_name(&joined).as_deref(), Some("app.jar"));
    assert_eq!(parent(&joined).as_deref(), Some("/opt/share"));
}

// ---------------------------------------------------------------------------
// Words and lines
// ---------------------------------------------------------------------------

#[test]
fn white_space_is_that_of_unicode() {
    for code in 0u32..0x110000 {
        if let Some(c) = char::from_u32(code) {
            assert_eq!(is_whitespace(c), c.is_whitespace(), "{:?}", c);
        }
    }
}

#[test]
fn texts_and_characters() {
    let s = "a\u{e9}\u{1f600}\n";
    let chars = chars_of(s);
    assert_eq!(chars, vec!['a', '\u{e9}', '\u{1f600}', '\n']);
    assert_eq!(text_of(&chars), s);
}

#[test]
fn lines_are_those_of_std() {
    let texts = [
        "", "\n", "\r\n", "a", "a\n", "a\nb", "a\r\nb\r\n", "a\r", "\r", "a\n\nb\n\n", "a\rb\n",
        "\n\r", "a\r\r\n",
    ];
    for t in texts.iter() {
        let expected: Vec<Vec<char>> = t.lines().map(|l| l.chars().collect()).collect();
        assert_eq!(split_lines(&chars_of(t)), expected, "lines of {:?}", t);
    }
}

#[test]
fn trimming_and_replacing_are_those_of_std() {
    for t in ["", "  ", " a b ", "\u{3000}x\u{85}", "\t\n", "a"].iter() {
        assert_eq!(text_of(trimmed(&chars_of(t))), t.trim());
    }
    for (s, pat, with) in [
        ("aaa", "aa", "b"),
        ("", "a", "b"),
        ("abcabc", "bc", ""),
        ("a$b$", "$", "$$"),
        ("x", "xyz", "w"),
    ]
    .iter()
    {
        let r = replaced(&chars_of(s), &chars_of(pat), &chars_of(with));
        assert_eq!(text_of(&r), s.replace(pat, with));
    }
}

// ---------------------------------------------------------------------------
// References to jars
// ---------------------------------------------------------------------------

#[test]
fn alias_values() {
    assert_eq!(alias_value("foo='java -jar x.jar'", "foo"), "java -jar x.jar");
    assert_eq!(alias_value("alias foo='java -jar x.jar'", "foo"), "java -jar x.jar");
    assert_eq!(alias_value("foo=\"java -jar x.jar\"", "foo"), "java -jar x.jar");
}

#[test]
fn alias_values_without_a_definition() {
    assert_eq!(alias_value("java -jar x.jar", "foo"), "java -jar x.jar");
    assert_eq!(alias_value("foo=java", "foo"), "java");
    assert_eq!(alias_value("bar='x'", "foo"), "bar='x'");
    assert_eq!(alias_value("", ""), "");
}

#[test]
fn alias_line_is_the_first_with_the_name() {
    assert_eq!(
        alias_line("\n  motd\n  foo='x' \nfoo='y'\n", "foo").as_deref(),
        Some("foo='x'")
    );
    assert_eq!(alias_line("\n \n", "foo"), None);
    assert_eq!(alias_line("bar='x'", "foo"), None);
    assert_eq!(alias_line("\n\nfirst\n", "").as_deref(), Some("first"));
}

#[test]
fn collect_candidates_finds_paths_and_names() {
    let text = "exec java -jar \"/opt/share/app.jar\" \"$@\"";
    assert_eq!(collect_jar_candidates(text), vec!["/opt/share/app.jar"]);

    let py = "JAR_NAME = 'fgbio.jar'\nPKG_NAME = 'fgbio'\n";
    assert_eq!(collect_jar_candidates(py), vec!["fgbio.jar"]);
}

#[test]
fn collect_jar_candidates_skips_lookalikes_and_dedupes() {
    assert_eq!(
        collect_jar_candidates("see config.jarx and app.jar plus app.jar"),
        vec!["app.jar"]
    );
}

#[test]
fn collect_jar_candidates_at_the_edges() {
    assert_eq!(collect_jar_candidates(""), Vec::<String>::new());
    assert_eq!(collect_jar_candidates(".jar"), vec![".jar"]);
    assert_eq!(collect_jar_candidates("a.JAR."), vec!["a.JAR"]);
    assert_eq!(collect_jar_candidates("a\u{7f}b.jar"), vec!["b.jar"]);
    assert_eq!(collect_jar_candidates("a.jar.jar"), vec!["a.jar", "a.jar.jar"]);
    assert_eq!(collect_jar_candidates("\u{e9}x.jar\u{e9}"), Vec::<String>::new());
    assert_eq!(collect_jar_candidates("\u{e9}x.jar"), vec!["x.jar"]);
    assert_eq!(collect_jar_candidates("b.jar:a.jar;b.jar"), vec!["b.jar", "a.jar"]);
    assert_eq!(collect_jar_candidates(".jar.jar.jarx"), vec![".jar", ".jar.jar"]);
}

#[test]
fn a_lone_token_is_its_own_candidate() {
    assert_eq!(collect_jar_candidates("$PREFIX/lib/Tool-1.0.Jar"), vec!["$PREFIX/lib/Tool-1.0.Jar"]);
}

#[test]
fn delimiters_and_token_characters() {
    let delimiters = " \t\n\r'\"=()[]{},;`<>|&:";
    for code in 0u8..=255 {
        let c = code as char;
        let delim = delimiters.contains(c);
        assert_eq!(is_delim(c), delim, "{:?}", c);
        assert_eq!(is_token_char(c), (0x21..0x7f).contains(&code) && !delim, "{:?}", c);
    }
}

#[test]
fn assignment_values_parse() {
    let py = "JAR_NAME = 'fgbio.jar'\nPKG_NAME = \"fgbio\"\n";
    assert_eq!(assignment_value(py, "JAR_NAME").as_deref(), Some("fgbio.jar"));
    assert_eq!(assignment_value(py, "PKG_NAME").as_deref(), Some("fgbio"));
    assert_eq!(assignment_value(py, "MISSING"), None);
}

#[test]
fn assignment_value_rejects_near_misses() {
    assert_eq!(assignment_value("JAR_NAMESPACE = 'x'\n", "JAR_NAME"), None);
    assert_eq!(assignment_value("JAR_NAME something\n", "JAR_NAME"), None);
    assert_eq!(assignment_value("JAR_NAME = ''\n", "JAR_NAME"), None);
}

#[test]
fn assignment_value_goes_on_to_the_next_line() {
    assert_eq!(
        assignment_value("JAR_NAME = ''\n  JAR_NAME=tool.jar # here\n", "JAR_NAME").as_deref(),
        Some("tool.jar")
    );
    assert_eq!(assignment_value("JAR_NAME", "JAR_NAME"), None);
    assert_eq!(assignment_value("JAR_NAME = 'a b'", "JAR_NAME").as_deref(), Some("a b"));
    assert_eq!(
        assignment_value("JAR_NAME = 'my app.jar'\n", "JAR_NAME").as_deref(),
        Some("my app.jar")
    );
    assert_eq!(assignment_value("JAR_NAME=a b", "JAR_NAME").as_deref(), Some("a"));
    assert_eq!(assignment_value("JAR_NAME = '  '", "JAR_NAME").as_deref(), Some("  "));
}

#[test]
fn strip_outer_quotes_passthrough_without_a_matching_pair() {
    assert_eq!(strip_outer_quotes("bare"), "bare");
    assert_eq!(strip_outer_quotes("'quoted'"), "quoted");
    assert_eq!(strip_outer_quotes("\"mismatch'"), "\"mismatch'");
}

#[test]
fn strip_outer_quotes_takes_one_layer() {
    assert_eq!(strip_outer_quotes("  \"'x'\" "), "'x'");
    assert_eq!(strip_outer_quotes("''"), "");
    assert_eq!(strip_outer_quotes("'"), "'");
    assert_eq!(strip_outer_quotes("'\u{e9}'"), "\u{e9}");
}

#[test]
fn the_jar_behind_the_flag() {
    assert_eq!(jar_launched_by("exec java -jar app.jar").as_deref(), Some("app.jar"));
    assert_eq!(
        jar_launched_by("  java -Xmx1g -jar \"/my tools/app.jar\" \"$@\"").as_deref(),
        Some("/my tools/app.jar")
    );
    assert_eq!(jar_launched_by("java -jar app.zip"), None);
    assert_eq!(jar_launched_by("java -jar"), None);
    assert_eq!(jar_launched_by("java app.jar"), None);
    assert_eq!(jar_launched_by("java -jar \"app.jar"), None);
    assert_eq!(jar_launched_by("# java -jar app.jar"), None);
    assert_eq!(jar_launched_by("java -jar a.txt -jar b.jar"), None);
}

// ---------------------------------------------------------------------------
// Expansion
// ---------------------------------------------------------------------------

#[test]
fn expand_env_substitutes_and_drops() {
    let env = environment(&[("MAGICJAR_TEST_VAR", "/abc")]);
    assert_eq!(expand_env("$MAGICJAR_TEST_VAR/x.jar", &env), "/abc/x.jar");
    assert_eq!(expand_env("${MAGICJAR_TEST_VAR}/x.jar", &env), "/abc/x.jar");
    assert_eq!(expand_env("$MAGICJAR_UNSET_VAR/x.jar", &env), "/x.jar");
    assert_eq!(expand_env("no vars here", &env), "no vars here");
}

#[test]
fn expand_env_handles_invalid_and_bare_dollars() {
    let env = no_environment();
    // `${...}` with an invalid identifier is left intact.
    assert_eq!(expand_env("${1bad}/x.jar", &env), "${1bad}/x.jar");
    // `${` with no closing brace is left intact.
    assert_eq!(expand_env("${unclosed", &env), "${unclosed");
    // A bare `$` before a non-identifier character is kept verbatim.
    assert_eq!(expand_env("cost is $/5", &env), "cost is $/5");
    assert_eq!(expand_env("trailing $", &env), "trailing $");
}

#[test]
fn expand_env_is_not_applied_to_values() {
    let env = environment(&[("A", "$B"), ("B", "b"), ("1", "one")]);
    assert_eq!(expand_env("$A${B}c$1", &env), "$Bbcone");
    assert_eq!(expand_env("$$A", &env), "$$B");
    assert_eq!(expand_env("$Bx-$B-x", &env), "-b-x");
}

#[test]
fn the_first_of_two_values_counts() {
    let env = environment(&[("A", "1"), ("A", "2")]);
    assert_eq!(env.get("A"), Some("1"));
    assert_eq!(env.get("B"), None);
}

#[test]
fn variable_names() {
    assert!(is_var_name("HOME"));
    assert!(is_var_name("_x9"));
    assert!(!is_var_name(""));
    assert!(!is_var_name("9x"));
    assert!(!is_var_name("a-b"));
    assert!(!is_var_name("\u{e9}"));
}

#[test]
fn expand_substitutes_script_dir() {
    let base = "/envs/x/bin";
    let env = no_environment();
    assert_eq!(
        expand("$(dirname \"$0\")/../share/a.jar", base, None, &env),
        "/envs/x/bin/../share/a.jar"
    );
    assert_eq!(expand("${0%/*}/a.jar", base, None, &env), "/envs/x/bin/a.jar");
}

#[test]
fn every_form_of_the_script_dir_is_substituted() {
    let env = no_environment();
    let forms = [
        "$(cd \"$(dirname \"$0\")\" && pwd)",
        "$(dirname \"$0\")",
        "$(dirname $0)",
        "${0%/*}",
        "$SCRIPTPATH",
        "${SCRIPTPATH}",
        "$SCRIPT_DIR",
        "${SCRIPT_DIR}",
        "$DIR",
        "${DIR}",
        "$HERE",
        "${HERE}",
        "$here",
        "${here}",
    ];
    for form in forms.iter() {
        assert_eq!(expand(&format!("{}/a.jar", form), "/b", None, &env), "/b/a.jar");
    }
}

#[test]
fn a_longer_name_is_another_variable() {
    let env = environment(&[("DIRECTORY", "/opt"), ("PREFIXES", "/q"), ("HERE2", "/h")]);
    assert_eq!(expand("$DIRECTORY/a.jar", "/b", None, &env), "/opt/a.jar");
    assert_eq!(expand("${DIRECTORY}/a.jar", "/b", None, &env), "/opt/a.jar");
    assert_eq!(expand("x/$HERE2/a.jar", "/b", None, &env), "x//h/a.jar");
    assert_eq!(expand("$PREFIXES/a.jar", "/b", Some("/p"), &env), "/q/a.jar");
    for name in ["SCRIPTPATH", "SCRIPT_DIR", "DIR", "HERE", "here", "PREFIX", "CONDA_PREFIX"].iter() {
        let token = format!("${}_X/a.jar", name);
        assert_eq!(expand(&token, "/b", Some("/p"), &env), "/a.jar");
        let env = environment(&[(&format!("{}_X", name), "/v")]);
        assert_eq!(expand(&token, "/b", Some("/p"), &env), "/v/a.jar");
        assert_ne!(expand(&format!("${}-X", name), "/b", Some("/p"), &env), "-X");
    }
    assert_eq!(expand("$DIRS$DIR", "/b", None, &env), "/b");
}

#[test]
fn expand_tilde_uses_home() {
    let env = environment(&[("HOME", "/home/testuser")]);
    let expanded = expand("~/tools/app.jar", "/base", None, &env);
    assert_eq!(expanded, "/home/testuser/tools/app.jar");
}

#[test]
fn expand_leaves_other_tildes() {
    let env = environment(&[("HOME", "/home/testuser")]);
    assert_eq!(expand("~user/app.jar", "/base", None, &env), "~user/app.jar");
    assert_eq!(expand("x~/app.jar", "/base", None, &env), "x~/app.jar");
    assert_eq!(expand("~/app.jar", "/base", None, &no_environment()), "~/app.jar");
}

#[test]
fn expand_falls_back_on_the_prefix() {
    let unset = no_environment();
    for form in ["$PREFIX", "${PREFIX}", "$CONDA_PREFIX", "${CONDA_PREFIX}"].iter() {
        let token = format!("{}/lib/a.jar", form);
        assert_eq!(expand(&token, "/p/bin", Some("/p"), &unset), "/p/lib/a.jar");
        assert_eq!(expand(&token, "/p/bin", None, &unset), "/lib/a.jar");
    }
    let set = environment(&[("PREFIX", "/q"), ("CONDA_PREFIX", "/r")]);
    assert_eq!(expand("$PREFIX/a.jar", "/p/bin", Some("/p"), &set), "/q/a.jar");
    assert_eq!(expand("${CONDA_PREFIX}/a.jar", "/p/bin", Some("/p"), &set), "/r/a.jar");
}

#[test]
fn expand_keeps_a_plain_path() {
    let env = environment(&[("HOME", "/h"), ("A", "b")]);
    assert_eq!(expand("/opt/share/app.jar", "/b", Some("/p"), &env), "/opt/share/app.jar");
}

// ---------------------------------------------------------------------------
// The preamble
// ---------------------------------------------------------------------------

#[test]
fn build_preamble_defaults_include_all_three() {
    let preamble = build_preamble(&PreambleOptions::default()).unwrap();
    assert!(preamble.contains("-Xms512m"));
    assert!(preamble.contains("export MALLOC_ARENA_MAX=4"));
    assert!(preamble.contains(MAGICJAR_MARKER));
    assert!(!preamble.contains("@DEFAULT_MEM_OPTS@"));
    assert!(!preamble.contains("@MALLOC_BLOCK@"));
}

#[test]
fn build_preamble_can_disable_malloc_and_heap() {
    let preamble = build_preamble(&PreambleOptions {
        malloc_arena_max: false,
        default_jvm_opts: String::new(),
    })
    .unwrap();
    assert!(!preamble.contains("MALLOC_ARENA_MAX"));
    assert!(!preamble.contains("-Xms512m"));
    assert!(preamble.contains("DEFAULT_MEM_OPTS=()"));
    // The marker is always present, regardless of options.
    assert!(preamble.contains(MAGICJAR_MARKER));
}

#[test]
fn build_preamble_can_customize_heap() {
    let preamble = build_preamble(&PreambleOptions {
        malloc_arena_max: true,
        default_jvm_opts: "-Xms1g -XX:+UseZGC".to_string(),
    })
    .unwrap();
    assert!(preamble.contains("-Xms1g"));
    assert!(preamble.contains("-XX:+UseZGC"));
    assert!(!preamble.contains("-Xms512m"));
}

#[test]
fn preamble_exposes_a_jar_named_handle_for_bare_names() {
    let preamble = build_preamble(&PreambleOptions::default()).unwrap();
    // Fast path: a name already ending in .jar execs the JVM directly.
    assert!(preamble.contains(r#"exec java $JAVA_OPTS "${JVM_OPTS[@]}" -jar "$0""#));
    // Bare names get a .jar-suffixed handle (hardlink, else copy) first, so
    // reflections-based tools (e.g. GATK) can recognize the classpath entry.
    assert!(preamble.contains("mktemp -d"));
    assert!(preamble.contains(r#"$(basename "$0").jar"#));
    assert!(preamble.contains(r#"ln "$0" "$MAGICJAR_JAR""#));
    assert!(preamble.contains(r#"cp "$0" "$MAGICJAR_JAR""#));
}

#[test]
fn build_preamble_rejects_malformed_jvm_opts() {
    let err = build_preamble(&PreambleOptions {
        malloc_arena_max: true,
        default_jvm_opts: "\"unterminated".to_string(),
    })
    .unwrap_err();
    assert!(err.message().contains("invalid --default-jvm-opts"));
    assert_eq!(
        err.message(),
        "invalid --default-jvm-opts: \"unterminated: missing closing quote"
    );
}

#[test]
fn build_preamble_quotes_each_option() {
    let preamble = build_preamble(&PreambleOptions {
        malloc_arena_max: true,
        default_jvm_opts: " -Xms1g '-Da=b c' \"-Dq=it's\" '' -Xint ".to_string(),
    })
    .unwrap();
    assert!(preamble.contains("DEFAULT_MEM_OPTS=(-Xms1g '-Da=b c' '-Dq=it'\\''s' '' -Xint)\n"));
}

#[test]
fn the_options_read_back_as_the_same_words() {
    let given = ["-Xms1g", "-Da=b c", "it's", "", "#x", "a\nb", "-Demail=a@b", "\\"];
    let preamble = render_preamble(&words(&given), false);
    let start = preamble.find("DEFAULT_MEM_OPTS=(").unwrap() + "DEFAULT_MEM_OPTS=(".len();
    let end = start + preamble[start..].find(")\n\nfor ARG").unwrap();
    assert_eq!(shell_words::split(&preamble[start..end]).unwrap(), given);
}

#[test]
fn build_preamble_takes_blank_options_for_none() {
    let blank = build_preamble(&PreambleOptions {
        malloc_arena_max: true,
        default_jvm_opts: " \t\n\u{3000}".to_string(),
    })
    .unwrap();
    assert_eq!(blank, render_preamble(&Vec::new(), true));
    assert!(blank.contains("DEFAULT_MEM_OPTS=()\n"));
}

#[test]
fn every_preamble_begins_with_the_marker() {
    let head = format!("{}{}", PREAMBLE_START, MAGICJAR_MARKER);
    assert_eq!(head, "#!/usr/bin/env bash\n# magicjar:self-executing-jar");
    for malloc in [true, false].iter() {
        for options in [words(&[]), words(&["@MALLOC_BLOCK@", "@DEFAULT_MEM_OPTS@"])].iter() {
            assert!(render_preamble(options, *malloc).starts_with(&head));
        }
    }
}

#[test]
fn the_malloc_block_stands_in_its_place() {
    let with = render_preamble(&words(&["-Xint"]), true);
    let without = render_preamble(&words(&["-Xint"]), false);
    assert_eq!(with.replace(MALLOC_BLOCK, ""), without);
    assert!(with.contains(&format!("fi\n\n{}\n#", MALLOC_BLOCK)));
    assert!(without.contains("fi\n\n\n#"));
}

#[test]
fn the_preamble_is_made_of_its_parts() {
    let parts = |options: &str, malloc: &str| {
        format!(
            "{}{}{}{}{}{}{}",
            PREAMBLE_START,
            MAGICJAR_MARKER,
            PREAMBLE_OPTIONS,
            options,
            PREAMBLE_SORT,
            malloc,
            PREAMBLE_LAUNCH
        )
    };
    let words = words(&["-Xint", "-Da=b c"]);
    assert_eq!(render_preamble(&words, true), parts("-Xint '-Da=b c'", MALLOC_BLOCK));
    assert_eq!(render_preamble(&words, false), parts("-Xint '-Da=b c'", ""));
    assert!(!render_preamble(&words, false).contains("MALLOC_ARENA_MAX"));
    let email = PreambleOptions {
        malloc_arena_max: true,
        default_jvm_opts: "-Demail=a@b".to_string(),
    };
    assert_eq!(build_preamble(&email).unwrap(), parts("'-Demail=a@b'", MALLOC_BLOCK));
}

#[test]
fn an_option_that_looks_like_a_place_is_filled_in_too() {
    let preamble = render_preamble(&words(&["@MALLOC_BLOCK@"]), true);
    assert!(preamble.contains(&format!("DEFAULT_MEM_OPTS=({})", MALLOC_BLOCK)));
}

#[test]
fn the_preamble_honors_magicjar_java() {
    let preamble = render_preamble(&Vec::new(), true);
    assert!(preamble.contains("MAGICJAR_JAVA"));
}

// ---------------------------------------------------------------------------
// Bytes
// ---------------------------------------------------------------------------

#[test]
fn contains_subslice_empty_needle_is_true() {
    assert!(contains_subslice(b"anything", b""));
    assert!(!contains_subslice(b"abc", b"xyz"));
}

#[test]
fn contains_subslice_at_the_edges() {
    assert!(contains_subslice(b"", b""));
    assert!(!contains_subslice(b"", b"a"));
    assert!(contains_subslice(b"abc", b"abc"));
    assert!(contains_subslice(b"aab", b"ab"));
    assert!(contains_subslice(b"abx", b"ab"));
    assert!(!contains_subslice(b"ab", b"abc"));
}

#[test]
fn text_heads() {
    assert_eq!(read_text_head(Some(b"#!/bin/sh\n".to_vec())).as_deref(), Some("#!/bin/sh\n"));
    assert_eq!(read_text_head(Some("\u{e9}\u{1f600}".as_bytes().to_vec())).as_deref(), Some("\u{e9}\u{1f600}"));
    assert_eq!(read_text_head(Some(Vec::new())).as_deref(), Some(""));
    assert_eq!(read_text_head(Some(b"a\0b".to_vec())), None);
    assert_eq!(read_text_head(Some(vec![0xff, 0x41])), None);
    assert_eq!(read_text_head(None), None);
}

#[test]
fn zip_starts() {
    assert!(looks_like_jar("noext", Some(b"PK\x03\x04")));
    assert!(looks_like_jar("noext", Some(b"PK\x05\x06")));
    assert!(looks_like_jar("noext", Some(b"PK\x07\x08")));
    assert!(!looks_like_jar("noext", Some(b"PK\x03\x06")));
    assert!(!looks_like_jar("noext", Some(b"PK\x03")));
    assert!(!looks_like_jar("noext", None));
    assert!(looks_like_jar("x.JAR", None));
}

#[test]
fn the_marker_is_found_anywhere_in_the_head() {
    assert!(is_already_magicked(Some(b"x magicjar:self-executing-jar")));
    assert!(!is_already_magicked(Some(b"x magicjar:self-executing-ja")));
    assert!(!is_already_magicked(None));
}

#[test]
fn sources_are_validated_in_order() {
    let err = validate_source("/x.jar", Err("gone".to_string()), None).unwrap_err();
    assert_eq!(err.message(), "source jar does not exist: /x.jar: gone");
    let err = validate_source("/x.jar", Ok(false), None).unwrap_err();
    assert_eq!(err.message(), "source is not a regular file: /x.jar");
    let err = validate_source("/x", Ok(true), Some(b"text")).unwrap_err();
    assert_eq!(
        err.message(),
        "source does not look like a .jar (no .jar suffix or ZIP magic): /x"
    );
    assert!(validate_source("/x", Ok(true), Some(b"PK\x03\x04")).is_ok());
}

// ---------------------------------------------------------------------------
// Messages
// ---------------------------------------------------------------------------

#[test]
fn messages() {
    let t = |s: &str| s.to_string();
    let cases: Vec<(Error, &str)> = vec![
        (
            ErrorOf::CannotResolve { input: t("in"), cause: t("why") },
            "cannot resolve path: in: why",
        ),
        (
            ErrorOf::AlreadyWrapped { path: t("/p") },
            "/p is already a magicjar self-executing file; pass the original .jar instead",
        ),
        (
            ErrorOf::NotJarNorWrapper { path: t("/p") },
            "/p is neither a .jar nor a text wrapper script that references one",
        ),
        (
            ErrorOf::WrapperUnresolved { script: t("/p") },
            "could not find the .jar referenced by wrapper script /p: no resolvable .jar reference found",
        ),
        (
            ErrorOf::ShellFailed { name: t("n"), shell: t("/sh"), cause: t("why") },
            "no file 'n', and failed to run /sh to look up an alias: why",
        ),
        (ErrorOf::NoSuchAlias { name: t("n") }, "no file or shell alias named 'n'"),
        (
            ErrorOf::AliasUnresolved { name: t("n"), line: t("n='x'") },
            "shell alias 'n' does not resolve to a .jar: n='x': no resolvable .jar reference found",
        ),
        (
            ErrorOf::SourceMissing { path: t("/p"), cause: t("why") },
            "source jar does not exist: /p: why",
        ),
        (ErrorOf::SourceNotRegular { path: t("/p") }, "source is not a regular file: /p"),
        (
            ErrorOf::SourceNotJar { path: t("/p") },
            "source does not look like a .jar (no .jar suffix or ZIP magic): /p",
        ),
        (
            ErrorOf::InvalidJvmOpts { options: t("\""), cause: t("why") },
            "invalid --default-jvm-opts: \": why",
        ),
        (ErrorOf::OutputIsDirectory { output: t("o") }, "output path is a directory: o"),
        (ErrorOf::SameFile { output: t("o") }, "input and output are the same file: o"),
        (ErrorOf::OutputExists { output: t("o") }, "o already exists (use --force to overwrite)"),
    ];
    for (error, message) in cases.iter() {
        assert_eq!(error.message(), *message);
    }
}

#[test]
fn messages_of_failed_writes() {
    let cases = vec![
        (WriteStage::OpenSource, "cannot open source jar: s: why"),
        (WriteStage::CreateOutput, "cannot create output: o: why"),
        (WriteStage::WritePreamble, "failed writing preamble to o: why"),
        (WriteStage::AppendJar, "failed appending jar to o: why"),
        (WriteStage::Flush, "why"),
        (WriteStage::ReadMode, "why"),
        (WriteStage::SetMode, "failed to chmod o: why"),
    ];
    for (stage, message) in cases.iter() {
        let error: Error = ErrorOf::WriteFailed {
            stage: *stage,
            source: "s".to_string(),
            output: "o".to_string(),
            cause: "why".to_string(),
        };
        assert_eq!(error.message(), *message);
    }
}
