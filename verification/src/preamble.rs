//! The shell preamble: its text, its options, and the marker by which a file that
//! carries it is known again.
use vstd::prelude::*;
use crate::error::{Error, ErrorOf};
use crate::layout;
use crate::shell;
use crate::text;

verus! {

// ---------------------------------------------------------------------------
// The text
// ---------------------------------------------------------------------------
/// What a preamble begins with, before the marker.
pub const PREAMBLE_START: &'static str = "#!/usr/bin/env bash\n# ";

/// Marker embedded in every generated preamble. Used to detect, and refuse, a
/// file that has been wrapped already.
pub const MAGICJAR_MARKER: &'static str = "magicjar:self-executing-jar";

/// What follows the marker, up to the default JVM options.
pub const PREAMBLE_OPTIONS: &'static str = r#" (https://github.com/clintval/magicjar)
set -e

# Sort caller arguments into JVM options vs program arguments. Anything that
# looks like a JVM flag (a -D system property, or any -X / -XX non-standard or
# advanced option: -Xmx4g, -Xss8m, -Xint, -XX:+UseZGC, ...) goes to the JVM;
# everything else passes through to the program. General purpose: callers tune
# the JVM and drive the app from one CLI.
JVM_OPTS=()
PASS_ARGS=()
USER_SET_MEM=0
DEFAULT_MEM_OPTS=("#;

/// Where the default JVM options stand in the template.
pub const OPTIONS_PLACE: &'static str = "@DEFAULT_MEM_OPTS@";

/// What follows the default JVM options, up to the malloc block.
pub const PREAMBLE_SORT: &'static str = r#")

for ARG in "$@"; do
  case $ARG in
    -D* | -X*)
      JVM_OPTS+=("$ARG")
      case $ARG in
        -Xms* | -Xmx* | -Xmn* | -XX:+AggressiveHeap) USER_SET_MEM=1;;
      esac
      ;;
    *)
      PASS_ARGS+=("$ARG");;
  esac
done

# Apply the default memory options only when the caller expressed no heap
# preference of their own (via _JAVA_OPTIONS, JAVA_OPTS, or a -Xms/-Xmx/-Xmn/
# -XX:+AggressiveHeap flag above).
if [ -z "${_JAVA_OPTIONS}" ] && [ -z "${JAVA_OPTS}" ] && [ "$USER_SET_MEM" -eq 0 ]; then
  JVM_OPTS=("${DEFAULT_MEM_OPTS[@]}" "${JVM_OPTS[@]}")
fi

"#;

/// Where the malloc block stands in the template.
pub const MALLOC_PLACE: &'static str = "@MALLOC_BLOCK@";

/// What follows the malloc block.
pub const PREAMBLE_LAUNCH: &'static str = r#"
# If invoked under a name ending in .jar, hand the JVM this file directly.
# Otherwise expose a .jar-named handle first: some tools (e.g. GATK) discover
# classes via libraries that only scan classpath entries ending in .jar, so a
# bare name (./tool) would make them find nothing. Prefer a hardlink; fall back
# to a copy when the temporary directory is on another filesystem. The JVM is
# the one that MAGICJAR_JAVA names, or else the java on the PATH.
case "$0" in
  *.jar)
    if [ -n "${MAGICJAR_JAVA}" ]; then
      exec "$MAGICJAR_JAVA" $JAVA_OPTS "${JVM_OPTS[@]}" -jar "$0" "${PASS_ARGS[@]}"
    fi
    exec java $JAVA_OPTS "${JVM_OPTS[@]}" -jar "$0" "${PASS_ARGS[@]}"
    ;;
esac
MAGICJAR_TMPDIR="$(mktemp -d)"
trap 'rm -rf "$MAGICJAR_TMPDIR"' EXIT
MAGICJAR_JAR="$MAGICJAR_TMPDIR/$(basename "$0").jar"
# Materialize a real .jar-named file. When invoked through a symlink (e.g. a
# workflow engine staging this file into a task dir), copy so we dereference to
# a real .jar the JVM sees as .jar; a hardlink would just relink the symlink and
# resolve back to its bare-named target. For a real file, a hardlink is cheap.
if [ -L "$0" ]; then
  cp "$0" "$MAGICJAR_JAR"
else
  ln "$0" "$MAGICJAR_JAR" 2>/dev/null || cp "$0" "$MAGICJAR_JAR"
fi
"${MAGICJAR_JAVA:-java}" $JAVA_OPTS "${JVM_OPTS[@]}" -jar "$MAGICJAR_JAR" "${PASS_ARGS[@]}"
exit
"#;

/// The glibc arena-limiting block, present unless disabled. Constrains
/// `MALLOC_ARENA_MAX` so the JVM's virtual memory does not balloon with CPU count.
pub const MALLOC_BLOCK: &'static str = r#"# If not already set to some value, set MALLOC_ARENA_MAX to constrain the number of memory pools (arenas) used
# by glibc to a reasonable number. The default behaviour is to scale with the number of CPUs, which can cause
# VIRTUAL memory usage to be ~0.5GB per cpu core in the system, e.g. 32GB of a 64-core machine even when the
# heap and resident memory are only 1-4GB! See the following link for more discussion:
# https://www.ibm.com/developerworks/community/blogs/kevgrig/entry/linux_glibc_2_10_rhel_6_malloc_may_show_excessive_virtual_memory_usage?lang=en
if [ -z "${MALLOC_ARENA_MAX}" ]; then export MALLOC_ARENA_MAX=4; fi"#;

/// What follows the marker in the preamble, before the two places in it are filled
/// in by [`build_preamble`].
pub open spec fn body() -> Seq<char> {
    PREAMBLE_OPTIONS@ + OPTIONS_PLACE@ + PREAMBLE_SORT@ + MALLOC_PLACE@ + PREAMBLE_LAUNCH@
}

/// The preamble before the two places in it are filled in.
pub open spec fn template() -> Seq<char> {
    PREAMBLE_START@ + MAGICJAR_MARKER@ + body()
}

// ---------------------------------------------------------------------------
// Options
// ---------------------------------------------------------------------------
/// The opinionated runtime defaults baked into the generated preamble.
///
/// All are enabled by default. The CLI can turn the malloc block off and clear
/// or customize the heap options.
#[derive(Debug, Clone)]
pub struct PreambleOptions {
    /// Put in the `MALLOC_ARENA_MAX` glibc arena-limiting block.
    pub malloc_arena_max: bool,
    /// JVM options applied only when the caller sets no heap preference; empty
    /// means none. Default: `-Xms512m -XX:+AggressiveHeap`.
    pub default_jvm_opts: String,
}

impl Default for PreambleOptions {
    fn default() -> (r: PreambleOptions)
        ensures
            r.malloc_arena_max,
            r.default_jvm_opts@ == "-Xms512m -XX:+AggressiveHeap"@,
    {
        PreambleOptions {
            malloc_arena_max: true,
            default_jvm_opts: "-Xms512m -XX:+AggressiveHeap".to_owned(),
        }
    }
}

/// The words of the JVM options `options`, or `None` where they hold a quote that
/// is not closed.
pub open spec fn option_words(options: Seq<char>) -> Option<Seq<Seq<char>>> {
    if text::trim(options).len() == 0 {
        Some(Seq::empty())
    } else {
        shell::shell_split(options)
    }
}

/// `words`, each written as a shell reads it literally, with blanks between them.
pub open spec fn quoted_words(words: Seq<Seq<char>>) -> Seq<char>
    decreases words.len(),
{
    if words.len() == 0 {
        Seq::empty()
    } else if words.len() == 1 {
        shell::quoted(words[0])
    } else {
        quoted_words(words.drop_last()) + " "@ + shell::quoted(words.last())
    }
}

/// The malloc block, or nothing.
pub open spec fn malloc_text(malloc_arena_max: bool) -> Seq<char> {
    if malloc_arena_max {
        MALLOC_BLOCK@
    } else {
        Seq::empty()
    }
}

/// The preamble for the JVM options `words`, with or without the malloc block.
pub open spec fn preamble_text(words: Seq<Seq<char>>, malloc_arena_max: bool) -> Seq<char> {
    text::replace_all(
        text::replace_all(template(), OPTIONS_PLACE@, quoted_words(words)),
        MALLOC_PLACE@,
        malloc_text(malloc_arena_max),
    )
}

/// Whether `word`, once it is quoted, is read as that one word, by itself or with
/// other words behind it.
spec fn reads_back(word: Seq<char>) -> bool {
    &&& shell::shell_split(shell::quoted(word)) == Some(seq![word])
    &&& forall|rest: Seq<char>|
        #![trigger shell::shell_split(shell::quoted(word) + " "@ + rest)]
        shell::shell_split(shell::quoted(word) + " "@ + rest) == shell::and_then_words(
            word,
            shell::shell_split(rest),
        )
}

/// The first of several words is quoted first.
proof fn lemma_quoted_first(words: Seq<Seq<char>>)
    requires
        words.len() > 1,
    ensures
        quoted_words(words) == shell::quoted(words[0]) + " "@ + quoted_words(words.drop_first()),
    decreases words.len(),
{
    let init = words.drop_last();
    let rest = words.drop_first();
    if words.len() == 2 {
        assert(init[0] == words[0]);
        assert(rest[0] == words[1]);
        assert(quoted_words(init) == shell::quoted(words[0]));
        assert(quoted_words(rest) == shell::quoted(words[1]));
    } else {
        lemma_quoted_first(init);
        assert(init.drop_first() =~= rest.drop_last());
        assert(rest.last() == words.last());
        assert(quoted_words(words) =~= shell::quoted(words[0]) + " "@ + quoted_words(rest));
    }
}

/// Words that are read back one by one are read back together.
proof fn lemma_words_read_back(words: Seq<Seq<char>>)
    requires
        words.len() > 0,
        forall|i: int| 0 <= i < words.len() ==> reads_back(#[trigger] words[i]),
    ensures
        shell::shell_split(quoted_words(words)) == Some(words),
    decreases words.len(),
{
    assert(reads_back(words[0]));
    if words.len() == 1 {
        assert(seq![words[0]] =~= words);
    } else {
        let rest = words.drop_first();
        assert forall|i: int| 0 <= i < rest.len() implies reads_back(#[trigger] rest[i]) by {
            assert(rest[i] == words[i + 1]);
        }
        lemma_words_read_back(rest);
        lemma_quoted_first(words);
        assert(seq![words[0]] + rest =~= words);
    }
}

/// `words`, each quoted, with blanks between them. A shell reads them back.
fn quote_words(words: &Vec<String>) -> (r: Vec<char>)
    ensures
        r@ == quoted_words(text::strings(words@)),
        words@.len() > 0 ==> shell::shell_split(r@) == Some(text::strings(words@)),
{
    let ghost all = text::strings(words@);
    let blank: Vec<char> = text::chars_of(" ");
    let mut out: Vec<char> = Vec::new();
    let mut i: usize = 0;
    assert(all.take(0) =~= Seq::empty());
    while i < words.len()
        invariant
            i <= words@.len(),
            all == text::strings(words@),
            blank@ == " "@,
            out@ == quoted_words(all.take(i as int)),
            forall|j: int| 0 <= j < i ==> reads_back(#[trigger] all[j]),
        decreases words@.len() - i,
    {
        proof {
            assert(all.take(i + 1).drop_last() == all.take(i as int));
            assert(all.take(i + 1).last() == words@[i as int]@);
        }
        let shown: String = shell::quote_word(words[i].as_str());
        assert(reads_back(all[i as int]));
        let word: Vec<char> = text::chars_of(shown.as_str());
        if i > 0 {
            text::push_all(&mut out, blank.as_slice());
        }
        text::push_all(&mut out, word.as_slice());
        i = i + 1;
    }
    assert(all.take(words@.len() as int) == all);
    proof {
        if words@.len() > 0 {
            lemma_words_read_back(all);
        }
    }
    out
}

/// The preamble for the JVM options `words`, with or without the malloc block. A
/// shell reads the options in it as these words.
pub fn render_preamble(words: &Vec<String>, malloc_arena_max: bool) -> (r: String)
    ensures
        r@ == preamble_text(text::strings(words@), malloc_arena_max),
        words@.len() > 0 ==> shell::shell_split(quoted_words(text::strings(words@))) == Some(
            text::strings(words@),
        ),
{
    let mut whole: Vec<char> = text::chars_of(PREAMBLE_START);
    let marker: Vec<char> = text::chars_of(MAGICJAR_MARKER);
    let before_options: Vec<char> = text::chars_of(PREAMBLE_OPTIONS);
    let options_place: Vec<char> = text::chars_of(OPTIONS_PLACE);
    let before_malloc: Vec<char> = text::chars_of(PREAMBLE_SORT);
    let malloc_place: Vec<char> = text::chars_of(MALLOC_PLACE);
    let rest: Vec<char> = text::chars_of(PREAMBLE_LAUNCH);
    text::push_all(&mut whole, marker.as_slice());
    text::push_all(&mut whole, before_options.as_slice());
    text::push_all(&mut whole, options_place.as_slice());
    text::push_all(&mut whole, before_malloc.as_slice());
    text::push_all(&mut whole, malloc_place.as_slice());
    text::push_all(&mut whole, rest.as_slice());
    assert(whole@ =~= template());
    proof {
        reveal_strlit("@DEFAULT_MEM_OPTS@");
        reveal_strlit("@MALLOC_BLOCK@");
    }
    let options: Vec<char> = quote_words(words);
    let malloc: Vec<char> = if malloc_arena_max {
        text::chars_of(MALLOC_BLOCK)
    } else {
        Vec::new()
    };
    let filled: Vec<char> = text::replaced(
        whole.as_slice(),
        options_place.as_slice(),
        options.as_slice(),
    );
    text::text_of(
        text::replaced(filled.as_slice(), malloc_place.as_slice(), malloc.as_slice()).as_slice(),
    )
}

/// Builds the shell preamble for the given options.
///
/// A JAR is a ZIP archive whose central directory is read from the *end* of the
/// file, so these leading bytes are ignored by `java -jar` while `./file` runs
/// this script (which re-execs the JVM on itself).
pub fn build_preamble(options: &PreambleOptions) -> (r: Result<String, Error>)
    ensures
        match option_words(options.default_jvm_opts@) {
            Some(words) => r matches Ok(text) && text@ == preamble_text(
                words,
                options.malloc_arena_max,
            ),
            None => r matches Err(e) && e@ == (ErrorOf::InvalidJvmOpts {
                options: options.default_jvm_opts@,
                cause: "missing closing quote"@,
            }),
        },
        text::trim(options.default_jvm_opts@).len() > 0 && shell::is_plain(
            options.default_jvm_opts@,
        ) ==> (r matches Ok(text) && text@ == preamble_text(
            shell::blank_words(options.default_jvm_opts@, Seq::empty()),
            options.malloc_arena_max,
        )),
        // A shell reads the options in the preamble as the words that were given.
        option_words(options.default_jvm_opts@) matches Some(words) ==> words.len() > 0
            ==> shell::shell_split(quoted_words(words)) == Some(words),
        // Options without `@` stand in their place as they are.
        r matches Ok(text) ==> !options.default_jvm_opts@.contains('@') ==> text@
            == layout::laid_out(
            quoted_words(option_words(options.default_jvm_opts@)->0),
            malloc_text(options.malloc_arena_max),
        ),
{
    let opts: Vec<char> = text::chars_of(options.default_jvm_opts.as_str());
    if text::trimmed(opts.as_slice()).len() == 0 {
        let none: Vec<String> = Vec::new();
        assert(text::strings(none@) =~= Seq::empty());
        proof {
            layout::law_options_in_place(text::strings(none@), options.malloc_arena_max);
        }
        return Ok(render_preamble(&none, options.malloc_arena_max));
    }
    match shell_words::split(options.default_jvm_opts.as_str()) {
        Ok(words) => {
            proof {
                let all = text::strings(words@);
                if !options.default_jvm_opts@.contains('@') {
                    assert forall|i: int| 0 <= i < all.len() implies !(
                    #[trigger] all[i]).contains('@') by {
                        assert forall|j: int| 0 <= j < all[i].len() implies all[i][j] != '@' by {
                            assert(options.default_jvm_opts@.contains(words@[i]@[j]));
                        }
                    }
                    layout::law_options_in_place(all, options.malloc_arena_max);
                }
            }
            Ok(render_preamble(&words, options.malloc_arena_max))
        },
        Err(e) => Err(
            ErrorOf::InvalidJvmOpts {
                options: options.default_jvm_opts.clone(),
                cause: shell::parse_error_text(&e),
            },
        ),
    }
}

// ---------------------------------------------------------------------------
// Laws
// ---------------------------------------------------------------------------
/// What every preamble begins with: the first line and the marker.
pub open spec fn preamble_head() -> Seq<char> {
    PREAMBLE_START@ + MAGICJAR_MARKER@
}

/// Whether `c` is none of the first `n` characters of `s`.
spec fn absent_before(s: Seq<char>, c: char, n: nat) -> bool
    decreases n,
{
    n == 0 || (s[n - 1] != c && absent_before(s, c, (n - 1) as nat))
}

/// [`absent_before`] in terms of each character.
proof fn lemma_absent_before(s: Seq<char>, c: char, n: nat)
    requires
        absent_before(s, c, n),
    ensures
        forall|i: int| 0 <= i < n ==> s[i] != c,
    decreases n,
{
    if n > 0 {
        lemma_absent_before(s, c, (n - 1) as nat);
    }
}

/// The head of a preamble has no `@` and no `M` in it.
pub proof fn lemma_head_lacks(c: char)
    requires
        c == '@' || c == 'M',
    ensures
        !preamble_head().contains(c),
{
    reveal_strlit("#!/usr/bin/env bash\n# ");
    reveal_strlit("magicjar:self-executing-jar");
    assert(absent_before(PREAMBLE_START@, c, 22)) by {
        reveal_with_fuel(absent_before, 23);
    }
    assert(absent_before(MAGICJAR_MARKER@, c, 27)) by {
        reveal_with_fuel(absent_before, 28);
    }
    lemma_absent_before(PREAMBLE_START@, c, 22);
    lemma_absent_before(MAGICJAR_MARKER@, c, 27);
}

/// The head of a preamble has no placeholder in it, and is ASCII.
pub proof fn lemma_head()
    ensures
        preamble_head().len() == 49,
        !preamble_head().contains('@'),
        PREAMBLE_START@.len() == 22,
        vstd::utf8::is_ascii_chars(PREAMBLE_START@),
        vstd::utf8::is_ascii_chars(MAGICJAR_MARKER@),
{
    reveal_strlit("#!/usr/bin/env bash\n# ");
    reveal_strlit("magicjar:self-executing-jar");
    lemma_head_lacks('@');
}

/// Every preamble, whatever its options, begins with the first line and the
/// marker.
pub proof fn law_marker_always_present(words: Seq<Seq<char>>, malloc_arena_max: bool)
    ensures
        preamble_head().is_prefix_of(preamble_text(words, malloc_arena_max)),
        text::contains(preamble_text(words, malloc_arena_max), MAGICJAR_MARKER@),
{
    lemma_head();
    reveal_strlit("@DEFAULT_MEM_OPTS@");
    reveal_strlit("@MALLOC_BLOCK@");
    let head = preamble_head();
    let malloc = malloc_text(malloc_arena_max);
    let filled = text::replace_all(body(), OPTIONS_PLACE@, quoted_words(words));
    let rest = text::replace_all(filled, MALLOC_PLACE@, malloc);
    text::lemma_replace_keeps_head(head, body(), OPTIONS_PLACE@, quoted_words(words));
    text::lemma_replace_keeps_head(head, filled, MALLOC_PLACE@, malloc);
    let whole = preamble_text(words, malloc_arena_max);
    assert(whole == head + rest);
    assert(whole.subrange(0, head.len() as int) =~= head);
    assert(whole.subrange(22, 22int + MAGICJAR_MARKER@.len()) =~= MAGICJAR_MARKER@);
    assert(text::occurs_at(whole, MAGICJAR_MARKER@, 22));
}

} // verus!
