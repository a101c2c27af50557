//! The layout of a preamble: its fixed parts, with the JVM options and the malloc
//! block between them.
use vstd::prelude::*;
use crate::preamble;
use crate::preamble::{
    MAGICJAR_MARKER, MALLOC_BLOCK, MALLOC_PLACE, OPTIONS_PLACE, PREAMBLE_LAUNCH, PREAMBLE_OPTIONS,
    PREAMBLE_SORT, PREAMBLE_START,
};
use crate::shell;
use crate::text;

verus! {

// ---------------------------------------------------------------------------
// Texts without a place to fill in
// ---------------------------------------------------------------------------
/// Whether none of the two places that are filled in begins in `s`: each `@` is
/// followed by what follows it in neither of them.
#[verifier::opaque]
spec fn is_clear(s: Seq<char>) -> bool {
    forall|i: int|
        0 <= i < s.len() ==> (#[trigger] s[i]) != '@' || (i + 1 < s.len() && s[i + 1] != 'D' && s[i
            + 1] != 'M')
}

/// The name of the variable that the malloc block sets.
pub open spec fn malloc_name() -> Seq<char> {
    "MALLOC_ARENA_MAX"@
}

/// [`is_clear`] of the first `n` characters of `s`, and that the name of the malloc
/// variable begins at none of them.
spec fn clear_before(s: Seq<char>, n: nat) -> bool
    decreases n,
{
    n == 0 || ((s[n - 1] != '@' || (s[n as int] != 'D' && s[n as int] != 'M')) && (s[n - 1] != 'M'
        || s[n as int] != 'A' || s[n + 1int] != 'L') && clear_before(s, (n - 1) as nat))
}

/// [`clear_before`] in terms of each character.
proof fn lemma_clear_before(s: Seq<char>, n: nat)
    requires
        clear_before(s, n),
    ensures
        forall|i: int| 0 <= i < n ==> (#[trigger] s[i]) != '@' || (s[i + 1] != 'D' && s[i + 1] != 'M'),
        forall|i: int|
            0 <= i < n ==> (#[trigger] s[i]) != 'M' || s[i + 1] != 'A' || s[i + 2] != 'L',
    decreases n,
{
    if n > 0 {
        lemma_clear_before(s, (n - 1) as nat);
    }
}

/// [`clear_before`] of all but the last character, which is none that matters.
proof fn lemma_all_clear(s: Seq<char>)
    requires
        s.len() > 0,
        clear_before(s, (s.len() - 1) as nat),
        s.last() != '@',
    ensures
        is_clear(s),
        !text::contains(s, malloc_name()),
{
    reveal(is_clear);
    reveal_strlit("MALLOC_ARENA_MAX");
    lemma_clear_before(s, (s.len() - 1) as nat);
    assert forall|a: int| !text::occurs_at(s, malloc_name(), a) by {
        if text::occurs_at(s, malloc_name(), a) {
            let part = s.subrange(a, a + malloc_name().len());
            assert(part[0] == s[a]);
            assert(part[1] == s[a + 1]);
            assert(part[2] == s[a + 2]);
        }
    }
}

// What a literal holds is revealed by the literal itself: the next three proofs
// repeat the texts that they are about, and fail where one is not the same.

/// No place begins in [`PREAMBLE_OPTIONS`].
#[verifier::rlimit(40)]
proof fn lemma_options_clear()
    ensures
        is_clear(PREAMBLE_OPTIONS@),
        !text::contains(PREAMBLE_OPTIONS@, malloc_name()),
        PREAMBLE_OPTIONS@.len() > 0,
        PREAMBLE_OPTIONS@[0] == ' ',
        PREAMBLE_OPTIONS@.last() == '(',
{
    reveal_strlit(
        r#" (https://github.com/clintval/magicjar)
set -e

# Sort caller arguments into JVM options vs program arguments. Anything that
# looks like a JVM flag (a -D system property, or any -X / -XX non-standard or
# advanced option: -Xmx4g, -Xss8m, -Xint, -XX:+UseZGC, ...) goes to the JVM;
# everything else passes through to the program. General purpose: callers tune
# the JVM and drive the app from one CLI.
JVM_OPTS=()
PASS_ARGS=()
USER_SET_MEM=0
DEFAULT_MEM_OPTS=("#,
    );
    reveal_with_fuel(clear_before, 61);
    assert(clear_before(PREAMBLE_OPTIONS@, 60));
    assert(clear_before(PREAMBLE_OPTIONS@, 120));
    assert(clear_before(PREAMBLE_OPTIONS@, 180));
    assert(clear_before(PREAMBLE_OPTIONS@, 240));
    assert(clear_before(PREAMBLE_OPTIONS@, 300));
    assert(clear_before(PREAMBLE_OPTIONS@, 360));
    assert(clear_before(PREAMBLE_OPTIONS@, 420));
    assert(clear_before(PREAMBLE_OPTIONS@, 459));
    lemma_all_clear(PREAMBLE_OPTIONS@);
}

/// No place begins in [`PREAMBLE_SORT`].
#[verifier::rlimit(40)]
proof fn lemma_sort_clear()
    ensures
        is_clear(PREAMBLE_SORT@),
        !text::contains(PREAMBLE_SORT@, malloc_name()),
        PREAMBLE_SORT@.len() > 0,
        PREAMBLE_SORT@[0] == ')',
{
    reveal_strlit(
        r#")

for ARG in "$@"; do
  case $ARG in
    -D* | -X*)
      JVM_OPTS+=("$ARG")
      case $ARG in
        -Xms* | -Xmx* | -Xmn* | -XX:+AggressiveHeap) USER_SET_MEM=1;;
      esac
      ;;
    *)
      PASS_ARGS+=("$ARG");;
  esac
done

# Apply the default memory options only when the caller expressed no heap
# preference of their own (via _JAVA_OPTIONS, JAVA_OPTS, or a -Xms/-Xmx/-Xmn/
# -XX:+AggressiveHeap flag above).
if [ -z "${_JAVA_OPTIONS}" ] && [ -z "${JAVA_OPTS}" ] && [ "$USER_SET_MEM" -eq 0 ]; then
  JVM_OPTS=("${DEFAULT_MEM_OPTS[@]}" "${JVM_OPTS[@]}")
fi

"#,
    );
    reveal_with_fuel(clear_before, 61);
    assert(clear_before(PREAMBLE_SORT@, 60));
    assert(clear_before(PREAMBLE_SORT@, 120));
    assert(clear_before(PREAMBLE_SORT@, 180));
    assert(clear_before(PREAMBLE_SORT@, 240));
    assert(clear_before(PREAMBLE_SORT@, 300));
    assert(clear_before(PREAMBLE_SORT@, 360));
    assert(clear_before(PREAMBLE_SORT@, 420));
    assert(clear_before(PREAMBLE_SORT@, 480));
    assert(clear_before(PREAMBLE_SORT@, 540));
    assert(clear_before(PREAMBLE_SORT@, 569));
    lemma_all_clear(PREAMBLE_SORT@);
}

/// No place begins in [`PREAMBLE_LAUNCH`].
#[verifier::rlimit(60)]
proof fn lemma_launch_clear()
    ensures
        is_clear(PREAMBLE_LAUNCH@),
        !text::contains(PREAMBLE_LAUNCH@, malloc_name()),
        PREAMBLE_LAUNCH@.len() > 0,
        PREAMBLE_LAUNCH@[0] == '\n',
{
    reveal_strlit(
        r#"
# If invoked under a name ending in .jar, hand the JVM this file directly.
# Otherwise expose a .jar-named handle first: some tools (e.g. GATK) discover
# classes via libraries that only scan classpath entries ending in .jar, so a
# bare name (./tool) would make them find nothing. Prefer a hardlink; fall back
# to a copy when the temporary directory is on another filesystem. The JVM is
# the one that MAGICJAR_JAVA names, or else the java on the PATH.
case "$0" in
  *.jar)
    if [ -n "${MAGICJAR_JAVA}" ]; then
      exec "$MAGICJAR_JAVA" $JAVA_OPTS "${JVM_OPTS[@]}" -jar "$0" "${PASS_ARGS[@]}"
    fi
    exec java $JAVA_OPTS "${JVM_OPTS[@]}" -jar "$0" "${PASS_ARGS[@]}"
    ;;
esac
MAGICJAR_TMPDIR="$(mktemp -d)"
trap 'rm -rf "$MAGICJAR_TMPDIR"' EXIT
MAGICJAR_JAR="$MAGICJAR_TMPDIR/$(basename "$0").jar"
# Materialize a real .jar-named file. When invoked through a symlink (e.g. a
# workflow engine staging this file into a task dir), copy so we dereference to
# a real .jar the JVM sees as .jar; a hardlink would just relink the symlink and
# resolve back to its bare-named target. For a real file, a hardlink is cheap.
if [ -L "$0" ]; then
  cp "$0" "$MAGICJAR_JAR"
else
  ln "$0" "$MAGICJAR_JAR" 2>/dev/null || cp "$0" "$MAGICJAR_JAR"
fi
"${MAGICJAR_JAVA:-java}" $JAVA_OPTS "${JVM_OPTS[@]}" -jar "$MAGICJAR_JAR" "${PASS_ARGS[@]}"
exit
"#,
    );
    reveal_with_fuel(clear_before, 81);
    assert(clear_before(PREAMBLE_LAUNCH@, 80));
    assert(clear_before(PREAMBLE_LAUNCH@, 160));
    assert(clear_before(PREAMBLE_LAUNCH@, 240));
    assert(clear_before(PREAMBLE_LAUNCH@, 320));
    assert(clear_before(PREAMBLE_LAUNCH@, 400));
    assert(clear_before(PREAMBLE_LAUNCH@, 480));
    assert(clear_before(PREAMBLE_LAUNCH@, 560));
    assert(clear_before(PREAMBLE_LAUNCH@, 640));
    assert(clear_before(PREAMBLE_LAUNCH@, 720));
    assert(clear_before(PREAMBLE_LAUNCH@, 800));
    assert(clear_before(PREAMBLE_LAUNCH@, 880));
    assert(clear_before(PREAMBLE_LAUNCH@, 960));
    assert(clear_before(PREAMBLE_LAUNCH@, 1040));
    assert(clear_before(PREAMBLE_LAUNCH@, 1120));
    assert(clear_before(PREAMBLE_LAUNCH@, 1200));
    assert(clear_before(PREAMBLE_LAUNCH@, 1280));
    assert(clear_before(PREAMBLE_LAUNCH@, 1345));
    lemma_all_clear(PREAMBLE_LAUNCH@);
}

/// Whether `place` begins nowhere in `part`, with `rest` behind it: what follows
/// the first character of `place` there is not its second one.
spec fn begins_nowhere(part: Seq<char>, rest: Seq<char>, place: Seq<char>) -> bool {
    forall|i: int|
        0 <= i < part.len() ==> (#[trigger] part[i]) != place[0] || (i + 1 < (part + rest).len()
            && (part + rest)[i + 1] != place[1])
}

/// A part in which a place begins nowhere is kept when the place is filled in.
proof fn lemma_kept(part: Seq<char>, rest: Seq<char>, place: Seq<char>, with: Seq<char>)
    requires
        begins_nowhere(part, rest, place),
        place.len() >= 2,
    ensures
        text::replace_all(part + rest, place, with) == part + text::replace_all(rest, place, with),
    decreases part.len(),
{
    let s = part + rest;
    if part.len() == 0 {
        assert(s =~= rest);
        assert(part + text::replace_all(rest, place, with) =~= text::replace_all(
            rest,
            place,
            with,
        ));
    } else {
        assert(part[0] == s[0]);
        if place.is_prefix_of(s) {
            assert(s.subrange(0, place.len() as int)[0] == s[0]);
            assert(s.subrange(0, place.len() as int)[1] == s[1]);
        }
        let tail = part.drop_first();
        assert(s.drop_first() =~= tail + rest);
        assert forall|i: int| 0 <= i < tail.len() implies (#[trigger] tail[i]) != place[0] || (i + 1
            < (tail + rest).len() && (tail + rest)[i + 1] != place[1]) by {
            assert(tail[i] == part[i + 1]);
            if i + 1 < (tail + rest).len() {
                assert((tail + rest)[i + 1] == s[i + 2]);
            }
        }
        lemma_kept(tail, rest, place, with);
        assert(text::replace_all(s, place, with) =~= part + text::replace_all(rest, place, with));
    }
}

/// A clear part is kept when a place is filled in.
proof fn lemma_part_kept(part: Seq<char>, rest: Seq<char>, place: Seq<char>, with: Seq<char>)
    requires
        is_clear(part),
        place.len() >= 2,
        place[0] == '@',
        place[1] == 'D' || place[1] == 'M',
    ensures
        text::replace_all(part + rest, place, with) == part + text::replace_all(rest, place, with),
{
    reveal(is_clear);
    assert forall|i: int| 0 <= i < part.len() implies (#[trigger] part[i]) != place[0] || (i + 1
        < (part + rest).len() && (part + rest)[i + 1] != place[1]) by {
        if i + 1 < part.len() {
            assert((part + rest)[i + 1] == part[i + 1]);
        }
    }
    lemma_kept(part, rest, place, with);
}

/// A place is filled in.
proof fn lemma_place_filled(place: Seq<char>, rest: Seq<char>, with: Seq<char>)
    requires
        place.len() > 0,
    ensures
        text::replace_all(place + rest, place, with) == with + text::replace_all(rest, place, with),
{
    let s = place + rest;
    assert(s.subrange(0, place.len() as int) =~= place);
    assert(s.skip(place.len() as int) =~= rest);
}

/// The place of the malloc block is kept when the options are filled in.
proof fn lemma_malloc_place_kept(rest: Seq<char>, options: Seq<char>)
    requires
        rest.len() > 0,
        rest[0] != 'D',
    ensures
        text::replace_all(MALLOC_PLACE@ + rest, OPTIONS_PLACE@, options) == MALLOC_PLACE@
            + text::replace_all(rest, OPTIONS_PLACE@, options),
{
    reveal_strlit("@DEFAULT_MEM_OPTS@");
    reveal_strlit("@MALLOC_BLOCK@");
    let place = MALLOC_PLACE@;
    assert forall|i: int| 0 <= i < place.len() implies (#[trigger] place[i]) != OPTIONS_PLACE@[0]
        || (i + 1 < (place + rest).len() && (place + rest)[i + 1] != OPTIONS_PLACE@[1]) by {
        if i + 1 == place.len() {
            assert((place + rest)[i + 1] == rest[0]);
        }
    }
    lemma_kept(place, rest, OPTIONS_PLACE@, options);
}

/// A text without `@` is clear.
proof fn lemma_lacking_is_clear(s: Seq<char>)
    requires
        !s.contains('@'),
    ensures
        is_clear(s),
{
    reveal(is_clear);
    assert forall|i: int| 0 <= i < s.len() implies (#[trigger] s[i]) != '@' by {
        assert(s.contains(s[i]));
    }
}

/// A clear text is kept as a whole.
proof fn lemma_clear_kept(s: Seq<char>, place: Seq<char>, with: Seq<char>)
    requires
        is_clear(s),
        place.len() >= 2,
        place[0] == '@',
        place[1] == 'D' || place[1] == 'M',
    ensures
        text::replace_all(s, place, with) == s,
{
    let none = Seq::<char>::empty();
    assert(s + none =~= s);
    lemma_part_kept(s, none, place, with);
    assert(s + text::replace_all(none, place, with) =~= s);
}

/// The options are filled in between clear parts.
proof fn lemma_options_filled(
    head: Seq<char>,
    before: Seq<char>,
    between: Seq<char>,
    behind: Seq<char>,
    options: Seq<char>,
)
    requires
        is_clear(head),
        is_clear(before),
        is_clear(between),
        is_clear(behind),
        behind.len() > 0,
        behind[0] != 'D',
    ensures
        text::replace_all(
            head + before + OPTIONS_PLACE@ + between + MALLOC_PLACE@ + behind,
            OPTIONS_PLACE@,
            options,
        ) == head + before + options + between + MALLOC_PLACE@ + behind,
{
    reveal_strlit("@DEFAULT_MEM_OPTS@");
    let place = OPTIONS_PLACE@;
    let last = MALLOC_PLACE@ + behind;
    let tail = between + last;
    lemma_clear_kept(behind, place, options);
    lemma_malloc_place_kept(behind, options);
    lemma_part_kept(between, last, place, options);
    lemma_place_filled(place, tail, options);
    lemma_part_kept(before, place + tail, place, options);
    lemma_part_kept(head, before + (place + tail), place, options);
    assert(head + before + place + between + MALLOC_PLACE@ + behind =~= head + (before + (place
        + tail)));
    assert(head + before + options + between + MALLOC_PLACE@ + behind =~= head + (before + (options
        + tail)));
}

/// What cannot be part of a pattern parts the texts in which it is replaced.
proof fn lemma_replace_parts(a: Seq<char>, b: Seq<char>, pat: Seq<char>, with: Seq<char>)
    requires
        pat.len() > 0,
        b.len() > 0,
        !pat.contains(b[0]),
    ensures
        text::replace_all(a + b, pat, with) == text::replace_all(a, pat, with)
            + text::replace_all(b, pat, with),
    decreases a.len(),
{
    let s = a + b;
    if a.len() == 0 {
        assert(s =~= b);
        assert(text::replace_all(a, pat, with) + text::replace_all(b, pat, with)
            =~= text::replace_all(b, pat, with));
    } else if pat.is_prefix_of(s) {
        if pat.len() > a.len() {
            assert(s.subrange(0, pat.len() as int)[a.len() as int] == b[0]);
            assert(pat.contains(pat[a.len() as int]));
        }
        assert(a.subrange(0, pat.len() as int) =~= s.subrange(0, pat.len() as int));
        let rest = a.skip(pat.len() as int);
        assert(s.skip(pat.len() as int) =~= rest + b);
        lemma_replace_parts(rest, b, pat, with);
        assert(text::replace_all(s, pat, with) =~= text::replace_all(a, pat, with)
            + text::replace_all(b, pat, with));
    } else {
        if pat.is_prefix_of(a) {
            assert(a.subrange(0, pat.len() as int) =~= s.subrange(0, pat.len() as int));
        }
        let rest = a.drop_first();
        assert(s.drop_first() =~= rest + b);
        lemma_replace_parts(rest, b, pat, with);
        assert(text::replace_all(s, pat, with) =~= text::replace_all(a, pat, with)
            + text::replace_all(b, pat, with));
    }
}

/// What cannot be part of a pattern parts the texts in which it does not stand.
proof fn lemma_absent_parts(a: Seq<char>, b: Seq<char>, pat: Seq<char>)
    requires
        !text::contains(a, pat),
        !text::contains(b, pat),
        b.len() > 0 && !pat.contains(b[0]) || a.len() > 0 && !pat.contains(a.last()),
    ensures
        !text::contains(a + b, pat),
{
    let s = a + b;
    assert forall|i: int| !text::occurs_at(s, pat, i) by {
        if text::occurs_at(s, pat, i) {
            let part = s.subrange(i, i + pat.len());
            if i + pat.len() <= a.len() {
                assert(a.subrange(i, i + pat.len()) =~= part);
                assert(text::occurs_at(a, pat, i));
            } else if i >= a.len() {
                assert(b.subrange(i - a.len(), i - a.len() + pat.len()) =~= part);
                assert(text::occurs_at(b, pat, i - a.len()));
            } else if b.len() > 0 && !pat.contains(b[0]) {
                assert(part[a.len() - i] == b[0]);
                assert(pat.contains(pat[a.len() - i]));
            } else {
                assert(part[a.len() - 1 - i] == a.last());
                assert(pat.contains(pat[a.len() - 1 - i]));
            }
        }
    }
}

/// The malloc block is filled in between clear parts, and wherever the options name
/// its place.
proof fn lemma_malloc_filled(
    head: Seq<char>,
    before: Seq<char>,
    options: Seq<char>,
    between: Seq<char>,
    behind: Seq<char>,
    malloc: Seq<char>,
)
    requires
        is_clear(head),
        is_clear(before),
        is_clear(between),
        is_clear(behind),
        between.len() > 0,
        between[0] == ')',
    ensures
        text::replace_all(
            head + before + options + between + MALLOC_PLACE@ + behind,
            MALLOC_PLACE@,
            malloc,
        ) == head + before + text::replace_all(options, MALLOC_PLACE@, malloc) + between + malloc
            + behind,
{
    reveal_strlit("@MALLOC_BLOCK@");
    let place = MALLOC_PLACE@;
    let last = place + behind;
    let tail = between + last;
    lemma_clear_kept(behind, place, malloc);
    lemma_place_filled(place, behind, malloc);
    lemma_part_kept(between, last, place, malloc);
    assert(tail[0] == ')');
    lemma_replace_parts(options, tail, place, malloc);
    lemma_part_kept(before, options + tail, place, malloc);
    lemma_part_kept(head, before + (options + tail), place, malloc);
    assert(head + before + options + between + place + behind =~= head + (before + (options
        + tail)));
    let shown = text::replace_all(options, place, malloc);
    assert(head + before + shown + between + malloc + behind =~= head + (before + (shown + (between
        + (malloc + behind)))));
}

// ---------------------------------------------------------------------------
// Options
// ---------------------------------------------------------------------------
/// A character that is neither in a text nor in what is put into it does not come
/// into it.
proof fn lemma_replace_lacks(s: Seq<char>, pat: Seq<char>, with: Seq<char>, c: char)
    requires
        !s.contains(c),
        !with.contains(c),
    ensures
        !text::replace_all(s, pat, with).contains(c),
    decreases s.len(),
{
    if s.len() > 0 && pat.len() > 0 {
        if pat.is_prefix_of(s) {
            let rest = s.skip(pat.len() as int);
            assert forall|i: int| 0 <= i < rest.len() implies rest[i] != c by {
                assert(s.contains(s[i + pat.len()]));
            }
            lemma_replace_lacks(rest, pat, with, c);
            lemma_lacks(with, text::replace_all(rest, pat, with), c);
        } else {
            let rest = s.drop_first();
            assert forall|i: int| 0 <= i < rest.len() implies rest[i] != c by {
                assert(s.contains(s[i + 1]));
            }
            lemma_replace_lacks(rest, pat, with, c);
            assert(s.contains(s[0]));
            lemma_lacks(seq![s[0]], text::replace_all(rest, pat, with), c);
        }
    }
}

/// What is in neither of two texts is not in both of them together.
proof fn lemma_lacks(a: Seq<char>, b: Seq<char>, c: char)
    requires
        !a.contains(c),
        !b.contains(c),
    ensures
        !(a + b).contains(c),
{
    assert forall|i: int| 0 <= i < (a + b).len() implies (a + b)[i] != c by {
        if i < a.len() {
            assert(a.contains(a[i]));
        } else {
            assert(b.contains(b[i - a.len()]));
        }
    }
}

/// Quoting brings no `@` into a word.
proof fn lemma_quoted_lacks(word: Seq<char>)
    requires
        !word.contains('@'),
    ensures
        !shell::quoted(word).contains('@'),
{
    reveal_strlit("'");
    reveal_strlit("'\\''");
    let inner = text::replace_all(word, "'"@, "'\\''"@);
    lemma_replace_lacks(word, "'"@, "'\\''"@, '@');
    lemma_lacks("'"@, inner, '@');
    lemma_lacks("'"@ + inner, "'"@, '@');
}

/// Quoting brings no `@` into the options.
proof fn lemma_options_lack(words: Seq<Seq<char>>)
    requires
        forall|i: int| 0 <= i < words.len() ==> !(#[trigger] words[i]).contains('@'),
    ensures
        !preamble::quoted_words(words).contains('@'),
    decreases words.len(),
{
    if words.len() > 0 {
        reveal_strlit(" ");
        lemma_quoted_lacks(words.last());
        if words.len() > 1 {
            let init = words.drop_last();
            assert forall|i: int| 0 <= i < init.len() implies !(#[trigger] init[i]).contains('@') by {
                assert(init[i] == words[i]);
            }
            lemma_options_lack(init);
            lemma_lacks(preamble::quoted_words(init), " "@, '@');
            lemma_lacks(
                preamble::quoted_words(init) + " "@,
                shell::quoted(words.last()),
                '@',
            );
        }
    }
}

// ---------------------------------------------------------------------------
// Laws
// ---------------------------------------------------------------------------
/// The fixed parts of a preamble, with `options` and `malloc` in their places.
pub open spec fn laid_out(options: Seq<char>, malloc: Seq<char>) -> Seq<char> {
    before_malloc(options) + malloc + PREAMBLE_LAUNCH@
}

/// What stands before the malloc block.
pub open spec fn before_malloc(options: Seq<char>) -> Seq<char> {
    PREAMBLE_START@ + MAGICJAR_MARKER@ + PREAMBLE_OPTIONS@ + options + PREAMBLE_SORT@
}

/// A preamble is made of its fixed parts, with the JVM options, quoted, and the
/// malloc block, if it is asked for, in their places and nowhere else. Only where
/// the options themselves hold the text `@MALLOC_BLOCK@`, that is filled in, too.
pub proof fn law_preamble_layout(words: Seq<Seq<char>>, malloc_arena_max: bool)
    ensures
        ({
            let options = preamble::quoted_words(words);
            let malloc = preamble::malloc_text(malloc_arena_max);
            &&& preamble::preamble_text(words, malloc_arena_max) == laid_out(
                text::replace_all(options, MALLOC_PLACE@, malloc),
                malloc,
            )
            &&& !text::contains(options, MALLOC_PLACE@) ==> preamble::preamble_text(
                words,
                malloc_arena_max,
            ) == laid_out(options, malloc)
        }),
{
    let options = preamble::quoted_words(words);
    let malloc = preamble::malloc_text(malloc_arena_max);
    let head = preamble::preamble_head();
    preamble::lemma_head();
    lemma_lacking_is_clear(head);
    lemma_options_clear();
    lemma_sort_clear();
    lemma_launch_clear();
    lemma_options_filled(head, PREAMBLE_OPTIONS@, PREAMBLE_SORT@, PREAMBLE_LAUNCH@, options);
    lemma_malloc_filled(
        head,
        PREAMBLE_OPTIONS@,
        options,
        PREAMBLE_SORT@,
        PREAMBLE_LAUNCH@,
        malloc,
    );
    assert(preamble::template() =~= head + PREAMBLE_OPTIONS@ + OPTIONS_PLACE@ + PREAMBLE_SORT@
        + MALLOC_PLACE@ + PREAMBLE_LAUNCH@);
    if !text::contains(options, MALLOC_PLACE@) {
        text::lemma_replace_absent(options, MALLOC_PLACE@, malloc);
    }
}

/// Options without `@` stand in their place as they are.
pub proof fn law_options_in_place(words: Seq<Seq<char>>, malloc_arena_max: bool)
    requires
        forall|i: int| 0 <= i < words.len() ==> !(#[trigger] words[i]).contains('@'),
    ensures
        preamble::preamble_text(words, malloc_arena_max) == laid_out(
            preamble::quoted_words(words),
            preamble::malloc_text(malloc_arena_max),
        ),
{
    reveal_strlit("@MALLOC_BLOCK@");
    let options = preamble::quoted_words(words);
    lemma_options_lack(words);
    assert forall|a: int| !text::occurs_at(options, MALLOC_PLACE@, a) by {
        if text::occurs_at(options, MALLOC_PLACE@, a) {
            assert(options.subrange(a, a + MALLOC_PLACE@.len())[0] == options[a]);
            assert(options.contains(options[a]));
        }
    }
    law_preamble_layout(words, malloc_arena_max);
}

/// The flag adds exactly the malloc block, and changes nothing else. Without it
/// the name of the malloc variable stands nowhere in the preamble, unless the
/// options hold it.
pub proof fn law_malloc_flag(words: Seq<Seq<char>>)
    requires
        !text::contains(preamble::quoted_words(words), MALLOC_PLACE@),
    ensures
        preamble::preamble_text(words, false) == before_malloc(preamble::quoted_words(words))
            + PREAMBLE_LAUNCH@,
        preamble::preamble_text(words, true) == before_malloc(preamble::quoted_words(words))
            + MALLOC_BLOCK@ + PREAMBLE_LAUNCH@,
        !text::contains(preamble::quoted_words(words), malloc_name()) ==> !text::contains(
            preamble::preamble_text(words, false),
            malloc_name(),
        ),
{
    let options = preamble::quoted_words(words);
    law_preamble_layout(words, false);
    law_preamble_layout(words, true);
    assert(laid_out(options, Seq::empty()) =~= before_malloc(options) + PREAMBLE_LAUNCH@);
    if !text::contains(options, malloc_name()) {
        lemma_no_malloc_name(options);
    }
}

/// The name of the malloc variable stands nowhere in the fixed parts.
proof fn lemma_no_malloc_name(options: Seq<char>)
    requires
        !text::contains(options, malloc_name()),
    ensures
        !text::contains(before_malloc(options) + PREAMBLE_LAUNCH@, malloc_name()),
{
    let pat = malloc_name();
    let head = preamble::preamble_head();
    preamble::lemma_head_lacks('M');
    lemma_options_clear();
    lemma_sort_clear();
    lemma_launch_clear();
    lemma_malloc_name_characters();
    assert forall|a: int| !text::occurs_at(head, pat, a) by {
        if text::occurs_at(head, pat, a) {
            assert(head.subrange(a, a + pat.len())[0] == head[a]);
            assert(head.contains(head[a]));
        }
    }
    lemma_absent_parts(head, PREAMBLE_OPTIONS@, pat);
    let a = head + PREAMBLE_OPTIONS@;
    assert(a.last() == '(');
    lemma_absent_parts(a, options, pat);
    lemma_absent_parts(a + options, PREAMBLE_SORT@, pat);
    lemma_absent_parts(a + options + PREAMBLE_SORT@, PREAMBLE_LAUNCH@, pat);
}

/// What the name of the malloc variable is made of.
proof fn lemma_malloc_name_characters()
    ensures
        malloc_name().len() > 0,
        malloc_name()[0] == 'M',
        !malloc_name().contains(' '),
        !malloc_name().contains('('),
        !malloc_name().contains(')'),
        !malloc_name().contains('\n'),
{
    reveal_strlit("MALLOC_ARENA_MAX");
}

} // verus!
