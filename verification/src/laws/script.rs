//! What the script in front of a jar does: lines that stand in it, whatever its
//! options are.
use vstd::prelude::*;
use crate::layout;
use crate::laws::texts;
use crate::preamble;
use crate::text;

verus! {

/// An argument that begins with `-D` or `-X` goes to the JVM.
pub open spec fn to_jvm() -> Seq<char> {
    "for ARG in \"$@\"; do\n  case $ARG in\n    -D* | -X*)\n      JVM_OPTS+=(\"$ARG\")\n"@
}

/// One of these that sets the heap is taken note of.
pub open spec fn tells_heap() -> Seq<char> {
    "        -Xms* | -Xmx* | -Xmn* | -XX:+AggressiveHeap) USER_SET_MEM=1;;\n"@
}

/// Any other argument goes to the program.
pub open spec fn to_program() -> Seq<char> {
    "    *)\n      PASS_ARGS+=(\"$ARG\");;\n  esac\ndone\n"@
}

/// Whether the caller has not said anything about the heap.
pub open spec fn lacks_heap() -> Seq<char> {
    "if [ -z \"${_JAVA_OPTIONS}\" ] && [ -z \"${JAVA_OPTS}\" ] && [ \"$USER_SET_MEM\" -eq 0 ]; then\n"@
}

/// The default options go before those of the caller.
pub open spec fn adds_defaults() -> Seq<char> {
    "  JVM_OPTS=(\"${DEFAULT_MEM_OPTS[@]}\" \"${JVM_OPTS[@]}\")\nfi\n"@
}

/// A file whose name ends with `.jar` is launched as it is.
pub open spec fn has_jar_name() -> Seq<char> {
    "case \"$0\" in\n  *.jar)\n    if [ -n \"${MAGICJAR_JAVA}\" ]; then\n"@
}

/// It is launched by the `java` that is named, with the options and arguments.
pub open spec fn runs_given_java() -> Seq<char> {
    "      exec \"$MAGICJAR_JAVA\" $JAVA_OPTS \"${JVM_OPTS[@]}\" -jar \"$0\" \"${PASS_ARGS[@]}\"\n    fi\n"@
}

/// It is launched by the `java` on the path, with the options and arguments.
pub open spec fn runs_java() -> Seq<char> {
    "    exec java $JAVA_OPTS \"${JVM_OPTS[@]}\" -jar \"$0\" \"${PASS_ARGS[@]}\"\n    ;;\nesac\n"@
}

/// A link is copied.
pub open spec fn copies_link() -> Seq<char> {
    "if [ -L \"$0\" ]; then\n  cp \"$0\" \"$MAGICJAR_JAR\"\nelse\n"@
}

/// Any other file is launched under a name that ends with `.jar`.
pub open spec fn runs_handle() -> Seq<char> {
    "\"${MAGICJAR_JAVA:-java}\" $JAVA_OPTS \"${JVM_OPTS[@]}\" -jar \"$MAGICJAR_JAR\" \"${PASS_ARGS[@]}\"\nexit\n"@
}

/// The number of arenas is limited, unless the caller has said how many there are.
pub open spec fn limits_arenas() -> Seq<char> {
    "\nif [ -z \"${MALLOC_ARENA_MAX}\" ]; then export MALLOC_ARENA_MAX=4; fi"@
}

/// Whether the first `n` characters of `part` stand in `s` from `at` on.
spec fn same_before(s: Seq<char>, at: int, part: Seq<char>, n: nat) -> bool
    decreases n,
{
    n == 0 || (s[at + n - 1] == part[n - 1] && same_before(s, at, part, (n - 1) as nat))
}

/// [`same_before`] in terms of each character.
proof fn lemma_same_before(s: Seq<char>, at: int, part: Seq<char>, n: nat)
    requires
        same_before(s, at, part, n),
    ensures
        forall|k: int| 0 <= k < n ==> s[at + k] == #[trigger] part[k],
    decreases n,
{
    if n > 0 {
        lemma_same_before(s, at, part, (n - 1) as nat);
    }
}

// What a literal holds is revealed by the literal itself: the next three proofs
// repeat the texts that they are about, and fail where one is not the same.

/// The lines of [`preamble::PREAMBLE_SORT`].
#[verifier::rlimit(80)]
proof fn lemma_sort()
    ensures
        texts::stands(preamble::PREAMBLE_SORT@, to_jvm(), 3),
        texts::stands(preamble::PREAMBLE_SORT@, tells_heap(), 97),
        texts::stands(preamble::PREAMBLE_SORT@, to_program(), 187),
        texts::stands(preamble::PREAMBLE_SORT@, lacks_heap(), 422),
        texts::stands(preamble::PREAMBLE_SORT@, adds_defaults(), 511),
{
    reveal_strlit(
        r#")

for ARG in "$@"; do
  case $ARG in
    -D* | -X*)
      JVM_OPTS+=("$ARG")
      case $ARG in
        -Xms* | -Xmx* | -Xmn* | -XX:+AggressiveHeap) USER_SET_MEM=1;;
      esac
      ;;
    *)
      PASS_ARGS+=("$ARG");;
  esac
done

# Apply the default memory options only when the caller expressed no heap
# preference of their own (via _JAVA_OPTIONS, JAVA_OPTS, or a -Xms/-Xmx/-Xmn/
# -XX:+AggressiveHeap flag above).
if [ -z "${_JAVA_OPTIONS}" ] && [ -z "${JAVA_OPTS}" ] && [ "$USER_SET_MEM" -eq 0 ]; then
  JVM_OPTS=("${DEFAULT_MEM_OPTS[@]}" "${JVM_OPTS[@]}")
fi

"#,
    );
    reveal_strlit("for ARG in \"$@\"; do\n  case $ARG in\n    -D* | -X*)\n      JVM_OPTS+=(\"$ARG\")\n");
    reveal_strlit("        -Xms* | -Xmx* | -Xmn* | -XX:+AggressiveHeap) USER_SET_MEM=1;;\n");
    reveal_strlit("    *)\n      PASS_ARGS+=(\"$ARG\");;\n  esac\ndone\n");
    reveal_strlit("if [ -z \"${_JAVA_OPTIONS}\" ] && [ -z \"${JAVA_OPTS}\" ] && [ \"$USER_SET_MEM\" -eq 0 ]; then\n");
    reveal_strlit("  JVM_OPTS=(\"${DEFAULT_MEM_OPTS[@]}\" \"${JVM_OPTS[@]}\")\nfi\n");
    reveal_with_fuel(same_before, 31);
    assert(same_before(preamble::PREAMBLE_SORT@, 3, to_jvm(), 30));
    assert(same_before(preamble::PREAMBLE_SORT@, 3, to_jvm(), 60));
    assert(same_before(preamble::PREAMBLE_SORT@, 3, to_jvm(), 75));
    lemma_same_before(preamble::PREAMBLE_SORT@, 3, to_jvm(), 75);
    assert(same_before(preamble::PREAMBLE_SORT@, 97, tells_heap(), 30));
    assert(same_before(preamble::PREAMBLE_SORT@, 97, tells_heap(), 60));
    assert(same_before(preamble::PREAMBLE_SORT@, 97, tells_heap(), 70));
    lemma_same_before(preamble::PREAMBLE_SORT@, 97, tells_heap(), 70);
    assert(same_before(preamble::PREAMBLE_SORT@, 187, to_program(), 30));
    assert(same_before(preamble::PREAMBLE_SORT@, 187, to_program(), 47));
    lemma_same_before(preamble::PREAMBLE_SORT@, 187, to_program(), 47);
    assert(same_before(preamble::PREAMBLE_SORT@, 422, lacks_heap(), 30));
    assert(same_before(preamble::PREAMBLE_SORT@, 422, lacks_heap(), 60));
    assert(same_before(preamble::PREAMBLE_SORT@, 422, lacks_heap(), 89));
    lemma_same_before(preamble::PREAMBLE_SORT@, 422, lacks_heap(), 89);
    assert(same_before(preamble::PREAMBLE_SORT@, 511, adds_defaults(), 30));
    assert(same_before(preamble::PREAMBLE_SORT@, 511, adds_defaults(), 58));
    lemma_same_before(preamble::PREAMBLE_SORT@, 511, adds_defaults(), 58);
}

/// The lines of [`preamble::PREAMBLE_LAUNCH`].
#[verifier::rlimit(80)]
proof fn lemma_launch()
    ensures
        texts::stands(preamble::PREAMBLE_LAUNCH@, has_jar_name(), 456),
        texts::stands(preamble::PREAMBLE_LAUNCH@, runs_given_java(), 517),
        texts::stands(preamble::PREAMBLE_LAUNCH@, runs_java(), 608),
        texts::stands(preamble::PREAMBLE_LAUNCH@, copies_link(), 1129),
        texts::stands(preamble::PREAMBLE_LAUNCH@, runs_handle(), 1249),
{
    reveal_strlit(
        r#"
# If invoked under a name ending in .jar, hand the JVM this file directly.
# Otherwise expose a .jar-named handle first: some tools (e.g. GATK) discover
# classes via libraries that only scan classpath entries ending in .jar, so a
# bare name (./tool) would make them find nothing. Prefer a hardlink; fall back
# to a copy when the temporary directory is on another filesystem. The JVM is
# the one that MAGICJAR_JAVA names, or else the java on the PATH.
case "$0" in
  *.jar)
    if [ -n "${MAGICJAR_JAVA}" ]; then
      exec "$MAGICJAR_JAVA" $JAVA_OPTS "${JVM_OPTS[@]}" -jar "$0" "${PASS_ARGS[@]}"
    fi
    exec java $JAVA_OPTS "${JVM_OPTS[@]}" -jar "$0" "${PASS_ARGS[@]}"
    ;;
esac
MAGICJAR_TMPDIR="$(mktemp -d)"
trap 'rm -rf "$MAGICJAR_TMPDIR"' EXIT
MAGICJAR_JAR="$MAGICJAR_TMPDIR/$(basename "$0").jar"
# Materialize a real .jar-named file. When invoked through a symlink (e.g. a
# workflow engine staging this file into a task dir), copy so we dereference to
# a real .jar the JVM sees as .jar; a hardlink would just relink the symlink and
# resolve back to its bare-named target. For a real file, a hardlink is cheap.
if [ -L "$0" ]; then
  cp "$0" "$MAGICJAR_JAR"
else
  ln "$0" "$MAGICJAR_JAR" 2>/dev/null || cp "$0" "$MAGICJAR_JAR"
fi
"${MAGICJAR_JAVA:-java}" $JAVA_OPTS "${JVM_OPTS[@]}" -jar "$MAGICJAR_JAR" "${PASS_ARGS[@]}"
exit
"#,
    );
    reveal_strlit("case \"$0\" in\n  *.jar)\n    if [ -n \"${MAGICJAR_JAVA}\" ]; then\n");
    reveal_strlit("      exec \"$MAGICJAR_JAVA\" $JAVA_OPTS \"${JVM_OPTS[@]}\" -jar \"$0\" \"${PASS_ARGS[@]}\"\n    fi\n");
    reveal_strlit("    exec java $JAVA_OPTS \"${JVM_OPTS[@]}\" -jar \"$0\" \"${PASS_ARGS[@]}\"\n    ;;\nesac\n");
    reveal_strlit("if [ -L \"$0\" ]; then\n  cp \"$0\" \"$MAGICJAR_JAR\"\nelse\n");
    reveal_strlit("\"${MAGICJAR_JAVA:-java}\" $JAVA_OPTS \"${JVM_OPTS[@]}\" -jar \"$MAGICJAR_JAR\" \"${PASS_ARGS[@]}\"\nexit\n");
    reveal_with_fuel(same_before, 31);
    assert(same_before(preamble::PREAMBLE_LAUNCH@, 456, has_jar_name(), 30));
    assert(same_before(preamble::PREAMBLE_LAUNCH@, 456, has_jar_name(), 60));
    assert(same_before(preamble::PREAMBLE_LAUNCH@, 456, has_jar_name(), 61));
    lemma_same_before(preamble::PREAMBLE_LAUNCH@, 456, has_jar_name(), 61);
    assert(same_before(preamble::PREAMBLE_LAUNCH@, 517, runs_given_java(), 30));
    assert(same_before(preamble::PREAMBLE_LAUNCH@, 517, runs_given_java(), 60));
    assert(same_before(preamble::PREAMBLE_LAUNCH@, 517, runs_given_java(), 90));
    assert(same_before(preamble::PREAMBLE_LAUNCH@, 517, runs_given_java(), 91));
    lemma_same_before(preamble::PREAMBLE_LAUNCH@, 517, runs_given_java(), 91);
    assert(same_before(preamble::PREAMBLE_LAUNCH@, 608, runs_java(), 30));
    assert(same_before(preamble::PREAMBLE_LAUNCH@, 608, runs_java(), 60));
    assert(same_before(preamble::PREAMBLE_LAUNCH@, 608, runs_java(), 82));
    lemma_same_before(preamble::PREAMBLE_LAUNCH@, 608, runs_java(), 82);
    assert(same_before(preamble::PREAMBLE_LAUNCH@, 1129, copies_link(), 30));
    assert(same_before(preamble::PREAMBLE_LAUNCH@, 1129, copies_link(), 52));
    lemma_same_before(preamble::PREAMBLE_LAUNCH@, 1129, copies_link(), 52);
    assert(same_before(preamble::PREAMBLE_LAUNCH@, 1249, runs_handle(), 30));
    assert(same_before(preamble::PREAMBLE_LAUNCH@, 1249, runs_handle(), 60));
    assert(same_before(preamble::PREAMBLE_LAUNCH@, 1249, runs_handle(), 90));
    assert(same_before(preamble::PREAMBLE_LAUNCH@, 1249, runs_handle(), 97));
    lemma_same_before(preamble::PREAMBLE_LAUNCH@, 1249, runs_handle(), 97);
}

/// The lines of [`preamble::MALLOC_BLOCK`].
#[verifier::rlimit(80)]
proof fn lemma_malloc()
    ensures
        texts::stands(preamble::MALLOC_BLOCK@, limits_arenas(), 562),
{
    reveal_strlit(
        r#"# If not already set to some value, set MALLOC_ARENA_MAX to constrain the number of memory pools (arenas) used
# by glibc to a reasonable number. The default behaviour is to scale with the number of CPUs, which can cause
# VIRTUAL memory usage to be ~0.5GB per cpu core in the system, e.g. 32GB of a 64-core machine even when the
# heap and resident memory are only 1-4GB! See the following link for more discussion:
# https://www.ibm.com/developerworks/community/blogs/kevgrig/entry/linux_glibc_2_10_rhel_6_malloc_may_show_excessive_virtual_memory_usage?lang=en
if [ -z "${MALLOC_ARENA_MAX}" ]; then export MALLOC_ARENA_MAX=4; fi"#,
    );
    reveal_strlit("\nif [ -z \"${MALLOC_ARENA_MAX}\" ]; then export MALLOC_ARENA_MAX=4; fi");
    reveal_with_fuel(same_before, 31);
    assert(same_before(preamble::MALLOC_BLOCK@, 562, limits_arenas(), 30));
    assert(same_before(preamble::MALLOC_BLOCK@, 562, limits_arenas(), 60));
    assert(same_before(preamble::MALLOC_BLOCK@, 562, limits_arenas(), 68));
    lemma_same_before(preamble::MALLOC_BLOCK@, 562, limits_arenas(), 68);
}

/// What stands in a part of a text stands in the text.
proof fn lemma_inside(before: Seq<char>, part: Seq<char>, after: Seq<char>, line: Seq<char>, at: int)
    requires
        texts::stands(part, line, at),
    ensures
        texts::holds(before + part + after, line),
{
    let s = before + part + after;
    assert forall|k: int| 0 <= k < line.len() implies s[before.len() + at + k] == #[trigger] line[k] by {
        assert(part[at + k] == line[k]);
    }
    assert(texts::stands(s, line, before.len() + at));
}

/// Whatever the options are, the script sorts its arguments: those that begin with
/// `-D` or `-X` go to the JVM, all others to the program. The default options apply
/// only where neither the environment nor a flag says anything about the heap, and
/// they come before those of the caller. The jar is launched with all of them.
pub proof fn law_script(words: Seq<Seq<char>>, malloc_arena_max: bool)
    ensures
        ({
            let script = preamble::preamble_text(words, malloc_arena_max);
            &&& texts::holds(script, to_jvm())
            &&& texts::holds(script, tells_heap())
            &&& texts::holds(script, to_program())
            &&& texts::holds(script, lacks_heap())
            &&& texts::holds(script, adds_defaults())
            &&& texts::holds(script, has_jar_name())
            &&& texts::holds(script, runs_given_java())
            &&& texts::holds(script, runs_java())
            &&& texts::holds(script, copies_link())
            &&& texts::holds(script, runs_handle())
        }),
{
    let options = preamble::quoted_words(words);
    let malloc = preamble::malloc_text(malloc_arena_max);
    let place = text::replace_all(options, preamble::MALLOC_PLACE@, malloc);
    let head = preamble::PREAMBLE_START@ + preamble::MAGICJAR_MARKER@ + preamble::PREAMBLE_OPTIONS@
        + place;
    let sort = preamble::PREAMBLE_SORT@;
    let launch = preamble::PREAMBLE_LAUNCH@;
    let tail = malloc + launch;
    let front = head + sort + malloc;
    let none = Seq::<char>::empty();
    let script = preamble::preamble_text(words, malloc_arena_max);
    layout::law_preamble_layout(words, malloc_arena_max);
    assert(script =~= head + sort + tail);
    assert(script =~= front + launch + none);
    lemma_sort();
    lemma_launch();
    lemma_inside(head, sort, tail, to_jvm(), 3);
    lemma_inside(head, sort, tail, tells_heap(), 97);
    lemma_inside(head, sort, tail, to_program(), 187);
    lemma_inside(head, sort, tail, lacks_heap(), 422);
    lemma_inside(head, sort, tail, adds_defaults(), 511);
    lemma_inside(front, launch, none, has_jar_name(), 456);
    lemma_inside(front, launch, none, runs_given_java(), 517);
    lemma_inside(front, launch, none, runs_java(), 608);
    lemma_inside(front, launch, none, copies_link(), 1129);
    lemma_inside(front, launch, none, runs_handle(), 1249);
}

/// With the flag the script limits the number of arenas, whatever the options are.
pub proof fn law_malloc(words: Seq<Seq<char>>)
    ensures
        texts::holds(preamble::preamble_text(words, true), limits_arenas()),
{
    let malloc = preamble::MALLOC_BLOCK@;
    let place = text::replace_all(
        preamble::quoted_words(words),
        preamble::MALLOC_PLACE@,
        malloc,
    );
    layout::law_preamble_layout(words, true);
    lemma_malloc();
    lemma_inside(
        layout::before_malloc(place),
        malloc,
        preamble::PREAMBLE_LAUNCH@,
        limits_arenas(),
        562,
    );
}

} // verus!
