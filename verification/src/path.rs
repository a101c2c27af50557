//! Names and paths as text: the `.jar` suffix, file names, parents and joins.
//!
//! Paths are Unix paths: `/` parts the components.
use vstd::prelude::*;
use crate::laws::paths;
use crate::text;

verus! {

/// Whether `s` ends with `.jar`, in any mix of cases.
pub open spec fn ends_with_jar(s: Seq<char>) -> bool {
    s.len() >= 4 && text::ascii_lower(s.skip(s.len() - 4)) == ".jar"@
}

/// `s` without `.jar` at its end, where it has it.
pub open spec fn without_jar(s: Seq<char>) -> Seq<char> {
    if ends_with_jar(s) {
        s.take(s.len() - 4)
    } else {
        s
    }
}

/// The suffix that [`ends_with_jar`] looks for is lower case already.
proof fn lemma_jar_is_lower()
    ensures
        ".jar"@.len() == 4,
        text::ascii_lower(".jar"@) == ".jar"@,
{
    reveal_strlit(".jar");
    assert(text::ascii_lower(".jar"@) =~= ".jar"@);
}

/// Whether the text `s` ends with `.jar` (case-insensitive).
pub fn is_jar_name(s: &[char]) -> (r: bool)
    ensures
        r == ends_with_jar(s@),
{
    if s.len() < 4 {
        return false;
    }
    let suffix: Vec<char> = text::chars_of(".jar");
    proof {
        lemma_jar_is_lower();
    }
    text::same_ignoring_case(&s[s.len() - 4..s.len()], suffix.as_slice())
}

/// Whether a string ends with `.jar` (case-insensitive).
pub fn has_jar_suffix(name: &str) -> (r: bool)
    ensures
        r == ends_with_jar(name@),
        r <==> paths::has_jar_end(name@),
{
    proof {
        paths::law_jar_suffix(name@);
    }
    let chars: Vec<char> = text::chars_of(name);
    is_jar_name(chars.as_slice())
}

/// Strips a trailing `.jar` (case-insensitive) if present.
pub fn strip_jar_suffix<'a>(name: &'a str) -> (r: &'a str)
    ensures
        r@ == without_jar(name@),
{
    let chars: Vec<char> = text::chars_of(name);
    if is_jar_name(chars.as_slice()) {
        name.substring_char(0, chars.len() - 4)
    } else {
        name
    }
}

// ---------------------------------------------------------------------------
// Components
// ---------------------------------------------------------------------------
/// `s` without the `/` and `/.` at its end, which name no component.
pub open spec fn strip_tail(s: Seq<char>) -> Seq<char>
    decreases s.len(),
{
    if s.len() > 0 && s.last() == '/' {
        strip_tail(s.drop_last())
    } else if s.len() >= 2 && s.last() == '.' && s[s.len() - 2] == '/' {
        strip_tail(s.drop_last())
    } else {
        s
    }
}

/// The length of the longest ending of `s` that holds no `/`.
pub open spec fn last_len(s: Seq<char>) -> int
    decreases s.len(),
{
    if s.len() == 0 || s.last() == '/' {
        0
    } else {
        1 + last_len(s.drop_last())
    }
}

/// What follows the last `/` of `s`, or all of `s` where it has none.
pub open spec fn after_slash(s: Seq<char>) -> Seq<char> {
    s.skip(s.len() - last_len(s))
}

/// `s` up to its last `/`, that one included.
pub open spec fn up_to_slash(s: Seq<char>) -> Seq<char> {
    s.take(s.len() - last_len(s))
}

/// The final component of the path `s`, unless there is none (`""`, `/`, `.`) or
/// it is `..`.
pub open spec fn file_name_of(s: Seq<char>) -> Option<Seq<char>> {
    let name = after_slash(strip_tail(s));
    if name.len() == 0 || name == "."@ || name == ".."@ {
        None
    } else {
        Some(name)
    }
}

/// The path `s` without its final component, unless it is empty or a root.
pub open spec fn parent_of(s: Seq<char>) -> Option<Seq<char>> {
    let t = strip_tail(s);
    let head = up_to_slash(t);
    let dir = strip_tail(head);
    if t.len() == 0 {
        None
    } else if dir.len() == 0 && head.len() > 0 {
        Some("/"@)
    } else {
        Some(dir)
    }
}

/// The path `name` taken from the directory `base`; `name` alone where it begins
/// with `/`.
pub open spec fn joined(base: Seq<char>, name: Seq<char>) -> Seq<char> {
    if name.len() > 0 && name[0] == '/' {
        name
    } else if base.len() == 0 || base.last() == '/' {
        base + name
    } else {
        base.push('/') + name
    }
}

/// The name that an output gets by default: the final component of the input (or
/// the input itself, where it has none) without `.jar`.
pub open spec fn default_name(input: Seq<char>) -> Seq<char> {
    without_jar(
        match file_name_of(input) {
            Some(name) => name,
            None => input,
        },
    )
}

/// Where [`strip_tail`] ends in `s`.
fn tail_start(s: &[char]) -> (n: usize)
    ensures
        n <= s@.len(),
        s@.take(n as int) == strip_tail(s@),
{
    let mut n: usize = s.len();
    assert(s@.take(n as int) == s@);
    while n > 0 && (s[n - 1] == '/' || (n >= 2 && s[n - 1] == '.' && s[n - 2] == '/'))
        invariant
            n <= s@.len(),
            strip_tail(s@.take(n as int)) == strip_tail(s@),
        decreases n,
    {
        assert(s@.take(n as int).drop_last() == s@.take(n - 1));
        n = n - 1;
    }
    n
}

/// Where the final component of `s` begins.
fn component_start(s: &[char]) -> (n: usize)
    ensures
        n == s@.len() - last_len(s@),
        n <= s@.len(),
{
    let mut n: usize = s.len();
    assert(s@.take(n as int) == s@);
    while n > 0 && s[n - 1] != '/'
        invariant
            n <= s@.len(),
            last_len(s@) == s@.len() - n + last_len(s@.take(n as int)),
        decreases n,
    {
        assert(s@.take(n as int).drop_last() == s@.take(n - 1));
        n = n - 1;
    }
    n
}

/// The final component of the path `s`.
pub fn final_name(s: &[char]) -> (r: Option<Vec<char>>)
    ensures
        match r {
            Some(name) => file_name_of(s@) == Some(name@),
            None => file_name_of(s@) is None,
        },
{
    let t: &[char] = &s[0..tail_start(s)];
    let name: &[char] = &t[component_start(t)..t.len()];
    proof {
        reveal_strlit(".");
        reveal_strlit("..");
        assert(s@.take(t@.len() as int) == t@);
        assert(name@ == after_slash(t@));
        if name@.len() == 1 && name@[0] == '.' {
            assert(name@ =~= "."@);
        }
        if name@.len() == 2 && name@[0] == '.' && name@[1] == '.' {
            assert(name@ =~= ".."@);
        }
    }
    if name.len() == 0 || (name.len() == 1 && name[0] == '.') || (name.len() == 2 && name[0] == '.'
        && name[1] == '.') {
        None
    } else {
        Some(text::copy_of(name))
    }
}

/// The final component of a path, if there is one.
pub fn file_name(path: &str) -> (r: Option<String>)
    ensures
        match r {
            Some(name) => file_name_of(path@) == Some(name@),
            None => file_name_of(path@) is None,
        },
{
    let chars: Vec<char> = text::chars_of(path);
    match final_name(chars.as_slice()) {
        Some(name) => Some(text::text_of(name.as_slice())),
        None => None,
    }
}

/// The path without its final component, if there is one.
pub fn parent(path: &str) -> (r: Option<String>)
    ensures
        match r {
            Some(dir) => parent_of(path@) == Some(dir@),
            None => parent_of(path@) is None,
        },
{
    let chars: Vec<char> = text::chars_of(path);
    let s: &[char] = chars.as_slice();
    let t: &[char] = &s[0..tail_start(s)];
    assert(s@.take(t@.len() as int) == t@);
    if t.len() == 0 {
        return None;
    }
    let head: &[char] = &t[0..component_start(t)];
    assert(head@ == up_to_slash(t@));
    let dir: &[char] = &head[0..tail_start(head)];
    assert(head@.take(dir@.len() as int) == dir@);
    if dir.len() == 0 && head.len() > 0 {
        Some("/".to_owned())
    } else {
        Some(text::text_of(dir))
    }
}

/// Joins a path to a directory; a path that begins with `/` stands alone.
pub fn join(base: &str, name: &str) -> (r: String)
    ensures
        r@ == joined(base@, name@),
{
    let name_chars: Vec<char> = text::chars_of(name);
    if name_chars.len() > 0 && name_chars[0] == '/' {
        return name.to_owned();
    }
    let mut out: Vec<char> = text::chars_of(base);
    if out.len() > 0 && out[out.len() - 1] != '/' {
        out.push('/');
    }
    text::push_all(&mut out, name_chars.as_slice());
    text::text_of(out.as_slice())
}

/// Computes the default output name: the input basename minus a `.jar` suffix.
pub fn default_output_name(input: &str) -> (r: String)
    ensures
        r@ == default_name(input@),
{
    match file_name(input) {
        Some(base) => strip_jar_suffix(base.as_str()).to_owned(),
        None => strip_jar_suffix(input).to_owned(),
    }
}

// ---------------------------------------------------------------------------
// Laws
// ---------------------------------------------------------------------------
/// A name without `/` behind a `/` is all of the last component.
proof fn lemma_last_len(dir: Seq<char>, name: Seq<char>)
    requires
        !name.contains('/'),
    ensures
        last_len(dir.push('/') + name) == name.len(),
        last_len(name) == name.len(),
    decreases name.len(),
{
    let s = dir.push('/') + name;
    if name.len() == 0 {
        assert(s =~= dir.push('/'));
    } else {
        let shorter = name.drop_last();
        assert(name.contains(name.last()));
        assert forall|i: int| 0 <= i < shorter.len() implies shorter[i] != '/' by {
            assert(name.contains(name[i]));
        }
        lemma_last_len(dir, shorter);
        assert(s.drop_last() =~= dir.push('/') + shorter);
    }
}

/// A path that ends with `.jar` has nothing to strip from its tail.
proof fn lemma_jar_tail(s: Seq<char>)
    requires
        ends_with_jar(s),
    ensures
        strip_tail(s) == s,
        s != "."@,
        s != ".."@,
{
    reveal_strlit(".jar");
    reveal_strlit(".");
    reveal_strlit("..");
    let tail = s.skip(s.len() - 4);
    assert(text::ascii_lower(tail)[3] == text::lower_char(tail[3]));
    assert(s.last() == tail[3]);
}

/// By default an output is named after its jar: whatever directory `stem` plus
/// `.jar` (in any mix of cases) stands in, the output is named `stem`.
pub proof fn law_default_name(dir: Seq<char>, stem: Seq<char>, suffix: Seq<char>)
    requires
        !stem.contains('/'),
        text::ascii_lower(suffix) == ".jar"@,
    ensures
        default_name(dir.push('/') + (stem + suffix)) == stem,
        default_name(stem + suffix) == stem,
{
    reveal_strlit(".jar");
    let name = stem + suffix;
    let s = dir.push('/') + name;
    assert(suffix.len() == text::ascii_lower(suffix).len());
    assert(name.skip(name.len() - 4) =~= suffix);
    assert(s.skip(s.len() - 4) =~= suffix);
    lemma_jar_tail(name);
    lemma_jar_tail(s);
    assert forall|i: int| 0 <= i < name.len() implies name[i] != '/' by {
        if i < stem.len() {
            assert(stem.contains(stem[i]));
        } else {
            let k = i - stem.len();
            assert(name[i] == suffix[k]);
            assert(text::ascii_lower(suffix)[k] == text::lower_char(suffix[k]));
            assert(text::ascii_lower(suffix)[k] != '/');
        }
    }
    lemma_last_len(dir, name);
    assert(after_slash(s) =~= name);
    assert(after_slash(name) =~= name);
    assert(name.take(name.len() - 4) =~= stem);
}

/// A name that is one component is found again in the path joined from it.
pub proof fn law_join_file_name(base: Seq<char>, name: Seq<char>)
    requires
        name.len() > 0,
        !name.contains('/'),
        name != "."@,
        name != ".."@,
    ensures
        file_name_of(joined(base, name)) == Some(name),
{
    reveal_strlit(".");
    assert(name.contains(name[0]));
    assert(name.contains(name.last()));
    let path = joined(base, name);
    if name.len() == 1 && name[0] == '.' {
        assert(name =~= "."@);
    }
    if name.len() >= 2 {
        assert(name.contains(name[name.len() - 2]));
    }
    if base.len() == 0 {
        assert(path =~= name);
    } else if base.last() == '/' {
        assert(path =~= base.drop_last().push('/') + name);
    }
    lemma_last_len(base, name);
    if base.len() > 0 {
        lemma_last_len(base.drop_last(), name);
    }
    assert(strip_tail(path) == path);
    assert(after_slash(path) =~= name);
}

} // verus!
