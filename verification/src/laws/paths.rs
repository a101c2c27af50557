//! Paths: file names, parents, joins, and the `.jar` suffix.
use vstd::prelude::*;
use crate::laws::chars;
use crate::path;
use crate::text;

verus! {

/// Whether `t` is what may follow the last component of a path and names none: `/`
/// and `/.`, any number of times.
pub open spec fn is_tail(t: Seq<char>) -> bool {
    &&& t.len() > 0 ==> t[0] == '/'
    &&& forall|i: int| 0 <= i < t.len() ==> (#[trigger] t[i]) == '/' || t[i] == '.'
    &&& forall|i: int| 0 < i < t.len() ==> (#[trigger] t[i]) == '.' ==> t[i - 1] == '/'
}

/// Whether `n` is one component of a path.
pub open spec fn is_component(n: Seq<char>) -> bool {
    n.len() > 0 && forall|i: int| 0 <= i < n.len() ==> (#[trigger] n[i]) != '/'
}

/// Whether a component may begin behind `a`.
pub open spec fn opens(a: Seq<char>) -> bool {
    a.len() > 0 ==> a.last() == '/'
}

/// Whether `n` is `.`.
pub open spec fn is_dot(n: Seq<char>) -> bool {
    n.len() == 1 && n[0] == '.'
}

/// Whether `n` is `..`.
pub open spec fn is_dots(n: Seq<char>) -> bool {
    n.len() == 2 && n[0] == '.' && n[1] == '.'
}

/// Whether `d` ends with the last character of a component.
pub open spec fn ends_in_component(d: Seq<char>) -> bool {
    &&& d.len() > 0
    &&& d.last() != '/'
    &&& !(d.len() >= 2 && d.last() == '.' && d[d.len() - 2] == '/')
}

/// Whether `s` ends with `.jar`, letter by letter, in any mix of cases.
pub open spec fn has_jar_end(s: Seq<char>) -> bool {
    &&& s.len() >= 4
    &&& s[s.len() - 4] == '.'
    &&& chars::same_but_case(s[s.len() - 3], 'j')
    &&& chars::same_but_case(s[s.len() - 2], 'a')
    &&& chars::same_but_case(s[s.len() - 1], 'r')
}

/// A name is that of a jar just when its last four characters are `.jar` but for
/// case; these are what is stripped, and nothing else is.
pub proof fn law_jar_suffix(s: Seq<char>)
    ensures
        path::ends_with_jar(s) <==> has_jar_end(s),
        has_jar_end(s) ==> path::without_jar(s) == s.take(s.len() - 4),
        !has_jar_end(s) ==> path::without_jar(s) == s,
{
    reveal_strlit(".jar");
    if s.len() >= 4 {
        let end = s.skip(s.len() - 4);
        chars::law_lower(end, ".jar"@);
        assert(text::ascii_lower(".jar"@) =~= ".jar"@);
        assert(end[0] == s[s.len() - 4] && end[1] == s[s.len() - 3] && end[2] == s[s.len() - 2]
            && end[3] == s[s.len() - 1]);
        if has_jar_end(s) {
            assert forall|i: int| 0 <= i < 4 implies chars::same_but_case(
                #[trigger] end[i],
                ".jar"@[i],
            ) by {
                assert(i == 0 || i == 1 || i == 2 || i == 3);
            }
            assert(chars::texts_same_but_case(end, ".jar"@));
        }
        if path::ends_with_jar(s) {
            assert(chars::texts_same_but_case(end, ".jar"@));
            assert(chars::same_but_case(end[0], ".jar"@[0]));
            assert(chars::same_but_case(end[1], ".jar"@[1]));
            assert(chars::same_but_case(end[2], ".jar"@[2]));
            assert(chars::same_but_case(end[3], ".jar"@[3]));
        }
    }
}

/// What names no component is stripped.
proof fn lemma_strip(d: Seq<char>, t: Seq<char>)
    requires
        ends_in_component(d) || d.len() == 0,
        is_tail(t),
    ensures
        path::strip_tail(d + t) == d,
    decreases t.len(),
{
    let s = d + t;
    if t.len() == 0 {
        assert(s =~= d);
    } else {
        let shorter = t.drop_last();
        assert(s.last() == t.last());
        assert(s.drop_last() =~= d + shorter);
        assert(t[t.len() - 1] == t.last());
        if t.last() == '.' {
            assert(t.len() >= 2);
            assert(t[t.len() - 2] == '/');
            assert(s[s.len() - 2] == t[t.len() - 2]);
        }
        assert forall|i: int| 0 <= i < shorter.len() implies (#[trigger] shorter[i]) == '/'
            || shorter[i] == '.' by {
            assert(shorter[i] == t[i]);
        }
        assert forall|i: int| 0 < i < shorter.len() && (#[trigger] shorter[i]) == '.' implies shorter[i
            - 1] == '/' by {
            assert(shorter[i] == t[i]);
        }
        lemma_strip(d, shorter);
    }
}

/// The last component is what follows the last `/`.
proof fn lemma_last(a: Seq<char>, n: Seq<char>)
    requires
        opens(a),
        forall|i: int| 0 <= i < n.len() ==> (#[trigger] n[i]) != '/',
    ensures
        path::last_len(a + n) == n.len(),
        path::after_slash(a + n) == n,
        path::up_to_slash(a + n) == a,
    decreases n.len(),
{
    let s = a + n;
    if n.len() == 0 {
        assert(s =~= a);
    } else {
        assert(s.last() == n[n.len() - 1]);
        assert(s.drop_last() =~= a + n.drop_last());
        assert forall|i: int| 0 <= i < n.drop_last().len() implies (#[trigger] n.drop_last()[i])
            != '/' by {
            assert(n.drop_last()[i] == n[i]);
        }
        lemma_last(a, n.drop_last());
    }
    assert(path::after_slash(s) =~= n);
    assert(path::up_to_slash(s) =~= a);
}

/// A component that is not `.` ends where it ends.
proof fn lemma_ends(a: Seq<char>, n: Seq<char>)
    requires
        opens(a),
        is_component(n),
        !is_dot(n) || a.len() == 0,
    ensures
        ends_in_component(a + n),
{
    let s = a + n;
    assert(s.last() == n[n.len() - 1]);
    if n.len() >= 2 {
        assert(s[s.len() - 2] == n[n.len() - 2]);
    }
}

/// The file name of a path is its last component, whatever stands before it, and
/// whatever names no component behind it. `..` is none, nor is `.` alone, nor are
/// the root and the empty path.
pub proof fn law_file_name(a: Seq<char>, n: Seq<char>, t: Seq<char>)
    requires
        opens(a),
        is_component(n),
        is_tail(t),
    ensures
        !is_dot(n) && !is_dots(n) ==> path::file_name_of(a + n + t) == Some(n),
        is_dots(n) ==> path::file_name_of(a + n + t) is None,
        is_dot(n) && a.len() == 0 ==> path::file_name_of(a + n + t) is None,
        path::file_name_of(t) is None,
{
    reveal_strlit(".");
    reveal_strlit("..");
    let none = Seq::<char>::empty();
    assert(none + t =~= t);
    lemma_strip(none, t);
    assert(path::after_slash(none) =~= none);
    if !is_dot(n) || a.len() == 0 {
        lemma_ends(a, n);
        lemma_strip(a + n, t);
        lemma_last(a, n);
        if is_dot(n) {
            assert(n =~= "."@);
        }
        if is_dots(n) {
            assert(n =~= ".."@);
        }
    }
}

/// The parent of a path is what stands before its last component, without what
/// separates them: nothing before a lone one, the root behind the root, and none of
/// the root and the empty path.
pub proof fn law_parent(d: Seq<char>, u: Seq<char>, n: Seq<char>, t: Seq<char>)
    requires
        is_tail(u),
        u.len() > 0,
        u.last() == '/',
        is_component(n),
        is_tail(t),
    ensures
        ends_in_component(d) && !is_dot(n) ==> path::parent_of(d + u + n + t) == Some(d),
        !is_dot(n) ==> path::parent_of(u + n + t) == Some(seq!['/']),
        path::parent_of(n + t) == Some(Seq::<char>::empty()),
        path::parent_of(t) is None,
{
    reveal_strlit("/");
    assert("/"@ =~= seq!['/']);
    let none = Seq::<char>::empty();
    assert(none + t =~= t);
    lemma_strip(none, t);
    assert(none + n =~= n);
    lemma_ends(none, n);
    lemma_strip(n, t);
    lemma_last(none, n);
    assert(path::strip_tail(none) == none);
    if !is_dot(n) {
        assert(none + u =~= u);
        lemma_strip(none, u);
        lemma_ends(u, n);
        lemma_strip(u + n, t);
        lemma_last(u, n);
        if ends_in_component(d) {
            let a = d + u;
            assert(a.last() == u.last());
            lemma_ends(a, n);
            lemma_strip(a + n, t);
            lemma_last(a, n);
            lemma_strip(d, u);
        }
    }
}

/// A path is joined to a directory with one `/` between them; one that begins with
/// `/` stands alone.
pub proof fn law_join(base: Seq<char>, name: Seq<char>)
    ensures
        name.len() > 0 && name[0] == '/' ==> path::joined(base, name) == name,
        !(name.len() > 0 && name[0] == '/') && base.len() > 0 && base.last() != '/'
            ==> path::joined(base, name) == base + seq!['/'] + name,
        !(name.len() > 0 && name[0] == '/') && opens(base) ==> path::joined(base, name) == base
            + name,
{
    assert(base.push('/') =~= base + seq!['/']);
}

/// An output is named after the last component of its input, without `.jar` where
/// that has it; an input without a file name gives its name as it is.
pub proof fn law_default_output(a: Seq<char>, n: Seq<char>, t: Seq<char>)
    requires
        opens(a),
        is_component(n),
        is_tail(t),
    ensures
        !is_dot(n) && !is_dots(n) ==> path::default_name(a + n + t) == (if has_jar_end(n) {
            n.take(n.len() - 4)
        } else {
            n
        }),
        is_dots(n) || (is_dot(n) && a.len() == 0) ==> path::default_name(a + n + t) == a + n + t,
        path::default_name(t) == t,
{
    law_file_name(a, n, t);
    law_jar_suffix(n);
    law_jar_suffix(t);
    let s = a + n + t;
    law_jar_suffix(s);
    if t.len() > 0 {
        assert(t[t.len() - 1] == '/' || t[t.len() - 1] == '.');
        assert(s.last() == t[t.len() - 1]);
    } else {
        assert(s =~= a + n);
        assert(s.last() == n[n.len() - 1]);
    }
}

} // verus!
