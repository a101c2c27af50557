//! Expansion of the shell constructs that a reference to a jar may hold: the
//! script's own directory, the install prefix, `~` and environment variables.
use vstd::prelude::*;
use crate::text;

verus! {

// ---------------------------------------------------------------------------
// The environment
// ---------------------------------------------------------------------------
/// The environment variables, as they were when they were read.
///
/// Its view maps names to values.
#[derive(Debug)]
pub struct Environment {
    vars: Vec<(String, String)>,
}

/// The names and values of `vars`; the first of two pairs with one name counts.
pub open spec fn bindings(vars: Seq<(String, String)>) -> Map<Seq<char>, Seq<char>>
    decreases vars.len(),
{
    if vars.len() == 0 {
        Map::empty()
    } else {
        bindings(vars.drop_first()).insert(vars[0].0@, vars[0].1@)
    }
}

impl View for Environment {
    type V = Map<Seq<char>, Seq<char>>;

    closed spec fn view(&self) -> Map<Seq<char>, Seq<char>> {
        bindings(self.vars@)
    }
}

impl Environment {
    /// The environment with the given names and values; the first of two pairs
    /// with one name counts.
    pub fn new(vars: Vec<(String, String)>) -> (r: Environment)
        ensures
            r@ == bindings(vars@),
    {
        Environment { vars }
    }

    /// The value of the variable `name`.
    pub fn get(&self, name: &str) -> (r: Option<&str>)
        ensures
            match r {
                Some(value) => self@.contains_key(name@) && self@[name@] == value@,
                None => !self@.contains_key(name@),
            },
    {
        let chars: Vec<char> = text::chars_of(name);
        self.lookup(chars.as_slice())
    }

    /// The value of the variable `name`.
    fn lookup(&self, name: &[char]) -> (r: Option<&str>)
        ensures
            match r {
                Some(value) => self@.contains_key(name@) && self@[name@] == value@,
                None => !self@.contains_key(name@),
            },
    {
        let mut i: usize = 0;
        let ghost all = self.vars@;
        assert(all.skip(0) == all);
        while i < self.vars.len()
            invariant
                i <= self.vars@.len(),
                all == self.vars@,
                self@.contains_key(name@) == bindings(all.skip(i as int)).contains_key(name@),
                self@.contains_key(name@) ==> self@[name@] == bindings(all.skip(i as int))[name@],
            decreases self.vars@.len() - i,
        {
            let key: Vec<char> = text::chars_of(self.vars[i].0.as_str());
            proof {
                assert(all.skip(i as int)[0] == all[i as int]);
                assert(all.skip(i as int).drop_first() == all.skip(i + 1));
            }
            if text::same_chars(key.as_slice(), name) {
                return Some(self.vars[i].1.as_str());
            }
            i = i + 1;
        }
        None
    }
}

// ---------------------------------------------------------------------------
// Variables
// ---------------------------------------------------------------------------
/// Whether `s` is a valid shell variable name.
pub open spec fn names_variable(s: Seq<char>) -> bool {
    &&& s.len() > 0
    &&& text::is_ascii_letter(s[0]) || s[0] == '_'
    &&& forall|i: int| 0 <= i < s.len() ==> text::is_name_char(#[trigger] s[i])
}

/// The length of the longest beginning of `s` made of letters, digits and `_`.
pub open spec fn name_len(s: Seq<char>) -> int
    decreases s.len(),
{
    if s.len() == 0 || !text::is_name_char(s[0]) {
        0
    } else {
        1 + name_len(s.drop_first())
    }
}

/// The reference to a variable that `s`, the text behind a `$`, begins with: the
/// variable's name and the length of the reference.
pub open spec fn reference(s: Seq<char>) -> Option<(Seq<char>, int)> {
    if s.len() > 0 && s[0] == '{' {
        match text::find_char_from(s, '}', 1) {
            Some(close) => if names_variable(s.subrange(1, close)) {
                Some((s.subrange(1, close), close + 1))
            } else {
                None
            },
            None => None,
        }
    } else if name_len(s) > 0 {
        Some((s.take(name_len(s)), name_len(s)))
    } else {
        None
    }
}

/// The value of the variable `name`, or nothing where it is not set.
pub open spec fn value_of(env: Map<Seq<char>, Seq<char>>, name: Seq<char>) -> Seq<char> {
    if env.contains_key(name) {
        env[name]
    } else {
        Seq::empty()
    }
}

/// `s` with each reference to a variable replaced by its value. A `$` that begins
/// no reference stays.
pub open spec fn expand_vars(s: Seq<char>, env: Map<Seq<char>, Seq<char>>) -> Seq<char>
    decreases s.len(),
{
    if s.len() == 0 {
        s
    } else {
        let after = s.drop_first();
        match reference(after) {
            Some((name, used)) if s[0] == '$' && 0 <= used <= after.len() => value_of(env, name)
                + expand_vars(after.skip(used), env),
            _ => seq![s[0]] + expand_vars(after, env),
        }
    }
}

/// Whether `name` is a valid shell variable name.
fn is_name(name: &[char]) -> (r: bool)
    ensures
        r == names_variable(name@),
{
    if name.len() == 0 {
        return false;
    }
    let first: char = name[0];
    if !(('A' <= first && first <= 'Z') || ('a' <= first && first <= 'z') || first == '_') {
        return false;
    }
    let mut i: usize = 0;
    while i < name.len()
        invariant
            i <= name@.len(),
            forall|j: int| 0 <= j < i ==> text::is_name_char(#[trigger] name@[j]),
        decreases name@.len() - i,
    {
        if !text::continues_name(name[i]) {
            return false;
        }
        i = i + 1;
    }
    true
}

/// Whether `name` is a valid shell variable name.
pub fn is_var_name(name: &str) -> (r: bool)
    ensures
        r == names_variable(name@),
{
    let chars: Vec<char> = text::chars_of(name);
    is_name(chars.as_slice())
}

/// The reference that `s`, the text behind a `$`, begins with: where the name
/// begins and ends, and where the reference ends.
fn find_reference(s: &[char]) -> (r: Option<(usize, usize, usize)>)
    ensures
        match r {
            Some((start, end, used)) => start <= end <= used <= s@.len() && reference(s@) == Some(
                (s@.subrange(start as int, end as int), used as int),
            ),
            None => reference(s@) is None,
        },
{
    if s.len() > 0 && s[0] == '{' {
        match text::find_char(s, '}', 1) {
            Some(close) => {
                if is_name(&s[1..close]) {
                    Some((1, close, close + 1))
                } else {
                    None
                }
            },
            None => None,
        }
    } else {
        let mut n: usize = 0;
        assert(s@.skip(0) == s@);
        while n < s.len() && text::continues_name(s[n])
            invariant
                n <= s@.len(),
                name_len(s@) == n + name_len(s@.skip(n as int)),
            decreases s@.len() - n,
        {
            assert(s@.skip(n as int).drop_first() == s@.skip(n + 1));
            n = n + 1;
        }
        assert(name_len(s@) == n);
        if n > 0 {
            assert(s@.subrange(0, n as int) == s@.take(n as int));
            Some((0, n, n))
        } else {
            None
        }
    }
}

/// `s` with each reference to a variable replaced by its value.
fn expand_refs(s: &[char], env: &Environment) -> (r: Vec<char>)
    ensures
        r@ == expand_vars(s@, env@),
{
    let mut out: Vec<char> = Vec::new();
    let mut i: usize = 0;
    assert(s@.skip(0) == s@);
    while i < s.len()
        invariant
            i <= s@.len(),
            expand_vars(s@, env@) =~= out@ + expand_vars(s@.skip(i as int), env@),
        decreases s@.len() - i,
    {
        let ghost rest = s@.skip(i as int);
        let ghost before = out@;
        let after: &[char] = &s[i + 1..s.len()];
        assert(after@ == rest.drop_first());
        let found: Option<(usize, usize, usize)> = if s[i] == '$' {
            find_reference(after)
        } else {
            None
        };
        match found {
            Some((start, end, used)) => {
                let name: &[char] = &after[start..end];
                if let Some(value) = env.lookup(name) {
                    let value_chars: Vec<char> = text::chars_of(value);
                    text::push_all(&mut out, value_chars.as_slice());
                }
                i = i + 1 + used;
                proof {
                    assert(after@.skip(used as int) == s@.skip(i as int));
                    assert(out@ =~= before + value_of(env@, name@));
                }
            },
            None => {
                out.push(s[i]);
                i = i + 1;
                proof {
                    assert(after@ == s@.skip(i as int));
                    assert(out@ =~= before + seq![rest[0]]);
                }
            },
        }
    }
    assert(s@.skip(i as int) =~= Seq::empty());
    out
}

/// Expands `$VAR` and `${VAR}` from the environment; unknown variables expand to
/// the empty string.
pub fn expand_env(s: &str, env: &Environment) -> (r: String)
    ensures
        r@ == expand_vars(s@, env@),
{
    let chars: Vec<char> = text::chars_of(s);
    text::text_of(expand_refs(chars.as_slice(), env).as_slice())
}

// ---------------------------------------------------------------------------
// Paths in scripts
// ---------------------------------------------------------------------------
/// The ways in which wrapper scripts refer to their own directory.
pub open spec fn script_dir_forms() -> Seq<Seq<char>> {
    seq![
        "$(cd \"$(dirname \"$0\")\" && pwd)"@,
        "$(dirname \"$0\")"@,
        "$(dirname $0)"@,
        "${0%/*}"@,
        "$SCRIPTPATH"@,
        "${SCRIPTPATH}"@,
        "$SCRIPT_DIR"@,
        "${SCRIPT_DIR}"@,
        "$DIR"@,
        "${DIR}"@,
        "$HERE"@,
        "${HERE}"@,
        "$here"@,
        "${here}"@,
    ]
}

/// Whether `s` begins with `form`. A form that ends with a name, such as `$DIR`,
/// must not be the beginning of a longer one, such as `$DIRECTORY`.
pub open spec fn begins_with_form(s: Seq<char>, form: Seq<char>) -> bool {
    form.is_prefix_of(s) && ends_with_form(form, s.skip(form.len() as int))
}

/// Whether `form` can end where `rest` follows.
pub open spec fn ends_with_form(form: Seq<char>, rest: Seq<char>) -> bool {
    form.len() > 0 && text::is_name_char(form.last()) ==> rest.len() == 0 || !text::is_name_char(
        rest[0],
    )
}

/// `s` with each place where `form` stands replaced by `with`, from the left.
pub open spec fn replace_form(s: Seq<char>, form: Seq<char>, with: Seq<char>) -> Seq<char>
    decreases s.len(),
{
    if s.len() == 0 || form.len() == 0 {
        s
    } else if begins_with_form(s, form) {
        with + replace_form(s.skip(form.len() as int), form, with)
    } else {
        seq![s[0]] + replace_form(s.drop_first(), form, with)
    }
}

/// `s` with each of `forms` replaced by `with`, one form after the other.
pub open spec fn replace_each(s: Seq<char>, forms: Seq<Seq<char>>, with: Seq<char>) -> Seq<char>
    decreases forms.len(),
{
    if forms.len() == 0 {
        s
    } else {
        replace_each(replace_form(s, forms[0], with), forms.drop_first(), with)
    }
}

/// The variables that stand for the install prefix, each with its braced and its
/// bare form.
pub open spec fn prefix_forms(name: Seq<char>) -> Seq<Seq<char>> {
    seq!["${"@ + name + "}"@, "$"@ + name]
}

/// `s` with `${name}` and `$name` replaced by `prefix`, unless the variable `name`
/// is set.
pub open spec fn fall_back(
    s: Seq<char>,
    name: Seq<char>,
    prefix: Seq<char>,
    env: Map<Seq<char>, Seq<char>>,
) -> Seq<char> {
    if env.contains_key(name) {
        s
    } else {
        replace_each(s, prefix_forms(name), prefix)
    }
}

/// `s` with the inferred install prefix in place of `PREFIX` and `CONDA_PREFIX`,
/// where there is one and the variable is not set.
pub open spec fn with_prefix(
    s: Seq<char>,
    prefix: Option<Seq<char>>,
    env: Map<Seq<char>, Seq<char>>,
) -> Seq<char> {
    match prefix {
        Some(prefix) => fall_back(
            fall_back(s, "PREFIX"@, prefix, env),
            "CONDA_PREFIX"@,
            prefix,
            env,
        ),
        None => s,
    }
}

/// `s` with the home directory in place of a leading `~`, where `s` begins with
/// `~/` and `HOME` is set.
pub open spec fn with_home(s: Seq<char>, env: Map<Seq<char>, Seq<char>>) -> Seq<char> {
    if "~/"@.is_prefix_of(s) && env.contains_key("HOME"@) {
        env["HOME"@] + "/"@ + s.skip(2)
    } else {
        s
    }
}

/// The path that `token`, written in a script in `base_dir`, stands for.
pub open spec fn expanded(
    token: Seq<char>,
    base_dir: Seq<char>,
    prefix: Option<Seq<char>>,
    env: Map<Seq<char>, Seq<char>>,
) -> Seq<char> {
    let here = replace_each(token, script_dir_forms(), base_dir);
    expand_vars(with_home(with_prefix(here, prefix, env), env), env)
}

/// The ways in which wrapper scripts refer to their own directory.
fn script_dir_patterns() -> (r: Vec<Vec<char>>)
    ensures
        text::texts(r@) == script_dir_forms(),
        forall|i: int| 0 <= i < r@.len() ==> (#[trigger] r@[i])@.len() > 0,
{
    proof {
        reveal_strlit("$(cd \"$(dirname \"$0\")\" && pwd)");
        reveal_strlit("$(dirname \"$0\")");
        reveal_strlit("$(dirname $0)");
        reveal_strlit("${0%/*}");
        reveal_strlit("$SCRIPTPATH");
        reveal_strlit("${SCRIPTPATH}");
        reveal_strlit("$SCRIPT_DIR");
        reveal_strlit("${SCRIPT_DIR}");
        reveal_strlit("$DIR");
        reveal_strlit("${DIR}");
        reveal_strlit("$HERE");
        reveal_strlit("${HERE}");
        reveal_strlit("$here");
        reveal_strlit("${here}");
    }
    let mut r: Vec<Vec<char>> = Vec::new();
    r.push(text::chars_of("$(cd \"$(dirname \"$0\")\" && pwd)"));
    r.push(text::chars_of("$(dirname \"$0\")"));
    r.push(text::chars_of("$(dirname $0)"));
    r.push(text::chars_of("${0%/*}"));
    r.push(text::chars_of("$SCRIPTPATH"));
    r.push(text::chars_of("${SCRIPTPATH}"));
    r.push(text::chars_of("$SCRIPT_DIR"));
    r.push(text::chars_of("${SCRIPT_DIR}"));
    r.push(text::chars_of("$DIR"));
    r.push(text::chars_of("${DIR}"));
    r.push(text::chars_of("$HERE"));
    r.push(text::chars_of("${HERE}"));
    r.push(text::chars_of("$here"));
    r.push(text::chars_of("${here}"));
    assert(text::texts(r@) =~= script_dir_forms());
    r
}

/// `s` with each place where `form` stands replaced by `with`.
fn replaced_form(s: &[char], form: &[char], with: &[char]) -> (r: Vec<char>)
    requires
        form@.len() > 0,
    ensures
        r@ == replace_form(s@, form@, with@),
{
    let is_open: bool = text::continues_name(form[form.len() - 1]);
    let mut out: Vec<char> = Vec::new();
    let mut i: usize = 0;
    assert(s@.skip(0) == s@);
    while i < s.len()
        invariant
            i <= s@.len(),
            form@.len() > 0,
            is_open == text::is_name_char(form@.last()),
            replace_form(s@, form@, with@) =~= out@ + replace_form(s@.skip(i as int), form@, with@),
        decreases s@.len() - i,
    {
        let ghost rest = s@.skip(i as int);
        let ghost before = out@;
        let n: usize = form.len();
        let stands: bool = text::stands_at(s, form, i) && !(is_open && s.len() - i > n
            && text::continues_name(s[i + n]));
        proof {
            if text::occurs_at(s@, form@, i as int) {
                assert(rest.subrange(0, form@.len() as int) =~= form@);
                if s@.len() - i > n {
                    assert(rest.skip(n as int)[0] == s@[i + n]);
                }
            }
            if form@.is_prefix_of(rest) {
                assert(s@.subrange(i as int, i + form@.len()) =~= form@);
            }
            assert(stands == begins_with_form(rest, form@));
        }
        if stands {
            text::push_all(&mut out, with);
            i = i + n;
            assert(rest.skip(n as int) == s@.skip(i as int));
        } else {
            out.push(s[i]);
            i = i + 1;
            proof {
                assert(rest.drop_first() == s@.skip(i as int));
                assert(out@ =~= before + seq![rest[0]]);
            }
        }
    }
    assert(s@.skip(i as int) =~= Seq::empty());
    out
}

/// `s` with each of `forms` replaced by `with`, one form after the other.
fn replaced_each(s: Vec<char>, forms: &Vec<Vec<char>>, with: &[char]) -> (r: Vec<char>)
    requires
        forall|i: int| 0 <= i < forms@.len() ==> (#[trigger] forms@[i])@.len() > 0,
    ensures
        r@ == replace_each(s@, text::texts(forms@), with@),
{
    let ghost all = text::texts(forms@);
    let mut out: Vec<char> = s;
    let mut i: usize = 0;
    assert(all.skip(0) == all);
    while i < forms.len()
        invariant
            i <= forms@.len(),
            all == text::texts(forms@),
            forall|j: int| 0 <= j < forms@.len() ==> (#[trigger] forms@[j])@.len() > 0,
            replace_each(s@, all, with@) == replace_each(out@, all.skip(i as int), with@),
        decreases forms@.len() - i,
    {
        proof {
            assert(all.skip(i as int)[0] == forms@[i as int]@);
            assert(all.skip(i as int).drop_first() == all.skip(i + 1));
        }
        out = replaced_form(out.as_slice(), forms[i].as_slice(), with);
        i = i + 1;
    }
    out
}

/// `s` with `${name}` and `$name` replaced by `prefix`, unless the variable `name`
/// is set.
fn fallen_back(s: Vec<char>, name: &str, prefix: &[char], env: &Environment) -> (r: Vec<char>)
    ensures
        r@ == fall_back(s@, name@, prefix@, env@),
{
    if env.get(name).is_some() {
        return s;
    }
    let name_chars: Vec<char> = text::chars_of(name);
    let mut braced: Vec<char> = text::chars_of("${");
    text::push_all(&mut braced, name_chars.as_slice());
    let closing: Vec<char> = text::chars_of("}");
    text::push_all(&mut braced, closing.as_slice());
    let mut bare: Vec<char> = text::chars_of("$");
    text::push_all(&mut bare, name_chars.as_slice());
    proof {
        reveal_strlit("${");
        reveal_strlit("$");
    }
    let mut forms: Vec<Vec<char>> = Vec::new();
    forms.push(braced);
    forms.push(bare);
    assert(text::texts(forms@) =~= prefix_forms(name@));
    replaced_each(s, &forms, prefix)
}

/// The text that `o` holds, by its view.
pub open spec fn opt_text(o: Option<&str>) -> Option<Seq<char>> {
    match o {
        Some(s) => Some(s@),
        None => None,
    }
}

/// Expands script-relative constructs, `~`, conda prefix variables, and any other
/// `$VAR`/`${VAR}` references in a candidate path.
pub fn expand(token: &str, base_dir: &str, prefix_hint: Option<&str>, env: &Environment) -> (r:
    String)
    ensures
        r@ == expanded(token@, base_dir@, opt_text(prefix_hint), env@),
{
    let base: Vec<char> = text::chars_of(base_dir);
    let mut s: Vec<char> = replaced_each(
        text::chars_of(token),
        &script_dir_patterns(),
        base.as_slice(),
    );
    if let Some(hint) = prefix_hint {
        let prefix: Vec<char> = text::chars_of(hint);
        s = fallen_back(s, "PREFIX", prefix.as_slice(), env);
        s = fallen_back(s, "CONDA_PREFIX", prefix.as_slice(), env);
    }
    let tilde: Vec<char> = text::chars_of("~/");
    if text::begins_with(s.as_slice(), tilde.as_slice()) {
        proof {
            reveal_strlit("~/");
        }
        if let Some(home) = env.get("HOME") {
            let mut out: Vec<char> = text::chars_of(home);
            let slash: Vec<char> = text::chars_of("/");
            text::push_all(&mut out, slash.as_slice());
            text::push_all(&mut out, &s.as_slice()[2..s.len()]);
            s = out;
        }
    }
    text::text_of(expand_refs(s.as_slice(), env).as_slice())
}

// ---------------------------------------------------------------------------
// Laws
// ---------------------------------------------------------------------------
/// A text without `$` holds no reference: expansion leaves it as it is.
pub proof fn law_no_reference(s: Seq<char>, env: Map<Seq<char>, Seq<char>>)
    requires
        !s.contains('$'),
    ensures
        expand_vars(s, env) == s,
    decreases s.len(),
{
    if s.len() > 0 {
        let after = s.drop_first();
        assert(s.contains(s[0]));
        assert forall|i: int| 0 <= i < after.len() implies after[i] != '$' by {
            assert(s.contains(s[i + 1]));
        }
        law_no_reference(after, env);
        assert(seq![s[0]] + after =~= s);
    }
}

/// A name is as long as it says.
proof fn lemma_name_len(name: Seq<char>, rest: Seq<char>)
    requires
        forall|i: int| 0 <= i < name.len() ==> text::is_name_char(#[trigger] name[i]),
        rest.len() == 0 || !text::is_name_char(rest[0]),
    ensures
        name_len(name + rest) == name.len(),
    decreases name.len(),
{
    let s = name + rest;
    if name.len() == 0 {
        assert(s =~= rest);
    } else {
        assert(s[0] == name[0]);
        assert(s.drop_first() =~= name.drop_first() + rest);
        lemma_name_len(name.drop_first(), rest);
    }
}

/// `$NAME` and `${NAME}` both stand for the value of the variable, and for nothing
/// where it is not set; what follows is expanded on its own. (A bare name ends
/// where no further name character follows.)
pub proof fn law_reference(name: Seq<char>, rest: Seq<char>, env: Map<Seq<char>, Seq<char>>)
    requires
        names_variable(name),
    ensures
        expand_vars("${"@ + name + "}"@ + rest, env) == value_of(env, name) + expand_vars(
            rest,
            env,
        ),
        rest.len() == 0 || !text::is_name_char(rest[0]) ==> expand_vars("$"@ + name + rest, env)
            == value_of(env, name) + expand_vars(rest, env),
{
    reveal_strlit("${");
    reveal_strlit("}");
    reveal_strlit("$");
    let braced = "${"@ + name + "}"@ + rest;
    let after = braced.drop_first();
    let close = 1 + name.len() as int;
    assert(after[0] == '{');
    assert forall|j: int| 1 <= j < close implies after[j] != '}' by {
        assert(after[j] == name[j - 1]);
    }
    assert(after[close] == '}');
    text::lemma_find_char_from(after, '}', 1);
    assert(text::find_char_from(after, '}', 1) == Some(close));
    assert(after.subrange(1, close) =~= name);
    assert(after.skip(close + 1) =~= rest);
    if rest.len() == 0 || !text::is_name_char(rest[0]) {
        let bare = "$"@ + name + rest;
        let tail = bare.drop_first();
        assert(tail =~= name + rest);
        assert(tail[0] == name[0]);
        lemma_name_len(name, rest);
        assert(tail.take(name.len() as int) =~= name);
        assert(tail.skip(name.len() as int) =~= rest);
    }
}

/// Where a form stands nowhere, there is nothing to replace.
proof fn lemma_form_nowhere(s: Seq<char>, form: Seq<char>, with: Seq<char>)
    requires
        forall|a: int| 0 <= a < s.len() ==> !begins_with_form(#[trigger] s.skip(a), form),
    ensures
        replace_form(s, form, with) == s,
    decreases s.len(),
{
    if s.len() > 0 && form.len() > 0 {
        let rest = s.drop_first();
        assert(s.skip(0) =~= s);
        assert forall|a: int| 0 <= a < rest.len() implies !begins_with_form(
            #[trigger] rest.skip(a),
            form,
        ) by {
            assert(rest.skip(a) =~= s.skip(a + 1));
        }
        lemma_form_nowhere(rest, form, with);
        assert(seq![s[0]] + rest =~= s);
    }
}

/// Where the text of a form stands nowhere, there is nothing to replace.
pub proof fn lemma_form_absent(s: Seq<char>, form: Seq<char>, with: Seq<char>)
    requires
        !text::contains(s, form),
    ensures
        replace_form(s, form, with) == s,
{
    assert forall|a: int| 0 <= a < s.len() implies !begins_with_form(#[trigger] s.skip(a), form) by {
        if form.is_prefix_of(s.skip(a)) {
            assert(s.subrange(a, a + form.len()) =~= s.skip(a).subrange(0, form.len() as int));
            assert(text::occurs_at(s, form, a));
        }
    }
    lemma_form_nowhere(s, form, with);
}

/// A beginning in which the first character of a form does not occur is kept.
pub proof fn lemma_form_keeps_head(
    head: Seq<char>,
    rest: Seq<char>,
    form: Seq<char>,
    with: Seq<char>,
)
    requires
        form.len() > 0,
        !head.contains(form[0]),
    ensures
        replace_form(head + rest, form, with) == head + replace_form(rest, form, with),
    decreases head.len(),
{
    let s = head + rest;
    if head.len() == 0 {
        assert(s =~= rest);
        assert(head + replace_form(rest, form, with) =~= replace_form(rest, form, with));
    } else {
        assert(head.contains(head[0]));
        if form.is_prefix_of(s) {
            assert(form[0] == s.subrange(0, form.len() as int)[0]);
            assert(s[0] == head[0]);
        }
        let tail = head.drop_first();
        assert(s.drop_first() =~= tail + rest);
        assert forall|i: int| 0 <= i < tail.len() implies tail[i] != form[0] by {
            assert(head.contains(head[i + 1]));
        }
        lemma_form_keeps_head(tail, rest, form, with);
        assert(replace_form(s, form, with) =~= head + replace_form(rest, form, with));
    }
}

/// Replacing what begins with `$` changes nothing in a text without `$`.
pub proof fn lemma_replace_dollar(s: Seq<char>, forms: Seq<Seq<char>>, with: Seq<char>)
    requires
        !s.contains('$'),
        forall|i: int|
            0 <= i < forms.len() ==> (#[trigger] forms[i]).len() > 0 && forms[i][0] == '$',
    ensures
        replace_each(s, forms, with) == s,
    decreases forms.len(),
{
    if forms.len() > 0 {
        let none = Seq::<char>::empty();
        assert(s + none =~= s);
        lemma_form_keeps_head(s, none, forms[0], with);
        assert(replace_form(s, forms[0], with) =~= s);
        assert forall|i: int| 0 <= i < forms.drop_first().len() implies (
        #[trigger] forms.drop_first()[i]).len() > 0 && forms.drop_first()[i][0] == '$' by {
            assert(forms.drop_first()[i] == forms[i + 1]);
        }
        lemma_replace_dollar(s, forms.drop_first(), with);
    }
}

/// The forms of the script's directory begin with `$`.
pub proof fn lemma_script_dir_forms()
    ensures
        script_dir_forms().len() == 14,
        forall|i: int|
            0 <= i < 14 ==> (#[trigger] script_dir_forms()[i]).len() > 0
                && script_dir_forms()[i][0] == '$',
{
    reveal_strlit("$(cd \"$(dirname \"$0\")\" && pwd)");
    reveal_strlit("$(dirname \"$0\")");
    reveal_strlit("$(dirname $0)");
    reveal_strlit("${0%/*}");
    reveal_strlit("$SCRIPTPATH");
    reveal_strlit("${SCRIPTPATH}");
    reveal_strlit("$SCRIPT_DIR");
    reveal_strlit("${SCRIPT_DIR}");
    reveal_strlit("$DIR");
    reveal_strlit("${DIR}");
    reveal_strlit("$HERE");
    reveal_strlit("${HERE}");
    reveal_strlit("$here");
    reveal_strlit("${here}");
}

/// The install prefix has no say in a text without `$`.
proof fn lemma_with_prefix(
    s: Seq<char>,
    prefix: Option<Seq<char>>,
    env: Map<Seq<char>, Seq<char>>,
)
    requires
        !s.contains('$'),
    ensures
        with_prefix(s, prefix, env) == s,
{
    reveal_strlit("${");
    reveal_strlit("$");
    if let Some(with) = prefix {
        lemma_replace_dollar(s, prefix_forms("PREFIX"@), with);
        lemma_replace_dollar(s, prefix_forms("CONDA_PREFIX"@), with);
    }
}

/// A path without `$` that does not begin with `~/` stands for itself, whatever
/// the environment and wherever the script is.
pub proof fn law_plain_path(
    token: Seq<char>,
    base_dir: Seq<char>,
    prefix: Option<Seq<char>>,
    env: Map<Seq<char>, Seq<char>>,
)
    requires
        !token.contains('$'),
        !"~/"@.is_prefix_of(token),
    ensures
        expanded(token, base_dir, prefix, env) == token,
{
    lemma_script_dir_forms();
    lemma_replace_dollar(token, script_dir_forms(), base_dir);
    lemma_with_prefix(token, prefix, env);
    law_no_reference(token, env);
}

/// A path under `~/` without `$` stands for one in the home directory.
pub proof fn law_home(
    rest: Seq<char>,
    base_dir: Seq<char>,
    prefix: Option<Seq<char>>,
    env: Map<Seq<char>, Seq<char>>,
)
    requires
        !rest.contains('$'),
        env.contains_key("HOME"@),
        !env["HOME"@].contains('$'),
    ensures
        expanded("~/"@ + rest, base_dir, prefix, env) == env["HOME"@] + "/"@ + rest,
{
    reveal_strlit("~/");
    reveal_strlit("/");
    let token = "~/"@ + rest;
    assert forall|i: int| 0 <= i < token.len() implies token[i] != '$' by {
        if i >= 2 {
            assert(rest.contains(rest[i - 2]));
        }
    }
    lemma_script_dir_forms();
    lemma_replace_dollar(token, script_dir_forms(), base_dir);
    lemma_with_prefix(token, prefix, env);
    assert(token.skip(2) =~= rest);
    assert(token.subrange(0, 2) =~= "~/"@);
    let home = env["HOME"@];
    let path = home + "/"@ + rest;
    assert forall|i: int| 0 <= i < path.len() implies path[i] != '$' by {
        if i < home.len() {
            assert(home.contains(home[i]));
        } else if i > home.len() {
            assert(rest.contains(rest[i - home.len() - 1]));
        }
    }
    law_no_reference(path, env);
}

/// Where two forms of the script's directory differ.
spec fn form_difference(i: int, j: int) -> int {
    if script_dir_forms()[i][1] != script_dir_forms()[j][1] {
        1
    } else if script_dir_forms()[i][2] != script_dir_forms()[j][2] {
        2
    } else if i == 2 {
        10
    } else if i == 6 {
        7
    } else {
        8
    }
}

/// No form of the script's directory begins with an earlier one.
proof fn lemma_forms_differ(i: int, j: int)
    requires
        0 <= j < i < 14,
    ensures
        ({
            let k = form_difference(i, j);
            &&& k < script_dir_forms()[i].len()
            &&& k < script_dir_forms()[j].len()
            &&& script_dir_forms()[i][k] != script_dir_forms()[j][k]
        }),
{
    reveal_strlit("$(cd \"$(dirname \"$0\")\" && pwd)");
    reveal_strlit("$(dirname \"$0\")");
    reveal_strlit("$(dirname $0)");
    reveal_strlit("${0%/*}");
    reveal_strlit("$SCRIPTPATH");
    reveal_strlit("${SCRIPTPATH}");
    reveal_strlit("$SCRIPT_DIR");
    reveal_strlit("${SCRIPT_DIR}");
    reveal_strlit("$DIR");
    reveal_strlit("${DIR}");
    reveal_strlit("$HERE");
    reveal_strlit("${HERE}");
    reveal_strlit("$here");
    reveal_strlit("${here}");
}

/// Where a form of the script's directory has a `$` that is not its first
/// character, no form begins.
proof fn lemma_form_dollars(i: int, a: int)
    requires
        0 < i < 14,
        0 < a < script_dir_forms()[i].len(),
        script_dir_forms()[i][a] == '$',
    ensures
        a + 1 < script_dir_forms()[i].len(),
        forall|j: int|
            0 <= j < i ==> (#[trigger] script_dir_forms()[j]).len() > 1
                && script_dir_forms()[j][1] != script_dir_forms()[i][a + 1],
{
    reveal_strlit("$(cd \"$(dirname \"$0\")\" && pwd)");
    reveal_strlit("$(dirname \"$0\")");
    reveal_strlit("$(dirname $0)");
    reveal_strlit("${0%/*}");
    reveal_strlit("$SCRIPTPATH");
    reveal_strlit("${SCRIPTPATH}");
    reveal_strlit("$SCRIPT_DIR");
    reveal_strlit("${SCRIPT_DIR}");
    reveal_strlit("$DIR");
    reveal_strlit("${DIR}");
    reveal_strlit("$HERE");
    reveal_strlit("${HERE}");
    reveal_strlit("$here");
    reveal_strlit("${here}");
}

/// A form of the script's directory holds no earlier one.
proof fn lemma_form_kept(i: int, j: int, rest: Seq<char>)
    requires
        0 <= j < i < 14,
        !rest.contains('$'),
    ensures
        !text::contains(script_dir_forms()[i] + rest, script_dir_forms()[j]),
{
    let form = script_dir_forms()[i];
    let s = form + rest;
    let p = script_dir_forms()[j];
    lemma_script_dir_forms();
    lemma_forms_differ(i, j);
    assert forall|a: int| !text::occurs_at(s, p, a) by {
        if text::occurs_at(s, p, a) {
            let part = s.subrange(a, a + p.len());
            assert(part[0] == s[a]);
            if a >= form.len() {
                assert(rest.contains(rest[a - form.len()]));
            } else if a > 0 {
                lemma_form_dollars(i, a);
                assert(part[1] == s[a + 1]);
                assert(script_dir_forms()[j][1] != form[a + 1]);
            } else {
                let k = form_difference(i, j);
                assert(part[k] == s[k]);
            }
        }
    }
}

/// No earlier form begins inside a form of the script's directory, whatever follows
/// that.
pub proof fn lemma_form_skipped(i: int, j: int, a: int, rest: Seq<char>, with: Seq<char>)
    requires
        0 <= j < i < 14,
        0 <= a <= script_dir_forms()[i].len(),
    ensures
        replace_form(script_dir_forms()[i].skip(a) + rest, script_dir_forms()[j], with)
            == script_dir_forms()[i].skip(a) + replace_form(rest, script_dir_forms()[j], with),
    decreases script_dir_forms()[i].len() - a,
{
    let form = script_dir_forms()[i];
    let p = script_dir_forms()[j];
    let s = form.skip(a) + rest;
    lemma_script_dir_forms();
    lemma_forms_differ(i, j);
    if a == form.len() {
        assert(s =~= rest);
        assert(form.skip(a) + replace_form(rest, p, with) =~= replace_form(rest, p, with));
    } else {
        assert(s[0] == form[a]);
        if p.is_prefix_of(s) {
            assert(p[0] == s[0]);
            if a > 0 {
                lemma_form_dollars(i, a);
                assert(p[1] == s[1]);
                assert(s[1] == form[a + 1]);
            } else {
                let k = form_difference(i, j);
                assert(p[k] == s[k]);
                assert(s[k] == form[k]);
            }
        }
        lemma_form_skipped(i, j, a + 1, rest, with);
        assert(s.drop_first() =~= form.skip(a + 1) + rest);
        assert(seq![form[a]] + form.skip(a + 1) =~= form.skip(a));
        assert(replace_form(s, p, with) =~= form.skip(a) + replace_form(rest, p, with));
    }
}

/// A form of the script's directory is left as it is by all the earlier ones, and
/// then replaced.
pub proof fn lemma_form_replaced(i: int, j: int, rest: Seq<char>, with: Seq<char>)
    requires
        0 <= j <= i < 14,
        ends_with_form(script_dir_forms()[i], rest),
        !rest.contains('$'),
        !with.contains('$'),
    ensures
        replace_each(script_dir_forms()[i] + rest, script_dir_forms().skip(j), with) == with + rest,
    decreases i - j,
{
    let all = script_dir_forms();
    let s = all[i] + rest;
    lemma_script_dir_forms();
    assert(all.skip(j)[0] == all[j]);
    assert(all.skip(j).drop_first() =~= all.skip(j + 1));
    if j < i {
        lemma_form_kept(i, j, rest);
        lemma_form_absent(s, all[j], with);
        lemma_form_replaced(i, j + 1, rest, with);
    } else {
        let none = Seq::<char>::empty();
        assert(rest + none =~= rest);
        lemma_form_keeps_head(rest, none, all[i], with);
        assert(s.subrange(0, all[i].len() as int) =~= all[i]);
        assert(s.skip(all[i].len() as int) =~= rest);
        assert(replace_form(s, all[i], with) =~= with + rest);
        assert forall|k: int| 0 <= k < (with + rest).len() implies (with + rest)[k] != '$' by {
            if k < with.len() {
                assert(with.contains(with[k]));
            } else {
                assert(rest.contains(rest[k - with.len()]));
            }
        }
        assert forall|k: int| 0 <= k < all.skip(j + 1).len() implies (
        #[trigger] all.skip(j + 1)[k]).len() > 0 && all.skip(j + 1)[k][0] == '$' by {
            assert(all.skip(j + 1)[k] == all[j + 1 + k]);
        }
        lemma_replace_dollar(with + rest, all.skip(j + 1), with);
    }
}

/// Each form of the script's directory stands for it: a path that begins with one
/// is the path in that directory. (A bare name ends where no further name
/// character follows.)
pub proof fn law_script_dir(
    i: int,
    rest: Seq<char>,
    base_dir: Seq<char>,
    prefix: Option<Seq<char>>,
    env: Map<Seq<char>, Seq<char>>,
)
    requires
        0 <= i < script_dir_forms().len(),
        ends_with_form(script_dir_forms()[i], rest),
        !rest.contains('$'),
        !base_dir.contains('$'),
        !"~/"@.is_prefix_of(base_dir + rest),
    ensures
        expanded(script_dir_forms()[i] + rest, base_dir, prefix, env) == base_dir + rest,
{
    let path = base_dir + rest;
    lemma_script_dir_forms();
    lemma_form_replaced(i, 0, rest, base_dir);
    assert(script_dir_forms().skip(0) =~= script_dir_forms());
    assert forall|k: int| 0 <= k < path.len() implies path[k] != '$' by {
        if k < base_dir.len() {
            assert(base_dir.contains(base_dir[k]));
        } else {
            assert(rest.contains(rest[k - base_dir.len()]));
        }
    }
    lemma_with_prefix(path, prefix, env);
    law_no_reference(path, env);
}

/// Whether `s` has a `$` at its beginning and nowhere else.
spec fn has_one_dollar(s: Seq<char>) -> bool {
    &&& s.len() > 0
    &&& s[0] == '$'
    &&& forall|i: int| 0 < i < s.len() ==> s[i] != '$'
}

/// Whether `p` begins with `$` and differs from `s` in one of the next two
/// characters.
spec fn differs_early(p: Seq<char>, s: Seq<char>) -> bool {
    &&& p.len() > 2
    &&& s.len() > 2
    &&& p[0] == '$'
    &&& p[1] != s[1] || p[2] != s[2]
}

/// What differs from `s` early does not occur in it.
proof fn lemma_differs_early(s: Seq<char>, forms: Seq<Seq<char>>, with: Seq<char>)
    requires
        has_one_dollar(s),
        forall|i: int| 0 <= i < forms.len() ==> differs_early(#[trigger] forms[i], s),
    ensures
        replace_each(s, forms, with) == s,
    decreases forms.len(),
{
    if forms.len() > 0 {
        let p = forms[0];
        assert(differs_early(p, s));
        assert forall|a: int| !text::occurs_at(s, p, a) by {
            if text::occurs_at(s, p, a) {
                let part = s.subrange(a, a + p.len());
                assert(part[0] == s[a]);
                assert(part[1] == s[a + 1]);
                assert(part[2] == s[a + 2]);
            }
        }
        lemma_form_absent(s, p, with);
        assert forall|i: int| 0 <= i < forms.drop_first().len() implies differs_early(
            #[trigger] forms.drop_first()[i],
            s,
        ) by {
            assert(forms.drop_first()[i] == forms[i + 1]);
        }
        lemma_differs_early(s, forms.drop_first(), with);
    }
}

/// The forms of the script's directory differ early from those of the prefix.
proof fn lemma_prefix_forms(name: Seq<char>, i: int, rest: Seq<char>)
    requires
        name == "PREFIX"@ || name == "CONDA_PREFIX"@,
        0 <= i < 2,
        !rest.contains('$'),
    ensures
        has_one_dollar(prefix_forms(name)[i] + rest),
        forall|j: int|
            0 <= j < 14 ==> differs_early(
                #[trigger] script_dir_forms()[j],
                prefix_forms(name)[i] + rest,
            ),
        name == "CONDA_PREFIX"@ ==> forall|j: int|
            0 <= j < 2 ==> differs_early(
                #[trigger] prefix_forms("PREFIX"@)[j],
                prefix_forms(name)[i] + rest,
            ),
        i == 1 ==> differs_early(prefix_forms(name)[0], prefix_forms(name)[i] + rest),
{
    reveal_strlit("PREFIX");
    reveal_strlit("CONDA_PREFIX");
    reveal_strlit("${");
    reveal_strlit("}");
    reveal_strlit("$");
    reveal_strlit("$(cd \"$(dirname \"$0\")\" && pwd)");
    reveal_strlit("$(dirname \"$0\")");
    reveal_strlit("$(dirname $0)");
    reveal_strlit("${0%/*}");
    reveal_strlit("$SCRIPTPATH");
    reveal_strlit("${SCRIPTPATH}");
    reveal_strlit("$SCRIPT_DIR");
    reveal_strlit("${SCRIPT_DIR}");
    reveal_strlit("$DIR");
    reveal_strlit("${DIR}");
    reveal_strlit("$HERE");
    reveal_strlit("${HERE}");
    reveal_strlit("$here");
    reveal_strlit("${here}");
    let form = prefix_forms(name)[i];
    let s = form + rest;
    assert forall|k: int| 0 < k < s.len() implies s[k] != '$' by {
        if k >= form.len() {
            assert(rest.contains(rest[k - form.len()]));
        }
    }
}

/// `${name}` and `$name` stand for the prefix, where it is fallen back on.
proof fn lemma_fall_back(name: Seq<char>, i: int, rest: Seq<char>, prefix: Seq<char>)
    requires
        name == "PREFIX"@ || name == "CONDA_PREFIX"@,
        0 <= i < 2,
        ends_with_form(prefix_forms(name)[i], rest),
        !rest.contains('$'),
        !prefix.contains('$'),
    ensures
        replace_each(prefix_forms(name)[i] + rest, prefix_forms(name), prefix) == prefix + rest,
        !(prefix + rest).contains('$'),
{
    let forms = prefix_forms(name);
    let s = forms[i] + rest;
    lemma_prefix_forms(name, i, rest);
    let none = Seq::<char>::empty();
    assert(rest + none =~= rest);
    assert(forms[i][0] == s[0]);
    lemma_form_keeps_head(rest, none, forms[i], prefix);
    assert(s.subrange(0, forms[i].len() as int) =~= forms[i]);
    assert(s.skip(forms[i].len() as int) =~= rest);
    assert(replace_form(s, forms[i], prefix) =~= prefix + rest);
    assert forall|k: int| 0 <= k < (prefix + rest).len() implies (prefix + rest)[k] != '$' by {
        if k < prefix.len() {
            assert(prefix.contains(prefix[k]));
        } else {
            assert(rest.contains(rest[k - prefix.len()]));
        }
    }
    reveal_strlit("$");
    reveal_with_fuel(replace_each, 3);
    let last = seq![forms[1]];
    assert(forms.drop_first() =~= last);
    assert(last.drop_first() =~= Seq::empty());
    if i == 0 {
        lemma_replace_dollar(prefix + rest, last, prefix);
    } else {
        let first = seq![forms[0]];
        assert(first.drop_first() =~= Seq::empty());
        lemma_differs_early(s, first, prefix);
        assert(replace_each(s, first, prefix) == replace_form(s, forms[0], prefix));
    }
}

/// `$PREFIX` and `$CONDA_PREFIX`, bare or braced, stand for the inferred install
/// prefix when the variable is not set in the environment.
pub proof fn law_install_prefix(
    name: Seq<char>,
    i: int,
    rest: Seq<char>,
    base_dir: Seq<char>,
    prefix: Seq<char>,
    env: Map<Seq<char>, Seq<char>>,
)
    requires
        name == "PREFIX"@ || name == "CONDA_PREFIX"@,
        !env.contains_key(name),
        0 <= i < prefix_forms(name).len(),
        ends_with_form(prefix_forms(name)[i], rest),
        !rest.contains('$'),
        !prefix.contains('$'),
        !"~/"@.is_prefix_of(prefix + rest),
    ensures
        expanded(prefix_forms(name)[i] + rest, base_dir, Some(prefix), env) == prefix + rest,
{
    lemma_prefix_replaced(name, i, rest, base_dir, prefix, env);
    law_no_reference(prefix + rest, env);
}

/// A form of the install prefix is left as it is by those of the script's
/// directory, and then replaced.
pub proof fn lemma_prefix_replaced(
    name: Seq<char>,
    i: int,
    rest: Seq<char>,
    base_dir: Seq<char>,
    prefix: Seq<char>,
    env: Map<Seq<char>, Seq<char>>,
)
    requires
        name == "PREFIX"@ || name == "CONDA_PREFIX"@,
        !env.contains_key(name),
        0 <= i < prefix_forms(name).len(),
        ends_with_form(prefix_forms(name)[i], rest),
        !rest.contains('$'),
        !prefix.contains('$'),
    ensures
        replace_each(prefix_forms(name)[i] + rest, script_dir_forms(), base_dir) == prefix_forms(
            name,
        )[i] + rest,
        with_prefix(prefix_forms(name)[i] + rest, Some(prefix), env) == prefix + rest,
        !(prefix + rest).contains('$'),
{
    let s = prefix_forms(name)[i] + rest;
    lemma_prefix_forms(name, i, rest);
    lemma_script_dir_forms();
    lemma_differs_early(s, script_dir_forms(), base_dir);
    lemma_fall_back(name, i, rest, prefix);
    if name == "PREFIX"@ {
        reveal_strlit("${");
        reveal_strlit("$");
        lemma_replace_dollar(prefix + rest, prefix_forms("CONDA_PREFIX"@), prefix);
    } else {
        lemma_differs_early(s, prefix_forms("PREFIX"@), prefix);
    }
}

/// The names by which wrapper scripts refer to their own directory.
pub open spec fn script_dir_names() -> Seq<Seq<char>> {
    seq!["SCRIPTPATH"@, "SCRIPT_DIR"@, "DIR"@, "HERE"@, "here"@]
}

/// Whether a reference to `name` is expanded before the environment is asked: to
/// the script's directory, or to the install prefix.
pub open spec fn is_own_name(
    name: Seq<char>,
    prefix: Option<Seq<char>>,
    env: Map<Seq<char>, Seq<char>>,
) -> bool {
    ||| script_dir_names().contains(name)
    ||| prefix is Some && !env.contains_key(name) && (name == "PREFIX"@ || name == "CONDA_PREFIX"@)
}

/// Whether `form` refers to the variable `name`, bare or in braces.
spec fn refers_to(form: Seq<char>, name: Seq<char>) -> bool {
    names_variable(name) && (form == "$"@ + name || form == "${"@ + name + "}"@)
}

/// Whether `form` is no reference to a variable: `$(..)` or `${0..}`.
spec fn refers_to_none(form: Seq<char>) -> bool {
    &&& form.len() > 2
    &&& form[0] == '$'
    &&& form[1] == '(' || (form[1] == '{' && form[2] == '0')
}

/// What the forms of the script's directory refer to.
proof fn lemma_script_forms_refer(j: int)
    requires
        0 <= j < 14,
    ensures
        refers_to_none(script_dir_forms()[j]) || (exists|k: int|
            0 <= k < 5 && refers_to(script_dir_forms()[j], #[trigger] script_dir_names()[k])),
{
    reveal_strlit("$(cd \"$(dirname \"$0\")\" && pwd)");
    reveal_strlit("$(dirname \"$0\")");
    reveal_strlit("$(dirname $0)");
    reveal_strlit("${0%/*}");
    reveal_strlit("$SCRIPTPATH");
    reveal_strlit("${SCRIPTPATH}");
    reveal_strlit("$SCRIPT_DIR");
    reveal_strlit("${SCRIPT_DIR}");
    reveal_strlit("$DIR");
    reveal_strlit("${DIR}");
    reveal_strlit("$HERE");
    reveal_strlit("${HERE}");
    reveal_strlit("$here");
    reveal_strlit("${here}");
    reveal_strlit("SCRIPTPATH");
    reveal_strlit("SCRIPT_DIR");
    reveal_strlit("DIR");
    reveal_strlit("HERE");
    reveal_strlit("here");
    reveal_strlit("$");
    reveal_strlit("${");
    reveal_strlit("}");
    let forms = script_dir_forms();
    let names = script_dir_names();
    assert(forms[4] =~= "$"@ + names[0]);
    assert(forms[5] =~= "${"@ + names[0] + "}"@);
    assert(forms[6] =~= "$"@ + names[1]);
    assert(forms[7] =~= "${"@ + names[1] + "}"@);
    assert(forms[8] =~= "$"@ + names[2]);
    assert(forms[9] =~= "${"@ + names[2] + "}"@);
    assert(forms[10] =~= "$"@ + names[3]);
    assert(forms[11] =~= "${"@ + names[3] + "}"@);
    assert(forms[12] =~= "$"@ + names[4]);
    assert(forms[13] =~= "${"@ + names[4] + "}"@);
    if j >= 4 {
        assert(refers_to(forms[j], names[(j - 4) / 2]));
    }
}

/// A form that does not refer to `name` leaves a reference to it as it is, with no
/// further `$` around it.
proof fn lemma_other_kept(
    head: Seq<char>,
    shown: Seq<char>,
    name: Seq<char>,
    rest: Seq<char>,
    form: Seq<char>,
    with: Seq<char>,
)
    requires
        names_variable(name),
        refers_to(shown, name),
        ends_with_form(shown, rest),
        !head.contains('$'),
        !rest.contains('$'),
        refers_to_none(form) || (exists|n: Seq<char>| n != name && refers_to(form, n)),
    ensures
        replace_form(head + shown + rest, form, with) == head + shown + rest,
{
    reveal_strlit("$");
    reveal_strlit("${");
    reveal_strlit("}");
    let s = head + shown + rest;
    let h = head.len() as int;
    assert forall|a: int| 0 <= a < s.len() implies !begins_with_form(#[trigger] s.skip(a), form) by {
        let t = s.skip(a);
        if form.is_prefix_of(t) {
            assert(t.subrange(0, form.len() as int)[0] == t[0]);
            assert(form[0] == '$');
            if a < h {
                assert(head.contains(head[a]));
            } else if a >= h + shown.len() {
                assert(rest.contains(rest[a - h - shown.len()]));
            } else if a > h {
                let k = a - h;
                if shown == "$"@ + name {
                    assert(shown[k] == name[k - 1]);
                } else if k >= 2 && k - 2 < name.len() {
                    assert(shown[k] == name[k - 2]);
                }
            } else {
                assert(t =~= shown + rest);
                assert forall|k: int| 0 <= k < form.len() implies #[trigger] form[k] == t[k] by {
                    assert(t.subrange(0, form.len() as int)[k] == t[k]);
                }
                lemma_other_reference(shown, name, rest, form);
            }
        }
    }
    lemma_form_nowhere(s, form, with);
}

/// No form begins where a reference to a name that it does not refer to stands.
proof fn lemma_other_reference(shown: Seq<char>, name: Seq<char>, rest: Seq<char>, form: Seq<char>)
    requires
        refers_to(shown, name),
        ends_with_form(shown, rest),
        refers_to_none(form) || (exists|n: Seq<char>| n != name && refers_to(form, n)),
        forall|k: int| 0 <= k < form.len() ==> #[trigger] form[k] == (shown + rest)[k],
        form.len() <= (shown + rest).len(),
    ensures
        !begins_with_form(shown + rest, form),
{
    reveal_strlit("$");
    reveal_strlit("${");
    reveal_strlit("}");
    let t = shown + rest;
    if refers_to_none(form) {
        assert(form[1] == t[1] && form[2] == t[2]);
        assert(t[1] == shown[1]);
        if shown == "$"@ + name {
            assert(shown[1] == name[0]);
        } else {
            assert(t[2] == shown[2] && shown[2] == name[0]);
        }
    } else {
        let n = choose|n: Seq<char>| n != name && refers_to(form, n);
        assert(form[1] == t[1]);
        assert(t[1] == shown[1]);
        if form == "$"@ + n {
            assert(form[1] == n[0]);
            if shown == "$"@ + name {
                assert(shown.last() == name.last());
                if n.len() > name.len() {
                    assert(form[name.len() + 1int] == n[name.len() as int]);
                    assert(t[name.len() + 1int] == rest[0]);
                } else {
                    assert forall|k: int| 0 <= k < n.len() implies n[k] == name[k] by {
                        assert(form[k + 1] == n[k]);
                        assert(t[k + 1] == name[k]);
                    }
                    if n.len() == name.len() {
                        assert(n =~= name);
                    } else {
                        assert(form.last() == n.last());
                        assert(t.skip(form.len() as int)[0] == name[n.len() as int]);
                    }
                }
            }
        } else if shown == "$"@ + name {
            assert(shown[1] == name[0]);
        } else {
            assert forall|k: int| 0 <= k < n.len() && k < name.len() implies n[k] == name[k] by {
                assert(form[k + 2] == n[k]);
                assert(t[k + 2] == name[k]);
            }
            if n.len() > name.len() {
                assert(form[name.len() + 2int] == n[name.len() as int]);
                assert(t[name.len() + 2int] == '}');
            } else if n.len() < name.len() {
                assert(form[n.len() + 2int] == '}');
                assert(t[n.len() + 2int] == name[n.len() as int]);
            } else {
                assert(n =~= name);
            }
        }
    }
}

/// [`lemma_other_kept`] for several forms.
proof fn lemma_other_kept_by_each(
    head: Seq<char>,
    shown: Seq<char>,
    name: Seq<char>,
    rest: Seq<char>,
    forms: Seq<Seq<char>>,
    with: Seq<char>,
)
    requires
        names_variable(name),
        refers_to(shown, name),
        ends_with_form(shown, rest),
        !head.contains('$'),
        !rest.contains('$'),
        forall|i: int|
            0 <= i < forms.len() ==> refers_to_none(#[trigger] forms[i]) || (exists|n: Seq<char>|
                n != name && refers_to(forms[i], n)),
    ensures
        replace_each(head + shown + rest, forms, with) == head + shown + rest,
    decreases forms.len(),
{
    if forms.len() > 0 {
        lemma_other_kept(head, shown, name, rest, forms[0], with);
        assert forall|i: int| 0 <= i < forms.drop_first().len() implies refers_to_none(
            #[trigger] forms.drop_first()[i],
        ) || (exists|n: Seq<char>| n != name && refers_to(forms.drop_first()[i], n)) by {
            assert(forms.drop_first()[i] == forms[i + 1]);
        }
        lemma_other_kept_by_each(head, shown, name, rest, forms.drop_first(), with);
    }
}

/// The install prefix has no say in a reference to another name.
proof fn lemma_other_falls_back(
    head: Seq<char>,
    shown: Seq<char>,
    name: Seq<char>,
    rest: Seq<char>,
    own: Seq<char>,
    prefix: Seq<char>,
    env: Map<Seq<char>, Seq<char>>,
)
    requires
        names_variable(name),
        refers_to(shown, name),
        ends_with_form(shown, rest),
        !head.contains('$'),
        !rest.contains('$'),
        own == "PREFIX"@ || own == "CONDA_PREFIX"@,
        name != own || env.contains_key(name),
    ensures
        fall_back(head + shown + rest, own, prefix, env) == head + shown + rest,
{
    if !env.contains_key(own) {
        reveal_strlit("PREFIX");
        reveal_strlit("CONDA_PREFIX");
        let forms = prefix_forms(own);
        assert forall|i: int| 0 <= i < forms.len() implies refers_to_none(#[trigger] forms[i]) || (
        exists|n: Seq<char>| n != name && refers_to(forms[i], n)) by {
            assert(names_variable(own));
            assert(refers_to(forms[i], own));
        }
        lemma_other_kept_by_each(head, shown, name, rest, forms, prefix);
    }
}

/// What stands before the first `$` is kept.
pub proof fn lemma_vars_keep_head(head: Seq<char>, rest: Seq<char>, env: Map<Seq<char>, Seq<char>>)
    requires
        !head.contains('$'),
    ensures
        expand_vars(head + rest, env) == head + expand_vars(rest, env),
    decreases head.len(),
{
    let s = head + rest;
    if head.len() == 0 {
        assert(s =~= rest);
        assert(head + expand_vars(rest, env) =~= expand_vars(rest, env));
    } else {
        let tail = head.drop_first();
        assert(head.contains(head[0]));
        assert forall|i: int| 0 <= i < tail.len() implies tail[i] != '$' by {
            assert(head.contains(head[i + 1]));
        }
        assert(s.drop_first() =~= tail + rest);
        lemma_vars_keep_head(tail, rest, env);
        assert(expand_vars(s, env) =~= head + expand_vars(rest, env));
    }
}

/// A reference to any other variable, bare or in braces, is left to the
/// environment: `$DIRECTORY` is not `$DIR` with something behind it. `shown` is
/// the reference, `head` and `rest` are what stands around it.
pub proof fn law_other_variable(
    head: Seq<char>,
    shown: Seq<char>,
    name: Seq<char>,
    rest: Seq<char>,
    base_dir: Seq<char>,
    prefix: Option<Seq<char>>,
    env: Map<Seq<char>, Seq<char>>,
)
    requires
        names_variable(name),
        shown == "$"@ + name || shown == "${"@ + name + "}"@,
        ends_with_form(shown, rest),
        !is_own_name(name, prefix, env),
        !head.contains('$'),
        !rest.contains('$'),
        !"~/"@.is_prefix_of(head + shown + rest),
    ensures
        expanded(head + shown + rest, base_dir, prefix, env) == head + value_of(env, name) + rest,
{
    let s = head + shown + rest;
    let forms = script_dir_forms();
    lemma_script_dir_forms();
    assert forall|j: int| 0 <= j < forms.len() implies refers_to_none(#[trigger] forms[j]) || (
    exists|n: Seq<char>| n != name && refers_to(forms[j], n)) by {
        lemma_script_forms_refer(j);
        if !refers_to_none(forms[j]) {
            let k = choose|k: int|
                0 <= k < 5 && refers_to(forms[j], #[trigger] script_dir_names()[k]);
            assert(script_dir_names().contains(script_dir_names()[k]));
        }
    }
    lemma_other_kept_by_each(head, shown, name, rest, forms, base_dir);
    if let Some(with) = prefix {
        lemma_other_falls_back(head, shown, name, rest, "PREFIX"@, with, env);
        lemma_other_falls_back(head, shown, name, rest, "CONDA_PREFIX"@, with, env);
    }
    assert(with_prefix(s, prefix, env) == s);
    assert(s =~= head + (shown + rest));
    lemma_vars_keep_head(head, shown + rest, env);
    reveal_strlit("$");
    if shown == "$"@ + name {
        assert(shown.last() == name.last());
    }
    law_reference(name, rest, env);
    law_no_reference(rest, env);
    assert(expand_vars(s, env) =~= head + value_of(env, name) + rest);
}

} // verus!
