//! What stands in for references: variables, the script's own directory, the
//! install prefix, the home directory.
use vstd::prelude::*;
use crate::expand;
use crate::laws::chars;
use crate::laws::texts;
use crate::text;

verus! {

/// The value of a variable is the one of the first pair with its name; a name
/// without a pair has none.
pub proof fn law_environment(vars: Seq<(String, String)>, name: Seq<char>, i: int)
    requires
        0 <= i <= vars.len(),
        forall|j: int| 0 <= j < i ==> (#[trigger] vars[j]).0@ != name,
        i < vars.len() ==> vars[i].0@ == name,
    ensures
        i < vars.len() ==> expand::bindings(vars).contains_key(name) && expand::bindings(vars)[name]
            == vars[i].1@,
        i == vars.len() ==> !expand::bindings(vars).contains_key(name),
    decreases vars.len(),
{
    if i > 0 {
        let rest = vars.drop_first();
        assert(vars[0].0@ != name);
        assert forall|j: int| 0 <= j < i - 1 implies (#[trigger] rest[j]).0@ != name by {
            assert(rest[j] == vars[j + 1]);
        }
        if i < vars.len() {
            assert(rest[i - 1] == vars[i]);
        }
        law_environment(rest, name, i - 1);
    }
}

/// Whether `value` is what a reference to `name` stands for: the value of the
/// variable, or nothing where it is not set.
pub open spec fn is_value(env: Map<Seq<char>, Seq<char>>, name: Seq<char>, value: Seq<char>) -> bool {
    if env.contains_key(name) {
        value == env[name]
    } else {
        value.len() == 0
    }
}

/// Whether `s` is made of letters, digits and `_`.
pub open spec fn all_word(s: Seq<char>) -> bool {
    forall|i: int| 0 <= i < s.len() ==> chars::word_code(#[trigger] s[i])
}

/// Whether `s` begins with a letter, a digit or `_`.
pub open spec fn begins_word(s: Seq<char>) -> bool {
    s.len() > 0 && chars::word_code(s[0])
}

/// Whether `s` is the name of a variable: letters, digits and `_`, of which the
/// first is no digit.
pub open spec fn is_variable(s: Seq<char>) -> bool {
    s.len() > 0 && all_word(s) && !(48 <= s[0] as int <= 57)
}

/// Whether no `$` stands in `s`.
pub open spec fn no_dollar(s: Seq<char>) -> bool {
    forall|i: int| 0 <= i < s.len() ==> (#[trigger] s[i]) != '$'
}

/// How long a run of name characters is.
proof fn lemma_run(name: Seq<char>, rest: Seq<char>)
    requires
        all_word(name),
        !begins_word(rest),
    ensures
        expand::name_len(name + rest) == name.len(),
    decreases name.len(),
{
    let s = name + rest;
    if name.len() == 0 {
        assert(s =~= rest);
        if rest.len() > 0 {
            chars::law_name_char(rest[0]);
        }
    } else {
        chars::law_name_char(name[0]);
        assert(s[0] == name[0]);
        assert(s.drop_first() =~= name.drop_first() + rest);
        assert forall|i: int| 0 <= i < name.drop_first().len() implies chars::word_code(
            #[trigger] name.drop_first()[i],
        ) by {
            assert(name.drop_first()[i] == name[i + 1]);
        }
        lemma_run(name.drop_first(), rest);
    }
}

/// Where the first `}` stands behind a `{`.
proof fn lemma_close(inner: Seq<char>, rest: Seq<char>, from: int)
    requires
        !inner.contains('}'),
        1 <= from <= inner.len() + 1,
    ensures
        text::find_char_from(seq!['{'] + inner + seq!['}'] + rest, '}', from) == Some(
            inner.len() + 1int,
        ),
    decreases inner.len() + 1 - from,
{
    let s = seq!['{'] + inner + seq!['}'] + rest;
    if from <= inner.len() {
        assert(s[from] == inner[from - 1]);
        assert(inner.contains(inner[from - 1]));
        lemma_close(inner, rest, from + 1);
    } else {
        assert(s[from] == '}');
    }
}

/// A `{` that no `}` follows.
proof fn lemma_open(s: Seq<char>, from: int)
    requires
        !s.contains('}'),
        0 <= from,
    ensures
        text::find_char_from(s, '}', from) is None,
    decreases s.len() - from,
{
    if from < s.len() {
        assert(s.contains(s[from]));
        lemma_open(s, from + 1);
    }
}

/// [`is_variable`], in the words of the expansion.
proof fn lemma_variable(s: Seq<char>)
    ensures
        expand::names_variable(s) <==> is_variable(s),
{
    assert forall|c: char| #[trigger] text::is_name_char(c) <==> chars::word_code(c) by {
        chars::law_name_char(c);
    }
    if is_variable(s) {
        assert(chars::word_code(s[0]));
        assert forall|i: int| 0 <= i < s.len() implies text::is_name_char(#[trigger] s[i]) by {}
    }
    if expand::names_variable(s) {
        assert forall|i: int| 0 <= i < s.len() implies chars::word_code(#[trigger] s[i]) by {
            assert(text::is_name_char(s[i]));
        }
    }
}

/// `$NAME` stands for the value of the variable, whatever stands around it: the name
/// is as long as it can be, and may begin with a digit. What stands before the first
/// `$` is kept.
pub proof fn law_bare_reference(
    head: Seq<char>,
    name: Seq<char>,
    rest: Seq<char>,
    env: Map<Seq<char>, Seq<char>>,
    value: Seq<char>,
)
    requires
        no_dollar(head),
        name.len() > 0,
        all_word(name),
        !begins_word(rest),
        is_value(env, name, value),
    ensures
        expand::expand_vars(head + (seq!['$'] + name + rest), env) == head + value
            + expand::expand_vars(rest, env),
{
    let s = seq!['$'] + name + rest;
    let after = name + rest;
    assert(s.drop_first() =~= after);
    lemma_run(name, rest);
    assert(after[0] == name[0]);
    assert(chars::word_code(name[0]));
    assert(after.take(name.len() as int) =~= name);
    assert(after.skip(name.len() as int) =~= rest);
    assert(expand::value_of(env, name) =~= value);
    assert(expand::expand_vars(s, env) =~= value + expand::expand_vars(rest, env));
    expand::lemma_vars_keep_head(head, s, env);
    assert(head + (value + expand::expand_vars(rest, env)) =~= head + value + expand::expand_vars(
        rest,
        env,
    ));
}

/// `${NAME}` stands for the value of the variable, whatever stands around it.
pub proof fn law_braced_reference(
    head: Seq<char>,
    name: Seq<char>,
    rest: Seq<char>,
    env: Map<Seq<char>, Seq<char>>,
    value: Seq<char>,
)
    requires
        no_dollar(head),
        is_variable(name),
        is_value(env, name, value),
    ensures
        expand::expand_vars(head + (seq!['$', '{'] + name + seq!['}'] + rest), env) == head + value
            + expand::expand_vars(rest, env),
{
    let s = seq!['$', '{'] + name + seq!['}'] + rest;
    let after = seq!['{'] + name + seq!['}'] + rest;
    assert(s.drop_first() =~= after);
    assert(!name.contains('}')) by {
        if name.contains('}') {
            let i = choose|i: int| 0 <= i < name.len() && name[i] == '}';
            assert(chars::word_code(name[i]));
        }
    }
    lemma_close(name, rest, 1);
    lemma_variable(name);
    assert(after.subrange(1, name.len() + 1int) =~= name);
    assert(after.skip(name.len() + 2int) =~= rest);
    assert(expand::value_of(env, name) =~= value);
    assert(expand::expand_vars(s, env) =~= value + expand::expand_vars(rest, env));
    expand::lemma_vars_keep_head(head, s, env);
    assert(head + (value + expand::expand_vars(rest, env)) =~= head + value + expand::expand_vars(
        rest,
        env,
    ));
}

/// Whether `rest`, behind a `$`, is the beginning of no reference: neither a name nor
/// one in braces that are closed.
pub open spec fn begins_no_reference(rest: Seq<char>) -> bool {
    &&& !begins_word(rest)
    &&& rest.len() > 0 && rest[0] == '{' ==> {
        ||| !rest.contains('}')
        ||| exists|inner: Seq<char>, tail: Seq<char>|
            rest == #[trigger] (seq!['{'] + inner + seq!['}'] + tail) && !inner.contains('}')
                && !is_variable(inner)
    }
}

/// A `$` that begins no reference stays, and what follows it is expanded.
pub proof fn law_lone_dollar(head: Seq<char>, rest: Seq<char>, env: Map<Seq<char>, Seq<char>>)
    requires
        no_dollar(head),
        begins_no_reference(rest),
    ensures
        expand::expand_vars(head + (seq!['$'] + rest), env) == head + seq!['$']
            + expand::expand_vars(rest, env),
{
    let s = seq!['$'] + rest;
    let none = Seq::<char>::empty();
    assert(s.drop_first() =~= rest);
    assert(expand::reference(rest) is None) by {
        if rest.len() > 0 && rest[0] == '{' {
            if !rest.contains('}') {
                lemma_open(rest, 1);
            } else {
                let (inner, tail) = choose|inner: Seq<char>, tail: Seq<char>|
                    rest == #[trigger] (seq!['{'] + inner + seq!['}'] + tail) && !inner.contains('}')
                        && !is_variable(inner);
                lemma_close(inner, tail, 1);
                lemma_variable(inner);
                assert(rest.subrange(1, inner.len() + 1int) =~= inner);
            }
        } else {
            assert(none + rest =~= rest);
            lemma_run(none, rest);
        }
    }
    assert(expand::expand_vars(s, env) =~= seq!['$'] + expand::expand_vars(rest, env));
    expand::lemma_vars_keep_head(head, s, env);
    assert(head + (seq!['$'] + expand::expand_vars(rest, env)) =~= head + seq!['$']
        + expand::expand_vars(rest, env));
}

/// A text without `$` is left as it is.
pub proof fn law_no_dollar(s: Seq<char>, env: Map<Seq<char>, Seq<char>>)
    requires
        no_dollar(s),
    ensures
        expand::expand_vars(s, env) == s,
{
    expand::law_no_reference(s, env);
}

/// Whether `form` is a way in which a script names its own directory.
pub open spec fn names_directory(form: Seq<char>) -> bool {
    ||| form == "$(cd \"$(dirname \"$0\")\" && pwd)"@
    ||| form == "$(dirname \"$0\")"@
    ||| form == "$(dirname $0)"@
    ||| form == "${0%/*}"@
    ||| form == "$SCRIPTPATH"@
    ||| form == "${SCRIPTPATH}"@
    ||| form == "$SCRIPT_DIR"@
    ||| form == "${SCRIPT_DIR}"@
    ||| form == "$DIR"@
    ||| form == "${DIR}"@
    ||| form == "$HERE"@
    ||| form == "${HERE}"@
    ||| form == "$here"@
    ||| form == "${here}"@
}

/// Whether `form` names the install prefix, by the variable `name`.
pub open spec fn names_prefix(form: Seq<char>, name: Seq<char>) -> bool {
    &&& name == "PREFIX"@ || name == "CONDA_PREFIX"@
    &&& form == seq!['$'] + name || form == seq!['$', '{'] + name + seq!['}']
}

/// Whether `form` may be followed by `rest`: no name is cut.
pub open spec fn may_precede(form: Seq<char>, rest: Seq<char>) -> bool {
    form.len() > 0 && chars::word_code(form.last()) ==> !begins_word(rest)
}

/// Whether `s` begins with `~/`.
pub open spec fn begins_home(s: Seq<char>) -> bool {
    s.len() >= 2 && s[0] == '~' && s[1] == '/'
}

/// [`begins_home`], as a prefix.
proof fn lemma_home(s: Seq<char>)
    ensures
        "~/"@.is_prefix_of(s) <==> begins_home(s),
{
    reveal_strlit("~/");
    texts::lemma_prefix("~/"@, s);
    assert("~/"@[0] == '~' && "~/"@[1] == '/');
    if begins_home(s) {
        assert forall|k: int| 0 <= k < "~/"@.len() implies s[0 + k] == #[trigger] "~/"@[k] by {
            assert(k == 0 || k == 1);
        }
    }
}

/// A leading `~` stands for the home directory, where that is known.
proof fn lemma_in_home(s: Seq<char>, env: Map<Seq<char>, Seq<char>>)
    ensures
        expand::with_home(s, env) == (if begins_home(s) && env.contains_key("HOME"@) {
            env["HOME"@] + s.skip(1)
        } else {
            s
        }),
{
    lemma_home(s);
    if begins_home(s) {
        reveal_strlit("/");
        assert(env["HOME"@] + "/"@ + s.skip(2) =~= env["HOME"@] + s.skip(1));
    }
}

/// [`may_precede`], in the words of the expansion.
proof fn lemma_precede(form: Seq<char>, rest: Seq<char>)
    ensures
        expand::ends_with_form(form, rest) <==> may_precede(form, rest),
{
    if form.len() > 0 {
        chars::law_name_char(form.last());
    }
    if rest.len() > 0 {
        chars::law_name_char(rest[0]);
    }
}

/// The place of a form in the list of them.
proof fn lemma_form_index(form: Seq<char>) -> (i: int)
    requires
        names_directory(form),
    ensures
        0 <= i < 14,
        expand::script_dir_forms()[i] == form,
{
    if form == "$(cd \"$(dirname \"$0\")\" && pwd)"@ {
        0
    } else if form == "$(dirname \"$0\")"@ {
        1
    } else if form == "$(dirname $0)"@ {
        2
    } else if form == "${0%/*}"@ {
        3
    } else if form == "$SCRIPTPATH"@ {
        4
    } else if form == "${SCRIPTPATH}"@ {
        5
    } else if form == "$SCRIPT_DIR"@ {
        6
    } else if form == "${SCRIPT_DIR}"@ {
        7
    } else if form == "$DIR"@ {
        8
    } else if form == "${DIR}"@ {
        9
    } else if form == "$HERE"@ {
        10
    } else if form == "${HERE}"@ {
        11
    } else if form == "$here"@ {
        12
    } else {
        13
    }
}

/// Forms that begin with `$` leave a beginning without one as it is.
proof fn lemma_each_keeps_head(
    head: Seq<char>,
    rest: Seq<char>,
    forms: Seq<Seq<char>>,
    with: Seq<char>,
)
    requires
        no_dollar(head),
        forall|i: int|
            0 <= i < forms.len() ==> (#[trigger] forms[i]).len() > 0 && forms[i][0] == '$',
    ensures
        expand::replace_each(head + rest, forms, with) == head + expand::replace_each(
            rest,
            forms,
            with,
        ),
    decreases forms.len(),
{
    if forms.len() > 0 {
        let fewer = forms.drop_first();
        assert(forms[0][0] == '$');
        expand::lemma_form_keeps_head(head, rest, forms[0], with);
        assert forall|i: int| 0 <= i < fewer.len() implies (#[trigger] fewer[i]).len() > 0
            && fewer[i][0] == '$' by {
            assert(fewer[i] == forms[i + 1]);
        }
        lemma_each_keeps_head(head, expand::replace_form(rest, forms[0], with), fewer, with);
    }
}

/// The forms of the prefix begin with `$`.
proof fn lemma_prefix_forms(name: Seq<char>)
    ensures
        expand::prefix_forms(name).len() == 2,
        expand::prefix_forms(name)[0] == seq!['$', '{'] + name + seq!['}'],
        expand::prefix_forms(name)[1] == seq!['$'] + name,
        forall|i: int|
            0 <= i < 2 ==> (#[trigger] expand::prefix_forms(name)[i]).len() > 0
                && expand::prefix_forms(name)[i][0] == '$',
{
    reveal_strlit("$");
    reveal_strlit("${");
    reveal_strlit("}");
    assert("$"@ =~= seq!['$']);
    assert("${"@ =~= seq!['$', '{']);
    assert("}"@ =~= seq!['}']);
}

/// The prefix leaves a beginning without `$` as it is.
proof fn lemma_prefix_keeps_head(
    head: Seq<char>,
    rest: Seq<char>,
    prefix: Option<Seq<char>>,
    env: Map<Seq<char>, Seq<char>>,
)
    requires
        no_dollar(head),
    ensures
        expand::with_prefix(head + rest, prefix, env) == head + expand::with_prefix(
            rest,
            prefix,
            env,
        ),
{
    lemma_prefix_forms("PREFIX"@);
    lemma_prefix_forms("CONDA_PREFIX"@);
    if let Some(with) = prefix {
        lemma_each_keeps_head(head, rest, expand::prefix_forms("PREFIX"@), with);
        let mid = expand::fall_back(rest, "PREFIX"@, with, env);
        lemma_each_keeps_head(head, mid, expand::prefix_forms("CONDA_PREFIX"@), with);
    }
}

/// Without `$` nothing is replaced.
proof fn lemma_settled(
    s: Seq<char>,
    prefix: Option<Seq<char>>,
    env: Map<Seq<char>, Seq<char>>,
)
    requires
        no_dollar(s),
    ensures
        expand::with_prefix(s, prefix, env) == s,
        expand::expand_vars(s, env) == s,
        expand::replace_each(s, expand::script_dir_forms(), s) == s,
{
    let none = Seq::<char>::empty();
    assert(s + none =~= s);
    lemma_prefix_keeps_head(s, none, prefix, env);
    lemma_prefix_forms("PREFIX"@);
    lemma_prefix_forms("CONDA_PREFIX"@);
    if let Some(with) = prefix {
        expand::lemma_replace_dollar(none, expand::prefix_forms("PREFIX"@), with);
        expand::lemma_replace_dollar(none, expand::prefix_forms("CONDA_PREFIX"@), with);
    }
    assert(expand::with_prefix(none, prefix, env) =~= none);
    law_no_dollar(s, env);
    expand::lemma_script_dir_forms();
    expand::lemma_replace_dollar(s, expand::script_dir_forms(), s);
}

/// A script that names its own directory, in any of these ways, and anywhere in a
/// path, means that directory; a longer name that begins with one of these is
/// another.
pub proof fn law_directory(
    head: Seq<char>,
    form: Seq<char>,
    rest: Seq<char>,
    base_dir: Seq<char>,
    prefix: Option<Seq<char>>,
    env: Map<Seq<char>, Seq<char>>,
)
    requires
        names_directory(form),
        may_precede(form, rest),
        no_dollar(head),
        no_dollar(rest),
        no_dollar(base_dir),
    ensures
        !begins_home(head + base_dir + rest) || !env.contains_key("HOME"@) ==> expand::expanded(
            head + (form + rest),
            base_dir,
            prefix,
            env,
        ) == head + base_dir + rest,
        begins_home(head + base_dir + rest) && env.contains_key("HOME"@) ==> expand::expanded(
            head + (form + rest),
            base_dir,
            prefix,
            env,
        ) == expand::expand_vars(env["HOME"@] + (head + base_dir + rest).skip(1), env),
{
    let path = head + base_dir + rest;
    let forms = expand::script_dir_forms();
    let i = lemma_form_index(form);
    lemma_precede(form, rest);
    expand::lemma_script_dir_forms();
    lemma_each_keeps_head(head, form + rest, forms, base_dir);
    expand::lemma_form_replaced(i, 0, rest, base_dir);
    assert(forms.skip(0) =~= forms);
    assert(head + (base_dir + rest) =~= path);
    assert forall|k: int| 0 <= k < path.len() implies (#[trigger] path[k]) != '$' by {
        if k < head.len() {
            assert(path[k] == head[k]);
        } else if k < head.len() + base_dir.len() {
            assert(path[k] == base_dir[k - head.len()]);
        } else {
            assert(path[k] == rest[k - head.len() - base_dir.len()]);
        }
    }
    lemma_settled(path, prefix, env);
    lemma_in_home(path, env);
}

/// What a form stands for goes in at every place where it stands.
pub proof fn law_every_place(
    head: Seq<char>,
    form: Seq<char>,
    rest: Seq<char>,
    with: Seq<char>,
)
    requires
        form.len() > 0,
        form[0] == '$',
        no_dollar(head),
        may_precede(form, rest),
    ensures
        expand::replace_form(head + (form + rest), form, with) == head + with + expand::replace_form(
            rest,
            form,
            with,
        ),
{
    let s = form + rest;
    lemma_precede(form, rest);
    assert(s.subrange(0, form.len() as int) =~= form);
    assert(s.skip(form.len() as int) =~= rest);
    expand::lemma_form_keeps_head(head, s, form, with);
    assert(head + (with + expand::replace_form(rest, form, with)) =~= head + with
        + expand::replace_form(rest, form, with));
}

/// What does not begin with `$` goes on beginning as it does.
proof fn lemma_first_kept(rest: Seq<char>, form: Seq<char>, with: Seq<char>)
    requires
        form.len() > 0,
        form[0] == '$',
        rest.len() > 0 ==> rest[0] != '$',
    ensures
        rest.len() == 0 ==> expand::replace_form(rest, form, with).len() == 0,
        rest.len() > 0 ==> expand::replace_form(rest, form, with).len() > 0 && expand::replace_form(
            rest,
            form,
            with,
        )[0] == rest[0],
{
    if form.is_prefix_of(rest) {
        assert(form[0] == rest[0]);
    }
}

/// [`lemma_first_kept`] for several forms.
proof fn lemma_first_kept_by_each(rest: Seq<char>, forms: Seq<Seq<char>>, with: Seq<char>)
    requires
        forall|i: int|
            0 <= i < forms.len() ==> (#[trigger] forms[i]).len() > 0 && forms[i][0] == '$',
        rest.len() > 0 ==> rest[0] != '$',
    ensures
        rest.len() == 0 ==> expand::replace_each(rest, forms, with).len() == 0,
        rest.len() > 0 ==> expand::replace_each(rest, forms, with).len() > 0 && expand::replace_each(
            rest,
            forms,
            with,
        )[0] == rest[0],
    decreases forms.len(),
{
    if forms.len() > 0 {
        let fewer = forms.drop_first();
        assert(forms[0][0] == '$');
        lemma_first_kept(rest, forms[0], with);
        assert forall|i: int| 0 <= i < fewer.len() implies (#[trigger] fewer[i]).len() > 0
            && fewer[i][0] == '$' by {
            assert(fewer[i] == forms[i + 1]);
        }
        lemma_first_kept_by_each(expand::replace_form(rest, forms[0], with), fewer, with);
    }
}

/// A name of the script's directory is replaced, and what follows it is looked at
/// by itself.
proof fn lemma_directory_first(i: int, j: int, rest: Seq<char>, with: Seq<char>)
    requires
        0 <= j <= i < 14,
        may_precede(expand::script_dir_forms()[i], rest),
        rest.len() > 0 ==> rest[0] != '$',
        no_dollar(with),
    ensures
        expand::replace_each(
            expand::script_dir_forms()[i] + rest,
            expand::script_dir_forms().skip(j),
            with,
        ) == with + expand::replace_each(rest, expand::script_dir_forms().skip(j), with),
    decreases i - j,
{
    let all = expand::script_dir_forms();
    let forms = all.skip(j);
    let next = expand::replace_form(rest, all[j], with);
    expand::lemma_script_dir_forms();
    assert(forms[0] == all[j]);
    assert(forms.drop_first() =~= all.skip(j + 1));
    lemma_first_kept(rest, all[j], with);
    if j < i {
        expand::lemma_form_skipped(i, j, 0, rest, with);
        assert(all[i].skip(0) =~= all[i]);
        lemma_directory_first(i, j + 1, next, with);
    } else {
        let none = Seq::<char>::empty();
        law_every_place(none, all[i], rest, with);
        assert(none + (all[i] + rest) =~= all[i] + rest);
        assert(none + with + next =~= with + next);
        assert forall|k: int| 0 <= k < all.skip(j + 1).len() implies (
        #[trigger] all.skip(j + 1)[k]).len() > 0 && all.skip(j + 1)[k][0] == '$' by {
            assert(all.skip(j + 1)[k] == all[j + 1 + k]);
        }
        lemma_each_keeps_head(with, next, all.skip(j + 1), with);
    }
}

/// A path in which a script names its own directory, and more of the like behind
/// that: each is replaced.
pub proof fn law_directories(
    head: Seq<char>,
    form: Seq<char>,
    rest: Seq<char>,
    base_dir: Seq<char>,
    prefix: Option<Seq<char>>,
    env: Map<Seq<char>, Seq<char>>,
)
    requires
        names_directory(form),
        may_precede(form, rest),
        rest.len() > 0 ==> rest[0] != '$' && rest[0] != '~',
        no_dollar(head),
        no_dollar(base_dir),
        head.len() + base_dir.len() > 0,
        (head + base_dir)[0] != '~',
    ensures
        expand::expanded(head + (form + rest), base_dir, prefix, env) == head + base_dir
            + expand::expanded(rest, base_dir, prefix, env),
{
    let forms = expand::script_dir_forms();
    let i = lemma_form_index(form);
    let front = head + base_dir;
    let back = expand::replace_each(rest, forms, base_dir);
    expand::lemma_script_dir_forms();
    assert(forms.skip(0) =~= forms);
    lemma_each_keeps_head(head, form + rest, forms, base_dir);
    lemma_directory_first(i, 0, rest, base_dir);
    lemma_first_kept_by_each(rest, forms, base_dir);
    assert(head + (base_dir + back) =~= front + back);
    assert forall|k: int| 0 <= k < front.len() implies (#[trigger] front[k]) != '$' by {
        if k < head.len() {
            assert(front[k] == head[k]);
        } else {
            assert(front[k] == base_dir[k - head.len()]);
        }
    }
    lemma_prefix_keeps_head(front, back, prefix, env);
    let mid = expand::with_prefix(back, prefix, env);
    lemma_prefix_forms("PREFIX"@);
    lemma_prefix_forms("CONDA_PREFIX"@);
    if let Some(with) = prefix {
        lemma_first_kept_by_each(back, expand::prefix_forms("PREFIX"@), with);
        let half = expand::fall_back(back, "PREFIX"@, with, env);
        lemma_first_kept_by_each(half, expand::prefix_forms("CONDA_PREFIX"@), with);
    }
    lemma_home(front + mid);
    lemma_home(mid);
    assert((front + mid)[0] == front[0]);
    expand::lemma_vars_keep_head(front, mid, env);
}

/// `PREFIX` and `CONDA_PREFIX`, where they are not set, mean the install prefix,
/// anywhere in a path.
pub proof fn law_prefix(
    head: Seq<char>,
    form: Seq<char>,
    name: Seq<char>,
    rest: Seq<char>,
    base_dir: Seq<char>,
    prefix: Seq<char>,
    env: Map<Seq<char>, Seq<char>>,
)
    requires
        names_prefix(form, name),
        !env.contains_key(name),
        may_precede(form, rest),
        no_dollar(head),
        no_dollar(rest),
        no_dollar(prefix),
    ensures
        !begins_home(head + prefix + rest) || !env.contains_key("HOME"@) ==> expand::expanded(
            head + (form + rest),
            base_dir,
            Some(prefix),
            env,
        ) == head + prefix + rest,
        begins_home(head + prefix + rest) && env.contains_key("HOME"@) ==> expand::expanded(
            head + (form + rest),
            base_dir,
            Some(prefix),
            env,
        ) == expand::expand_vars(env["HOME"@] + (head + prefix + rest).skip(1), env),
{
    let path = head + prefix + rest;
    let forms = expand::script_dir_forms();
    lemma_prefix_forms(name);
    let i = if form == seq!['$', '{'] + name + seq!['}'] {
        0int
    } else {
        1int
    };
    lemma_precede(form, rest);
    expand::lemma_script_dir_forms();
    lemma_each_keeps_head(head, form + rest, forms, base_dir);
    expand::lemma_prefix_replaced(name, i, rest, base_dir, prefix, env);
    lemma_prefix_keeps_head(head, form + rest, Some(prefix), env);
    assert(head + (prefix + rest) =~= path);
    assert forall|k: int| 0 <= k < path.len() implies (#[trigger] path[k]) != '$' by {
        if k < head.len() {
            assert(path[k] == head[k]);
        } else if k < head.len() + prefix.len() {
            assert(path[k] == prefix[k - head.len()]);
        } else {
            assert(path[k] == rest[k - head.len() - prefix.len()]);
        }
    }
    lemma_settled(path, Some(prefix), env);
    lemma_in_home(path, env);
}

/// Whether `p` begins with `$`, and otherwise than `form` does.
spec fn begins_otherwise(p: Seq<char>, form: Seq<char>) -> bool {
    &&& p.len() >= 3
    &&& form.len() >= 3
    &&& p[0] == '$'
    &&& p[1] != form[1] || p[2] != form[2]
}

/// What begins otherwise is not replaced in a form with one `$`.
proof fn lemma_other_skipped(form: Seq<char>, rest: Seq<char>, p: Seq<char>, with: Seq<char>)
    requires
        begins_otherwise(p, form),
        form[0] == '$',
        no_dollar(form.drop_first()),
    ensures
        expand::replace_form(form + rest, p, with) == form + expand::replace_form(rest, p, with),
{
    let s = form + rest;
    let tail = form.drop_first();
    if p.is_prefix_of(s) {
        assert(p[1] == s[1] && p[2] == s[2]);
        assert(s[1] == form[1] && s[2] == form[2]);
    }
    assert(s.drop_first() =~= tail + rest);
    expand::lemma_form_keeps_head(tail, rest, p, with);
    assert(seq![form[0]] + (tail + expand::replace_form(rest, p, with)) =~= form
        + expand::replace_form(rest, p, with));
}

/// [`lemma_other_skipped`] for several.
proof fn lemma_others_skipped(
    form: Seq<char>,
    rest: Seq<char>,
    others: Seq<Seq<char>>,
    with: Seq<char>,
)
    requires
        form.len() > 0,
        form[0] == '$',
        no_dollar(form.drop_first()),
        forall|i: int| 0 <= i < others.len() ==> begins_otherwise(#[trigger] others[i], form),
    ensures
        expand::replace_each(form + rest, others, with) == form + expand::replace_each(
            rest,
            others,
            with,
        ),
    decreases others.len(),
{
    if others.len() > 0 {
        let fewer = others.drop_first();
        assert(begins_otherwise(others[0], form));
        lemma_other_skipped(form, rest, others[0], with);
        assert forall|i: int| 0 <= i < fewer.len() implies begins_otherwise(
            #[trigger] fewer[i],
            form,
        ) by {
            assert(fewer[i] == others[i + 1]);
        }
        lemma_others_skipped(form, expand::replace_form(rest, others[0], with), fewer, with);
    }
}

/// The names of the prefix begin otherwise than those of the directory.
proof fn lemma_prefix_otherwise(form: Seq<char>, name: Seq<char>)
    requires
        names_prefix(form, name),
    ensures
        form.len() >= 3,
        form[0] == '$',
        no_dollar(form.drop_first()),
        forall|i: int|
            0 <= i < 14 ==> begins_otherwise(#[trigger] expand::script_dir_forms()[i], form),
        name == "CONDA_PREFIX"@ ==> forall|i: int|
            0 <= i < 2 ==> begins_otherwise(#[trigger] expand::prefix_forms("PREFIX"@)[i], form),
        form == seq!['$'] + name ==> begins_otherwise(expand::prefix_forms(name)[0], form),
{
    reveal_strlit("$(cd \"$(dirname \"$0\")\" && pwd)");
    reveal_strlit("$(dirname \"$0\")");
    reveal_strlit("$(dirname $0)");
    reveal_strlit("${0%/*}");
    reveal_strlit("$SCRIPTPATH");
    reveal_strlit("${SCRIPTPATH}");
    reveal_strlit("$SCRIPT_DIR");
    reveal_strlit("${SCRIPT_DIR}");
    reveal_strlit("$DIR");
    reveal_strlit("${DIR}");
    reveal_strlit("$HERE");
    reveal_strlit("${HERE}");
    reveal_strlit("$here");
    reveal_strlit("${here}");
    reveal_strlit("PREFIX");
    reveal_strlit("CONDA_PREFIX");
    lemma_prefix_forms("PREFIX"@);
    lemma_prefix_forms(name);
    assert(name[0] == 'P' || name[0] == 'C');
    assert(name[1] == 'R' || name[1] == 'O');
    let tail = form.drop_first();
    assert forall|i: int| 0 <= i < name.len() implies (#[trigger] name[i]) != '$' by {
        assert(i == 0 || i == 1 || i == 2 || i == 3 || i == 4 || i == 5 || i == 6 || i == 7 || i == 8
            || i == 9 || i == 10 || i == 11);
    }
    assert forall|i: int| 0 <= i < tail.len() implies (#[trigger] tail[i]) != '$' by {
        if form == seq!['$'] + name {
            assert(tail[i] == name[i]);
        } else if 0 < i <= name.len() {
            assert(tail[i] == name[i - 1]);
        }
    }
}

/// A name of the prefix is replaced, and what follows it is looked at by itself.
proof fn lemma_prefix_first(
    form: Seq<char>,
    name: Seq<char>,
    rest: Seq<char>,
    with: Seq<char>,
)
    requires
        names_prefix(form, name),
        may_precede(form, rest),
        rest.len() > 0 ==> rest[0] != '$',
        no_dollar(with),
    ensures
        expand::replace_each(form + rest, expand::prefix_forms(name), with) == with
            + expand::replace_each(rest, expand::prefix_forms(name), with),
{
    let forms = expand::prefix_forms(name);
    let none = Seq::<char>::empty();
    lemma_prefix_forms(name);
    lemma_prefix_otherwise(form, name);
    let last = seq![forms[1]];
    assert(forms.drop_first() =~= last);
    let next = expand::replace_form(rest, forms[0], with);
    lemma_first_kept(rest, forms[0], with);
    if form == seq!['$', '{'] + name + seq!['}'] {
        law_every_place(none, form, rest, with);
        assert(none + (form + rest) =~= form + rest);
        assert(none + with + next =~= with + next);
        lemma_each_keeps_head(with, next, last, with);
    } else {
        lemma_other_skipped(form, rest, forms[0], with);
        law_every_place(none, form, next, with);
        assert(none + (form + next) =~= form + next);
        let after = expand::replace_form(next, form, with);
        assert(none + with + after =~= with + after);
        assert(last.drop_first() =~= Seq::<Seq<char>>::empty());
        reveal_with_fuel(expand::replace_each, 3);
        assert(expand::replace_each(form + next, last, with) == with + after);
        assert(expand::replace_each(next, last, with) == after);
    }
}

/// A path in which a script names its install prefix, and more of the like behind
/// that: each is replaced.
pub proof fn law_prefixes(
    head: Seq<char>,
    form: Seq<char>,
    name: Seq<char>,
    rest: Seq<char>,
    base_dir: Seq<char>,
    prefix: Seq<char>,
    env: Map<Seq<char>, Seq<char>>,
)
    requires
        names_prefix(form, name),
        !env.contains_key(name),
        may_precede(form, rest),
        rest.len() > 0 ==> rest[0] != '$' && rest[0] != '~',
        no_dollar(head),
        no_dollar(prefix),
        head.len() + prefix.len() > 0,
        (head + prefix)[0] != '~',
    ensures
        expand::expanded(head + (form + rest), base_dir, Some(prefix), env) == head + prefix
            + expand::expanded(rest, base_dir, Some(prefix), env),
{
    let forms = expand::script_dir_forms();
    let first = expand::prefix_forms("PREFIX"@);
    let second = expand::prefix_forms("CONDA_PREFIX"@);
    let front = head + prefix;
    expand::lemma_script_dir_forms();
    lemma_prefix_forms("PREFIX"@);
    lemma_prefix_forms("CONDA_PREFIX"@);
    lemma_prefix_otherwise(form, name);
    // The names of the directory.
    let back = expand::replace_each(rest, forms, base_dir);
    lemma_each_keeps_head(head, form + rest, forms, base_dir);
    lemma_others_skipped(form, rest, forms, base_dir);
    lemma_first_kept_by_each(rest, forms, base_dir);
    // The names of the prefix.
    let half = expand::fall_back(back, "PREFIX"@, prefix, env);
    let mid = expand::with_prefix(back, Some(prefix), env);
    lemma_prefix_keeps_head(head, form + back, Some(prefix), env);
    lemma_first_kept_by_each(back, first, prefix);
    lemma_first_kept_by_each(half, second, prefix);
    assert(expand::with_prefix(form + back, Some(prefix), env) == prefix + mid) by {
        if name == "PREFIX"@ {
            lemma_prefix_first(form, name, back, prefix);
            lemma_each_keeps_head(prefix, half, second, prefix);
        } else {
            lemma_others_skipped(form, back, first, prefix);
            lemma_prefix_first(form, name, half, prefix);
        }
    }
    assert(head + (prefix + mid) =~= front + mid);
    assert forall|k: int| 0 <= k < front.len() implies (#[trigger] front[k]) != '$' by {
        if k < head.len() {
            assert(front[k] == head[k]);
        } else {
            assert(front[k] == prefix[k - head.len()]);
        }
    }
    lemma_home(front + mid);
    lemma_home(mid);
    assert((front + mid)[0] == front[0]);
    expand::lemma_vars_keep_head(front, mid, env);
}

/// Whether none of the names of the script's directory, nor, where there is an
/// install prefix, one of a variable for it that is not set, stands in `s`.
pub open spec fn names_nothing(
    s: Seq<char>,
    prefix: Option<Seq<char>>,
    env: Map<Seq<char>, Seq<char>>,
) -> bool {
    &&& forall|form: Seq<char>| #[trigger] names_directory(form) ==> !texts::holds(s, form)
    &&& prefix is Some ==> forall|form: Seq<char>, name: Seq<char>| #[trigger]
        names_prefix(form, name) && !env.contains_key(name) ==> !texts::holds(s, form)
}

/// Forms of which none stands in a text change nothing.
proof fn lemma_each_absent(s: Seq<char>, forms: Seq<Seq<char>>, with: Seq<char>)
    requires
        forall|i: int| 0 <= i < forms.len() ==> !texts::holds(s, #[trigger] forms[i]),
    ensures
        expand::replace_each(s, forms, with) == s,
    decreases forms.len(),
{
    if forms.len() > 0 {
        let fewer = forms.drop_first();
        assert(!texts::holds(s, forms[0]));
        texts::law_contains(s, forms[0]);
        expand::lemma_form_absent(s, forms[0], with);
        assert forall|i: int| 0 <= i < fewer.len() implies !texts::holds(s, #[trigger] fewer[i]) by {
            assert(fewer[i] == forms[i + 1]);
        }
        lemma_each_absent(s, fewer, with);
    }
}

/// [`names_nothing`], for all that the directory and the prefix stand in for.
proof fn lemma_names_nothing(
    s: Seq<char>,
    base_dir: Seq<char>,
    prefix: Option<Seq<char>>,
    env: Map<Seq<char>, Seq<char>>,
)
    requires
        names_nothing(s, prefix, env),
    ensures
        expand::replace_each(s, expand::script_dir_forms(), base_dir) == s,
        expand::with_prefix(s, prefix, env) == s,
{
    let forms = expand::script_dir_forms();
    assert forall|i: int| 0 <= i < forms.len() implies !texts::holds(s, #[trigger] forms[i]) by {
        assert(i == 0 || i == 1 || i == 2 || i == 3 || i == 4 || i == 5 || i == 6 || i == 7 || i == 8
            || i == 9 || i == 10 || i == 11 || i == 12 || i == 13);
        assert(names_directory(forms[i]));
    }
    lemma_each_absent(s, forms, base_dir);
    if let Some(with) = prefix {
        lemma_prefix_absent(s, "PREFIX"@, prefix, env);
        lemma_prefix_absent(s, "CONDA_PREFIX"@, prefix, env);
    }
}

/// [`lemma_names_nothing`] for one variable.
proof fn lemma_prefix_absent(
    s: Seq<char>,
    name: Seq<char>,
    prefix: Option<Seq<char>>,
    env: Map<Seq<char>, Seq<char>>,
)
    requires
        names_nothing(s, prefix, env),
        name == "PREFIX"@ || name == "CONDA_PREFIX"@,
        prefix is Some,
    ensures
        expand::fall_back(s, name, prefix->0, env) == s,
{
    if !env.contains_key(name) {
        let forms = expand::prefix_forms(name);
        lemma_prefix_forms(name);
        assert forall|i: int| 0 <= i < forms.len() implies !texts::holds(s, #[trigger] forms[i]) by {
            assert(i == 0 || i == 1);
            assert(names_prefix(forms[i], name));
        }
        lemma_each_absent(s, forms, prefix->0);
    }
}

/// All else is left to the environment, however many references there are: nothing
/// but the names of the directory and of the prefix, and a leading `~/`, is taken
/// from elsewhere.
pub proof fn law_other_references(
    s: Seq<char>,
    base_dir: Seq<char>,
    prefix: Option<Seq<char>>,
    env: Map<Seq<char>, Seq<char>>,
)
    requires
        names_nothing(s, prefix, env),
    ensures
        !begins_home(s) || !env.contains_key("HOME"@) ==> expand::expanded(s, base_dir, prefix, env)
            == expand::expand_vars(s, env),
        begins_home(s) && env.contains_key("HOME"@) ==> expand::expanded(s, base_dir, prefix, env)
            == expand::expand_vars(env["HOME"@] + s.skip(1), env),
{
    lemma_names_nothing(s, base_dir, prefix, env);
    lemma_in_home(s, env);
}

} // verus!
