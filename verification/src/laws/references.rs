//! How a text refers to a jar: aliases, assignments, and jar tokens.
use vstd::prelude::*;
use crate::laws::chars;
use crate::laws::texts;
use crate::reference;
use crate::text;

verus! {

/// Whether `v` stands between two equal quotes, single or double.
pub open spec fn has_quotes(v: Seq<char>) -> bool {
    &&& v.len() >= 2
    &&& v[0] == v[v.len() - 1]
    &&& v[0] as int == 39 || v[0] as int == 34
}

/// What `v` says: what stands between its quotes, or all of it.
pub open spec fn said(v: Seq<char>) -> Seq<char> {
    if has_quotes(v) {
        v.subrange(1, v.len() - 1)
    } else {
        v
    }
}

/// One layer of matching quotes goes, and the white space around it; nothing else
/// does.
pub proof fn law_unquoted(before: Seq<char>, v: Seq<char>, after: Seq<char>)
    requires
        texts::all_white(before),
        texts::is_tight(v),
        texts::all_white(after),
    ensures
        reference::unquoted(before + v + after) == said(v),
{
    texts::law_trim(before, v, after);
}

/// Whether `line`, trimmed, is not empty and holds `name` at some position.
pub open spec fn mentions(line: Seq<char>, name: Seq<char>) -> bool {
    text::trim(line).len() > 0 && texts::holds(text::trim(line), name)
}

/// [`law_alias_line`] at the first line that mentions the name.
proof fn lemma_alias_line(lines: Seq<Seq<char>>, name: Seq<char>, i: int)
    requires
        0 <= i <= lines.len(),
        forall|j: int| 0 <= j < i ==> !mentions(#[trigger] lines[j], name),
        i < lines.len() ==> mentions(lines[i], name),
    ensures
        i < lines.len() ==> reference::first_line_with(lines, name) == Some(text::trim(lines[i])),
        i == lines.len() ==> reference::first_line_with(lines, name) is None,
    decreases lines.len(),
{
    if lines.len() > 0 {
        texts::law_contains(text::trim(lines[0]), name);
    }
    if i > 0 {
        let rest = lines.drop_first();
        assert(!mentions(lines[0], name));
        assert forall|j: int| 0 <= j < i - 1 implies !mentions(#[trigger] rest[j], name) by {
            assert(rest[j] == lines[j + 1]);
        }
        if i < lines.len() {
            assert(rest[i - 1] == lines[i]);
        }
        lemma_alias_line(rest, name, i - 1);
    }
}

/// The first line up to `i` that mentions the name.
proof fn lemma_first_mention(lines: Seq<Seq<char>>, name: Seq<char>, i: int) -> (r: int)
    requires
        0 <= i < lines.len(),
        mentions(lines[i], name),
    ensures
        0 <= r <= i,
        mentions(lines[r], name),
        forall|j: int| 0 <= j < r ==> !mentions(#[trigger] lines[j], name),
    decreases i,
{
    if exists|j: int| 0 <= j < i && mentions(#[trigger] lines[j], name) {
        let j = choose|j: int| 0 <= j < i && mentions(#[trigger] lines[j], name);
        lemma_first_mention(lines, name, j)
    } else {
        i
    }
}

/// The line of an alias is the first one, trimmed, that is not empty and holds its
/// name, wherever in the line that stands; there is none only where no line holds
/// it.
pub proof fn law_alias_line(lines: Seq<Seq<char>>, name: Seq<char>)
    ensures
        forall|i: int|
            0 <= i < lines.len() && mentions(#[trigger] lines[i], name) && (forall|j: int|
                0 <= j < i ==> !mentions(#[trigger] lines[j], name)) ==> reference::first_line_with(
                lines,
                name,
            ) == Some(text::trim(lines[i])),
        reference::first_line_with(lines, name) is None <==> (forall|i: int|
            0 <= i < lines.len() ==> !mentions(#[trigger] lines[i], name)),
{
    assert forall|i: int|
        0 <= i < lines.len() && mentions(#[trigger] lines[i], name) && (forall|j: int|
            0 <= j < i ==> !mentions(#[trigger] lines[j], name)) implies reference::first_line_with(
        lines,
        name,
    ) == Some(text::trim(lines[i])) by {
        lemma_alias_line(lines, name, i);
    }
    if exists|i: int| 0 <= i < lines.len() && mentions(#[trigger] lines[i], name) {
        let i = choose|i: int| 0 <= i < lines.len() && mentions(#[trigger] lines[i], name);
        let first = lemma_first_mention(lines, name, i);
        lemma_alias_line(lines, name, first);
    } else {
        lemma_alias_line(lines, name, lines.len() as int);
    }
}

/// Whatever stands around the name of an alias in its line, `alias ` and `=` among
/// it, that line is found; white space around the line goes.
pub proof fn law_alias_line_found(
    lines: Seq<Seq<char>>,
    i: int,
    before: Seq<char>,
    head: Seq<char>,
    name: Seq<char>,
    tail: Seq<char>,
    after: Seq<char>,
)
    requires
        0 <= i < lines.len(),
        lines[i] == before + (head + name + tail) + after,
        texts::all_white(before),
        texts::all_white(after),
        (head + name + tail).len() > 0,
        texts::is_tight(head + name + tail),
        forall|j: int|
            0 <= j < i ==> text::trim(#[trigger] lines[j]).len() == 0 || !texts::holds(
                text::trim(lines[j]),
                name,
            ),
    ensures
        reference::first_line_with(lines, name) == Some(head + name + tail),
{
    let line = head + name + tail;
    texts::law_trim(before, line, after);
    assert(texts::stands(line, name, head.len() as int));
    assert(mentions(lines[i], name));
    assert forall|j: int| 0 <= j < i implies !mentions(#[trigger] lines[j], name) by {}
    law_alias_line(lines, name);
}

/// An alias stands for what its definition says behind `NAME=`, with or without
/// `alias ` before it.
pub proof fn law_alias_command(
    pad: Seq<char>,
    name: Seq<char>,
    before: Seq<char>,
    v: Seq<char>,
    after: Seq<char>,
)
    requires
        texts::all_white(pad),
        name.len() > 0,
        !chars::white(name[0]),
        texts::all_white(before),
        texts::is_tight(v),
        texts::all_white(after),
    ensures
        reference::alias_command(
            "alias "@ + (pad + (name + seq!['='] + (before + v + after))),
            name,
        ) == said(v),
        !texts::stands(name + seq!['='] + (before + v + after), "alias "@, 0)
            ==> reference::alias_command(name + seq!['='] + (before + v + after), name) == said(v),
{
    let key = name + seq!['='];
    assert(key =~= name.push('='));
    let value = before + v + after;
    let definition = key + value;
    let none = Seq::<char>::empty();
    let whole = "alias "@ + (pad + definition);
    texts::lemma_prefix("alias "@, whole);
    texts::lemma_prefix("alias "@, definition);
    assert(texts::stands(whole, "alias "@, 0));
    assert(whole.skip("alias "@.len() as int) =~= pad + definition);
    chars::law_white('=');
    assert(!text::is_white('='));
    // What remains once the definition is trimmed.
    let kept = if v.len() == 0 {
        none
    } else {
        before + v
    };
    let tight = key + kept;
    let gone = if v.len() == 0 {
        value
    } else {
        after
    };
    assert(definition =~= tight + gone);
    assert forall|i: int| 0 <= i < gone.len() implies chars::white(#[trigger] gone[i]) by {
        if v.len() == 0 {
            if i < before.len() {
                assert(gone[i] == before[i]);
            } else {
                assert(gone[i] == after[i - before.len()]);
            }
        }
    }
    assert(tight[0] == name[0]);
    if v.len() == 0 {
        assert(tight.last() == '=');
    } else {
        assert(tight.last() == v.last());
    }
    assert(pad + definition =~= pad + tight + gone);
    texts::law_trim(pad, tight, gone);
    assert(definition =~= none + tight + gone);
    texts::law_trim(none, tight, gone);
    texts::lemma_prefix(key, tight);
    assert(texts::stands(tight, key, 0));
    assert(tight.skip(key.len() as int) =~= kept);
    if v.len() == 0 {
        assert(kept =~= none + v + none);
        law_unquoted(none, v, none);
    } else {
        assert(kept =~= before + v + none);
        law_unquoted(before, v, none);
    }
}

/// A line that is no definition of an alias is taken for a command as it is.
pub proof fn law_alias_command_bare(before: Seq<char>, v: Seq<char>, after: Seq<char>, name: Seq<char>)
    requires
        texts::all_white(before),
        texts::is_tight(v),
        texts::all_white(after),
        !texts::stands(before + v + after, "alias "@, 0),
        !texts::stands(v, name + seq!['='], 0),
    ensures
        reference::alias_command(before + v + after, name) == said(v),
{
    let key = name + seq!['='];
    let none = Seq::<char>::empty();
    assert(key =~= name.push('='));
    texts::lemma_prefix("alias "@, before + v + after);
    texts::lemma_prefix(key, v);
    texts::law_trim(before, v, after);
    assert(v =~= none + v + none);
    law_unquoted(none, v, none);
}

/// Leading white space, taken off and put back.
proof fn lemma_start(s: Seq<char>) -> (pad: Seq<char>)
    ensures
        texts::all_white(pad),
        s == pad + text::trim_start(s),
    decreases s.len(),
{
    let none = Seq::<char>::empty();
    if s.len() > 0 && text::is_white(s[0]) {
        chars::law_white(s[0]);
        let rest = lemma_start(s.drop_first());
        let pad = seq![s[0]] + rest;
        assert forall|i: int| 0 <= i < pad.len() implies chars::white(#[trigger] pad[i]) by {
            if i > 0 {
                assert(pad[i] == rest[i - 1]);
            }
        }
        assert(s =~= seq![s[0]] + s.drop_first());
        assert(s =~= pad + text::trim_start(s));
        pad
    } else {
        assert(s =~= none + s);
        none
    }
}

/// A line that has `KEY`, blanks, `=` and a value assigns what the value says: what
/// stands between its quotes, or else its first word; an empty value is none.
pub proof fn law_assignment(
    before: Seq<char>,
    key: Seq<char>,
    gap: Seq<char>,
    pad: Seq<char>,
    v: Seq<char>,
    after: Seq<char>,
)
    requires
        texts::all_white(before),
        key.len() > 0,
        !chars::white(key[0]),
        texts::all_white(gap),
        texts::all_white(pad),
        texts::is_tight(v),
        texts::all_white(after),
    ensures
        v.len() == 0 ==> reference::assigned_value(
            before + (key + gap + seq!['='] + (pad + v)) + after,
            key,
        ) is None,
        has_quotes(v) ==> reference::assigned_value(
            before + (key + gap + seq!['='] + (pad + v)) + after,
            key,
        ) == (if v.len() > 2 {
            Some(v.subrange(1, v.len() - 1))
        } else {
            None
        }),
        !has_quotes(v) ==> forall|word: Seq<char>, rest: Seq<char>|
            v == #[trigger] (word + rest) && word.len() > 0 && texts::none_white(word) && (rest.len()
                > 0 ==> chars::white(rest[0])) ==> reference::assigned_value(
                before + (key + gap + seq!['='] + (pad + v)) + after,
                key,
            ) == Some(word),
{
    let none = Seq::<char>::empty();
    chars::law_white('=');
    assert(!text::is_white('='));
    let whole = before + (key + gap + seq!['='] + (pad + v)) + after;
    let kept = if v.len() == 0 {
        none
    } else {
        pad + v
    };
    let gone = if v.len() == 0 {
        pad + after
    } else {
        after
    };
    let tight = key + gap + seq!['='] + kept;
    assert(whole =~= before + tight + gone);
    assert forall|i: int| 0 <= i < gone.len() implies chars::white(#[trigger] gone[i]) by {
        if v.len() == 0 {
            if i < pad.len() {
                assert(gone[i] == pad[i]);
            } else {
                assert(gone[i] == after[i - pad.len()]);
            }
        }
    }
    assert(tight[0] == key[0]);
    if v.len() == 0 {
        assert(tight.last() == '=');
    } else {
        assert(tight.last() == v.last());
    }
    texts::law_trim(before, tight, gone);
    texts::lemma_prefix(key, tight);
    assert(texts::stands(tight, key, 0));
    let rest = gap + (seq!['='] + kept);
    assert(tight.skip(key.len() as int) =~= rest);
    texts::law_trim_start(gap, seq!['='] + kept);
    if gap.len() > 0 {
        assert(rest[0] == gap[0]);
        chars::law_white(gap[0]);
    } else {
        assert(rest[0] == '=');
    }
    assert((seq!['='] + kept).drop_first() =~= kept);
    if v.len() == 0 {
        assert(kept =~= none + v + none);
        texts::law_trim(none, v, none);
        assert(v =~= none);
        texts::law_first_word(none, none, none);
    } else {
        assert(kept =~= pad + v + none);
        texts::law_trim(pad, v, none);
        if !has_quotes(v) {
            assert forall|word: Seq<char>, rest: Seq<char>|
                v == #[trigger] (word + rest) && word.len() > 0 && texts::none_white(word) && (
                rest.len() > 0 ==> chars::white(rest[0])) implies reference::assigned_value(
                whole,
                key,
            ) == Some(word) by {
                assert(v =~= none + word + rest);
                texts::law_first_word(none, word, rest);
            }
        }
    }
}

/// A line without `KEY`, blanks and `=` at its beginning assigns nothing to `KEY`.
pub proof fn law_no_assignment(line: Seq<char>, key: Seq<char>)
    ensures
        reference::assigned_value(line, key) is Some ==> exists|
            before: Seq<char>,
            gap: Seq<char>,
            rest: Seq<char>,
        |
            line == #[trigger] (before + (key + gap + seq!['='] + rest)) && texts::all_white(before)
                && texts::all_white(gap),
{
    if reference::assigned_value(line, key) is Some {
        let (before, after) = texts::lemma_trimmed(line);
        let t = text::trim(line);
        let tail = t.skip(key.len() as int);
        let gap = lemma_start(tail);
        let value = text::trim_start(tail);
        let rest = value.drop_first() + after;
        assert(t =~= key + tail);
        assert(value =~= seq!['='] + value.drop_first());
        assert(line =~= before + (key + gap + seq!['='] + rest));
    }
}

/// The first line that assigns a value to a key gives it; where none does, there is
/// none.
pub proof fn law_first_assigned(lines: Seq<Seq<char>>, key: Seq<char>, i: int)
    requires
        0 <= i <= lines.len(),
        forall|j: int|
            0 <= j < i ==> reference::assigned_value(#[trigger] lines[j], key) is None,
        i < lines.len() ==> reference::assigned_value(lines[i], key) is Some,
    ensures
        i < lines.len() ==> reference::first_assigned(lines, key) == reference::assigned_value(
            lines[i],
            key,
        ),
        i == lines.len() ==> reference::first_assigned(lines, key) is None,
    decreases lines.len(),
{
    if i > 0 {
        let rest = lines.drop_first();
        assert(reference::assigned_value(lines[0], key) is None);
        assert forall|j: int| 0 <= j < i - 1 implies reference::assigned_value(
            #[trigger] rest[j],
            key,
        ) is None by {
            assert(rest[j] == lines[j + 1]);
        }
        if i < lines.len() {
            assert(rest[i - 1] == lines[i]);
        }
        law_first_assigned(rest, key, i - 1);
    }
}

/// Whether a jar token stands in `s` from `a` on, with its `.jar` at `dot`: nothing
/// but token characters before that, as many as there are, and behind it the end, a
/// delimiter or a `.`.
pub open spec fn token_stands(s: Seq<char>, a: int, dot: int) -> bool {
    &&& 0 <= a <= dot
    &&& dot + 4 <= s.len()
    &&& forall|k: int| a <= k < dot ==> chars::token_code(#[trigger] s[k])
    &&& a > 0 ==> !chars::token_code(s[a - 1])
    &&& s[dot] == '.'
    &&& chars::same_but_case(s[dot + 1], 'j')
    &&& chars::same_but_case(s[dot + 2], 'a')
    &&& chars::same_but_case(s[dot + 3], 'r')
    &&& dot + 4 < s.len() ==> s[dot + 4] == '.' || chars::delimiters().contains(s[dot + 4])
}

/// Whether the jar token `token` stands somewhere in `s`.
pub open spec fn token_in(s: Seq<char>, token: Seq<char>) -> bool {
    exists|a: int, dot: int| #[trigger] token_stands(s, a, dot) && token == s.subrange(a, dot + 4)
}

/// Where a token begins.
proof fn lemma_start_of(s: Seq<char>, end: int)
    requires
        0 <= end <= s.len(),
    ensures
        0 <= reference::token_start(s, end) <= end,
        forall|k: int| reference::token_start(s, end) <= k < end ==> chars::token_code(#[trigger] s[k]),
        reference::token_start(s, end) > 0 ==> !chars::token_code(
            s[reference::token_start(s, end) - 1],
        ),
    decreases end,
{
    if end > 0 {
        chars::law_token_char(s[end - 1]);
        if reference::in_token(s[end - 1]) {
            lemma_start_of(s, end - 1);
        }
    }
}

/// [`token_stands`], in the words of the search for tokens.
proof fn lemma_token(s: Seq<char>, a: int, dot: int)
    ensures
        token_stands(s, a, dot) ==> reference::is_token_at(s, dot) && a == reference::token_start(
            s,
            dot,
        ) && reference::token_at(s, dot) == s.subrange(a, dot + 4),
        reference::is_token_at(s, dot) ==> token_stands(s, reference::token_start(s, dot), dot),
{
    reveal_strlit(".jar");
    let lower = text::ascii_lower(s);
    chars::law_lower(s, s);
    chars::law_lower(".jar"@, ".jar"@);
    texts::law_occurs(lower, ".jar"@, dot);
    if token_stands(s, a, dot) {
        lemma_start_of(s, dot);
        let b = reference::token_start(s, dot);
        if b < a {
            assert(chars::token_code(s[a - 1]));
        }
        if a < b {
            assert(chars::token_code(s[b - 1]));
        }
        assert forall|k: int| 0 <= k < 4 implies lower[dot + k] == #[trigger] ".jar"@[k] by {
            assert(k == 0 || k == 1 || k == 2 || k == 3);
            assert(chars::same_but_case(s[dot + k], lower[dot + k]));
        }
        if dot + 4 < s.len() {
            chars::law_delimiter(s[dot + 4]);
        }
    }
    if reference::is_token_at(s, dot) {
        lemma_start_of(s, dot);
        assert(lower[dot + 0] == ".jar"@[0] && lower[dot + 1] == ".jar"@[1] && lower[dot + 2]
            == ".jar"@[2] && lower[dot + 3] == ".jar"@[3]);
        assert(chars::same_but_case(s[dot], lower[dot]));
        assert(chars::same_but_case(s[dot + 1], lower[dot + 1]));
        assert(chars::same_but_case(s[dot + 2], lower[dot + 2]));
        assert(chars::same_but_case(s[dot + 3], lower[dot + 3]));
        if dot + 4 < s.len() {
            chars::law_delimiter(s[dot + 4]);
        }
    }
}

/// The candidates of a text are the jar tokens that stand in it, each once: every
/// one of them, and nothing else.
pub proof fn law_tokens(s: Seq<char>)
    ensures
        reference::jar_candidates(s).no_duplicates(),
        forall|a: int, dot: int| #[trigger]
            token_stands(s, a, dot) ==> reference::jar_candidates(s).contains(
                s.subrange(a, dot + 4),
            ),
        forall|i: int|
            0 <= i < reference::jar_candidates(s).len() ==> token_in(
                s,
                #[trigger] reference::jar_candidates(s)[i],
            ),
{
    reference::law_candidates(s);
    let all = reference::jar_candidates(s);
    assert forall|a: int, dot: int| #[trigger] token_stands(s, a, dot) implies all.contains(
        s.subrange(a, dot + 4),
    ) by {
        lemma_token(s, a, dot);
    }
    assert forall|i: int| 0 <= i < all.len() implies token_in(s, #[trigger] all[i]) by {
        assert(all.contains(all[i]));
        let dot = choose|dot: int| #[trigger]
            reference::is_token_at(s, dot) && all[i] == reference::token_at(s, dot);
        lemma_token(s, 0, dot);
        assert(token_stands(s, reference::token_start(s, dot), dot));
    }
}

/// Where the tokens of a text end, in the order in which they are collected.
proof fn lemma_dots(s: Seq<char>, from: int) -> (dots: Seq<int>)
    requires
        0 <= from,
    ensures
        dots.len() == reference::jar_tokens(s, from).len(),
        forall|k: int|
            0 <= k < dots.len() ==> from <= #[trigger] dots[k] && reference::is_token_at(s, dots[k])
                && reference::jar_tokens(s, from)[k] == reference::token_at(s, dots[k]),
        forall|j: int, k: int| 0 <= j < k < dots.len() ==> #[trigger] dots[j] < #[trigger] dots[k],
        forall|dot: int| #[trigger] reference::is_token_at(s, dot) && from <= dot ==> dots.contains(dot),
    decreases s.len() - from,
{
    reveal_strlit(".jar");
    let lower = text::ascii_lower(s);
    text::lemma_find_from(lower, ".jar"@, from);
    match text::find_from(lower, ".jar"@, from) {
        None => Seq::empty(),
        Some(first) => {
            texts::law_occurs(lower, ".jar"@, first);
            let rest = lemma_dots(s, first + 4);
            let dots = if reference::token_ends(s, first + 4) {
                seq![first] + rest
            } else {
                rest
            };
            assert forall|k: int| 0 <= k < dots.len() implies from <= #[trigger] dots[k]
                && reference::is_token_at(s, dots[k]) && reference::jar_tokens(s, from)[k]
                == reference::token_at(s, dots[k]) by {
                if reference::token_ends(s, first + 4) {
                    if k > 0 {
                        assert(dots[k] == rest[k - 1]);
                    }
                } else {
                    assert(dots[k] == rest[k]);
                }
            }
            assert forall|dot: int| #[trigger] reference::is_token_at(s, dot) && from <= dot implies dots.contains(
                dot,
            ) by {
                texts::law_occurs(lower, ".jar"@, dot);
                assert(lower[dot + 0] == ".jar"@[0]);
                if first < dot < first + 4 {
                    assert(lower[first + (dot - first)] == ".jar"@[dot - first]);
                }
                if dot == first {
                    assert(dots[0] == dot);
                } else {
                    let k = choose|k: int| 0 <= k < rest.len() && rest[k] == dot;
                    if reference::token_ends(s, first + 4) {
                        assert(dots[k + 1] == dot);
                    } else {
                        assert(dots[k] == dot);
                    }
                }
            }
            dots
        },
    }
}

/// What is kept of a sequence stands in the order of first appearance.
proof fn lemma_distinct_order(s: Seq<Seq<char>>, i: int, j: int) -> (p: int)
    requires
        0 <= i < j < reference::distinct(s).len(),
    ensures
        0 <= p < s.len(),
        s[p] == reference::distinct(s)[i],
        forall|q: int|
            0 <= q < s.len() && #[trigger] s[q] == reference::distinct(s)[j] ==> p < q,
    decreases s.len(),
{
    let head = s.drop_last();
    let before = reference::distinct(head);
    if j < before.len() {
        let p = lemma_distinct_order(head, i, j);
        assert forall|q: int|
            0 <= q < s.len() && #[trigger] s[q] == reference::distinct(s)[j] implies p < q by {
            if q < head.len() {
                assert(head[q] == s[q]);
            }
        }
        p
    } else {
        let p = lemma_kept(head, before[i]);
        assert(before.contains(before[i]));
        assert forall|q: int|
            0 <= q < s.len() && #[trigger] s[q] == reference::distinct(s)[j] implies p < q by {
            if q < head.len() {
                assert(head[q] == s.last());
                lemma_all_kept(head, q);
            }
        }
        p
    }
}

/// What is kept of a sequence stands in it.
proof fn lemma_kept(s: Seq<Seq<char>>, x: Seq<char>) -> (p: int)
    requires
        reference::distinct(s).contains(x),
    ensures
        0 <= p < s.len(),
        s[p] == x,
    decreases s.len(),
{
    let before = reference::distinct(s.drop_last());
    if before.contains(x) {
        lemma_kept(s.drop_last(), x)
    } else {
        let k = choose|k: int| 0 <= k < reference::distinct(s).len() && reference::distinct(s)[k] == x;
        if k < before.len() {
            assert(before[k] == x);
        }
        s.len() - 1
    }
}

/// What stands in a sequence is kept of it.
proof fn lemma_all_kept(s: Seq<Seq<char>>, q: int)
    requires
        0 <= q < s.len(),
    ensures
        reference::distinct(s).contains(s[q]),
    decreases s.len(),
{
    let head = s.drop_last();
    let before = reference::distinct(head);
    if q < head.len() {
        lemma_all_kept(head, q);
        let k = choose|k: int| 0 <= k < before.len() && before[k] == head[q];
        assert(reference::distinct(s)[k] == s[q]);
    } else if !before.contains(s.last()) {
        assert(reference::distinct(s)[before.len() as int] == s[q]);
    }
}

/// The candidates of a text come in the order in which they first stand in it: each
/// stands somewhere before every place where a later one does.
pub proof fn law_token_order(s: Seq<char>, i: int, j: int)
    requires
        0 <= i < j < reference::jar_candidates(s).len(),
    ensures
        exists|a: int, dot: int| #[trigger]
            token_stands(s, a, dot) && s.subrange(a, dot + 4) == reference::jar_candidates(s)[i] && (
            forall|b: int, later: int| #[trigger]
                token_stands(s, b, later) && s.subrange(b, later + 4) == reference::jar_candidates(
                    s,
                )[j] ==> dot < later),
{
    let tokens = reference::jar_tokens(s, 0);
    let dots = lemma_dots(s, 0);
    let p = lemma_distinct_order(tokens, i, j);
    let dot = dots[p];
    let a = reference::token_start(s, dot);
    lemma_token(s, a, dot);
    assert(token_stands(s, a, dot));
    assert forall|b: int, later: int| #[trigger]
        token_stands(s, b, later) && s.subrange(b, later + 4) == reference::jar_candidates(
            s,
        )[j] implies dot < later by {
        lemma_token(s, b, later);
        let q = choose|q: int| 0 <= q < dots.len() && dots[q] == later;
        assert(tokens[q] == reference::token_at(s, later));
    }
}

} // verus!
