//! How a text refers to a jar: alias definitions, `KEY = value` lines and
//! `.jar` tokens.
use vstd::prelude::*;
use crate::path;
use crate::text;

verus! {

// ---------------------------------------------------------------------------
// Quotes and aliases
// ---------------------------------------------------------------------------
/// Whether `s` stands between two equal quotes, single or double.
pub open spec fn is_quoted(s: Seq<char>) -> bool {
    s.len() >= 2 && (s[0] == '\'' || s[0] == '"') && s.last() == s[0]
}

/// `s` trimmed, and without one layer of matching quotes around it.
pub open spec fn unquoted(s: Seq<char>) -> Seq<char> {
    let t = text::trim(s);
    if is_quoted(t) {
        t.subrange(1, t.len() - 1)
    } else {
        t
    }
}

/// Where [`unquoted`] begins and ends in `s`.
fn unquoted_bounds(s: &[char]) -> (r: (usize, usize))
    ensures
        r.0 <= r.1 <= s@.len(),
        s@.subrange(r.0 as int, r.1 as int) == unquoted(s@),
{
    let (start, end): (usize, usize) = text::trim_bounds(s);
    let ghost t = text::trim(s@);
    proof {
        assert(t.len() == end - start);
        if end > start {
            assert(t[0] == s@[start as int]);
            assert(t.last() == s@[end - 1]);
        }
    }
    if end - start >= 2 && (s[start] == '\'' || s[start] == '"') && s[end - 1] == s[start] {
        assert(s@.subrange(start + 1, end - 1) == t.subrange(1, t.len() - 1));
        (start + 1, end - 1)
    } else {
        (start, end)
    }
}

/// Strips one layer of matching surrounding single or double quotes.
pub fn strip_outer_quotes<'a>(s: &'a str) -> (r: &'a str)
    ensures
        r@ == unquoted(s@),
{
    let chars: Vec<char> = text::chars_of(s);
    let (start, end): (usize, usize) = unquoted_bounds(chars.as_slice());
    s.substring_char(start, end)
}

/// `s` without `prefix` at its beginning, or all of `s` where it does not begin
/// with it.
pub open spec fn without_prefix(s: Seq<char>, prefix: Seq<char>) -> Seq<char> {
    if prefix.is_prefix_of(s) {
        s.skip(prefix.len() as int)
    } else {
        s
    }
}

/// `s` without `prefix` at its beginning.
fn strip_prefix_or_all<'a>(s: &'a [char], prefix: &[char]) -> (r: &'a [char])
    ensures
        r@ == without_prefix(s@, prefix@),
{
    if text::begins_with(s, prefix) {
        &s[prefix.len()..s.len()]
    } else {
        s
    }
}

/// The command that the alias line `line` gives to `name`: the line without a
/// leading `alias ` and `name=`, unquoted.
pub open spec fn alias_command(line: Seq<char>, name: Seq<char>) -> Seq<char> {
    let definition = text::trim(without_prefix(line, "alias "@));
    unquoted(without_prefix(definition, name.push('=')))
}

/// Extracts the value of an `alias` line, e.g. `foo='java -jar x.jar'` gives the
/// inner command `java -jar x.jar`.
pub fn alias_value(line: &str, name: &str) -> (r: String)
    ensures
        r@ == alias_command(line@, name@),
{
    let line_chars: Vec<char> = text::chars_of(line);
    let keyword: Vec<char> = text::chars_of("alias ");
    let definition: &[char] = text::trimmed(
        strip_prefix_or_all(line_chars.as_slice(), keyword.as_slice()),
    );
    let mut prefix: Vec<char> = text::chars_of(name);
    prefix.push('=');
    let value: &[char] = strip_prefix_or_all(definition, prefix.as_slice());
    let (start, end): (usize, usize) = unquoted_bounds(value);
    text::text_of(&value[start..end])
}

/// The first of `lines` that, trimmed, is not empty and holds `name`.
pub open spec fn first_line_with(lines: Seq<Seq<char>>, name: Seq<char>) -> Option<Seq<char>>
    decreases lines.len(),
{
    if lines.len() == 0 {
        None
    } else {
        let line = text::trim(lines[0]);
        if line.len() > 0 && text::contains(line, name) {
            Some(line)
        } else {
            first_line_with(lines.drop_first(), name)
        }
    }
}

/// The first line of `output` that, trimmed, is not empty and holds `name`: the
/// definition of the alias `name` in what a shell printed.
pub fn alias_line(output: &str, name: &str) -> (r: Option<String>)
    ensures
        match r {
            Some(line) => first_line_with(text::lines(output@), name@) == Some(line@),
            None => first_line_with(text::lines(output@), name@) is None,
        },
{
    let chars: Vec<char> = text::chars_of(output);
    let wanted: Vec<char> = text::chars_of(name);
    let all: Vec<Vec<char>> = text::split_lines(chars.as_slice());
    let ghost ls = text::lines(output@);
    let mut i: usize = 0;
    assert(ls.skip(0) == ls);
    while i < all.len()
        invariant
            i <= all@.len(),
            wanted@ == name@,
            text::texts(all@) == ls,
            ls == text::lines(output@),
            first_line_with(ls, name@) == first_line_with(ls.skip(i as int), name@),
        decreases all@.len() - i,
    {
        let line: &[char] = text::trimmed(all[i].as_slice());
        proof {
            assert(ls[i as int] == all@[i as int]@);
            assert(ls.skip(i as int)[0] == ls[i as int]);
            assert(ls.skip(i as int).drop_first() == ls.skip(i + 1));
        }
        if line.len() > 0 && text::has(line, wanted.as_slice()) {
            return Some(text::text_of(line));
        }
        i = i + 1;
    }
    None
}

// ---------------------------------------------------------------------------
// Assignments
// ---------------------------------------------------------------------------
/// The value `raw` as it is written behind `=`: what stands between its quotes, or,
/// where it has none, its first word.
pub open spec fn written_value(raw: Seq<char>) -> Seq<char> {
    if is_quoted(raw) {
        raw.subrange(1, raw.len() - 1)
    } else {
        match text::first_word(raw) {
            Some(word) => word,
            None => raw,
        }
    }
}

/// The value that the line `line` assigns to `key`: the one that is written behind
/// `key`, blanks and `=`. `None` where the line assigns nothing to `key`, or
/// nothing at all.
pub open spec fn assigned_value(line: Seq<char>, key: Seq<char>) -> Option<Seq<char>> {
    let line = text::trim(line);
    let rest = line.skip(key.len() as int);
    let after = text::trim_start(rest);
    if !key.is_prefix_of(line) {
        None
    } else if rest.len() == 0 || !(text::is_white(rest[0]) || rest[0] == '=') {
        None
    } else if after.len() == 0 || after[0] != '=' {
        None
    } else {
        let value = written_value(text::trim(after.drop_first()));
        if value.len() > 0 {
            Some(value)
        } else {
            None
        }
    }
}

/// The value that the first of `lines` with one assigns to `key`.
pub open spec fn first_assigned(lines: Seq<Seq<char>>, key: Seq<char>) -> Option<Seq<char>>
    decreases lines.len(),
{
    if lines.len() == 0 {
        None
    } else {
        match assigned_value(lines[0], key) {
            Some(value) => Some(value),
            None => first_assigned(lines.drop_first(), key),
        }
    }
}

/// The value that `line` assigns to `key`.
fn line_value(line: &[char], key: &[char]) -> (r: Option<Vec<char>>)
    ensures
        match r {
            Some(value) => assigned_value(line@, key@) == Some(value@),
            None => assigned_value(line@, key@) is None,
        },
{
    let line: &[char] = text::trimmed(line);
    if !text::begins_with(line, key) {
        return None;
    }
    let rest: &[char] = &line[key.len()..line.len()];
    assert(rest@ == line@.skip(key@.len() as int));
    if rest.len() == 0 || !(text::is_whitespace(rest[0]) || rest[0] == '=') {
        return None;
    }
    let after: &[char] = text::skip_white(rest);
    if after.len() == 0 || after[0] != '=' {
        return None;
    }
    let tail: &[char] = &after[1..after.len()];
    assert(tail@ == after@.drop_first());
    let raw: &[char] = text::trimmed(tail);
    let n: usize = raw.len();
    let value: &[char] = if n >= 2 && (raw[0] == '\'' || raw[0] == '"') && raw[n - 1] == raw[0] {
        &raw[1..n - 1]
    } else {
        text::first_word_or_all(raw)
    };
    if value.len() > 0 {
        Some(text::copy_of(value))
    } else {
        None
    }
}

/// Finds the value of a `KEY = '...'` / `KEY="..."` / `KEY=...` assignment.
pub fn assignment_value(text: &str, key: &str) -> (r: Option<String>)
    ensures
        match r {
            Some(value) => first_assigned(text::lines(text@), key@) == Some(value@),
            None => first_assigned(text::lines(text@), key@) is None,
        },
{
    let chars: Vec<char> = text::chars_of(text);
    let wanted: Vec<char> = text::chars_of(key);
    let all: Vec<Vec<char>> = text::split_lines(chars.as_slice());
    let ghost ls = text::lines(text@);
    let mut i: usize = 0;
    assert(ls.skip(0) == ls);
    while i < all.len()
        invariant
            i <= all@.len(),
            wanted@ == key@,
            text::texts(all@) == ls,
            ls == text::lines(text@),
            first_assigned(ls, key@) == first_assigned(ls.skip(i as int), key@),
        decreases all@.len() - i,
    {
        proof {
            assert(ls[i as int] == all@[i as int]@);
            assert(ls.skip(i as int)[0] == ls[i as int]);
            assert(ls.skip(i as int).drop_first() == ls.skip(i + 1));
        }
        if let Some(value) = line_value(all[i].as_slice(), wanted.as_slice()) {
            return Some(text::text_of(value.as_slice()));
        }
        i = i + 1;
    }
    None
}

// ---------------------------------------------------------------------------
// Jar tokens
// ---------------------------------------------------------------------------
/// Whether `c` ends a path-like token.
pub open spec fn delimits(c: char) -> bool {
    ||| c == ' '
    ||| c == '\t'
    ||| c == '\n'
    ||| c == '\r'
    ||| c == '\''
    ||| c == '"'
    ||| c == '='
    ||| c == '('
    ||| c == ')'
    ||| c == '['
    ||| c == ']'
    ||| c == '{'
    ||| c == '}'
    ||| c == ','
    ||| c == ';'
    ||| c == '`'
    ||| c == '<'
    ||| c == '>'
    ||| c == '|'
    ||| c == '&'
    ||| c == ':'
}

/// Whether `c` may be part of a path-like token: printable ASCII, but no delimiter.
pub open spec fn in_token(c: char) -> bool {
    '!' <= c && c <= '~' && !delimits(c)
}

/// Whether a character ends a path-like token.
pub fn is_delim(c: char) -> (r: bool)
    ensures
        r == delimits(c),
{
    c == ' ' || c == '\t' || c == '\n' || c == '\r' || c == '\'' || c == '"' || c == '=' || c == '('
        || c == ')' || c == '[' || c == ']' || c == '{' || c == '}' || c == ',' || c == ';' || c
        == '`' || c == '<' || c == '>' || c == '|' || c == '&' || c == ':'
}

/// Whether a character may be part of a path-like token (printable ASCII, not a
/// delimiter).
pub fn is_token_char(c: char) -> (r: bool)
    ensures
        r == in_token(c),
{
    '!' <= c && c <= '~' && !is_delim(c)
}

/// Where the token that runs up to `end` begins in `s`.
pub open spec fn token_start(s: Seq<char>, end: int) -> int
    decreases end,
{
    if end > 0 && in_token(s[end - 1]) {
        token_start(s, end - 1)
    } else {
        end
    }
}

/// Whether a token may end at `end`: at the end of `s`, before a delimiter, or
/// before a `.`.
pub open spec fn token_ends(s: Seq<char>, end: int) -> bool {
    end >= s.len() || delimits(s[end]) || s[end] == '.'
}

/// The tokens of `s` that end with `.jar`, from index `from` on, in the order in
/// which they stand there.
pub open spec fn jar_tokens(s: Seq<char>, from: int) -> Seq<Seq<char>>
    decreases s.len() - from,
{
    match text::find_from(text::ascii_lower(s), ".jar"@, from) {
        None => Seq::empty(),
        Some(dot) => if from <= dot && dot + 4 <= s.len() {
            let rest = jar_tokens(s, dot + 4);
            if token_ends(s, dot + 4) {
                seq![s.subrange(token_start(s, dot), dot + 4)] + rest
            } else {
                rest
            }
        } else {
            Seq::empty()
        },
    }
}

/// The items of `s`, each where it first stands.
pub open spec fn distinct(s: Seq<Seq<char>>) -> Seq<Seq<char>>
    decreases s.len(),
{
    if s.len() == 0 {
        Seq::empty()
    } else {
        let before = distinct(s.drop_last());
        if before.contains(s.last()) {
            before
        } else {
            before.push(s.last())
        }
    }
}

/// Every `.jar` token of `s`, once, in the order of first appearance.
pub open spec fn jar_candidates(s: Seq<char>) -> Seq<Seq<char>> {
    distinct(jar_tokens(s, 0))
}

/// A token begins inside its text.
proof fn lemma_token_start(s: Seq<char>, end: int)
    requires
        0 <= end <= s.len(),
    ensures
        0 <= token_start(s, end) <= end,
        forall|i: int| token_start(s, end) <= i < end ==> in_token(#[trigger] s[i]),
    decreases end,
{
    if end > 0 && in_token(s[end - 1]) {
        lemma_token_start(s, end - 1);
    }
}

/// Adding one more item to a sequence adds it to the distinct ones where it is
/// new.
proof fn lemma_distinct_push(s: Seq<Seq<char>>, item: Seq<char>)
    ensures
        distinct(s.push(item)) == (if distinct(s).contains(item) {
            distinct(s)
        } else {
            distinct(s).push(item)
        }),
{
    assert(s.push(item).drop_last() == s);
}

/// Whether `item` is one of `v`.
fn is_listed(v: &Vec<Vec<char>>, item: &[char]) -> (r: bool)
    ensures
        r == text::texts(v@).contains(item@),
{
    let mut i: usize = 0;
    while i < v.len()
        invariant
            i <= v@.len(),
            forall|j: int| 0 <= j < i ==> text::texts(v@)[j] != item@,
        decreases v@.len() - i,
    {
        if text::same_chars(v[i].as_slice(), item) {
            assert(text::texts(v@)[i as int] == item@);
            return true;
        }
        i = i + 1;
    }
    false
}

/// Every `.jar` token of `s`, once.
pub fn candidates_in(s: &[char]) -> (r: Vec<Vec<char>>)
    ensures
        text::texts(r@) == jar_candidates(s@),
{
    let suffix: Vec<char> = text::chars_of(".jar");
    let mut lower: Vec<char> = Vec::new();
    let mut k: usize = 0;
    while k < s.len()
        invariant
            k <= s@.len(),
            lower@.len() == k,
            forall|j: int| 0 <= j < k ==> lower@[j] == text::lower_char(#[trigger] s@[j]),
        decreases s@.len() - k,
    {
        lower.push(text::to_lower(s[k]));
        k = k + 1;
    }
    assert(lower@ =~= text::ascii_lower(s@));
    proof {
        reveal_strlit(".jar");
    }
    let mut out: Vec<Vec<char>> = Vec::new();
    let mut from: usize = 0;
    let ghost mut seen: Seq<Seq<char>> = Seq::empty();
    assert(text::texts(out@) =~= distinct(seen));
    assert(seen + jar_tokens(s@, 0) =~= jar_tokens(s@, 0));
    while from < s.len()
        invariant
            from <= s@.len(),
            suffix@ == ".jar"@,
            ".jar"@.len() == 4,
            lower@ == text::ascii_lower(s@),
            lower@.len() == s@.len(),
            text::texts(out@) == distinct(seen),
            seen + jar_tokens(s@, from as int) == jar_tokens(s@, 0),
        decreases s@.len() - from,
    {
        proof {
            text::lemma_find_from(lower@, suffix@, from as int);
        }
        match text::find(lower.as_slice(), suffix.as_slice(), from) {
            None => {
                assert(seen + jar_tokens(s@, from as int) =~= seen);
                return out;
            },
            Some(dot) => {
                let end: usize = dot + 4;
                let ghost later = jar_tokens(s@, end as int);
                if end >= s.len() || is_delim(s[end]) || s[end] == '.' {
                    let mut start: usize = dot;
                    while start > 0 && is_token_char(s[start - 1])
                        invariant
                            start <= dot <= s@.len(),
                            token_start(s@, dot as int) == token_start(s@, start as int),
                        decreases start,
                    {
                        start = start - 1;
                    }
                    let token: &[char] = &s[start..end];
                    let ghost old_seen = seen;
                    proof {
                        seen = seen.push(token@);
                        lemma_distinct_push(old_seen, token@);
                        assert(old_seen + (seq![token@] + later) =~= seen + later);
                    }
                    if !is_listed(&out, token) {
                        let ghost before = out@;
                        out.push(text::copy_of(token));
                        assert(text::texts(out@) =~= text::texts(before).push(token@));
                    }
                }
                from = end;
            },
        }
    }
    proof {
        text::lemma_find_from(lower@, suffix@, from as int);
        assert(jar_tokens(s@, from as int) =~= Seq::empty());
        assert(seen + jar_tokens(s@, from as int) =~= seen);
    }
    out
}

/// Collects every `.jar` token appearing in arbitrary text.
pub fn collect_jar_candidates(text: &str) -> (r: Vec<String>)
    ensures
        text::strings(r@) == jar_candidates(text@),
{
    let chars: Vec<char> = text::chars_of(text);
    text::strings_of(&candidates_in(chars.as_slice()))
}

// ---------------------------------------------------------------------------
// Laws
// ---------------------------------------------------------------------------
/// What [`distinct`] keeps are the items of the sequence, each once.
proof fn lemma_distinct(s: Seq<Seq<char>>)
    ensures
        distinct(s).no_duplicates(),
        forall|x: Seq<char>| #[trigger] distinct(s).contains(x) <==> s.contains(x),
    decreases s.len(),
{
    if s.len() > 0 {
        let head = s.drop_last();
        let before = distinct(head);
        lemma_distinct(head);
        assert(s =~= head.push(s.last()));
        assert forall|x: Seq<char>| #[trigger] distinct(s).contains(x) <==> s.contains(x) by {
            assert(distinct(head).contains(x) <==> head.contains(x));
            if s.contains(x) {
                let i = choose|i: int| 0 <= i < s.len() && s[i] == x;
                if i < head.len() {
                    assert(head[i] == x);
                    assert(head.contains(x));
                    let k = choose|k: int| 0 <= k < before.len() && before[k] == x;
                    assert(distinct(s)[k] == x);
                } else if !before.contains(s.last()) {
                    assert(distinct(s)[before.len() as int] == x);
                }
            }
            if distinct(s).contains(x) {
                let k = choose|k: int| 0 <= k < distinct(s).len() && distinct(s)[k] == x;
                if k < before.len() {
                    assert(before[k] == x);
                    assert(before.contains(x));
                    let i = choose|i: int| 0 <= i < head.len() && head[i] == x;
                    assert(s[i] == x);
                } else {
                    assert(s[s.len() - 1] == x);
                }
            }
        }
    }
}

/// Whether a `.jar` token ends with the `.jar`, in any mix of cases, at `dot`.
pub open spec fn is_token_at(s: Seq<char>, dot: int) -> bool {
    text::occurs_at(text::ascii_lower(s), ".jar"@, dot) && token_ends(s, dot + 4)
}

/// The token that ends with the `.jar` at `dot`: that, and all the token characters
/// before it.
pub open spec fn token_at(s: Seq<char>, dot: int) -> Seq<char> {
    s.subrange(token_start(s, dot), dot + 4)
}

/// Every token that is collected stands in the text, and ends with `.jar`.
proof fn lemma_jar_tokens(s: Seq<char>, from: int, token: Seq<char>)
    requires
        0 <= from,
        jar_tokens(s, from).contains(token),
    ensures
        path::ends_with_jar(token),
        text::contains(s, token),
        exists|dot: int| #[trigger] is_token_at(s, dot) && token == token_at(s, dot),
    decreases s.len() - from,
{
    reveal_strlit(".jar");
    let lower = text::ascii_lower(s);
    text::lemma_find_from(lower, ".jar"@, from);
    match text::find_from(lower, ".jar"@, from) {
        None => {},
        Some(dot) => {
            let rest = jar_tokens(s, dot + 4);
            let start = token_start(s, dot);
            let here = s.subrange(start, dot + 4);
            lemma_token_start(s, dot);
            let i = choose|i: int|
                0 <= i < jar_tokens(s, from).len() && jar_tokens(s, from)[i] == token;
            if token_ends(s, dot + 4) && i == 0 {
                assert(token == here);
                assert(here.skip(here.len() - 4) =~= s.subrange(dot, dot + 4));
                assert(text::ascii_lower(here.skip(here.len() - 4)) =~= lower.subrange(
                    dot,
                    dot + 4,
                ));
                assert(text::occurs_at(s, token, start));
                assert(is_token_at(s, dot));
            } else {
                if token_ends(s, dot + 4) {
                    assert(rest[i - 1] == token);
                } else {
                    assert(rest[i] == token);
                }
                lemma_jar_tokens(s, dot + 4, token);
            }
        },
    }
}

/// Every token that stands in the text is collected.
proof fn lemma_all_jar_tokens(s: Seq<char>, from: int, dot: int)
    requires
        0 <= from <= dot,
        is_token_at(s, dot),
    ensures
        jar_tokens(s, from).contains(token_at(s, dot)),
    decreases s.len() - from,
{
    reveal_strlit(".jar");
    let lower = text::ascii_lower(s);
    text::lemma_find_from(lower, ".jar"@, from);
    let first = text::find_from(lower, ".jar"@, from)->0;
    let tokens = jar_tokens(s, from);
    assert(lower.subrange(dot, dot + 4)[0] == lower[dot]);
    assert forall|k: int| 0 <= k < 4 implies lower[first + k] == ".jar"@[k] by {
        assert(lower.subrange(first, first + 4)[k] == lower[first + k]);
    }
    if first == dot {
        assert(tokens[0] == token_at(s, dot));
    } else {
        if dot < first + 4 {
            assert(lower[first + (dot - first)] == ".jar"@[dot - first]);
        }
        let rest = jar_tokens(s, first + 4);
        lemma_all_jar_tokens(s, first + 4, dot);
        let i = choose|i: int| 0 <= i < rest.len() && rest[i] == token_at(s, dot);
        if token_ends(s, first + 4) {
            assert(tokens[i + 1] == rest[i]);
        } else {
            assert(tokens[i] == rest[i]);
        }
    }
}

/// The jar candidates of a text are its `.jar` tokens: every one of them, none
/// twice, and nothing else. Each ends with `.jar` and stands in the text.
pub proof fn law_candidates(s: Seq<char>)
    ensures
        jar_candidates(s).no_duplicates(),
        forall|dot: int| #[trigger]
            is_token_at(s, dot) ==> jar_candidates(s).contains(token_at(s, dot)),
        forall|token: Seq<char>| #[trigger]
            jar_candidates(s).contains(token) ==> path::ends_with_jar(token) && text::contains(
                s,
                token,
            ) && (exists|dot: int| #[trigger] is_token_at(s, dot) && token == token_at(s, dot)),
{
    let tokens = jar_tokens(s, 0);
    lemma_distinct(tokens);
    assert forall|dot: int| #[trigger] is_token_at(s, dot) implies jar_candidates(s).contains(
        token_at(s, dot),
    ) by {
        lemma_all_jar_tokens(s, 0, dot);
        assert(distinct(tokens).contains(token_at(s, dot)) <==> tokens.contains(token_at(s, dot)));
    }
    assert forall|token: Seq<char>| #[trigger] jar_candidates(s).contains(token) implies path::ends_with_jar(
        token,
    ) && text::contains(s, token) && (exists|dot: int| #[trigger]
        is_token_at(s, dot) && token == token_at(s, dot)) by {
        assert(tokens.contains(token));
        lemma_jar_tokens(s, 0, token);
    }
}

/// A name that ends with `.jar`, in any mix of cases, all of whose other
/// characters may stand in a token, is its own only candidate unless it holds
/// `.jar` earlier.
pub proof fn law_lone_token(s: Seq<char>)
    requires
        path::ends_with_jar(s),
        forall|i: int| 0 <= i < s.len() ==> in_token(#[trigger] s[i]),
        forall|i: int|
            0 <= i < s.len() - 4 ==> !text::occurs_at(text::ascii_lower(s), ".jar"@, i),
    ensures
        jar_candidates(s) == seq![s],
{
    reveal_strlit(".jar");
    let lower = text::ascii_lower(s);
    let dot = s.len() - 4;
    assert(lower.subrange(dot, dot + 4) =~= text::ascii_lower(s.skip(dot)));
    assert(text::occurs_at(lower, ".jar"@, dot));
    text::lemma_find_from(lower, ".jar"@, 0);
    assert(text::find_from(lower, ".jar"@, 0) == Some(dot));
    text::lemma_find_from(lower, ".jar"@, s.len() as int);
    assert(jar_tokens(s, s.len() as int) =~= Seq::empty());
    lemma_full_token(s, dot);
    assert(s.subrange(0, dot + 4) =~= s);
    assert(jar_tokens(s, 0) =~= seq![s]);
    assert(jar_tokens(s, 0).drop_last() =~= Seq::<Seq<char>>::empty());
    reveal_with_fuel(distinct, 2);
    assert(distinct(jar_tokens(s, 0)) =~= seq![s]);
}

/// A token all of whose characters may stand in one begins at the start.
proof fn lemma_full_token(s: Seq<char>, end: int)
    requires
        0 <= end <= s.len(),
        forall|i: int| 0 <= i < s.len() ==> in_token(#[trigger] s[i]),
    ensures
        token_start(s, end) == 0,
    decreases end,
{
    if end > 0 {
        lemma_full_token(s, end - 1);
    }
}

/// `text` between two quotes.
pub open spec fn in_quotes(text: Seq<char>, quote: char) -> Seq<char> {
    seq![quote] + text + seq![quote]
}

/// What stands between two equal quotes is what they quote.
proof fn lemma_in_quotes(text: Seq<char>, quote: char)
    requires
        quote == '\'' || quote == '"',
    ensures
        unquoted(in_quotes(text, quote)) == text,
        text::trim(in_quotes(text, quote)) == in_quotes(text, quote),
{
    let s = in_quotes(text, quote);
    assert(s.subrange(1, s.len() - 1) =~= text);
}

/// A definition that a shell prints for an alias, with or without the word `alias`
/// before it and in either kind of quotes, gives the command inside the quotes.
pub proof fn law_alias_value(name: Seq<char>, command: Seq<char>, quote: char)
    requires
        quote == '\'' || quote == '"',
        name.len() > 0 ==> !text::is_white(name[0]),
        !"alias "@.is_prefix_of(name.push('=') + in_quotes(command, quote)),
    ensures
        alias_command(name.push('=') + in_quotes(command, quote), name) == command,
        alias_command("alias "@ + (name.push('=') + in_quotes(command, quote)), name) == command,
{
    let value = in_quotes(command, quote);
    let definition = name.push('=') + value;
    let line = "alias "@ + definition;
    lemma_in_quotes(command, quote);
    assert(text::trim(definition) == definition);
    assert(definition.subrange(0, name.push('=').len() as int) =~= name.push('='));
    assert(definition.skip(name.push('=').len() as int) =~= value);
    assert(line.subrange(0, "alias "@.len() as int) =~= "alias "@);
    assert(line.skip("alias "@.len() as int) =~= definition);
}

/// A word is all of a text without white space.
proof fn lemma_one_word(s: Seq<char>)
    requires
        forall|i: int| 0 <= i < s.len() ==> !text::is_white(#[trigger] s[i]),
    ensures
        text::word_len(s) == s.len(),
    decreases s.len(),
{
    if s.len() > 0 {
        assert forall|i: int| 0 <= i < s.drop_first().len() implies !text::is_white(
            #[trigger] s.drop_first()[i],
        ) by {
            assert(s.drop_first()[i] == s[i + 1]);
        }
        lemma_one_word(s.drop_first());
    }
}

/// `KEY = 'value'` and `KEY='value'`, in either kind of quotes, assign what stands
/// between the quotes, blanks and all. `KEY=value` assigns a value without white
/// space.
pub proof fn law_assigned_value(key: Seq<char>, value: Seq<char>, quote: char)
    requires
        quote == '\'' || quote == '"',
        key.len() > 0,
        !text::is_white(key[0]),
        value.len() > 0,
    ensures
        assigned_value(key + " = "@ + in_quotes(value, quote), key) == Some(value),
        assigned_value(key + "="@ + in_quotes(value, quote), key) == Some(value),
        !is_quoted(value) && (forall|i: int|
            0 <= i < value.len() ==> !text::is_white(#[trigger] value[i])) ==> assigned_value(
            key + "="@ + value,
            key,
        ) == Some(value),
{
    reveal_strlit(" = ");
    reveal_strlit("=");
    let shown = in_quotes(value, quote);
    lemma_in_quotes(value, quote);
    assert(shown.subrange(1, shown.len() - 1) =~= value);
    let spaced = key + " = "@ + shown;
    let rest = " = "@ + shown;
    assert(text::trim(spaced) == spaced);
    assert(spaced.subrange(0, key.len() as int) =~= key);
    assert(spaced.skip(key.len() as int) =~= rest);
    let after = "= "@ + shown;
    reveal_strlit("= ");
    assert(rest.drop_first() =~= after);
    assert(rest[0] == ' ' && after[0] == '=');
    assert(text::trim_start(after) == after);
    let tail = after.drop_first();
    assert(tail =~= seq![' '] + shown);
    assert(tail.drop_first() =~= shown);
    assert(text::trim_start(tail) == text::trim_start(shown));
    let tight = key + "="@ + shown;
    let rest = "="@ + shown;
    assert(text::trim(tight) == tight);
    assert(tight.subrange(0, key.len() as int) =~= key);
    assert(tight.skip(key.len() as int) =~= rest);
    assert(text::trim_start(rest) == rest);
    assert(rest.drop_first() =~= shown);
    if !is_quoted(value) && (forall|i: int|
        0 <= i < value.len() ==> !text::is_white(#[trigger] value[i])) {
        lemma_one_word(value);
        assert(value.take(value.len() as int) =~= value);
        assert(!text::is_white(value[0]) && !text::is_white(value.last()));
        assert(text::first_word(value) == Some(value));
        let bare = key + "="@ + value;
        let rest = "="@ + value;
        assert(text::trim(bare) == bare);
        assert(bare.subrange(0, key.len() as int) =~= key);
        assert(bare.skip(key.len() as int) =~= rest);
        assert(text::trim_start(rest) == rest);
        assert(rest.drop_first() =~= value);
        assert(text::trim(value) == value);
    }
}

} // verus!
