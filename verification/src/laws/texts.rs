//! Texts: what stands where, white space around them, lines, words, and
//! replacement.
use vstd::prelude::*;
use crate::laws::chars;
use crate::text;

verus! {

/// Whether `pat` stands in `s` from the position `i` on.
pub open spec fn stands<T>(s: Seq<T>, pat: Seq<T>, i: int) -> bool {
    0 <= i && i + pat.len() <= s.len() && forall|k: int|
        0 <= k < pat.len() ==> s[i + k] == #[trigger] pat[k]
}

/// Whether `pat` stands in `s` at some position.
pub open spec fn holds<T>(s: Seq<T>, pat: Seq<T>) -> bool {
    exists|i: int| #[trigger] stands(s, pat, i)
}

/// Whether all of `s` is white space.
pub open spec fn all_white(s: Seq<char>) -> bool {
    forall|i: int| 0 <= i < s.len() ==> chars::white(#[trigger] s[i])
}

/// Whether none of `s` is white space.
pub open spec fn none_white(s: Seq<char>) -> bool {
    forall|i: int| 0 <= i < s.len() ==> !chars::white(#[trigger] s[i])
}

/// Whether `s` neither begins nor ends with white space.
pub open spec fn is_tight(s: Seq<char>) -> bool {
    s.len() > 0 ==> !chars::white(s[0]) && !chars::white(s.last())
}

/// A text stands at a position just when all its characters do.
pub proof fn law_occurs<T>(s: Seq<T>, pat: Seq<T>, i: int)
    ensures
        text::occurs_at(s, pat, i) <==> stands(s, pat, i),
{
    if text::occurs_at(s, pat, i) {
        assert forall|k: int| 0 <= k < pat.len() implies s[i + k] == #[trigger] pat[k] by {
            assert(s.subrange(i, i + pat.len())[k] == s[i + k]);
        }
    }
    if stands(s, pat, i) {
        assert(s.subrange(i, i + pat.len()) =~= pat);
    }
}

/// A text holds another one just when that stands at some position.
pub proof fn law_contains<T>(s: Seq<T>, pat: Seq<T>)
    ensures
        text::contains(s, pat) <==> holds(s, pat),
{
    if text::contains(s, pat) {
        let i = choose|i: int| text::occurs_at(s, pat, i);
        law_occurs(s, pat, i);
    }
    if holds(s, pat) {
        let i = choose|i: int| stands(s, pat, i);
        law_occurs(s, pat, i);
    }
}

/// A beginning is what the first characters are.
pub proof fn lemma_prefix(pat: Seq<char>, s: Seq<char>)
    ensures
        pat.is_prefix_of(s) <==> stands(s, pat, 0),
{
    law_occurs(s, pat, 0);
    if pat.is_prefix_of(s) {
        assert(s.subrange(0, pat.len() as int) =~= pat);
    }
}

/// Leading white space goes, and nothing else does.
pub proof fn law_trim_start(pad: Seq<char>, rest: Seq<char>)
    requires
        all_white(pad),
        rest.len() > 0 ==> !chars::white(rest[0]),
    ensures
        text::trim_start(pad + rest) == rest,
    decreases pad.len(),
{
    if pad.len() == 0 {
        assert(pad + rest =~= rest);
        if rest.len() > 0 {
            chars::law_white(rest[0]);
        }
    } else {
        chars::law_white(pad[0]);
        assert((pad + rest).drop_first() =~= pad.drop_first() + rest);
        assert forall|i: int| 0 <= i < pad.drop_first().len() implies chars::white(
            #[trigger] pad.drop_first()[i],
        ) by {
            assert(pad.drop_first()[i] == pad[i + 1]);
        }
        law_trim_start(pad.drop_first(), rest);
    }
}

/// Trailing white space goes, and nothing else does.
pub proof fn law_trim_end(rest: Seq<char>, pad: Seq<char>)
    requires
        all_white(pad),
        rest.len() > 0 ==> !chars::white(rest.last()),
    ensures
        text::trim_end(rest + pad) == rest,
    decreases pad.len(),
{
    if pad.len() == 0 {
        assert(rest + pad =~= rest);
        if rest.len() > 0 {
            chars::law_white(rest.last());
        }
    } else {
        chars::law_white(pad.last());
        assert((rest + pad).last() == pad.last());
        assert((rest + pad).drop_last() =~= rest + pad.drop_last());
        assert forall|i: int| 0 <= i < pad.drop_last().len() implies chars::white(
            #[trigger] pad.drop_last()[i],
        ) by {
            assert(pad.drop_last()[i] == pad[i]);
        }
        law_trim_end(rest, pad.drop_last());
    }
}

/// Trimming takes off the white space around a text, and leaves what is between.
pub proof fn law_trim(before: Seq<char>, s: Seq<char>, after: Seq<char>)
    requires
        all_white(before),
        is_tight(s),
        all_white(after),
    ensures
        text::trim(before + s + after) == s,
{
    if s.len() == 0 {
        let pad = before + s + after;
        assert forall|i: int| 0 <= i < pad.len() implies chars::white(#[trigger] pad[i]) by {
            if i < before.len() {
                assert(pad[i] == before[i]);
            } else {
                assert(pad[i] == after[i - before.len()]);
            }
        }
        assert(pad =~= pad + s);
        law_trim_start(pad, s);
        assert(s =~= Seq::<char>::empty());
        assert(text::trim_end(s) =~= s);
    } else {
        assert(before + s + after =~= before + (s + after));
        assert((s + after)[0] == s[0]);
        law_trim_start(before, s + after);
        law_trim_end(s, after);
    }
}

/// How a text is trimmed: it has this shape.
pub proof fn lemma_trimmed(s: Seq<char>) -> (r: (Seq<char>, Seq<char>))
    ensures
        all_white(r.0),
        all_white(r.1),
        is_tight(text::trim(s)),
        s == r.0 + text::trim(s) + r.1,
    decreases s.len(),
{
    let none = Seq::<char>::empty();
    if s.len() == 0 {
        assert(s =~= none + text::trim(s) + none);
        (none, none)
    } else if text::is_white(s[0]) {
        chars::law_white(s[0]);
        let (a, b) = lemma_trimmed(s.drop_first());
        let first = seq![s[0]] + a;
        assert forall|i: int| 0 <= i < first.len() implies chars::white(#[trigger] first[i]) by {
            if i > 0 {
                assert(first[i] == a[i - 1]);
            }
        }
        assert(s =~= seq![s[0]] + s.drop_first());
        assert(s =~= first + text::trim(s) + b);
        (first, b)
    } else {
        let b = lemma_trimmed_end(s);
        chars::law_white(s[0]);
        let t = text::trim(s);
        if t.len() > 0 {
            assert(t[0] == s[0]);
        }
        assert(s =~= none + t + b);
        (none, b)
    }
}

/// [`lemma_trimmed`] at the end.
proof fn lemma_trimmed_end(s: Seq<char>) -> (r: Seq<char>)
    ensures
        all_white(r),
        text::trim_end(s).len() > 0 ==> !chars::white(text::trim_end(s).last()),
        s == text::trim_end(s) + r,
    decreases s.len(),
{
    if s.len() > 0 && text::is_white(s.last()) {
        chars::law_white(s.last());
        let b = lemma_trimmed_end(s.drop_last());
        let r = b.push(s.last());
        assert forall|i: int| 0 <= i < r.len() implies chars::white(#[trigger] r[i]) by {
            if i < b.len() {
                assert(r[i] == b[i]);
            }
        }
        assert(s =~= s.drop_last().push(s.last()));
        assert(s =~= text::trim_end(s) + r);
        r
    } else {
        if s.len() > 0 {
            chars::law_white(s.last());
        }
        let none = Seq::<char>::empty();
        assert(s =~= text::trim_end(s) + none);
        none
    }
}

/// A text is made of its lines: a line goes up to a line feed, and a carriage
/// return before that belongs to the end of the line. The last one needs none.
pub proof fn law_lines(line: Seq<char>, rest: Seq<char>)
    requires
        !line.contains('\n'),
    ensures
        text::lines(line.push('\n') + rest) == seq![
            if line.len() > 0 && line.last() == '\r' {
                line.drop_last()
            } else {
                line
            },
        ] + text::lines(rest),
        line.len() > 0 ==> text::lines(line) == seq![line],
        line.len() == 0 ==> text::lines(line) == Seq::<Seq<char>>::empty(),
{
    let s = line.push('\n') + rest;
    let n = line.len() as int;
    assert forall|i: int| 0 <= i < n implies s[i] != '\n' by {
        assert(line.contains(line[i]));
    }
    assert(s[n] == '\n');
    text::lemma_find_char_from(s, '\n', 0);
    assert(text::find_char_from(s, '\n', 0) == Some(n));
    assert(s.take(n) =~= line);
    assert(s.skip(n + 1) =~= rest);
    text::lemma_find_char_from(line, '\n', 0);
    if text::find_char_from(line, '\n', 0) is Some {
        assert(line.contains(line[text::find_char_from(line, '\n', 0)->0]));
    }
}

/// Where a pattern stands nowhere, replacing it changes nothing; else its first
/// place is replaced, and what follows that is gone through in the same way.
pub proof fn law_replace(
    before: Seq<char>,
    pat: Seq<char>,
    after: Seq<char>,
    with: Seq<char>,
)
    requires
        pat.len() > 0,
        forall|i: int| 0 <= i < before.len() ==> !stands(before + pat + after, pat, i),
    ensures
        text::replace_all(before + pat + after, pat, with) == before + with + text::replace_all(
            after,
            pat,
            with,
        ),
    decreases before.len(),
{
    let s = before + pat + after;
    lemma_prefix(pat, s);
    if before.len() == 0 {
        assert(s =~= pat + after);
        assert forall|k: int| 0 <= k < pat.len() implies s[0 + k] == #[trigger] pat[k] by {}
        assert(stands(s, pat, 0));
        assert(s.skip(pat.len() as int) =~= after);
        assert(before + with =~= with);
    } else {
        let shorter = before.drop_first();
        let t = shorter + pat + after;
        assert(s.drop_first() =~= t);
        assert forall|i: int| 0 <= i < shorter.len() implies !stands(t, pat, i) by {
            if stands(t, pat, i) {
                assert forall|k: int| 0 <= k < pat.len() implies s[i + 1 + k] == #[trigger] pat[k] by {
                    assert(t[i + k] == pat[k]);
                    assert(t[i + k] == s[i + k + 1]);
                }
                assert(stands(s, pat, i + 1));
            }
        }
        assert(!stands(s, pat, 0));
        law_replace(shorter, pat, after, with);
        assert(text::replace_all(s, pat, with) =~= before + with + text::replace_all(
            after,
            pat,
            with,
        ));
    }
}

/// Where a pattern stands nowhere, replacing it changes nothing.
pub proof fn law_replace_absent(s: Seq<char>, pat: Seq<char>, with: Seq<char>)
    requires
        !holds(s, pat),
    ensures
        text::replace_all(s, pat, with) == s,
{
    law_contains(s, pat);
    text::lemma_replace_absent(s, pat, with);
}

/// The first word of a text is what stands between its first white space and the
/// next; a text of white space has none.
pub proof fn law_first_word(pad: Seq<char>, word: Seq<char>, rest: Seq<char>)
    requires
        all_white(pad),
        none_white(word),
        rest.len() > 0 ==> chars::white(rest[0]),
    ensures
        word.len() > 0 ==> text::first_word(pad + word + rest) == Some(word),
        text::first_word(pad) is None,
{
    let none = Seq::<char>::empty();
    assert(pad + none =~= pad);
    law_trim_start(pad, none);
    if word.len() > 0 {
        let s = word + rest;
        assert(pad + word + rest =~= pad + s);
        assert(s[0] == word[0]);
        law_trim_start(pad, s);
        lemma_word(word, rest);
        assert(s.take(word.len() as int) =~= word);
    }
}

/// A word goes up to the next white space.
proof fn lemma_word(word: Seq<char>, rest: Seq<char>)
    requires
        none_white(word),
        rest.len() > 0 ==> chars::white(rest[0]),
    ensures
        text::word_len(word + rest) == word.len(),
    decreases word.len(),
{
    let s = word + rest;
    if word.len() == 0 {
        assert(s =~= rest);
        if rest.len() > 0 {
            chars::law_white(rest[0]);
        }
    } else {
        chars::law_white(word[0]);
        assert(s[0] == word[0]);
        assert(s.drop_first() =~= word.drop_first() + rest);
        assert forall|i: int| 0 <= i < word.drop_first().len() implies !chars::white(
            #[trigger] word.drop_first()[i],
        ) by {
            assert(word.drop_first()[i] == word[i + 1]);
        }
        lemma_word(word.drop_first(), rest);
    }
}

} // verus!
