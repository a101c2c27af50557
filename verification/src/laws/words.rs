//! Words of a shell: how they are parted, and how they are quoted.
use vstd::prelude::*;
use crate::laws::chars;
use crate::laws::texts;
use crate::preamble;
use crate::shell;
use crate::text;

verus! {

/// Whether `c` parts words: a space, a tab or the end of a line.
pub open spec fn parts(c: char) -> bool {
    c as int == 32 || c as int == 9 || c as int == 10
}

/// Whether all of `s` parts words.
pub open spec fn all_part(s: Seq<char>) -> bool {
    forall|i: int| 0 <= i < s.len() ==> parts(#[trigger] s[i])
}

/// Whether none of `s` parts words.
pub open spec fn none_parts(s: Seq<char>) -> bool {
    forall|i: int| 0 <= i < s.len() ==> !parts(#[trigger] s[i])
}

/// A word that is begun goes on to the next blank.
proof fn lemma_word(word: Seq<char>, rest: Seq<char>, begun: Seq<char>)
    requires
        none_parts(word),
        rest.len() > 0 ==> parts(rest[0]),
        begun.len() + word.len() > 0,
    ensures
        shell::blank_words(word + rest, begun) == seq![begun + word] + shell::blank_words(
            rest,
            Seq::empty(),
        ),
    decreases word.len(),
{
    let s = word + rest;
    if word.len() == 0 {
        assert(s =~= rest);
        assert(begun + word =~= begun);
        if rest.len() > 0 {
            chars::law_blank(rest[0]);
            assert(shell::blank_words(rest, begun) =~= seq![begun] + shell::blank_words(
                rest,
                Seq::empty(),
            ));
        } else {
            assert(shell::blank_words(rest, begun) =~= seq![begun] + shell::blank_words(
                rest,
                Seq::empty(),
            ));
        }
    } else {
        chars::law_blank(word[0]);
        assert(s[0] == word[0]);
        assert(s.drop_first() =~= word.drop_first() + rest);
        assert forall|i: int| 0 <= i < word.drop_first().len() implies !parts(
            #[trigger] word.drop_first()[i],
        ) by {
            assert(word.drop_first()[i] == word[i + 1]);
        }
        lemma_word(word.drop_first(), rest, begun.push(word[0]));
        assert(begun.push(word[0]) + word.drop_first() =~= begun + word);
    }
}

/// The words of a text without quotes, escapes and comments are what stands between
/// its blanks, in order; blanks alone are no words.
pub proof fn law_words(pad: Seq<char>, word: Seq<char>, rest: Seq<char>)
    requires
        all_part(pad),
        none_parts(word),
        word.len() > 0,
        rest.len() > 0 ==> parts(rest[0]),
    ensures
        shell::blank_words(pad, Seq::empty()) == Seq::<Seq<char>>::empty(),
        shell::blank_words(pad + word + rest, Seq::empty()) == seq![word] + shell::blank_words(
            rest,
            Seq::empty(),
        ),
    decreases pad.len(),
{
    let none = Seq::<char>::empty();
    if pad.len() == 0 {
        assert(pad + word + rest =~= word + rest);
        lemma_word(word, rest, none);
        assert(none + word =~= word);
        assert(shell::blank_words(pad, none) =~= Seq::<Seq<char>>::empty());
    } else {
        let fewer = pad.drop_first();
        chars::law_blank(pad[0]);
        assert forall|i: int| 0 <= i < fewer.len() implies parts(#[trigger] fewer[i]) by {
            assert(fewer[i] == pad[i + 1]);
        }
        law_words(fewer, word, rest);
        assert((pad + word + rest).drop_first() =~= fewer + word + rest);
        assert((pad + word + rest)[0] == pad[0]);
        assert(shell::blank_words(pad, none) =~= shell::blank_words(fewer, none));
        assert(shell::blank_words(pad + word + rest, none) =~= shell::blank_words(
            fewer + word + rest,
            none,
        ));
    }
}

/// The characters to which a shell gives a meaning of its own.
pub open spec fn specials() -> Seq<char> {
    "\n'|&;<>()$`\\\" \t*?[#~=%"@
}

/// A word is quoted for just these characters.
pub proof fn law_special(c: char)
    ensures
        shell::is_special(c) <==> specials().contains(c),
{
    reveal_strlit("\n'|&;<>()$`\\\" \t*?[#~=%");
    let s = specials();
    if shell::is_special(c) {
        assert(s[0] == '\n' && s[1] == '\'' && s[2] == '|' && s[3] == '&' && s[4] == ';' && s[5]
            == '<' && s[6] == '>' && s[7] == '(' && s[8] == ')' && s[9] == '$' && s[10] == '`'
            && s[11] == '\\' && s[12] == '"' && s[13] == ' ' && s[14] == '\t' && s[15] == '*'
            && s[16] == '?' && s[17] == '[' && s[18] == '#' && s[19] == '~' && s[20] == '='
            && s[21] == '%');
    }
    if s.contains(c) {
        let i = choose|i: int| 0 <= i < s.len() && s[i] == c;
        assert(i == 0 || i == 1 || i == 2 || i == 3 || i == 4 || i == 5 || i == 6 || i == 7 || i == 8
            || i == 9 || i == 10 || i == 11 || i == 12 || i == 13 || i == 14 || i == 15 || i == 16
            || i == 17 || i == 18 || i == 19 || i == 20 || i == 21);
    }
}

/// A word in which nothing is special is written as it is. Any other one is put in
/// single quotes, and is otherwise written as it is where it holds none itself.
pub proof fn law_quoted(word: Seq<char>)
    ensures
        word.len() > 0 && (forall|i: int|
            0 <= i < word.len() ==> !specials().contains(#[trigger] word[i])) ==> shell::quoted(word)
            == word,
        (word.len() == 0 || exists|i: int|
            0 <= i < word.len() && specials().contains(#[trigger] word[i])) && !word.contains('\'')
            ==> shell::quoted(word) == seq!['\''] + word + seq!['\''],
{
    reveal_strlit("'");
    assert("'"@ =~= seq!['\'']);
    assert forall|i: int| 0 <= i < word.len() implies (shell::is_special(#[trigger] word[i])
        <==> specials().contains(word[i])) by {
        law_special(word[i]);
    }
    if !word.contains('\'') {
        if texts::holds(word, "'"@) {
            let i = choose|i: int| texts::stands(word, "'"@, i);
            assert(word[i + 0] == "'"@[0]);
        }
        texts::law_replace_absent(word, "'"@, "'\\''"@);
    }
}

/// A single quote in a word is written `'\''`, and what stands around it as it is.
pub proof fn law_quoted_quote(before: Seq<char>, after: Seq<char>)
    requires
        !before.contains('\''),
    ensures
        shell::quoted(before + seq!['\''] + after) == seq!['\''] + before + seq![
            '\'',
            '\\',
            '\'',
            '\'',
        ] + text::replace_all(after, seq!['\''], seq!['\'', '\\', '\'', '\'']) + seq!['\''],
{
    reveal_strlit("'");
    reveal_strlit("'\\''");
    let quote = seq!['\''];
    let escaped = seq!['\'', '\\', '\'', '\''];
    assert("'"@ =~= quote);
    assert("'\\''"@ =~= escaped);
    let word = before + quote + after;
    assert(word[before.len() as int] == '\'');
    assert(shell::is_special(word[before.len() as int]));
    assert forall|i: int| 0 <= i < before.len() implies !texts::stands(word, quote, i) by {
        if texts::stands(word, quote, i) {
            assert(word[i + 0] == quote[0]);
            assert(before.contains(before[i]));
        }
    }
    texts::law_replace(before, quote, after, escaped);
    let inner = text::replace_all(after, quote, escaped);
    assert(quote + (before + escaped + inner) + quote =~= quote + before + escaped + inner + quote);
}

/// Words are written one after the other, each quoted, with a blank between them.
pub proof fn law_quoted_words(a: Seq<Seq<char>>, word: Seq<char>, b: Seq<Seq<char>>)
    ensures
        preamble::quoted_words(Seq::empty()) == Seq::<char>::empty(),
        preamble::quoted_words(seq![word]) == shell::quoted(word),
        a.len() > 0 && b.len() > 0 ==> preamble::quoted_words(a + b) == preamble::quoted_words(a)
            + seq![' '] + preamble::quoted_words(b),
    decreases b.len(),
{
    reveal_strlit(" ");
    assert(" "@ =~= seq![' ']);
    if a.len() > 0 && b.len() > 0 {
        let all = a + b;
        let init = b.drop_last();
        assert(all.drop_last() =~= a + init);
        assert(all.last() == b.last());
        if init.len() == 0 {
            assert(a + init =~= a);
            assert(b[0] == b.last());
        } else {
            law_quoted_words(a, word, init);
            assert(preamble::quoted_words(all) =~= preamble::quoted_words(a) + seq![' ']
                + preamble::quoted_words(b));
        }
    }
}

} // verus!
