//! Single characters.
use vstd::prelude::*;
use crate::reference;
use crate::shell;
use crate::text;

verus! {

/// Whether two characters are the same but for the case of an ASCII letter.
pub open spec fn same_but_case(c: char, d: char) -> bool {
    ||| c == d
    ||| 65 <= c as int <= 90 && d as int == c as int + 32
    ||| 65 <= d as int <= 90 && c as int == d as int + 32
}

/// Whether two texts have the same length and are the same, character by character,
/// but for the case of ASCII letters.
pub open spec fn texts_same_but_case(a: Seq<char>, b: Seq<char>) -> bool {
    a.len() == b.len() && forall|i: int| 0 <= i < a.len() ==> same_but_case(#[trigger] a[i], b[i])
}

/// The code points with the Unicode property `White_Space`.
pub open spec fn white_codes() -> Seq<int> {
    seq![
        9, 10, 11, 12, 13, 32, 133, 160, 5760, 8192, 8193, 8194, 8195, 8196, 8197, 8198, 8199, 8200,
        8201, 8202, 8232, 8233, 8239, 8287, 12288,
    ]
}

/// Whether `c` is white space.
pub open spec fn white(c: char) -> bool {
    white_codes().contains(c as int)
}

/// Whether `c` is an ASCII letter, a digit or `_`.
pub open spec fn word_code(c: char) -> bool {
    48 <= c as int <= 57 || 65 <= c as int <= 90 || c as int == 95 || 97 <= c as int <= 122
}

/// The characters that end a path-like token.
pub open spec fn delimiters() -> Seq<char> {
    " \t\n\r'\"=()[]{},;`<>|&:"@
}

/// Whether `c` may stand in a path-like token: visible ASCII that ends none.
pub open spec fn token_code(c: char) -> bool {
    33 <= c as int <= 126 && !delimiters().contains(c)
}

/// Lowering makes two texts equal just when they are the same but for case.
pub proof fn law_lower(a: Seq<char>, b: Seq<char>)
    ensures
        text::ascii_lower(a) == text::ascii_lower(b) <==> texts_same_but_case(a, b),
        text::ascii_lower(a).len() == a.len(),
        forall|i: int|
            0 <= i < a.len() ==> same_but_case(a[i], #[trigger] text::ascii_lower(a)[i]) && !(65
                <= text::ascii_lower(a)[i] as int <= 90),
{
    assert forall|c: char, d: char| #[trigger]
        text::lower_char(c) == #[trigger] text::lower_char(d) <==> same_but_case(c, d) by {}
    if text::ascii_lower(a) == text::ascii_lower(b) {
        assert(text::ascii_lower(a).len() == text::ascii_lower(b).len());
        assert forall|i: int| 0 <= i < a.len() implies same_but_case(#[trigger] a[i], b[i]) by {
            assert(text::ascii_lower(a)[i] == text::lower_char(a[i]));
            assert(text::ascii_lower(b)[i] == text::lower_char(b[i]));
        }
    }
    if texts_same_but_case(a, b) {
        assert forall|i: int| 0 <= i < a.len() implies text::lower_char(a[i]) == text::lower_char(
            b[i],
        ) by {
            assert(same_but_case(a[i], b[i]));
        }
        assert(text::ascii_lower(a) =~= text::ascii_lower(b));
    }
}

/// White space is what Unicode takes for it.
pub proof fn law_white(c: char)
    ensures
        text::is_white(c) <==> white(c),
{
    let codes = white_codes();
    let n = c as int;
    if text::is_white(c) {
        if 9 <= n <= 13 {
            assert(codes[n - 9] == n);
        } else if 8192 <= n <= 8202 {
            assert(codes[n - 8192 + 9] == n);
        } else {
            assert(codes[5] == 32 && codes[6] == 133 && codes[7] == 160 && codes[8] == 5760
                && codes[20] == 8232 && codes[21] == 8233 && codes[22] == 8239 && codes[23] == 8287
                && codes[24] == 12288);
        }
    }
    if white(c) {
        let i = choose|i: int| 0 <= i < codes.len() && codes[i] == n;
        assert(codes[i] == n);
    }
}

/// A name goes on with ASCII letters, digits and `_`.
pub proof fn law_name_char(c: char)
    ensures
        text::is_name_char(c) <==> word_code(c),
{
}

/// A token is ended by just these characters, of all there are.
pub proof fn law_delimiter(c: char)
    ensures
        reference::delimits(c) <==> delimiters().contains(c),
{
    reveal_strlit(" \t\n\r'\"=()[]{},;`<>|&:");
    let d = delimiters();
    if reference::delimits(c) {
        assert(d[0] == ' ' && d[1] == '\t' && d[2] == '\n' && d[3] == '\r' && d[4] == '\'' && d[5]
            == '"' && d[6] == '=' && d[7] == '(' && d[8] == ')' && d[9] == '[' && d[10] == ']'
            && d[11] == '{' && d[12] == '}' && d[13] == ',' && d[14] == ';' && d[15] == '`' && d[16]
            == '<' && d[17] == '>' && d[18] == '|' && d[19] == '&' && d[20] == ':');
    }
    if d.contains(c) {
        let i = choose|i: int| 0 <= i < d.len() && d[i] == c;
        assert(d.len() == 21);
        assert(i == 0 || i == 1 || i == 2 || i == 3 || i == 4 || i == 5 || i == 6 || i == 7 || i == 8
            || i == 9 || i == 10 || i == 11 || i == 12 || i == 13 || i == 14 || i == 15 || i == 16
            || i == 17 || i == 18 || i == 19 || i == 20);
    }
}

/// A token is made of visible ASCII that does not end it.
pub proof fn law_token_char(c: char)
    ensures
        reference::in_token(c) <==> token_code(c),
{
    law_delimiter(c);
}

/// The blanks of a shell.
pub proof fn law_blank(c: char)
    ensures
        shell::is_blank(c) <==> c as int == 32 || c as int == 9 || c as int == 10,
{
}

} // verus!
