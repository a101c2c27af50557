//! Shell words: the calls into `shell_words`, and what the library relies on
//! about them.
use vstd::prelude::*;
use crate::text;

verus! {

/// `shell_words::ParseError`: the text holds a quote that is not closed.
#[verifier::external_type_specification]
#[verifier::external_body]
pub struct ExParseError(shell_words::ParseError);

/// What `shell_words::split` gives for a text: its words, or `None` where a quote
/// is not closed.
pub uninterp spec fn shell_split(s: Seq<char>) -> Option<Seq<Seq<char>>>;

/// Whether `c` parts words in a shell.
pub open spec fn is_blank(c: char) -> bool {
    c == ' ' || c == '\t' || c == '\n'
}

/// Whether `s` holds nothing that quotes, escapes or comments.
pub open spec fn is_plain(s: Seq<char>) -> bool {
    forall|i: int|
        0 <= i < s.len() ==> (#[trigger] s[i]) != '\'' && s[i] != '"' && s[i] != '\\' && s[i] != '#'
}

/// The runs of characters other than blanks in `s`, of which the first one is
/// already begun with `word`.
pub open spec fn blank_words(s: Seq<char>, word: Seq<char>) -> Seq<Seq<char>>
    decreases s.len(),
{
    if s.len() > 0 && !is_blank(s[0]) {
        blank_words(s.drop_first(), word.push(s[0]))
    } else {
        let ended = if word.len() > 0 {
            seq![word]
        } else {
            Seq::empty()
        };
        if s.len() == 0 {
            ended
        } else {
            ended + blank_words(s.drop_first(), Seq::empty())
        }
    }
}

/// The words that a split gave, by their views.
pub open spec fn words_of(r: Result<Vec<String>, shell_words::ParseError>) -> Option<
    Seq<Seq<char>>,
> {
    match r {
        Ok(words) => Some(text::strings(words@)),
        Err(_) => None,
    }
}

/// `shell_words::split` parts a command line into words as a Unix shell would. Its
/// result depends on the text alone. Its words are made of characters of the text.
/// Where the text holds no quote, backslash or `#`, they are the runs of characters
/// between blanks.
pub assume_specification[ shell_words::split ](s: &str) -> (r: Result<
    Vec<String>,
    shell_words::ParseError,
>)
    ensures
        words_of(r) == shell_split(s@),
        is_plain(s@) ==> words_of(r) == Some(blank_words(s@, Seq::empty())),
        r matches Ok(words) ==> forall|i: int, j: int|
            0 <= i < words@.len() && 0 <= j < words@[i]@.len() ==> s@.contains(
                #[trigger] words@[i]@[j],
            ),
;

/// Whether a shell gives `c` a meaning of its own.
pub open spec fn is_special(c: char) -> bool {
    ||| c == '\n'
    ||| c == '\''
    ||| c == '|'
    ||| c == '&'
    ||| c == ';'
    ||| c == '<'
    ||| c == '>'
    ||| c == '('
    ||| c == ')'
    ||| c == '$'
    ||| c == '`'
    ||| c == '\\'
    ||| c == '"'
    ||| c == ' '
    ||| c == '\t'
    ||| c == '*'
    ||| c == '?'
    ||| c == '['
    ||| c == '#'
    ||| c == '~'
    ||| c == '='
    ||| c == '%'
}

/// `s` as it is written in a shell command: as it is where nothing in it is
/// special, else in single quotes, with `'\''` for each single quote.
pub open spec fn quoted(s: Seq<char>) -> Seq<char> {
    if s.len() > 0 && (forall|i: int| 0 <= i < s.len() ==> !is_special(#[trigger] s[i])) {
        s
    } else {
        "'"@ + text::replace_all(s, "'"@, "'\\''"@) + "'"@
    }
}

/// `word`, and the words that follow it, if they are any.
pub open spec fn and_then_words(word: Seq<char>, words: Option<Seq<Seq<char>>>) -> Option<
    Seq<Seq<char>>,
> {
    match words {
        Some(words) => Some(seq![word] + words),
        None => None,
    }
}

/// `shell_words::quote` writes a word so that a shell reads it literally: a word
/// that is not empty and holds no special character is unchanged, any other one
/// is put in single quotes, in which a single quote is written `'\''`. So
/// `shell_words::split` reads it as that one word, and goes on behind a blank as if
/// the text began there.
#[verifier::external_body]
pub(crate) fn quote_word(word: &str) -> (r: String)
    ensures
        r@ == quoted(word@),
        shell_split(r@) == Some(seq![word@]),
        forall|rest: Seq<char>|
            #![trigger shell_split(r@ + " "@ + rest)]
            shell_split(r@ + " "@ + rest) == and_then_words(word@, shell_split(rest)),
{
    shell_words::quote(word).into_owned()
}

/// The `Display` form of `shell_words::ParseError` is a fixed text.
#[verifier::external_body]
pub(crate) fn parse_error_text(e: &shell_words::ParseError) -> (r: String)
    ensures
        r@ == "missing closing quote"@,
{
    e.to_string()
}

} // verus!
