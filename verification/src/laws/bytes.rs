//! Files by their bytes: the marker, the start of an archive, text.
use vstd::prelude::*;
use vstd::utf8;
use crate::error::ErrorOf;
use crate::laws::paths;
use crate::laws::texts;
use crate::preamble;
use crate::source;

verus! {

/// The bytes of `magicjar:self-executing-jar`.
pub open spec fn marker() -> Seq<u8> {
    seq![
        109u8, 97, 103, 105, 99, 106, 97, 114, 58, 115, 101, 108, 102, 45, 101, 120, 101, 99, 117,
        116, 105, 110, 103, 45, 106, 97, 114,
    ]
}

/// The bytes of the marker, one by one.
proof fn lemma_marker()
    ensures
        utf8::encode_utf8(preamble::MAGICJAR_MARKER@) == marker(),
{
    reveal_strlit("magicjar:self-executing-jar");
    let text = preamble::MAGICJAR_MARKER@;
    preamble::lemma_head();
    utf8::is_ascii_chars_encode_utf8(text);
    assert(text.len() == 27);
    assert(text[0] == 'm' && text[1] == 'a' && text[2] == 'g' && text[3] == 'i' && text[4] == 'c'
        && text[5] == 'j' && text[6] == 'a' && text[7] == 'r' && text[8] == ':' && text[9] == 's'
        && text[10] == 'e' && text[11] == 'l' && text[12] == 'f' && text[13] == '-' && text[14]
        == 'e' && text[15] == 'x' && text[16] == 'e' && text[17] == 'c' && text[18] == 'u'
        && text[19] == 't' && text[20] == 'i' && text[21] == 'n' && text[22] == 'g' && text[23]
        == '-' && text[24] == 'j' && text[25] == 'a' && text[26] == 'r');
    assert(utf8::encode_utf8(text) =~= marker());
}

/// A file is taken as wrapped already just when the bytes of the marker stand at
/// some position in its head, and for nothing else that stands there.
pub proof fn law_marked(head: Seq<u8>)
    ensures
        source::is_marked(head) <==> texts::holds(head, marker()),
{
    lemma_marker();
    texts::law_contains(head, marker());
}

/// Whether these are the four bytes that a ZIP archive begins with.
pub open spec fn is_archive(start: Seq<u8>) -> bool {
    &&& start.len() == 4
    &&& start[0] == 80
    &&& start[1] == 75
    &&& (start[2] == 3 && start[3] == 4) || (start[2] == 5 && start[3] == 6) || (start[2] == 7
        && start[3] == 8)
}

/// A file looks like a jar by its name or by its first bytes; one of them is
/// enough, and there is nothing else.
pub proof fn law_jar_like(path: Seq<char>, start: Option<Seq<u8>>)
    ensures
        source::is_jar_like(path, start) <==> paths::has_jar_end(path) || (start matches Some(b)
            && is_archive(b)),
{
    paths::law_jar_suffix(path);
    if let Some(b) = start {
        if is_archive(b) {
            assert(b =~= seq![0x50u8, 0x4b, 0x03, 0x04] || b =~= seq![0x50u8, 0x4b, 0x05, 0x06]
                || b =~= seq![0x50u8, 0x4b, 0x07, 0x08]);
        }
    }
}

/// A source has to be there, to be a regular file, and to look like a jar; what it
/// lacks first is what it is refused for.
pub proof fn law_source(path: Seq<char>, cause: Seq<char>, start: Option<Seq<u8>>)
    ensures
        source::source_verdict(path, Err(cause), start) == Err::<(), _>(
            ErrorOf::SourceMissing { path, cause },
        ),
        source::source_verdict(path, Ok(false), start) == Err::<(), _>(
            ErrorOf::SourceNotRegular { path },
        ),
        paths::has_jar_end(path) || (start matches Some(b) && is_archive(b))
            ==> source::source_verdict(path, Ok(true), start) == Ok::<_, ErrorOf<Seq<char>>>(()),
        !(paths::has_jar_end(path) || (start matches Some(b) && is_archive(b)))
            ==> source::source_verdict(path, Ok(true), start) == Err::<(), _>(
            ErrorOf::SourceNotJar { path },
        ),
{
    law_jar_like(path, start);
}

/// A file is text when it can be read, is UTF-8 and has no NUL; then its text is the
/// one that its bytes encode.
pub proof fn law_text(bytes: Seq<u8>, text: Seq<char>)
    ensures
        source::head_text(None) is None,
        (exists|i: int| 0 <= i < bytes.len() && #[trigger] bytes[i] == 0) ==> source::head_text(
            Some(bytes),
        ) is None,
        !utf8::valid_utf8(bytes) ==> source::head_text(Some(bytes)) is None,
        bytes == utf8::encode_utf8(text) && (forall|i: int|
            0 <= i < bytes.len() ==> #[trigger] bytes[i] != 0) ==> source::head_text(Some(bytes))
            == Some(text),
{
    utf8::encode_utf8_valid_utf8(text);
    utf8::encode_utf8_decode_utf8(text);
}

} // verus!
