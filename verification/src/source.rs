//! What the bytes and the name of a file say about it: whether it carries the
//! preamble already, is a jar, or is text.
use vstd::prelude::*;
use vstd::utf8;
use crate::error::{Error, ErrorOf};
use crate::laws::bytes;
use crate::laws::texts;
use crate::path;
use crate::preamble;
use crate::text;

verus! {

/// How many bytes of a file are searched for the marker.
pub const MARKER_HEAD_LEN: usize = 2048;

/// How many bytes of a file tell a ZIP archive.
pub const MAGIC_LEN: usize = 4;

/// How many bytes of a wrapper script are read.
pub const TEXT_HEAD_LEN: usize = 1048576;

// ---------------------------------------------------------------------------
// UTF-8
// ---------------------------------------------------------------------------
/// `String::from_utf8` gives the text that the bytes encode, and fails just where
/// they are not valid UTF-8.
#[verifier::external_body]
fn utf8_text(bytes: Vec<u8>) -> (r: Option<String>)
    ensures
        r is Some <==> utf8::valid_utf8(bytes@),
        r matches Some(s) ==> s@ == utf8::decode_utf8(bytes@),
{
    String::from_utf8(bytes).ok()
}

/// What `String::from_utf8_lossy` gives for bytes that are not valid UTF-8.
pub uninterp spec fn lossy_utf8(bytes: Seq<u8>) -> Seq<char>;

/// `String::from_utf8_lossy` gives the text that the bytes encode. Where they are
/// not valid UTF-8, its result depends on the bytes alone.
#[verifier::external_body]
pub(crate) fn lossy_text(bytes: &[u8]) -> (r: String)
    ensures
        r@ == lossy_utf8(bytes@),
        utf8::valid_utf8(bytes@) ==> r@ == utf8::decode_utf8(bytes@),
{
    String::from_utf8_lossy(bytes).into_owned()
}

// ---------------------------------------------------------------------------
// The marker
// ---------------------------------------------------------------------------
/// Whether `haystack` contains `needle` as a contiguous subslice.
pub fn contains_subslice(haystack: &[u8], needle: &[u8]) -> (r: bool)
    ensures
        r == text::contains(haystack@, needle@),
{
    if needle.len() > haystack.len() {
        return false;
    }
    let last: usize = haystack.len() - needle.len();
    let mut i: usize = 0;
    loop
        invariant
            i <= last,
            last == haystack@.len() - needle@.len(),
            forall|j: int| 0 <= j < i ==> !text::occurs_at(haystack@, needle@, j),
        decreases last - i,
    {
        let mut k: usize = 0;
        while k < needle.len() && haystack[i + k] == needle[k]
            invariant
                k <= needle@.len(),
                i <= last,
                last == haystack.len() - needle@.len(),
                forall|j: int| 0 <= j < k ==> haystack@[i + j] == needle@[j],
            decreases needle@.len() - k,
        {
            k = k + 1;
        }
        if k == needle.len() {
            assert(haystack@.subrange(i as int, i + needle@.len()) =~= needle@);
            assert(text::occurs_at(haystack@, needle@, i as int));
            return true;
        }
        assert(!text::occurs_at(haystack@, needle@, i as int)) by {
            assert(haystack@.subrange(i as int, i + needle@.len())[k as int] == haystack@[i + k]);
        }
        if i == last {
            return false;
        }
        i = i + 1;
    }
}

/// Whether a file whose first bytes are `head` carries the marker there.
pub open spec fn is_marked(head: Seq<u8>) -> bool {
    text::contains(head, utf8::encode_utf8(preamble::MAGICJAR_MARKER@))
}

/// The bytes that `o` holds, by their view.
pub open spec fn opt_bytes(o: Option<&[u8]>) -> Option<Seq<u8>> {
    match o {
        Some(b) => Some(b@),
        None => None,
    }
}

/// Whether a file already carries the marker in its head, i.e. has already been
/// wrapped. `head` is what the file begins with, `None` where it cannot be read.
pub fn is_already_magicked(head: Option<&[u8]>) -> (r: bool)
    ensures
        r == (opt_bytes(head) matches Some(bytes) && is_marked(bytes)),
        r <==> (head matches Some(b) && texts::holds(b@, bytes::marker())),
{
    proof {
        if let Some(b) = head {
            bytes::law_marked(b@);
        }
    }
    match head {
        Some(bytes) => contains_subslice(bytes, preamble::MAGICJAR_MARKER.as_bytes()),
        None => false,
    }
}

// ---------------------------------------------------------------------------
// Jars
// ---------------------------------------------------------------------------
/// Whether `start` are the first bytes of a ZIP archive: `PK`, and the mark of a
/// local file, of an empty archive or of a spanned one.
pub open spec fn is_zip_start(start: Seq<u8>) -> bool {
    ||| start == seq![0x50u8, 0x4b, 0x03, 0x04]
    ||| start == seq![0x50u8, 0x4b, 0x05, 0x06]
    ||| start == seq![0x50u8, 0x4b, 0x07, 0x08]
}

/// Whether a file named `path` that begins with the bytes `start` looks like a jar.
pub open spec fn is_jar_like(path: Seq<char>, start: Option<Seq<u8>>) -> bool {
    path::ends_with_jar(path) || (start matches Some(bytes) && is_zip_start(bytes))
}

/// Whether a path looks like a JAR: a `.jar` suffix, or ZIP magic bytes. `start`
/// are the file's first four bytes, `None` where it has fewer or cannot be read.
pub fn looks_like_jar(path: &str, start: Option<&[u8]>) -> (r: bool)
    ensures
        r == is_jar_like(path@, opt_bytes(start)),
{
    if path::has_jar_suffix(path) {
        return true;
    }
    match start {
        Some(bytes) => {
            let r: bool = bytes.len() == 4 && bytes[0] == 0x50 && bytes[1] == 0x4b && ((bytes[2]
                == 0x03 && bytes[3] == 0x04) || (bytes[2] == 0x05 && bytes[3] == 0x06) || (bytes[2]
                == 0x07 && bytes[3] == 0x08));
            proof {
                if r {
                    assert(bytes@ =~= seq![bytes@[0], bytes@[1], bytes@[2], bytes@[3]]);
                }
            }
            r
        },
        None => false,
    }
}

/// Whether the file `path` may be the source of an output. `is_file` tells whether
/// it is a regular file, or why it cannot be examined; `start` are its first
/// bytes.
pub open spec fn source_verdict(
    path: Seq<char>,
    is_file: Result<bool, Seq<char>>,
    start: Option<Seq<u8>>,
) -> Result<(), ErrorOf<Seq<char>>> {
    match is_file {
        Err(cause) => Err(ErrorOf::SourceMissing { path, cause }),
        Ok(false) => Err(ErrorOf::SourceNotRegular { path }),
        Ok(true) => if is_jar_like(path, start) {
            Ok(())
        } else {
            Err(ErrorOf::SourceNotJar { path })
        },
    }
}

/// A result whose texts are taken by their views.
pub open spec fn verdict_view(r: Result<(), Error>) -> Result<(), ErrorOf<Seq<char>>> {
    match r {
        Ok(()) => Ok(()),
        Err(e) => Err(e@),
    }
}

/// An examination whose cause of failure is taken by its view.
pub open spec fn is_file_view(r: Result<bool, String>) -> Result<bool, Seq<char>> {
    match r {
        Ok(b) => Ok(b),
        Err(cause) => Err(cause@),
    }
}

/// Validates that a resolved source is a real, jar-like file.
pub fn validate_source(path: &str, is_file: Result<bool, String>, start: Option<&[u8]>) -> (r: Result<
    (),
    Error,
>)
    ensures
        verdict_view(r) == source_verdict(path@, is_file_view(is_file), opt_bytes(start)),
{
    match is_file {
        Err(cause) => Err(ErrorOf::SourceMissing { path: path.to_owned(), cause }),
        Ok(false) => Err(ErrorOf::SourceNotRegular { path: path.to_owned() }),
        Ok(true) => {
            if looks_like_jar(path, start) {
                Ok(())
            } else {
                Err(ErrorOf::SourceNotJar { path: path.to_owned() })
            }
        },
    }
}

// ---------------------------------------------------------------------------
// Text
// ---------------------------------------------------------------------------
/// The text that a file beginning with the bytes `head` holds there, unless they
/// hold a NUL or are not valid UTF-8.
pub open spec fn head_text(head: Option<Seq<u8>>) -> Option<Seq<char>> {
    match head {
        Some(bytes) => if !bytes.contains(0) && utf8::valid_utf8(bytes) {
            Some(utf8::decode_utf8(bytes))
        } else {
            None
        },
        None => None,
    }
}

/// Whether `bytes` hold a NUL.
fn has_nul(bytes: &[u8]) -> (r: bool)
    ensures
        r == bytes@.contains(0),
{
    let mut i: usize = 0;
    while i < bytes.len()
        invariant
            i <= bytes@.len(),
            forall|j: int| 0 <= j < i ==> bytes@[j] != 0,
        decreases bytes@.len() - i,
    {
        if bytes[i] == 0 {
            return true;
        }
        i = i + 1;
    }
    false
}

/// Returns the first bytes of a file as UTF-8 text, or `None` if they contain a NUL
/// byte (i.e. look binary) or are not valid UTF-8. `head` is `None` where the file
/// cannot be read.
pub fn read_text_head(head: Option<Vec<u8>>) -> (r: Option<String>)
    ensures
        match r {
            Some(s) => head is Some && head_text(Some(head->0@)) == Some(s@),
            None => head is None || head_text(Some(head->0@)) is None,
        },
{
    match head {
        Some(bytes) => {
            if has_nul(bytes.as_slice()) {
                None
            } else {
                utf8_text(bytes)
            }
        },
        None => None,
    }
}

// ---------------------------------------------------------------------------
// Laws
// ---------------------------------------------------------------------------
/// The encoding of two texts one after the other.
proof fn lemma_encode_concat(a: Seq<char>, b: Seq<char>)
    ensures
        utf8::encode_utf8(a + b) == utf8::encode_utf8(a) + utf8::encode_utf8(b),
    decreases a.len(),
{
    if a.len() == 0 {
        assert(a + b =~= b);
        assert(utf8::encode_utf8(a) + utf8::encode_utf8(b) =~= utf8::encode_utf8(b));
    } else {
        assert((a + b).drop_first() =~= a.drop_first() + b);
        lemma_encode_concat(a.drop_first(), b);
        assert(utf8::encode_utf8(a + b) =~= utf8::encode_utf8(a) + utf8::encode_utf8(b));
    }
}

/// The bytes of a self-executing file: the preamble, then the jar.
pub open spec fn wrapped_bytes(preamble: Seq<char>, jar: Seq<u8>) -> Seq<u8> {
    utf8::encode_utf8(preamble) + jar
}

/// How many bytes a preamble takes up to the end of the marker.
pub open spec fn marker_end() -> nat {
    preamble::preamble_head().len()
}

/// The first `n` bytes of `bytes`, or all of them where there are fewer.
pub open spec fn first_bytes(bytes: Seq<u8>, n: nat) -> Seq<u8> {
    if n <= bytes.len() {
        bytes.take(n as int)
    } else {
        bytes
    }
}

/// The marker stands in every self-executing file at the same place, whatever the
/// options and the jar.
proof fn lemma_marker_place(words: Seq<Seq<char>>, malloc_arena_max: bool, jar: Seq<u8>)
    ensures
        ({
            let bytes = wrapped_bytes(preamble::preamble_text(words, malloc_arena_max), jar);
            let start = preamble::PREAMBLE_START@.len() as int;
            let mark = utf8::encode_utf8(preamble::MAGICJAR_MARKER@);
            &&& start + mark.len() == marker_end()
            &&& marker_end() <= bytes.len()
            &&& bytes.subrange(start, start + mark.len()) == mark
        }),
{
    let start = preamble::PREAMBLE_START@;
    let marker = preamble::MAGICJAR_MARKER@;
    let whole = preamble::preamble_text(words, malloc_arena_max);
    let head = preamble::preamble_head();
    let rest = whole.skip(head.len() as int);
    preamble::lemma_head();
    preamble::law_marker_always_present(words, malloc_arena_max);
    assert forall|i: int| 0 <= i < head.len() implies whole[i] == head[i] by {
        assert(whole.subrange(0, head.len() as int)[i] == head[i]);
    }
    assert(whole =~= start + (marker + rest));
    lemma_encode_concat(start, marker + rest);
    lemma_encode_concat(marker, rest);
    utf8::is_ascii_chars_encode_utf8(start);
    utf8::is_ascii_chars_encode_utf8(marker);
    let bytes = wrapped_bytes(whole, jar);
    let at = start.len() as int;
    let mark = utf8::encode_utf8(marker);
    assert(bytes.subrange(at, at + mark.len()) =~= mark);
}

/// The marker ends within every self-executing file, and within the bytes that are
/// searched for it.
pub proof fn law_marker_fits(words: Seq<Seq<char>>, malloc_arena_max: bool, jar: Seq<u8>)
    ensures
        marker_end() <= wrapped_bytes(
            preamble::preamble_text(words, malloc_arena_max),
            jar,
        ).len(),
        marker_end() <= MARKER_HEAD_LEN,
{
    preamble::lemma_head();
    lemma_marker_place(words, malloc_arena_max, jar);
}

/// A self-executing file is always known again: whatever the options and the jar,
/// the marker is found in what one read of the file gives, unless that ends before
/// the marker does.
pub proof fn law_wrapped_is_detected(
    words: Seq<Seq<char>>,
    malloc_arena_max: bool,
    jar: Seq<u8>,
    n: nat,
)
    requires
        marker_end() <= n,
    ensures
        is_marked(
            first_bytes(
                wrapped_bytes(preamble::preamble_text(words, malloc_arena_max), jar),
                n,
            ),
        ),
{
    let bytes = wrapped_bytes(preamble::preamble_text(words, malloc_arena_max), jar);
    let head = first_bytes(bytes, n);
    let at = preamble::PREAMBLE_START@.len() as int;
    let mark = utf8::encode_utf8(preamble::MAGICJAR_MARKER@);
    lemma_marker_place(words, malloc_arena_max, jar);
    assert(head.subrange(at, at + mark.len()) =~= bytes.subrange(at, at + mark.len()));
    assert(text::occurs_at(head, mark, at));
}

/// The jar follows the preamble untouched.
pub proof fn law_jar_follows(preamble: Seq<char>, jar: Seq<u8>)
    ensures
        wrapped_bytes(preamble, jar).skip(utf8::encode_utf8(preamble).len() as int) == jar,
        wrapped_bytes(preamble, jar).take(utf8::encode_utf8(preamble).len() as int)
            == utf8::encode_utf8(preamble),
{
    let n = utf8::encode_utf8(preamble).len() as int;
    assert(wrapped_bytes(preamble, jar).skip(n) =~= jar);
    assert(wrapped_bytes(preamble, jar).take(n) =~= utf8::encode_utf8(preamble));
}

} // verus!
