//! Character-level primitives shared by the codec: white-space trimming and
//! the lossy byte-to-text reading used for every fixed field.

use vstd::prelude::*;
use vstd::string::StrSliceExecFns;
use vstd::utf8::decode_utf8;
use vstd::utf8::encode_utf8;
use vstd::utf8::is_ascii_chars;
use vstd::utf8::is_ascii_chars_encode_utf8;
use vstd::utf8::valid_utf8;

verus! {

/// UTF-8 encoding distributes over concatenation.
pub proof fn lemma_encode_utf8_concat(a: Seq<char>, b: Seq<char>)
    ensures
        encode_utf8(a + b) == encode_utf8(a) + encode_utf8(b),
    decreases a.len(),
{
    if a.len() == 0 {
        assert(a + b =~= b);
        assert(encode_utf8(a) =~= Seq::<u8>::empty());
        assert(encode_utf8(a) + encode_utf8(b) =~= encode_utf8(b));
    } else {
        assert((a + b).drop_first() =~= a.drop_first() + b);
        assert((a + b)[0] == a[0]);
        lemma_encode_utf8_concat(a.drop_first(), b);
        assert(encode_utf8(a + b) =~= encode_utf8(a) + encode_utf8(b)) by {
            assert(encode_utf8(a + b) == vstd::utf8::encode_scalar((a + b)[0] as u32)
                + encode_utf8((a + b).drop_first()));
            assert(encode_utf8(a) == vstd::utf8::encode_scalar(a[0] as u32) + encode_utf8(
                a.drop_first(),
            ));
        }
    }
}

/// The UTF-8 encoding of ASCII text is its characters read as bytes.
pub proof fn lemma_ascii_encode(s: Seq<char>)
    requires
        is_ascii_chars(s),
    ensures
        encode_utf8(s) == ascii_bytes(s),
{
    is_ascii_chars_encode_utf8(s);
    assert(encode_utf8(s) =~= ascii_bytes(s));
}

/// The bytes of a character sequence that is ASCII, one byte per character.
pub open spec fn ascii_bytes(s: Seq<char>) -> Seq<u8> {
    Seq::new(s.len(), |i: int| s[i] as u8)
}

/// The Unicode white-space characters, exactly those `char::is_whitespace`
/// accepts.
pub open spec fn is_white(c: char) -> bool {
    c == '\u{9}' || c == '\u{a}' || c == '\u{b}' || c == '\u{c}' || c == '\u{d}' || c == ' '
        || c == '\u{85}' || c == '\u{a0}' || c == '\u{1680}' || ('\u{2000}' <= c && c
        <= '\u{200a}') || c == '\u{2028}' || c == '\u{2029}' || c == '\u{202f}' || c == '\u{205f}'
        || c == '\u{3000}'
}

pub fn is_white_char(c: char) -> (r: bool)
    ensures
        r == is_white(c),
{
    c == '\u{9}' || c == '\u{a}' || c == '\u{b}' || c == '\u{c}' || c == '\u{d}' || c == ' '
        || c == '\u{85}' || c == '\u{a0}' || c == '\u{1680}' || ('\u{2000}' <= c && c
        <= '\u{200a}') || c == '\u{2028}' || c == '\u{2029}' || c == '\u{202f}' || c == '\u{205f}'
        || c == '\u{3000}'
}

/// Text with its trailing white space removed.
pub open spec fn trim_end_text(s: Seq<char>) -> Seq<char>
    decreases s.len(),
{
    if s.len() > 0 && is_white(s.last()) {
        trim_end_text(s.drop_last())
    } else {
        s
    }
}

/// Trimming never trims below a prefix that does not end in white space.
pub proof fn lemma_trim_end_white_suffix(s: Seq<char>, t: Seq<char>)
    requires
        forall|i: int| 0 <= i < t.len() ==> is_white(#[trigger] t[i]),
    ensures
        trim_end_text(s + t) == trim_end_text(s),
    decreases t.len(),
{
    if t.len() == 0 {
        assert(s + t =~= s);
    } else {
        assert((s + t).drop_last() =~= s + t.drop_last());
        assert((s + t).last() == t.last());
        lemma_trim_end_white_suffix(s, t.drop_last());
    }
}

/// A sequence that does not end in white space is its own trimming.
pub proof fn lemma_trim_end_noop(s: Seq<char>)
    requires
        s.len() == 0 || !is_white(s.last()),
    ensures
        trim_end_text(s) == s,
{
}

/// What `String::from_utf8_lossy` returns on bytes that are not valid UTF-8.
pub uninterp spec fn lossy_chars(bytes: Seq<u8>) -> Seq<char>;

/// The character reading of raw bytes: exact UTF-8 decoding where the bytes
/// are valid, and otherwise the replacement decoding, which depends on the
/// bytes alone.
pub open spec fn lossy_text(bytes: Seq<u8>) -> Seq<char> {
    if valid_utf8(bytes) {
        decode_utf8(bytes)
    } else {
        lossy_chars(bytes)
    }
}

/// Relies on String::from_utf8_lossy: bytes that are valid UTF-8 decode to
/// exactly the character sequence they encode, and any other input is decoded
/// with replacement characters, determined by the bytes alone.
#[verifier::external_body]
pub(crate) fn lossy_string(bytes: &[u8]) -> (r: String)
    ensures
        r@ == lossy_text(bytes@),
        !valid_utf8(bytes@) ==> r@ == lossy_chars(bytes@),
{
    String::from_utf8_lossy(bytes).into_owned()
}

/// An owned copy of the text with trailing white space removed, as
/// `str::trim_end` produces it.
pub fn trimmed_end(s: &str) -> (r: String)
    ensures
        r@ == trim_end_text(s@),
{
    let len: usize = s.unicode_len();
    let mut end: usize = len;
    proof {
        assert(s@.take(len as int) =~= s@);
    }
    loop
        invariant
            end <= len,
            len == s@.len(),
            trim_end_text(s@) == trim_end_text(s@.take(end as int)),
        ensures
            trim_end_text(s@) == s@.take(end as int),
            end <= len,
        decreases end,
    {
        if end == 0 {
            proof {
                lemma_trim_end_noop(s@.take(0));
            }
            break ;
        }
        let c: char = s.get_char(end - 1);
        proof {
            assert(s@.take(end as int).last() == s@[end - 1]);
        }
        if !is_white_char(c) {
            proof {
                lemma_trim_end_noop(s@.take(end as int));
            }
            break ;
        }
        proof {
            assert(s@.take(end as int).drop_last() =~= s@.take(end - 1));
        }
        end = end - 1;
    }
    let r: &str = s.substring_char(0, end);
    proof {
        assert(r@ =~= s@.take(end as int));
    }
    r.to_owned()
}

} // verus!
