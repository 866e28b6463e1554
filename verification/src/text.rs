//! Text fields: ASCII characters, one byte each on the wire.

use vstd::prelude::*;
use vstd::utf8::*;
use vstd::string::*;
use crate::error::FrameError;

verus! {

/// The line feed that ends every frame.
pub const LF: u8 = 10;

/// The carriage return that may stand in front of the line feed.
pub const CR: u8 = 13;

/// True when every byte is below 128.
pub open spec fn is_ascii_bytes(bytes: Seq<u8>) -> bool {
    forall|i: int| 0 <= i < bytes.len() ==> #[trigger] bytes[i] < 128
}

/// True when `chars` can stand in a frame as a text field: every character is
/// ASCII and none is a line feed.
pub open spec fn is_text(chars: Seq<char>) -> bool {
    is_ascii_chars(chars) && !chars.contains('\n')
}

/// The bytes that stand for ASCII characters, one for one.
pub open spec fn text_bytes(chars: Seq<char>) -> Seq<u8> {
    Seq::new(chars.len(), |i: int| chars[i] as u8)
}

/// The characters that ASCII bytes stand for, one for one.
pub open spec fn bytes_text(bytes: Seq<u8>) -> Seq<char> {
    Seq::new(bytes.len(), |i: int| bytes[i] as char)
}

/// ASCII bytes are valid UTF-8 and decode to one character each.
pub proof fn lemma_ascii_is_utf8(bytes: Seq<u8>)
    requires
        is_ascii_bytes(bytes),
    ensures
        valid_utf8(bytes),
        decode_utf8(bytes) == bytes_text(bytes),
        is_ascii_chars(bytes_text(bytes)),
        text_bytes(bytes_text(bytes)) == bytes,
{
    let chars = bytes_text(bytes);
    assert(is_ascii_chars(chars)) by {
        assert forall|i: int| 0 <= i < chars.len() implies '\0' <= #[trigger] chars[i]
            <= '\u{7f}' by {
            assert(bytes[i] < 128);
        }
    }
    is_ascii_chars_encode_utf8(chars);
    assert(encode_utf8(chars) =~= bytes) by {
        assert forall|i: int| 0 <= i < bytes.len() implies encode_utf8(chars)[i] == bytes[i] by {
            assert(bytes[i] < 128);
            assert(chars[i] as u8 == bytes[i]);
        }
    }
    encode_utf8_valid_utf8(chars);
    encode_utf8_decode_utf8(chars);
    assert(text_bytes(chars) =~= bytes) by {
        assert forall|i: int| 0 <= i < bytes.len() implies text_bytes(chars)[i] == bytes[i] by {
            assert(bytes[i] < 128);
        }
    }
}

/// ASCII characters are written as one byte each, and read back as themselves.
pub proof fn lemma_text_bytes(chars: Seq<char>)
    requires
        is_ascii_chars(chars),
    ensures
        encode_utf8(chars) == text_bytes(chars),
        is_ascii_bytes(text_bytes(chars)),
        bytes_text(text_bytes(chars)) == chars,
{
    is_ascii_chars_encode_utf8(chars);
    assert(encode_utf8(chars) =~= text_bytes(chars));
    assert(is_ascii_bytes(text_bytes(chars))) by {
        assert forall|i: int| 0 <= i < chars.len() implies #[trigger] text_bytes(chars)[i]
            < 128 by {
            assert('\0' <= chars[i] <= '\u{7f}');
        }
    }
    assert(bytes_text(text_bytes(chars)) =~= chars) by {
        assert forall|i: int| 0 <= i < chars.len() implies bytes_text(text_bytes(chars))[i]
            == chars[i] by {
            assert('\0' <= chars[i] <= '\u{7f}');
        }
    }
}

/// Calls `core::str::from_utf8`: the bytes as a string slice where they are
/// valid UTF-8, nothing where they are not. The slice is the argument seen as
/// a string, so its bytes are the argument's.
#[verifier::external_body]
fn str_from_utf8(buf: &[u8]) -> (r: Option<&str>)
    ensures
        r is Some <==> valid_utf8(buf@),
        r is Some ==> r->0.spec_bytes() == buf@,
{
    match core::str::from_utf8(buf) {
        Ok(s) => Some(s),
        Err(_) => None,
    }
}

/// Reads `buf` as UTF-8 text, or reports `NotText`.
pub fn utf8(buf: &[u8]) -> (r: Result<&str, FrameError>)
    ensures
        r is Ok <==> valid_utf8(buf@),
        r is Ok ==> r->Ok_0@ == decode_utf8(buf@),
        r is Err ==> r->Err_0 == FrameError::NotText,
{
    match str_from_utf8(buf) {
        Some(s) => {
            proof {
                encode_utf8_decode_utf8(s@);
            }
            Ok(s)
        },
        None => Err(FrameError::NotText),
    }
}

/// The line without the carriage return at its end, if it has one.
pub fn without_carriage_return(s: &[u8]) -> (r: &[u8])
    ensures
        r@ == strip_cr(s@),
{
    let n = s.len();
    if n > 0 && s[n - 1] == CR {
        &s[0..n - 1]
    } else {
        s
    }
}

/// `line` without the carriage return at its end, if it has one.
pub open spec fn strip_cr(line: Seq<u8>) -> Seq<u8> {
    if line.len() > 0 && line.last() == CR {
        line.drop_last()
    } else {
        line
    }
}

/// True when every byte of `bytes` is ASCII.
pub fn all_ascii(bytes: &[u8]) -> (r: bool)
    ensures
        r == is_ascii_bytes(bytes@),
{
    let mut i: usize = 0;
    while i < bytes.len()
        invariant
            i <= bytes@.len(),
            forall|k: int| 0 <= k < i ==> #[trigger] bytes@[k] < 128,
        decreases bytes@.len() - i,
    {
        if bytes[i] >= 128 {
            return false;
        }
        i += 1;
    }
    true
}

/// The string that ASCII bytes spell.
pub(crate) fn ascii_string(bytes: &[u8]) -> (r: String)
    requires
        is_ascii_bytes(bytes@),
    ensures
        r@ == bytes_text(bytes@),
{
    proof {
        lemma_ascii_is_utf8(bytes@);
    }
    match utf8(bytes) {
        Ok(s) => s.to_owned(),
        Err(_) => String::new(),
    }
}

/// True when `s` can stand in a frame as a text field.
pub fn is_text_str(s: &str) -> (r: bool)
    ensures
        r == is_text(s@),
{
    if !s.is_ascii() {
        return false;
    }
    let bytes = s.as_bytes();
    proof {
        lemma_text_bytes(s@);
    }
    let mut i: usize = 0;
    while i < bytes.len()
        invariant
            i <= bytes@.len(),
            bytes@ == text_bytes(s@),
            is_ascii_chars(s@),
            forall|k: int| 0 <= k < i ==> #[trigger] s@[k] != '\n',
        decreases bytes@.len() - i,
    {
        if bytes[i] == LF {
            proof {
                assert(s@[i as int] as u8 == 10);
                assert('\0' <= s@[i as int] <= '\u{7f}');
                assert(s@[i as int] == '\n');
            }
            return false;
        }
        proof {
            assert(bytes@[i as int] == s@[i as int] as u8);
        }
        i += 1;
    }
    true
}

} // verus!
