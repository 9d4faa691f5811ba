//! The calls into std's UTF-8 handling that the codec makes.
use vstd::prelude::*;
use vstd::utf8::*;

verus! {

/// The text that std's `Display` writes for the `Utf8Error` that `std::str::from_utf8`
/// returns on these bytes.
pub uninterp spec fn utf8_error_text(bytes: Seq<u8>) -> Seq<char>;

/// The text that std's `Display` writes for the `FromUtf8Error` that `String::from_utf8`
/// returns on these bytes.
pub uninterp spec fn from_utf8_error_text(bytes: Seq<u8>) -> Seq<char>;

/// `std::str::from_utf8`: the text that the bytes encode when they are valid UTF-8, else
/// the `Utf8Error`'s message. std documents that it fails exactly when the bytes are not
/// valid UTF-8; the message, which tells where they stop being so, is a function of the
/// bytes.
#[verifier::external_body]
pub(crate) fn str_from_utf8(buf: &[u8]) -> (res: Result<&str, String>)
    ensures
        res is Ok <==> valid_utf8(buf@),
        res matches Ok(s) ==> s@ == decode_utf8(buf@),
        res matches Err(t) ==> t@ == utf8_error_text(buf@),
{
    match std::str::from_utf8(buf) {
        Ok(s) => Ok(s),
        Err(e) => Err(format!("{}", e)),
    }
}

/// `String::from_utf8`: the string the bytes encode when they are valid UTF-8, else the
/// `FromUtf8Error`'s message, a function of the bytes.
#[verifier::external_body]
pub(crate) fn string_from_utf8(bytes: Vec<u8>) -> (res: Result<String, String>)
    ensures
        res is Ok <==> valid_utf8(bytes@),
        res matches Ok(s) ==> s@ == decode_utf8(bytes@),
        res matches Err(t) ==> t@ == from_utf8_error_text(bytes@),
{
    match String::from_utf8(bytes) {
        Ok(s) => Ok(s),
        Err(e) => Err(format!("{}", e)),
    }
}

/// `String::push`: appends one character.
#[verifier::external_body]
pub(crate) fn push_char(s: &mut String, c: char)
    ensures
        final(s)@ == old(s)@.push(c),
{
    s.push(c)
}

/// Appends a string's characters to another.
pub(crate) fn push_str(dst: &mut String, src: &str)
    ensures
        final(dst)@ == old(dst)@ + src@,
{
    let ghost start = dst@;
    for c in it: src.chars()
        invariant
            it.seq() == src@,
            dst@ == start + src@.take(it.index() as int),
    {
        let ghost i = it.index();
        proof {
            assert(src@.take(i + 1) =~= src@.take(i as int).push(c));
        }
        push_char(dst, c);
    }
    proof {
        assert(src@.take(src@.len() as int) =~= src@);
    }
}

/// The text that std's `Display` writes for an I/O error. Nothing is stated of it: it may
/// hold the operating system's own description of the error.
#[verifier::external_body]
pub(crate) fn io_error_text(e: &std::io::Error) -> String {
    format!("{}", e)
}

} // verus!
