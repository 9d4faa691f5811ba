//! Decoding values from, and serializing them into, the query protocol.
use vstd::prelude::*;
use crate::error::{DecodeError, DecodeFailure, DecodeFailureView, Error, ErrorView, IntType};
use crate::escape::{escape, escape_into, spec_decode_string, unescape_bytes};
use crate::number::{decimal_text, decode_signed, decode_unsigned, signed_decimal_bytes, spec_decode_int, write_signed, write_unsigned};
use crate::split::{bytes_eq, has_value, key_of, split_bytes, split_key_value, split_on, value_of};
use crate::text::string_from_utf8;

verus! {

/// A type that can be decoded from the bytes of a server response.
pub trait Decode<T: DeepView> {
    /// What decoding `buf` gives, by the decoded value's view.
    spec fn spec_decode(buf: Seq<u8>) -> Result<T::V, DecodeFailureView>;

    fn decode(buf: &[u8]) -> (res: Result<T, DecodeFailure>)
        ensures
            match res {
                Ok(v) => Self::spec_decode(buf@) == Ok::<T::V, DecodeFailureView>(v.deep_view()),
                Err(e) => Self::spec_decode(buf@) == Err::<T::V, DecodeFailureView>(e@),
            },
    ;
}

/// A type that can be written into a command.
pub trait Serialize {
    /// The text that `serialize` appends.
    spec fn spec_serialize(&self) -> Seq<char>;

    fn serialize(&self, writer: &mut String)
        ensures
            final(writer)@ == old(writer)@ + self.spec_serialize(),
    ;
}

/// Decoding `()` never fails.
impl Decode<()> for () {
    open spec fn spec_decode(buf: Seq<u8>) -> Result<(), DecodeFailureView> {
        Ok(())
    }

    fn decode(buf: &[u8]) -> (res: Result<(), DecodeFailure>) {
        Ok(())
    }
}

/// What decoding a `bool` gives: only the first byte counts, and `0` reads as `true`,
/// `1` as `false`.
pub open spec fn spec_decode_bool(buf: Seq<u8>) -> Result<bool, DecodeFailureView> {
    if buf.len() == 0 {
        Err(DecodeFailureView::Syntax(DecodeError::UnexpectedEof))
    } else if buf[0] == 0x30 {
        Ok(true)
    } else if buf[0] == 0x31 {
        Ok(false)
    } else {
        Err(DecodeFailureView::Syntax(DecodeError::UnexpectedByte(buf[0])))
    }
}

impl Decode<bool> for bool {
    open spec fn spec_decode(buf: Seq<u8>) -> Result<bool, DecodeFailureView> {
        spec_decode_bool(buf)
    }

    fn decode(buf: &[u8]) -> (res: Result<bool, DecodeFailure>) {
        if buf.len() == 0 {
            Err(DecodeFailure::Syntax(DecodeError::UnexpectedEof))
        } else if buf[0] == 0x30 {
            Ok(true)
        } else if buf[0] == 0x31 {
            Ok(false)
        } else {
            Err(DecodeFailure::Syntax(DecodeError::UnexpectedByte(buf[0])))
        }
    }
}

/// A `bool` is written as the decimal value of the byte `'0'` or `'1'`: `48` or `49`.
impl Serialize for bool {
    open spec fn spec_serialize(&self) -> Seq<char> {
        decimal_text(if *self { 0x31 } else { 0x30 })
    }

    fn serialize(&self, writer: &mut String) {
        let b: u8 = if *self { 0x31 } else { 0x30 };
        write_unsigned(b as u128, writer);
        proof {
            assert(decimal_text(b as int) == signed_decimal_bytes(b as int).map_values(|x: u8| x as char));
        }
    }
}

/// Strings are unescaped, then read as UTF-8.
impl Decode<String> for String {
    open spec fn spec_decode(buf: Seq<u8>) -> Result<Seq<char>, DecodeFailureView> {
        spec_decode_string(buf)
    }

    fn decode(buf: &[u8]) -> (res: Result<String, DecodeFailure>) {
        match unescape_bytes(buf) {
            Err(e) => Err(DecodeFailure::Syntax(e)),
            Ok(raw) => match string_from_utf8(raw) {
                Ok(s) => Ok(s),
                Err(t) => Err(DecodeFailure::InvalidUtf8(t)),
            },
        }
    }
}

/// Strings are written escaped.
impl<'a> Serialize for &'a str {
    open spec fn spec_serialize(&self) -> Seq<char> {
        escape((**self)@)
    }

    fn serialize(&self, writer: &mut String) {
        escape_into(*self, writer)
    }
}


/// Decodes each piece in turn; the first piece that fails decides the error.
pub open spec fn decode_each<T: Decode<T> + DeepView>(parts: Seq<Seq<u8>>) -> Result<Seq<T::V>, DecodeFailureView>
    decreases parts.len(),
{
    if parts.len() == 0 {
        Ok(Seq::empty())
    } else {
        match decode_each::<T>(parts.drop_last()) {
            Err(e) => Err(e),
            Ok(vs) => match <T as Decode<T>>::spec_decode(parts.last()) {
                Ok(v) => Ok(vs.push(v)),
                Err(e) => Err(e),
            },
        }
    }
}

/// A list of values separated by `|`, with no space around the separator.
impl<T: Decode<T> + DeepView> Decode<Vec<T>> for Vec<T> {
    open spec fn spec_decode(buf: Seq<u8>) -> Result<Seq<T::V>, DecodeFailureView> {
        decode_each::<T>(split_on(buf, 0x7cu8))
    }

    fn decode(buf: &[u8]) -> (res: Result<Vec<T>, DecodeFailure>) {
        let parts = split_bytes(buf, 0x7c);
        let ghost ps = split_on(buf@, 0x7cu8);
        let mut list: Vec<T> = Vec::new();
        let mut i: usize = 0;
        proof {
            assert(ps.take(0) =~= Seq::<Seq<u8>>::empty());
            assert(list.deep_view() =~= Seq::<T::V>::empty());
        }
        while i < parts.len()
            invariant
                i <= parts@.len(),
                parts@.len() == ps.len(),
                ps == split_on(buf@, 0x7cu8),
                forall|k: int| 0 <= k < parts@.len() ==> #[trigger] parts@[k]@ == ps[k],
                decode_each::<T>(ps.take(i as int)) == Ok::<Seq<T::V>, DecodeFailureView>(list.deep_view()),
            decreases parts@.len() - i,
        {
            proof {
                assert(ps.take(i + 1).drop_last() =~= ps.take(i as int));
                assert(ps.take(i + 1).last() == ps[i as int]);
            }
            match T::decode(parts[i].as_slice()) {
                Ok(v) => {
                    let ghost before = list.deep_view();
                    list.push(v);
                    proof {
                        assert(list.deep_view() =~= before.push(v.deep_view()));
                    }
                },
                Err(e) => {
                    proof {
                        lemma_decode_each_prefix_err::<T>(ps, i as int + 1);
                    }
                    return Err(e);
                },
            }
            i = i + 1;
        }
        proof {
            assert(ps.take(i as int) =~= ps);
        }
        Ok(list)
    }
}

/// An error in a prefix of the pieces is the error of the whole.
pub proof fn lemma_decode_each_prefix_err<T: Decode<T> + DeepView>(ps: Seq<Seq<u8>>, n: int)
    requires
        0 <= n <= ps.len(),
        decode_each::<T>(ps.take(n)) is Err,
    ensures
        decode_each::<T>(ps) == decode_each::<T>(ps.take(n)),
    decreases ps.len() - n,
{
    if n < ps.len() {
        assert(ps.take(n + 1).drop_last() =~= ps.take(n));
        lemma_decode_each_prefix_err::<T>(ps, n + 1);
    } else {
        assert(ps.take(n) =~= ps);
    }
}

proof fn lemma_decode_each_all<T: Decode<T> + DeepView>(parts: Seq<Seq<u8>>, items: Seq<T::V>)
    requires
        parts.len() == items.len(),
        forall|i: int| 0 <= i < parts.len() ==> <T as Decode<T>>::spec_decode(#[trigger] parts[i])
            == Ok::<T::V, DecodeFailureView>(items[i]),
    ensures
        decode_each::<T>(parts) == Ok::<Seq<T::V>, DecodeFailureView>(items),
    decreases parts.len(),
{
    if parts.len() == 0 {
        assert(items =~= Seq::<T::V>::empty());
    } else {
        let n: int = parts.len() - 1;
        assert forall|i: int| 0 <= i < parts.drop_last().len() implies <T as Decode<T>>::spec_decode(
            #[trigger] parts.drop_last()[i],
        ) == Ok::<T::V, DecodeFailureView>(items.drop_last()[i]) by {
            assert(parts.drop_last()[i] == parts[i]);
        }
        lemma_decode_each_all::<T>(parts.drop_last(), items.drop_last());
        assert(<T as Decode<T>>::spec_decode(parts[n]) == Ok::<T::V, DecodeFailureView>(items[n]));
        assert(items.drop_last().push(items[n]) =~= items);
    }
}

/// Strings written escaped and joined with `|` decode back into the same strings.
pub proof fn lemma_decode_string_list(ss: Seq<Seq<char>>)
    requires
        ss.len() > 0,
    ensures
        <Vec<String> as Decode<Vec<String>>>::spec_decode(
            vstd::utf8::encode_utf8(crate::split::join_on(ss.map_values(|s: Seq<char>| escape(s)), '|')),
        ) == Ok::<Seq<Seq<char>>, DecodeFailureView>(ss),
{
    let texts = ss.map_values(|s: Seq<char>| escape(s));
    let parts = texts.map_values(|t: Seq<char>| vstd::utf8::encode_utf8(t));
    crate::escape::lemma_encode_join(texts, '|');
    assert forall|i: int| 0 <= i < parts.len() implies !(#[trigger] parts[i]).contains(0x7cu8)
        && <String as Decode<String>>::spec_decode(parts[i]) == Ok::<Seq<char>, DecodeFailureView>(ss[i]) by {
        assert(parts[i] == vstd::utf8::encode_utf8(escape(ss[i])));
        crate::escape::lemma_encode_escape(ss[i]);
        crate::escape::lemma_escape_bytes_no_separators(vstd::utf8::encode_utf8(ss[i]));
        crate::escape::lemma_decode_escaped_string(ss[i]);
    }
    crate::split::lemma_split_on_join(parts, 0x7cu8);
    lemma_decode_each_all::<String>(parts, ss);
}

/// The id and message of an error line after one more of its ` `-separated fields.
pub open spec fn error_field_step(id: u16, msg: Seq<char>, field: Seq<u8>) -> Result<(u16, Seq<char>), DecodeFailureView> {
    if field == crate::split::bytes_of("error") {
        Ok((id, msg))
    } else if !has_value(field, 0x3du8) {
        Err(DecodeFailureView::Syntax(DecodeError::UnexpectedEof))
    } else if key_of(field, 0x3du8) == crate::split::bytes_of("id") {
        match <u16 as Decode<u16>>::spec_decode(value_of(field, 0x3du8)) {
            Ok(v) => Ok((v, msg)),
            Err(e) => Err(e),
        }
    } else if key_of(field, 0x3du8) == crate::split::bytes_of("msg") {
        match spec_decode_string(value_of(field, 0x3du8)) {
            Ok(m) => Ok((id, m)),
            Err(e) => Err(e),
        }
    } else {
        Ok((id, msg))
    }
}

/// The id and message of an error line read from its fields, left to right; the first field
/// that fails decides the error.
pub open spec fn error_fields(fields: Seq<Seq<u8>>) -> Result<(u16, Seq<char>), DecodeFailureView>
    decreases fields.len(),
{
    if fields.len() == 0 {
        Ok((0, Seq::empty()))
    } else {
        match error_fields(fields.drop_last()) {
            Err(e) => Err(e),
            Ok((id, msg)) => error_field_step(id, msg, fields.last()),
        }
    }
}

/// An error line such as `error id=0 msg=ok` reads as `Error::TS3`.
impl Decode<Error> for Error {
    open spec fn spec_decode(buf: Seq<u8>) -> Result<ErrorView, DecodeFailureView> {
        match error_fields(split_on(buf, 0x20u8)) {
            Ok((id, msg)) => Ok(ErrorView::TS3 { id, msg }),
            Err(e) => Err(e),
        }
    }

    fn decode(buf: &[u8]) -> (res: Result<Error, DecodeFailure>) {
        let fields = split_bytes(buf, 0x20);
        let ghost fs = split_on(buf@, 0x20u8);
        let mut id: u16 = 0;
        let mut msg = String::new();
        let mut i: usize = 0;
        proof {
            assert(fs.take(0) =~= Seq::<Seq<u8>>::empty());
        }
        while i < fields.len()
            invariant
                i <= fields@.len(),
                fields@.len() == fs.len(),
                fs == split_on(buf@, 0x20u8),
                forall|k: int| 0 <= k < fields@.len() ==> #[trigger] fields@[k]@ == fs[k],
                error_fields(fs.take(i as int)) == Ok::<(u16, Seq<char>), DecodeFailureView>((id, msg@)),
            decreases fields@.len() - i,
        {
            let f = fields[i].as_slice();
            proof {
                assert(fs.take(i + 1).drop_last() =~= fs.take(i as int));
                assert(fs.take(i + 1).last() == fs[i as int]);
            }
            if !bytes_eq(f, "error".as_bytes()) {
                let (key, value) = split_key_value(f, 0x3d);
                match value {
                    None => {
                        proof {
                            lemma_error_fields_prefix_err(fs, i as int + 1);
                        }
                        return Err(DecodeFailure::Syntax(DecodeError::UnexpectedEof));
                    },
                    Some(val) => {
                        if bytes_eq(key.as_slice(), "id".as_bytes()) {
                            match u16::decode(val.as_slice()) {
                                Ok(v) => {
                                    id = v;
                                },
                                Err(e) => {
                                    proof {
                                        lemma_error_fields_prefix_err(fs, i as int + 1);
                                    }
                                    return Err(e);
                                },
                            }
                        } else if bytes_eq(key.as_slice(), "msg".as_bytes()) {
                            match String::decode(val.as_slice()) {
                                Ok(m) => {
                                    msg = m;
                                },
                                Err(e) => {
                                    proof {
                                        lemma_error_fields_prefix_err(fs, i as int + 1);
                                    }
                                    return Err(e);
                                },
                            }
                        }
                    },
                }
            }
            i = i + 1;
        }
        proof {
            assert(fs.take(i as int) =~= fs);
        }
        Ok(Error::TS3 { id, msg })
    }
}

/// An error in the first fields of an error line is the error of the whole line.
pub proof fn lemma_error_fields_prefix_err(fs: Seq<Seq<u8>>, n: int)
    requires
        0 <= n <= fs.len(),
        error_fields(fs.take(n)) is Err,
    ensures
        error_fields(fs) == error_fields(fs.take(n)),
    decreases fs.len() - n,
{
    if n < fs.len() {
        assert(fs.take(n + 1).drop_last() =~= fs.take(n));
        lemma_error_fields_prefix_err(fs, n + 1);
    } else {
        assert(fs.take(n) =~= fs);
    }
}

/// The error line that the server answers a command with: `error id=<id> msg=<escaped msg>`.
pub open spec fn error_line(id: u16, msg: Seq<char>) -> Seq<char> {
    crate::split::join_on(
        seq!["error"@, "id="@ + decimal_text(id as int), "msg="@ + escape(msg)],
        ' ',
    )
}

/// Decoding the error line that the server sends gives back its id and message.
pub proof fn lemma_decode_error_line(id: u16, msg: Seq<char>)
    ensures
        <Error as Decode<Error>>::spec_decode(vstd::utf8::encode_utf8(error_line(id, msg)))
            == Ok::<ErrorView, DecodeFailureView>(ErrorView::TS3 { id, msg }),
{
    reveal_strlit("error");
    reveal_strlit("id=");
    reveal_strlit("msg=");
    reveal_strlit("id");
    reveal_strlit("msg");
    let e_b = vstd::utf8::encode_utf8("error"@);
    let id_b = vstd::utf8::encode_utf8("id="@);
    let msg_b = vstd::utf8::encode_utf8("msg="@);
    vstd::utf8::is_ascii_chars_encode_utf8("error"@);
    vstd::utf8::is_ascii_chars_encode_utf8("id="@);
    vstd::utf8::is_ascii_chars_encode_utf8("msg="@);
    vstd::utf8::is_ascii_chars_encode_utf8("id"@);
    vstd::utf8::is_ascii_chars_encode_utf8("msg"@);
    assert(e_b =~= seq![0x65u8, 0x72, 0x72, 0x6f, 0x72]);
    assert(id_b =~= seq![0x69u8, 0x64, 0x3d]);
    assert(msg_b =~= seq![0x6du8, 0x73, 0x67, 0x3d]);
    assert(crate::split::bytes_of("id") =~= seq![0x69u8, 0x64]);
    assert(crate::split::bytes_of("msg") =~= seq![0x6du8, 0x73, 0x67]);
    assert(crate::split::bytes_of("error") == e_b);

    let dec = decimal_text(id as int);
    let digits = vstd::utf8::encode_utf8(dec);
    let esc = vstd::utf8::encode_utf8(escape(msg));
    crate::escape::lemma_encode_utf8_concat("id="@, dec);
    crate::escape::lemma_encode_utf8_concat("msg="@, escape(msg));
    crate::number::lemma_encode_decimal_text(id as int);
    crate::number::lemma_decimal_text_no_bar(id as int);
    crate::escape::lemma_encode_escape(msg);
    crate::escape::lemma_escape_bytes_no_separators(vstd::utf8::encode_utf8(msg));
    crate::number::lemma_decode_decimal(id as int, 0, u16::MAX as int, IntType::U16);
    crate::escape::lemma_decode_escaped_string(msg);

    let texts = seq!["error"@, "id="@ + dec, "msg="@ + escape(msg)];
    let b0 = e_b;
    let b1 = id_b + digits;
    let b2 = msg_b + esc;
    let parts = seq![b0, b1, b2];
    crate::escape::lemma_encode_join(texts, ' ');
    assert(texts.map_values(|t: Seq<char>| vstd::utf8::encode_utf8(t)) =~= parts);

    // no field holds a space
    assert(!digits.contains(0x20u8)) by {
        assert(digits == signed_decimal_bytes(id as int));
        if digits.contains(0x20u8) {
            let k: int = choose|k: int| 0 <= k < digits.len() && digits[k] == 0x20u8;
            assert(dec[k] == digits[k] as char);
            assert(dec.contains(' '));
        }
    }
    assert forall|i: int| 0 <= i < parts.len() implies !(#[trigger] parts[i]).contains(0x20u8) by {
        if i == 1 {
            assert forall|k: int| 0 <= k < b1.len() implies b1[k] != 0x20u8 by {
                if k >= 3 {
                    assert(b1[k] == digits[k - 3]);
                }
            }
        } else if i == 2 {
            assert forall|k: int| 0 <= k < b2.len() implies b2[k] != 0x20u8 by {
                if k >= 4 {
                    assert(b2[k] == esc[k - 4]);
                }
            }
        }
    }
    crate::split::lemma_split_on_join(parts, 0x20u8);

    // the fields' keys and values
    crate::split::lemma_key_of_is(b1, 0x3du8, 2);
    crate::split::lemma_key_of_is(b2, 0x3du8, 3);
    assert(b1.take(2) =~= crate::split::bytes_of("id"));
    assert(b2.take(3) =~= crate::split::bytes_of("msg"));
    assert(crate::split::value_of(b1, 0x3du8) =~= digits);
    assert(crate::split::value_of(b2, 0x3du8) =~= esc);
    assert(b1 != crate::split::bytes_of("error")) by {
        assert(b1[0] != e_b[0]);
    }
    assert(b2 != crate::split::bytes_of("error")) by {
        assert(b2[0] != e_b[0]);
    }
    assert(crate::split::bytes_of("msg") != crate::split::bytes_of("id"));

    // reading the fields from the left
    assert(parts.drop_last() =~= seq![b0, b1]);
    assert(seq![b0, b1].drop_last() =~= seq![b0]);
    assert(seq![b0].drop_last() =~= Seq::<Seq<u8>>::empty());
    assert(error_fields(Seq::<Seq<u8>>::empty()) == Ok::<(u16, Seq<char>), DecodeFailureView>((0u16, Seq::<char>::empty())));
    assert(seq![b0].last() == b0);
    assert(b0 == crate::split::bytes_of("error"));
    assert(error_field_step(0u16, Seq::<char>::empty(), b0) == Ok::<(u16, Seq<char>), DecodeFailureView>((0u16, Seq::<char>::empty())));
    assert(error_fields(seq![b0]) == Ok::<(u16, Seq<char>), DecodeFailureView>((0u16, Seq::<char>::empty())));
    assert(error_fields(seq![b0, b1]) == Ok::<(u16, Seq<char>), DecodeFailureView>((id, Seq::<char>::empty())));
    assert(error_fields(parts) == Ok::<(u16, Seq<char>), DecodeFailureView>((id, msg)));
}

/// A field of an error line whose key is neither `id` nor `msg` changes nothing: the line
/// the server sends, followed by any further `key=value` field with another key (such as
/// `failed_permid=4`), still reads as its own id and message.
pub proof fn lemma_decode_error_line_other_field(id: u16, msg: Seq<char>, key: Seq<u8>, val: Seq<u8>)
    requires
        !key.contains(0x3du8),
        !key.contains(0x20u8),
        !val.contains(0x20u8),
        key != crate::split::bytes_of("id"),
        key != crate::split::bytes_of("msg"),
    ensures
        <Error as Decode<Error>>::spec_decode(
            vstd::utf8::encode_utf8(error_line(id, msg)) + seq![0x20u8] + key + seq![0x3du8] + val,
        ) == Ok::<ErrorView, DecodeFailureView>(ErrorView::TS3 { id, msg }),
{
    let x = vstd::utf8::encode_utf8(error_line(id, msg));
    let f = key + seq![0x3du8] + val;
    let buf = x + seq![0x20u8] + key + seq![0x3du8] + val;
    assert(buf =~= x.push(0x20u8) + f);
    lemma_decode_error_line(id, msg);
    let fs = split_on(x, 0x20u8);
    assert(error_fields(fs) == Ok::<(u16, Seq<char>), DecodeFailureView>((id, msg)));

    // the extra field is a piece of its own
    assert(x.push(0x20u8).drop_last() =~= x);
    assert(split_on(x.push(0x20u8), 0x20u8) == fs.push(Seq::<u8>::empty()));
    assert(!f.contains(0x20u8)) by {
        if f.contains(0x20u8) {
            let j: int = choose|j: int| 0 <= j < f.len() && f[j] == 0x20u8;
            if j < key.len() {
                assert(key[j] == f[j]);
            } else if j > key.len() {
                assert(val[j - key.len() - 1] == f[j]);
            }
        }
    }
    crate::split::lemma_split_on_extend(x.push(0x20u8), f, 0x20u8);
    assert(Seq::<u8>::empty() + f =~= f);
    let fs2 = fs.push(f);
    assert(split_on(buf, 0x20u8) =~= fs2);
    assert(fs2.drop_last() =~= fs);
    assert(fs2.last() == f);

    // the field's key and value
    assert forall|j: int| 0 <= j < key.len() implies #[trigger] f[j] != 0x3du8 by {
        assert(f[j] == key[j]);
    }
    crate::split::lemma_key_of_is(f, 0x3du8, key.len() as int);
    assert(f.take(key.len() as int) =~= key);
    assert(has_value(f, 0x3du8));
    assert(f != crate::split::bytes_of("error")) by {
        reveal_strlit("error");
        vstd::utf8::is_ascii_chars_encode_utf8("error"@);
        let e = crate::split::bytes_of("error");
        assert(e =~= seq![0x65u8, 0x72, 0x72, 0x6f, 0x72]);
        if f == e {
            assert(f[key.len() as int] == 0x3du8);
        }
    }
    assert(error_field_step(id, msg, f) == Ok::<(u16, Seq<char>), DecodeFailureView>((id, msg)));
}

// Integers: `Decode` reads the sign-and-digits prefix of the bytes, and `Serialize`
// writes the decimal text that `Display` gives.

impl Decode<u8> for u8 {
    open spec fn spec_decode(buf: Seq<u8>) -> Result<u8, DecodeFailureView> {
        match spec_decode_int(buf, 0, u8::MAX as int, IntType::U8) {
            Ok(v) => Ok(v as u8),
            Err(e) => Err(e),
        }
    }

    fn decode(buf: &[u8]) -> (res: Result<u8, DecodeFailure>) {
        match decode_unsigned(buf, u8::MAX as u128, IntType::U8) {
            Ok(v) => Ok(v as u8),
            Err(e) => Err(e),
        }
    }
}

impl Serialize for u8 {
    open spec fn spec_serialize(&self) -> Seq<char> {
        decimal_text(*self as int)
    }

    fn serialize(&self, writer: &mut String) {
        write_unsigned(*self as u128, writer)
    }
}

impl Decode<u16> for u16 {
    open spec fn spec_decode(buf: Seq<u8>) -> Result<u16, DecodeFailureView> {
        match spec_decode_int(buf, 0, u16::MAX as int, IntType::U16) {
            Ok(v) => Ok(v as u16),
            Err(e) => Err(e),
        }
    }

    fn decode(buf: &[u8]) -> (res: Result<u16, DecodeFailure>) {
        match decode_unsigned(buf, u16::MAX as u128, IntType::U16) {
            Ok(v) => Ok(v as u16),
            Err(e) => Err(e),
        }
    }
}

impl Serialize for u16 {
    open spec fn spec_serialize(&self) -> Seq<char> {
        decimal_text(*self as int)
    }

    fn serialize(&self, writer: &mut String) {
        write_unsigned(*self as u128, writer)
    }
}

impl Decode<u32> for u32 {
    open spec fn spec_decode(buf: Seq<u8>) -> Result<u32, DecodeFailureView> {
        match spec_decode_int(buf, 0, u32::MAX as int, IntType::U32) {
            Ok(v) => Ok(v as u32),
            Err(e) => Err(e),
        }
    }

    fn decode(buf: &[u8]) -> (res: Result<u32, DecodeFailure>) {
        match decode_unsigned(buf, u32::MAX as u128, IntType::U32) {
            Ok(v) => Ok(v as u32),
            Err(e) => Err(e),
        }
    }
}

impl Serialize for u32 {
    open spec fn spec_serialize(&self) -> Seq<char> {
        decimal_text(*self as int)
    }

    fn serialize(&self, writer: &mut String) {
        write_unsigned(*self as u128, writer)
    }
}

impl Decode<u64> for u64 {
    open spec fn spec_decode(buf: Seq<u8>) -> Result<u64, DecodeFailureView> {
        match spec_decode_int(buf, 0, u64::MAX as int, IntType::U64) {
            Ok(v) => Ok(v as u64),
            Err(e) => Err(e),
        }
    }

    fn decode(buf: &[u8]) -> (res: Result<u64, DecodeFailure>) {
        match decode_unsigned(buf, u64::MAX as u128, IntType::U64) {
            Ok(v) => Ok(v as u64),
            Err(e) => Err(e),
        }
    }
}

impl Serialize for u64 {
    open spec fn spec_serialize(&self) -> Seq<char> {
        decimal_text(*self as int)
    }

    fn serialize(&self, writer: &mut String) {
        write_unsigned(*self as u128, writer)
    }
}

impl Decode<u128> for u128 {
    open spec fn spec_decode(buf: Seq<u8>) -> Result<u128, DecodeFailureView> {
        match spec_decode_int(buf, 0, u128::MAX as int, IntType::U128) {
            Ok(v) => Ok(v as u128),
            Err(e) => Err(e),
        }
    }

    fn decode(buf: &[u8]) -> (res: Result<u128, DecodeFailure>) {
        match decode_unsigned(buf, u128::MAX as u128, IntType::U128) {
            Ok(v) => Ok(v as u128),
            Err(e) => Err(e),
        }
    }
}

impl Serialize for u128 {
    open spec fn spec_serialize(&self) -> Seq<char> {
        decimal_text(*self as int)
    }

    fn serialize(&self, writer: &mut String) {
        write_unsigned(*self as u128, writer)
    }
}

impl Decode<usize> for usize {
    open spec fn spec_decode(buf: Seq<u8>) -> Result<usize, DecodeFailureView> {
        match spec_decode_int(buf, 0, usize::MAX as int, IntType::Usize) {
            Ok(v) => Ok(v as usize),
            Err(e) => Err(e),
        }
    }

    fn decode(buf: &[u8]) -> (res: Result<usize, DecodeFailure>) {
        match decode_unsigned(buf, usize::MAX as u128, IntType::Usize) {
            Ok(v) => Ok(v as usize),
            Err(e) => Err(e),
        }
    }
}

impl Serialize for usize {
    open spec fn spec_serialize(&self) -> Seq<char> {
        decimal_text(*self as int)
    }

    fn serialize(&self, writer: &mut String) {
        write_unsigned(*self as u128, writer)
    }
}

impl Decode<i8> for i8 {
    open spec fn spec_decode(buf: Seq<u8>) -> Result<i8, DecodeFailureView> {
        match spec_decode_int(buf, i8::MIN as int, i8::MAX as int, IntType::I8) {
            Ok(v) => Ok(v as i8),
            Err(e) => Err(e),
        }
    }

    fn decode(buf: &[u8]) -> (res: Result<i8, DecodeFailure>) {
        match decode_signed(buf, i8::MIN as i128, i8::MAX as i128, IntType::I8) {
            Ok(v) => Ok(v as i8),
            Err(e) => Err(e),
        }
    }
}

impl Serialize for i8 {
    open spec fn spec_serialize(&self) -> Seq<char> {
        decimal_text(*self as int)
    }

    fn serialize(&self, writer: &mut String) {
        write_signed(*self as i128, writer)
    }
}

impl Decode<i16> for i16 {
    open spec fn spec_decode(buf: Seq<u8>) -> Result<i16, DecodeFailureView> {
        match spec_decode_int(buf, i16::MIN as int, i16::MAX as int, IntType::I16) {
            Ok(v) => Ok(v as i16),
            Err(e) => Err(e),
        }
    }

    fn decode(buf: &[u8]) -> (res: Result<i16, DecodeFailure>) {
        match decode_signed(buf, i16::MIN as i128, i16::MAX as i128, IntType::I16) {
            Ok(v) => Ok(v as i16),
            Err(e) => Err(e),
        }
    }
}

impl Serialize for i16 {
    open spec fn spec_serialize(&self) -> Seq<char> {
        decimal_text(*self as int)
    }

    fn serialize(&self, writer: &mut String) {
        write_signed(*self as i128, writer)
    }
}

impl Decode<i32> for i32 {
    open spec fn spec_decode(buf: Seq<u8>) -> Result<i32, DecodeFailureView> {
        match spec_decode_int(buf, i32::MIN as int, i32::MAX as int, IntType::I32) {
            Ok(v) => Ok(v as i32),
            Err(e) => Err(e),
        }
    }

    fn decode(buf: &[u8]) -> (res: Result<i32, DecodeFailure>) {
        match decode_signed(buf, i32::MIN as i128, i32::MAX as i128, IntType::I32) {
            Ok(v) => Ok(v as i32),
            Err(e) => Err(e),
        }
    }
}

impl Serialize for i32 {
    open spec fn spec_serialize(&self) -> Seq<char> {
        decimal_text(*self as int)
    }

    fn serialize(&self, writer: &mut String) {
        write_signed(*self as i128, writer)
    }
}

impl Decode<i64> for i64 {
    open spec fn spec_decode(buf: Seq<u8>) -> Result<i64, DecodeFailureView> {
        match spec_decode_int(buf, i64::MIN as int, i64::MAX as int, IntType::I64) {
            Ok(v) => Ok(v as i64),
            Err(e) => Err(e),
        }
    }

    fn decode(buf: &[u8]) -> (res: Result<i64, DecodeFailure>) {
        match decode_signed(buf, i64::MIN as i128, i64::MAX as i128, IntType::I64) {
            Ok(v) => Ok(v as i64),
            Err(e) => Err(e),
        }
    }
}

impl Serialize for i64 {
    open spec fn spec_serialize(&self) -> Seq<char> {
        decimal_text(*self as int)
    }

    fn serialize(&self, writer: &mut String) {
        write_signed(*self as i128, writer)
    }
}

impl Decode<i128> for i128 {
    open spec fn spec_decode(buf: Seq<u8>) -> Result<i128, DecodeFailureView> {
        match spec_decode_int(buf, i128::MIN as int, i128::MAX as int, IntType::I128) {
            Ok(v) => Ok(v as i128),
            Err(e) => Err(e),
        }
    }

    fn decode(buf: &[u8]) -> (res: Result<i128, DecodeFailure>) {
        match decode_signed(buf, i128::MIN as i128, i128::MAX as i128, IntType::I128) {
            Ok(v) => Ok(v as i128),
            Err(e) => Err(e),
        }
    }
}

impl Serialize for i128 {
    open spec fn spec_serialize(&self) -> Seq<char> {
        decimal_text(*self as int)
    }

    fn serialize(&self, writer: &mut String) {
        write_signed(*self as i128, writer)
    }
}

impl Decode<isize> for isize {
    open spec fn spec_decode(buf: Seq<u8>) -> Result<isize, DecodeFailureView> {
        match spec_decode_int(buf, isize::MIN as int, isize::MAX as int, IntType::Isize) {
            Ok(v) => Ok(v as isize),
            Err(e) => Err(e),
        }
    }

    fn decode(buf: &[u8]) -> (res: Result<isize, DecodeFailure>) {
        match decode_signed(buf, isize::MIN as i128, isize::MAX as i128, IntType::Isize) {
            Ok(v) => Ok(v as isize),
            Err(e) => Err(e),
        }
    }
}

impl Serialize for isize {
    open spec fn spec_serialize(&self) -> Seq<char> {
        decimal_text(*self as int)
    }

    fn serialize(&self, writer: &mut String) {
        write_signed(*self as i128, writer)
    }
}

/// `u8`'s decoder gives back the decimal text of any value in its range and refuses that of
/// any integer outside it.
pub proof fn lemma_u8_decode_decimal(v: int)
    ensures
        0 <= v <= u8::MAX as int ==> <u8 as Decode<u8>>::spec_decode(vstd::utf8::encode_utf8(decimal_text(v)))
            == Ok::<u8, DecodeFailureView>(v as u8),
        !(0 <= v <= u8::MAX as int) ==> <u8 as Decode<u8>>::spec_decode(vstd::utf8::encode_utf8(decimal_text(v))) is Err,
{
    if 0 <= v <= u8::MAX as int {
        crate::number::lemma_decode_decimal(v, 0, u8::MAX as int, IntType::U8);
    } else {
        crate::number::lemma_decode_decimal_out_of_range(v, 0, u8::MAX as int, IntType::U8);
    }
}

/// `u16`'s decoder gives back the decimal text of any value in its range and refuses that of
/// any integer outside it.
pub proof fn lemma_u16_decode_decimal(v: int)
    ensures
        0 <= v <= u16::MAX as int ==> <u16 as Decode<u16>>::spec_decode(vstd::utf8::encode_utf8(decimal_text(v)))
            == Ok::<u16, DecodeFailureView>(v as u16),
        !(0 <= v <= u16::MAX as int) ==> <u16 as Decode<u16>>::spec_decode(vstd::utf8::encode_utf8(decimal_text(v))) is Err,
{
    if 0 <= v <= u16::MAX as int {
        crate::number::lemma_decode_decimal(v, 0, u16::MAX as int, IntType::U16);
    } else {
        crate::number::lemma_decode_decimal_out_of_range(v, 0, u16::MAX as int, IntType::U16);
    }
}

/// `u32`'s decoder gives back the decimal text of any value in its range and refuses that of
/// any integer outside it.
pub proof fn lemma_u32_decode_decimal(v: int)
    ensures
        0 <= v <= u32::MAX as int ==> <u32 as Decode<u32>>::spec_decode(vstd::utf8::encode_utf8(decimal_text(v)))
            == Ok::<u32, DecodeFailureView>(v as u32),
        !(0 <= v <= u32::MAX as int) ==> <u32 as Decode<u32>>::spec_decode(vstd::utf8::encode_utf8(decimal_text(v))) is Err,
{
    if 0 <= v <= u32::MAX as int {
        crate::number::lemma_decode_decimal(v, 0, u32::MAX as int, IntType::U32);
    } else {
        crate::number::lemma_decode_decimal_out_of_range(v, 0, u32::MAX as int, IntType::U32);
    }
}

/// `u64`'s decoder gives back the decimal text of any value in its range and refuses that of
/// any integer outside it.
pub proof fn lemma_u64_decode_decimal(v: int)
    ensures
        0 <= v <= u64::MAX as int ==> <u64 as Decode<u64>>::spec_decode(vstd::utf8::encode_utf8(decimal_text(v)))
            == Ok::<u64, DecodeFailureView>(v as u64),
        !(0 <= v <= u64::MAX as int) ==> <u64 as Decode<u64>>::spec_decode(vstd::utf8::encode_utf8(decimal_text(v))) is Err,
{
    if 0 <= v <= u64::MAX as int {
        crate::number::lemma_decode_decimal(v, 0, u64::MAX as int, IntType::U64);
    } else {
        crate::number::lemma_decode_decimal_out_of_range(v, 0, u64::MAX as int, IntType::U64);
    }
}

/// `u128`'s decoder gives back the decimal text of any value in its range and refuses that of
/// any integer outside it.
pub proof fn lemma_u128_decode_decimal(v: int)
    ensures
        0 <= v <= u128::MAX as int ==> <u128 as Decode<u128>>::spec_decode(vstd::utf8::encode_utf8(decimal_text(v)))
            == Ok::<u128, DecodeFailureView>(v as u128),
        !(0 <= v <= u128::MAX as int) ==> <u128 as Decode<u128>>::spec_decode(vstd::utf8::encode_utf8(decimal_text(v))) is Err,
{
    if 0 <= v <= u128::MAX as int {
        crate::number::lemma_decode_decimal(v, 0, u128::MAX as int, IntType::U128);
    } else {
        crate::number::lemma_decode_decimal_out_of_range(v, 0, u128::MAX as int, IntType::U128);
    }
}

/// `usize`'s decoder gives back the decimal text of any value in its range and refuses that of
/// any integer outside it.
pub proof fn lemma_usize_decode_decimal(v: int)
    ensures
        0 <= v <= usize::MAX as int ==> <usize as Decode<usize>>::spec_decode(vstd::utf8::encode_utf8(decimal_text(v)))
            == Ok::<usize, DecodeFailureView>(v as usize),
        !(0 <= v <= usize::MAX as int) ==> <usize as Decode<usize>>::spec_decode(vstd::utf8::encode_utf8(decimal_text(v))) is Err,
{
    if 0 <= v <= usize::MAX as int {
        crate::number::lemma_decode_decimal(v, 0, usize::MAX as int, IntType::Usize);
    } else {
        crate::number::lemma_decode_decimal_out_of_range(v, 0, usize::MAX as int, IntType::Usize);
    }
}

/// `i8`'s decoder gives back the decimal text of any value in its range and refuses that of
/// any integer outside it.
pub proof fn lemma_i8_decode_decimal(v: int)
    ensures
        i8::MIN as int <= v <= i8::MAX as int ==> <i8 as Decode<i8>>::spec_decode(vstd::utf8::encode_utf8(decimal_text(v)))
            == Ok::<i8, DecodeFailureView>(v as i8),
        !(i8::MIN as int <= v <= i8::MAX as int) ==> <i8 as Decode<i8>>::spec_decode(vstd::utf8::encode_utf8(decimal_text(v))) is Err,
{
    if i8::MIN as int <= v <= i8::MAX as int {
        crate::number::lemma_decode_decimal(v, i8::MIN as int, i8::MAX as int, IntType::I8);
    } else {
        crate::number::lemma_decode_decimal_out_of_range(v, i8::MIN as int, i8::MAX as int, IntType::I8);
    }
}

/// `i16`'s decoder gives back the decimal text of any value in its range and refuses that of
/// any integer outside it.
pub proof fn lemma_i16_decode_decimal(v: int)
    ensures
        i16::MIN as int <= v <= i16::MAX as int ==> <i16 as Decode<i16>>::spec_decode(vstd::utf8::encode_utf8(decimal_text(v)))
            == Ok::<i16, DecodeFailureView>(v as i16),
        !(i16::MIN as int <= v <= i16::MAX as int) ==> <i16 as Decode<i16>>::spec_decode(vstd::utf8::encode_utf8(decimal_text(v))) is Err,
{
    if i16::MIN as int <= v <= i16::MAX as int {
        crate::number::lemma_decode_decimal(v, i16::MIN as int, i16::MAX as int, IntType::I16);
    } else {
        crate::number::lemma_decode_decimal_out_of_range(v, i16::MIN as int, i16::MAX as int, IntType::I16);
    }
}

/// `i32`'s decoder gives back the decimal text of any value in its range and refuses that of
/// any integer outside it.
pub proof fn lemma_i32_decode_decimal(v: int)
    ensures
        i32::MIN as int <= v <= i32::MAX as int ==> <i32 as Decode<i32>>::spec_decode(vstd::utf8::encode_utf8(decimal_text(v)))
            == Ok::<i32, DecodeFailureView>(v as i32),
        !(i32::MIN as int <= v <= i32::MAX as int) ==> <i32 as Decode<i32>>::spec_decode(vstd::utf8::encode_utf8(decimal_text(v))) is Err,
{
    if i32::MIN as int <= v <= i32::MAX as int {
        crate::number::lemma_decode_decimal(v, i32::MIN as int, i32::MAX as int, IntType::I32);
    } else {
        crate::number::lemma_decode_decimal_out_of_range(v, i32::MIN as int, i32::MAX as int, IntType::I32);
    }
}

/// `i64`'s decoder gives back the decimal text of any value in its range and refuses that of
/// any integer outside it.
pub proof fn lemma_i64_decode_decimal(v: int)
    ensures
        i64::MIN as int <= v <= i64::MAX as int ==> <i64 as Decode<i64>>::spec_decode(vstd::utf8::encode_utf8(decimal_text(v)))
            == Ok::<i64, DecodeFailureView>(v as i64),
        !(i64::MIN as int <= v <= i64::MAX as int) ==> <i64 as Decode<i64>>::spec_decode(vstd::utf8::encode_utf8(decimal_text(v))) is Err,
{
    if i64::MIN as int <= v <= i64::MAX as int {
        crate::number::lemma_decode_decimal(v, i64::MIN as int, i64::MAX as int, IntType::I64);
    } else {
        crate::number::lemma_decode_decimal_out_of_range(v, i64::MIN as int, i64::MAX as int, IntType::I64);
    }
}

/// `i128`'s decoder gives back the decimal text of any value in its range and refuses that of
/// any integer outside it.
pub proof fn lemma_i128_decode_decimal(v: int)
    ensures
        i128::MIN as int <= v <= i128::MAX as int ==> <i128 as Decode<i128>>::spec_decode(vstd::utf8::encode_utf8(decimal_text(v)))
            == Ok::<i128, DecodeFailureView>(v as i128),
        !(i128::MIN as int <= v <= i128::MAX as int) ==> <i128 as Decode<i128>>::spec_decode(vstd::utf8::encode_utf8(decimal_text(v))) is Err,
{
    if i128::MIN as int <= v <= i128::MAX as int {
        crate::number::lemma_decode_decimal(v, i128::MIN as int, i128::MAX as int, IntType::I128);
    } else {
        crate::number::lemma_decode_decimal_out_of_range(v, i128::MIN as int, i128::MAX as int, IntType::I128);
    }
}

/// `isize`'s decoder gives back the decimal text of any value in its range and refuses that of
/// any integer outside it.
pub proof fn lemma_isize_decode_decimal(v: int)
    ensures
        isize::MIN as int <= v <= isize::MAX as int ==> <isize as Decode<isize>>::spec_decode(vstd::utf8::encode_utf8(decimal_text(v)))
            == Ok::<isize, DecodeFailureView>(v as isize),
        !(isize::MIN as int <= v <= isize::MAX as int) ==> <isize as Decode<isize>>::spec_decode(vstd::utf8::encode_utf8(decimal_text(v))) is Err,
{
    if isize::MIN as int <= v <= isize::MAX as int {
        crate::number::lemma_decode_decimal(v, isize::MIN as int, isize::MAX as int, IntType::Isize);
    } else {
        crate::number::lemma_decode_decimal_out_of_range(v, isize::MIN as int, isize::MAX as int, IntType::Isize);
    }
}

} // verus!
