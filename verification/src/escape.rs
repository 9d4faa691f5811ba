//! Escaping of values in the query protocol: `\` `/` space `|` and the
//! control characters BEL, BS, FF, LF, CR, HT and VT travel as two-character
//! escape sequences.
use vstd::prelude::*;
use vstd::utf8::*;
use crate::error::{DecodeError, DecodeFailureView};
use crate::text::{from_utf8_error_text, push_char};

verus! {

/// The byte that the escape sequence `\x` stands for, where `x` is the given byte.
pub open spec fn unescaped_byte(b: u8) -> Option<u8> {
    if b == 0x5c { Some(0x5c) }          // `\\`
    else if b == 0x2f { Some(0x2f) }     // `\/`
    else if b == 0x73 { Some(0x20) }     // `\s`
    else if b == 0x70 { Some(0x7c) }     // `\p`
    else if b == 0x61 { Some(7) }        // `\a`
    else if b == 0x62 { Some(8) }        // `\b`
    else if b == 0x66 { Some(12) }       // `\f`
    else if b == 0x6e { Some(10) }       // `\n`
    else if b == 0x72 { Some(13) }       // `\r`
    else if b == 0x74 { Some(9) }        // `\t`
    else if b == 0x76 { Some(11) }       // `\v`
    else { None }
}

/// The letter that follows `\` in the escape sequence of the byte `b`, if `b` is escaped.
pub open spec fn escape_letter(b: u8) -> Option<u8> {
    if b == 0x5c { Some(0x5c) }
    else if b == 0x2f { Some(0x2f) }
    else if b == 0x20 { Some(0x73) }
    else if b == 0x7c { Some(0x70) }
    else if b == 7 { Some(0x61) }
    else if b == 8 { Some(0x62) }
    else if b == 12 { Some(0x66) }
    else if b == 10 { Some(0x6e) }
    else if b == 13 { Some(0x72) }
    else if b == 9 { Some(0x74) }
    else if b == 11 { Some(0x76) }
    else { None }
}

/// Prefixes the bytes `out` to a successful result.
pub open spec fn prepend_ok<E>(out: Seq<u8>, r: Result<Seq<u8>, E>) -> Result<Seq<u8>, E> {
    match r {
        Ok(rest) => Ok(out + rest),
        Err(e) => Err(e),
    }
}

/// The bytes that an escaped byte string stands for, or the first syntax error in it.
pub open spec fn unescape(b: Seq<u8>) -> Result<Seq<u8>, DecodeError>
    decreases b.len(),
{
    if b.len() == 0 {
        Ok(Seq::empty())
    } else if b[0] == 0x5c {
        if b.len() < 2 {
            Err(DecodeError::UnexpectedEof)
        } else {
            match unescaped_byte(b[1]) {
                Some(x) => prepend_ok(seq![x], unescape(b.skip(2))),
                None => Err(DecodeError::UnexpectedByte(b[1])),
            }
        }
    } else {
        prepend_ok(seq![b[0]], unescape(b.drop_first()))
    }
}

/// What `String::decode` yields for an escaped byte string.
pub open spec fn spec_decode_string(b: Seq<u8>) -> Result<Seq<char>, DecodeFailureView> {
    match unescape(b) {
        Err(e) => Err(DecodeFailureView::Syntax(e)),
        Ok(raw) => if valid_utf8(raw) {
            Ok(decode_utf8(raw))
        } else {
            Err(DecodeFailureView::InvalidUtf8(from_utf8_error_text(raw)))
        },
    }
}

/// The escaped form of one byte.
pub open spec fn escape_byte(b: u8) -> Seq<u8> {
    match escape_letter(b) {
        Some(l) => seq![0x5cu8, l],
        None => seq![b],
    }
}

/// The escaped form of a byte string.
pub open spec fn escape_bytes(b: Seq<u8>) -> Seq<u8>
    decreases b.len(),
{
    if b.len() == 0 {
        Seq::empty()
    } else {
        escape_byte(b[0]) + escape_bytes(b.drop_first())
    }
}

/// The letter that follows `\` in the escape sequence of the character `c`, if `c` is escaped.
pub open spec fn escape_letter_char(c: char) -> Option<char> {
    if c == '\\' { Some('\\') }
    else if c == '/' { Some('/') }
    else if c == ' ' { Some('s') }
    else if c == '|' { Some('p') }
    else if c == '\u{7}' { Some('a') }
    else if c == '\u{8}' { Some('b') }
    else if c == '\u{c}' { Some('f') }
    else if c == '\n' { Some('n') }
    else if c == '\r' { Some('r') }
    else if c == '\t' { Some('t') }
    else if c == '\u{b}' { Some('v') }
    else { None }
}

/// The escaped form of one character.
pub open spec fn escape_char(c: char) -> Seq<char> {
    match escape_letter_char(c) {
        Some(l) => seq!['\\', l],
        None => seq![c],
    }
}

/// The escaped form of a string, as `Serialize` writes it.
pub open spec fn escape(s: Seq<char>) -> Seq<char>
    decreases s.len(),
{
    if s.len() == 0 {
        Seq::empty()
    } else {
        escape_char(s[0]) + escape(s.drop_first())
    }
}

proof fn lemma_prepend_push<E>(out: Seq<u8>, x: u8, r: Result<Seq<u8>, E>)
    ensures
        prepend_ok(out, prepend_ok(seq![x], r)) == prepend_ok(out.push(x), r),
{
    if let Ok(rest) = r {
        assert(out + (seq![x] + rest) =~= out.push(x) + rest);
    }
}

pub proof fn lemma_escape_concat(x: Seq<char>, y: Seq<char>)
    ensures
        escape(x + y) == escape(x) + escape(y),
    decreases x.len(),
{
    if x.len() == 0 {
        assert(x + y =~= y);
    } else {
        assert((x + y).drop_first() =~= x.drop_first() + y);
        lemma_escape_concat(x.drop_first(), y);
    }
}

proof fn lemma_escape_single(c: char)
    ensures
        escape(seq![c]) == escape_char(c),
{
    let s = seq![c];
    assert(s.drop_first() =~= Seq::<char>::empty());
    assert(escape(Seq::<char>::empty()) == Seq::<char>::empty());
    assert(s[0] == c);
    assert(escape(s) == escape_char(c) + escape(s.drop_first()));
    assert(escape_char(c) + Seq::<char>::empty() =~= escape_char(c));
}

pub proof fn lemma_encode_utf8_concat(x: Seq<char>, y: Seq<char>)
    ensures
        encode_utf8(x + y) == encode_utf8(x) + encode_utf8(y),
    decreases x.len(),
{
    if x.len() == 0 {
        assert(x + y =~= y);
    } else {
        assert((x + y).drop_first() =~= x.drop_first() + y);
        assert((x + y)[0] == x[0]);
        lemma_encode_utf8_concat(x.drop_first(), y);
    }
}

pub proof fn lemma_escape_bytes_concat(x: Seq<u8>, y: Seq<u8>)
    ensures
        escape_bytes(x + y) == escape_bytes(x) + escape_bytes(y),
    decreases x.len(),
{
    if x.len() == 0 {
        assert(x + y =~= y);
    } else {
        assert((x + y).drop_first() =~= x.drop_first() + y);
        assert((x + y)[0] == x[0]);
        lemma_escape_bytes_concat(x.drop_first(), y);
    }
}

/// Bytes at or above 0x80 are never escaped.
proof fn lemma_escape_bytes_high(b: Seq<u8>)
    requires
        forall|i: int| 0 <= i < b.len() ==> b[i] >= 0x80,
    ensures
        escape_bytes(b) == b,
    decreases b.len(),
{
    if b.len() > 0 {
        lemma_escape_bytes_high(b.drop_first());
        assert(seq![b[0]] + b.drop_first() =~= b);
    }
}

proof fn lemma_ascii_byte(v: u32)
    requires
        v < 0x80,
    ensures
        leading_byte_width_1(v) == v as u8,
{
    assert((v & 0x7f) == v) by (bit_vector)
        requires
            v < 0x80,
    ;
}

proof fn lemma_high_bytes(v: u32)
    ensures
        leading_byte_width_2(v) >= 0x80,
        leading_byte_width_3(v) >= 0x80,
        leading_byte_width_4(v) >= 0x80,
        last_continuation_byte(v) >= 0x80,
        second_last_continuation_byte(v) >= 0x80,
        third_last_continuation_byte(v) >= 0x80,
{
    assert(forall|x: u8| (0xC0u8 | x) >= 0x80u8) by (bit_vector);
    assert(forall|x: u8| (0xE0u8 | x) >= 0x80u8) by (bit_vector);
    assert(forall|x: u8| (0xF0u8 | x) >= 0x80u8) by (bit_vector);
    assert(forall|x: u8| (0x80u8 | x) >= 0x80u8) by (bit_vector);
}

proof fn lemma_encode_single(c: char)
    ensures
        encode_utf8(seq![c]) == encode_scalar(c as u32),
{
    let s = seq![c];
    assert(s.drop_first() =~= Seq::<char>::empty());
    assert(encode_utf8(Seq::<char>::empty()) == Seq::<u8>::empty());
    assert(encode_utf8(s) == encode_scalar(s[0] as u32) + encode_utf8(s.drop_first()));
    assert(encode_scalar(c as u32) + Seq::<u8>::empty() =~= encode_scalar(c as u32));
}

/// The UTF-8 bytes of an escaped character are the escaped UTF-8 bytes of the character.
proof fn lemma_encode_escape_char(c: char)
    ensures
        encode_utf8(escape_char(c)) == escape_bytes(encode_scalar(c as u32)),
{
    let v: u32 = c as u32;
    let e = escape_char(c);
    if (c as u32) < 0x80 {
        lemma_ascii_byte(v);
        let b: u8 = v as u8;
        assert(encode_scalar(v) == seq![b]);
        assert(seq![b].drop_first() =~= Seq::<u8>::empty());
        assert(escape_bytes(seq![b]) == escape_byte(b) + escape_bytes(Seq::<u8>::empty()));
        assert(escape_bytes(seq![b]) =~= escape_byte(b));
        match escape_letter_char(c) {
            Some(l) => {
                lemma_ascii_byte(l as u32);
                assert(e =~= seq!['\\'] + seq![l]);
                lemma_encode_utf8_concat(seq!['\\'], seq![l]);
                lemma_encode_single('\\');
                lemma_encode_single(l);
                lemma_ascii_byte('\\' as u32);
                assert(encode_utf8(seq!['\\']) =~= seq![0x5cu8]);
                assert(encode_utf8(seq![l]) =~= seq![l as u32 as u8]);
                assert(escape_byte(b) =~= seq![0x5cu8, l as u32 as u8]);
            },
            None => {
                assert(e =~= seq![c]);
                lemma_encode_single(c);
            },
        }
    } else {
        vstd::utf8::char_is_scalar(c);
        lemma_high_bytes(v);
        assert(escape_letter_char(c) is None);
        assert(e =~= seq![c]);
        lemma_encode_single(c);
        lemma_escape_bytes_high(encode_scalar(v));
    }
}

/// The UTF-8 bytes of an escaped string are the escaped UTF-8 bytes of the string.
pub proof fn lemma_encode_escape(s: Seq<char>)
    ensures
        encode_utf8(escape(s)) == escape_bytes(encode_utf8(s)),
    decreases s.len(),
{
    if s.len() > 0 {
        lemma_encode_escape(s.drop_first());
        lemma_encode_escape_char(s[0]);
        lemma_encode_utf8_concat(escape_char(s[0]), escape(s.drop_first()));
        lemma_escape_bytes_concat(encode_scalar(s[0] as u32), encode_utf8(s.drop_first()));
    }
}

/// Unescaping undoes escaping, byte for byte.
pub proof fn lemma_unescape_escape_bytes(b: Seq<u8>)
    ensures
        unescape(escape_bytes(b)) == Ok::<Seq<u8>, DecodeError>(b),
    decreases b.len(),
{
    if b.len() == 0 {
        assert(b =~= Seq::<u8>::empty());
    } else {
        let rest = b.drop_first();
        let e = escape_bytes(b);
        lemma_unescape_escape_bytes(rest);
        assert(e == escape_byte(b[0]) + escape_bytes(rest));
        match escape_letter(b[0]) {
            Some(l) => {
                assert(e[0] == 0x5c && e[1] == l);
                assert(unescaped_byte(l) == Some(b[0]));
                assert(e.skip(2) =~= escape_bytes(rest));
                assert(unescape(e) == prepend_ok(seq![b[0]], unescape(e.skip(2))));
                assert(seq![b[0]] + rest =~= b);
            },
            None => {
                assert(e[0] == b[0]);
                assert(b[0] != 0x5c);
                assert(e.drop_first() =~= escape_bytes(rest));
                assert(unescape(e) == prepend_ok(seq![b[0]], unescape(e.drop_first())));
                assert(seq![b[0]] + rest =~= b);
            },
        }
    }
}

/// The escape sequences of the query protocol: backslash, `/`, space, `|`, BEL, BS, FF, LF,
/// CR, HT and VT are written as `\\` followed by, in turn, `\\`, `/`, `s`, `p`, `a`, `b`,
/// `f`, `n`, `r`, `t` and `v`; each of these sequences decodes back to its character.
pub proof fn lemma_escape_sequences(k: int)
    requires
        0 <= k < 11,
    ensures
        escape(seq![seq!['\\', '/', ' ', '|', '\u{7}', '\u{8}', '\u{c}', '\n', '\r', '\t', '\u{b}'][k]]) == seq!['\\', seq!['\\', '/', 's', 'p', 'a', 'b', 'f', 'n', 'r', 't', 'v'][k]],
        spec_decode_string(seq![0x5cu8, seq![0x5cu8, 0x2f, 0x73, 0x70, 0x61, 0x62, 0x66, 0x6e, 0x72, 0x74, 0x76][k]])
            == Ok::<Seq<char>, DecodeFailureView>(seq![seq!['\\', '/', ' ', '|', '\u{7}', '\u{8}', '\u{c}', '\n', '\r', '\t', '\u{b}'][k]]),
{
    let c = seq!['\\', '/', ' ', '|', '\u{7}', '\u{8}', '\u{c}', '\n', '\r', '\t', '\u{b}'][k];
    let l = seq!['\\', '/', 's', 'p', 'a', 'b', 'f', 'n', 'r', 't', 'v'][k];
    let b = seq![0x5cu8, 0x2f, 0x73, 0x70, 0x61, 0x62, 0x66, 0x6e, 0x72, 0x74, 0x76][k];
    lemma_escape_single(c);
    lemma_decode_escaped_string(seq![c]);
    assert(escape(seq![c]) =~= seq!['\\', l]);
    let t = seq!['\\', l];
    assert(is_ascii_chars(t));
    is_ascii_chars_encode_utf8(t);
    assert(encode_utf8(t) =~= seq![0x5cu8, b]);
}

/// Every character other than those with an escape sequence is written as itself.
pub proof fn lemma_escape_plain(c: char)
    requires
        !seq!['\\', '/', ' ', '|', '\u{7}', '\u{8}', '\u{c}', '\n', '\r', '\t', '\u{b}'].contains(c),
    ensures
        escape(seq![c]) == seq![c],
{
    lemma_escape_single(c);
    assert(seq!['\\', '/', ' ', '|', '\u{7}', '\u{8}', '\u{c}', '\n', '\r', '\t', '\u{b}'][0] == '\\');
    assert(seq!['\\', '/', ' ', '|', '\u{7}', '\u{8}', '\u{c}', '\n', '\r', '\t', '\u{b}'][1] == '/');
    assert(seq!['\\', '/', ' ', '|', '\u{7}', '\u{8}', '\u{c}', '\n', '\r', '\t', '\u{b}'][2] == ' ');
    assert(seq!['\\', '/', ' ', '|', '\u{7}', '\u{8}', '\u{c}', '\n', '\r', '\t', '\u{b}'][3] == '|');
    assert(seq!['\\', '/', ' ', '|', '\u{7}', '\u{8}', '\u{c}', '\n', '\r', '\t', '\u{b}'][4] == '\u{7}');
    assert(seq!['\\', '/', ' ', '|', '\u{7}', '\u{8}', '\u{c}', '\n', '\r', '\t', '\u{b}'][5] == '\u{8}');
    assert(seq!['\\', '/', ' ', '|', '\u{7}', '\u{8}', '\u{c}', '\n', '\r', '\t', '\u{b}'][6] == '\u{c}');
    assert(seq!['\\', '/', ' ', '|', '\u{7}', '\u{8}', '\u{c}', '\n', '\r', '\t', '\u{b}'][7] == '\n');
    assert(seq!['\\', '/', ' ', '|', '\u{7}', '\u{8}', '\u{c}', '\n', '\r', '\t', '\u{b}'][8] == '\r');
    assert(seq!['\\', '/', ' ', '|', '\u{7}', '\u{8}', '\u{c}', '\n', '\r', '\t', '\u{b}'][9] == '\t');
    assert(seq!['\\', '/', ' ', '|', '\u{7}', '\u{8}', '\u{c}', '\n', '\r', '\t', '\u{b}'][10] == '\u{b}');
}

/// Decoding what `Serialize` wrote for a string gives the string back.
pub proof fn lemma_decode_escaped_string(s: Seq<char>)
    ensures
        spec_decode_string(encode_utf8(escape(s))) == Ok::<Seq<char>, DecodeFailureView>(s),
{
    lemma_encode_escape(s);
    lemma_unescape_escape_bytes(encode_utf8(s));
    vstd::utf8::encode_utf8_valid_utf8(s);
    vstd::utf8::encode_utf8_decode_utf8(s);
}

/// An escaped text holds no space and no `|`, so it cannot break the ` key=value` layout of a
/// command or the `|` layout of a list.
pub proof fn lemma_escape_no_separators(s: Seq<char>)
    ensures
        !escape(s).contains(' '),
        !escape(s).contains('|'),
    decreases s.len(),
{
    if s.len() > 0 {
        lemma_escape_no_separators(s.drop_first());
        let e = escape(s);
        let h = escape_char(s[0]);
        let r = escape(s.drop_first());
        assert(e == h + r);
        assert forall|i: int| 0 <= i < e.len() implies e[i] != ' ' && e[i] != '|' by {
            if i < h.len() {
                assert(e[i] == h[i]);
            } else {
                assert(e[i] == r[i - h.len()]);
            }
        }
    }
}

/// Escaped bytes hold no `|` and no space: those travel as `\p` and `\s`.
pub proof fn lemma_escape_bytes_no_separators(b: Seq<u8>)
    ensures
        !escape_bytes(b).contains(0x7cu8),
        !escape_bytes(b).contains(0x20u8),
    decreases b.len(),
{
    if b.len() > 0 {
        lemma_escape_bytes_no_separators(b.drop_first());
        let e = escape_bytes(b);
        let h = escape_byte(b[0]);
        let r = escape_bytes(b.drop_first());
        assert(e == h + r);
        assert forall|i: int| 0 <= i < e.len() implies e[i] != 0x7cu8 && e[i] != 0x20u8 by {
            if i < h.len() {
                assert(e[i] == h[i]);
            } else {
                assert(e[i] == r[i - h.len()]);
            }
        }
    }
}

/// The UTF-8 bytes of texts joined with an ASCII separator are their bytes joined with it.
pub proof fn lemma_encode_join(texts: Seq<Seq<char>>, sep: char)
    requires
        (sep as u32) < 0x80,
    ensures
        encode_utf8(crate::split::join_on(texts, sep)) == crate::split::join_on(
            texts.map_values(|t: Seq<char>| encode_utf8(t)),
            sep as u32 as u8,
        ),
    decreases texts.len(),
{
    let bs = texts.map_values(|t: Seq<char>| encode_utf8(t));
    if texts.len() == 0 {
    } else if texts.len() == 1 {
        assert(bs[0] == encode_utf8(texts[0]));
    } else {
        let front = texts.drop_last();
        lemma_encode_join(front, sep);
        assert(bs.drop_last() =~= front.map_values(|t: Seq<char>| encode_utf8(t)));
        assert(bs.last() == encode_utf8(texts.last()));
        let j = crate::split::join_on(front, sep);
        lemma_encode_utf8_concat(j + seq![sep], texts.last());
        lemma_encode_utf8_concat(j, seq![sep]);
        lemma_encode_single(sep);
        lemma_ascii_byte(sep as u32);
    }
}

/// Decodes an escaped byte string into the bytes it stands for.
pub fn unescape_bytes(buf: &[u8]) -> (res: Result<Vec<u8>, DecodeError>)
    ensures
        match res {
            Ok(v) => unescape(buf@) == Ok::<Seq<u8>, DecodeError>(v@),
            Err(e) => unescape(buf@) == Err::<Seq<u8>, DecodeError>(e),
        },
{
    let mut out: Vec<u8> = Vec::new();
    let mut i: usize = 0;
    proof {
        assert(buf@.skip(0) =~= buf@);
        if let Ok(r) = unescape(buf@) {
            assert(out@ + r =~= r);
        }
    }
    while i < buf.len()
        invariant
            i <= buf@.len(),
            unescape(buf@) == prepend_ok(out@, unescape(buf@.skip(i as int))),
        decreases buf@.len() - i,
    {
        let ghost rest = buf@.skip(i as int);
        let byte: u8 = buf[i];
        if byte == 0x5c {
            if i + 1 >= buf.len() {
                return Err(DecodeError::UnexpectedEof);
            }
            let next: u8 = buf[i + 1];
            let x: u8 = if next == 0x5c {
                0x5c
            } else if next == 0x2f {
                0x2f
            } else if next == 0x73 {
                0x20
            } else if next == 0x70 {
                0x7c
            } else if next == 0x61 {
                7
            } else if next == 0x62 {
                8
            } else if next == 0x66 {
                12
            } else if next == 0x6e {
                10
            } else if next == 0x72 {
                13
            } else if next == 0x74 {
                9
            } else if next == 0x76 {
                11
            } else {
                return Err(DecodeError::UnexpectedByte(next));
            };
            proof {
                assert(rest.skip(2) =~= buf@.skip(i + 2));
                assert(unescape(rest) == prepend_ok(seq![x], unescape(rest.skip(2))));
                lemma_prepend_push(out@, x, unescape(rest.skip(2)));
            }
            out.push(x);
            i = i + 2;
        } else {
            proof {
                assert(rest.drop_first() =~= buf@.skip(i + 1));
                assert(unescape(rest) == prepend_ok(seq![byte], unescape(rest.drop_first())));
                lemma_prepend_push(out@, byte, unescape(rest.drop_first()));
            }
            out.push(byte);
            i = i + 1;
        }
    }
    proof {
        assert(out@ + Seq::<u8>::empty() =~= out@);
    }
    Ok(out)
}

/// Appends the escaped form of `s` to `writer`.
pub fn escape_into(s: &str, writer: &mut String)
    ensures
        final(writer)@ == old(writer)@ + escape(s@),
{
    let ghost start = writer@;
    for c in it: s.chars()
        invariant
            it.seq() == s@,
            writer@ == start + escape(s@.take(it.index() as int)),
    {
        let ghost i = it.index();
        proof {
            assert(s@.take(i + 1) =~= s@.take(i as int) + seq![c]);
            lemma_escape_concat(s@.take(i as int), seq![c]);
            lemma_escape_single(c);
        }
        let letter: Option<char> = if c == '\\' {
            Some('\\')
        } else if c == '/' {
            Some('/')
        } else if c == ' ' {
            Some('s')
        } else if c == '|' {
            Some('p')
        } else if c == '\u{7}' {
            Some('a')
        } else if c == '\u{8}' {
            Some('b')
        } else if c == '\u{c}' {
            Some('f')
        } else if c == '\n' {
            Some('n')
        } else if c == '\r' {
            Some('r')
        } else if c == '\t' {
            Some('t')
        } else if c == '\u{b}' {
            Some('v')
        } else {
            None
        };
        match letter {
            Some(l) => {
                push_char(writer, '\\');
                push_char(writer, l);
            },
            None => {
                push_char(writer, c);
            },
        }
    }
    proof {
        assert(s@.take(s@.len() as int) =~= s@);
    }
}

} // verus!
