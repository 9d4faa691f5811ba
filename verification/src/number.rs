//! Decimal integers: reading them from text and bytes, and writing them.
use vstd::prelude::*;
use vstd::utf8::*;
use crate::error::{DecodeFailure, DecodeFailureView, IntType, ParseIntError};
use crate::text::{push_char, str_from_utf8, utf8_error_text};

verus! {

pub open spec fn is_digit(b: u8) -> bool {
    0x30 <= b <= 0x39
}

/// How many ASCII digits `b` starts with.
pub open spec fn leading_digits(b: Seq<u8>) -> nat
    decreases b.len(),
{
    if b.len() > 0 && is_digit(b[0]) {
        1 + leading_digits(b.drop_first())
    } else {
        0
    }
}

/// The value of a string of decimal digits.
pub open spec fn digits_value(b: Seq<u8>) -> int
    decreases b.len(),
{
    if b.len() == 0 {
        0
    } else {
        digits_value(b.drop_last()) * 10 + (b.last() - 0x30)
    }
}

pub open spec fn is_sign(b: u8) -> bool {
    b == 0x2b || b == 0x2d
}

/// What std's `from_str` gives for the bytes `b` and an integer type whose range is
/// `min..=max`: an optional `+` (or `-` where `min` is negative) and then only digits.
/// Errors come in the order std meets them, reading from the left: a value out of range
/// before a stray character after it.
pub open spec fn spec_parse_int(b: Seq<u8>, min: int, max: int) -> Result<int, ParseIntError> {
    if b.len() == 0 {
        Err(ParseIntError::Empty)
    } else if is_sign(b[0]) && b.len() == 1 {
        Err(ParseIntError::InvalidDigit)
    } else {
        let neg = min < 0 && b[0] == 0x2d;
        let start: int = if b[0] == 0x2b || neg { 1 } else { 0 };
        let d = b.skip(start);
        let k: nat = leading_digits(d);
        let v: int = digits_value(d.take(k as int));
        if !neg && v > max {
            Err(ParseIntError::PosOverflow)
        } else if neg && -v < min {
            Err(ParseIntError::NegOverflow)
        } else if k < d.len() {
            Err(ParseIntError::InvalidDigit)
        } else {
            Ok(if neg { -v } else { v })
        }
    }
}

/// What `Decode` gives for the integer type `ty`, whose range is `min..=max`: the bytes must
/// be UTF-8; the longest prefix made of an optional sign and digits is read as by
/// `from_str`, and whatever follows it is ignored. An error names the type and quotes the
/// text, and where the prefix does not read, the prefix too.
pub open spec fn spec_decode_int(buf: Seq<u8>, min: int, max: int, ty: IntType) -> Result<int, DecodeFailureView> {
    if !valid_utf8(buf) {
        Err(DecodeFailureView::InvalidUtf8(utf8_error_text(buf)))
    } else if buf.len() == 0 {
        Err(DecodeFailureView::Number {
            kind: ParseIntError::Empty,
            ty,
            digits: Seq::empty(),
            text: Seq::empty(),
        })
    } else {
        let sl: int = if is_sign(buf[0]) { 1 } else { 0 };
        let k: nat = leading_digits(buf.skip(sl));
        if k == 0 {
            Err(DecodeFailureView::NotANumber { ty, text: decode_utf8(buf) })
        } else {
            match spec_parse_int(buf.take(sl + k), min, max) {
                Ok(v) => Ok(v),
                Err(e) => Err(DecodeFailureView::Number {
                    kind: e,
                    ty,
                    digits: ascii_chars(buf.take(sl + k)),
                    text: decode_utf8(buf),
                }),
            }
        }
    }
}

/// ASCII bytes read as the characters they encode.
pub open spec fn ascii_chars(b: Seq<u8>) -> Seq<char> {
    b.map_values(|x: u8| x as char)
}

/// The decimal digits of `n`, most significant first, with no leading zero.
pub open spec fn decimal_bytes(n: nat) -> Seq<u8>
    decreases n,
{
    if n < 10 {
        seq![(n + 0x30) as u8]
    } else {
        decimal_bytes(n / 10).push((n % 10 + 0x30) as u8)
    }
}

/// The decimal text of `v`, with a leading `-` where it is negative, as `Display` writes it.
pub open spec fn signed_decimal_bytes(v: int) -> Seq<u8> {
    if v < 0 {
        seq![0x2du8] + decimal_bytes((-v) as nat)
    } else {
        decimal_bytes(v as nat)
    }
}

/// The same text as characters.
pub open spec fn decimal_text(v: int) -> Seq<char> {
    signed_decimal_bytes(v).map_values(|b: u8| b as char)
}

/// Reading the digits of a number the scan has passed through.
proof fn lemma_digits_step(b: Seq<u8>, j: int)
    requires
        0 <= j < b.len(),
    ensures
        b.take(j + 1).drop_last() == b.take(j),
        b.take(j + 1).last() == b[j],
        digits_value(b.take(j + 1)) == digits_value(b.take(j)) * 10 + (b[j] - 0x30),
{
    assert(b.take(j + 1).drop_last() =~= b.take(j));
}

/// `leading_digits` is the length of the run of digits that the scan finds.
proof fn lemma_leading_digits_is(b: Seq<u8>, k: int)
    requires
        0 <= k <= b.len(),
        forall|i: int| 0 <= i < k ==> is_digit(#[trigger] b[i]),
        k < b.len() ==> !is_digit(b[k]),
    ensures
        leading_digits(b) == k,
    decreases k,
{
    if k > 0 {
        assert forall|i: int| 0 <= i < k - 1 implies is_digit(#[trigger] b.drop_first()[i]) by {
            assert(b.drop_first()[i] == b[i + 1]);
        }
        if k < b.len() {
            assert(b.drop_first()[k - 1] == b[k]);
        }
        lemma_leading_digits_is(b.drop_first(), k - 1);
    }
}

proof fn lemma_step_overflow(a: int, d: int, limit: int)
    by (nonlinear_arith)
    requires
        0 <= a,
        0 <= d <= limit,
    ensures
        (a * 10 + d > limit) <==> (a > (limit - d) / 10),
{
}

/// The result of scanning a run of digits against a limit.
pub enum DigitScan {
    /// The run's value exceeds the limit.
    Overflow,
    /// The run has this many digits and this value.
    Value(usize, u128),
}

/// Scans the digits of `b` from `start` up to `end`, and tells whether their value is over `limit`.
pub fn scan_digits(b: &[u8], start: usize, end: usize, limit: u128) -> (res: DigitScan)
    requires
        start <= end <= b@.len(),
    ensures
        ({
            let d = b@.subrange(start as int, end as int);
            let k: nat = leading_digits(d);
            match res {
                DigitScan::Overflow => digits_value(d.take(k as int)) > limit,
                DigitScan::Value(n, v) => n == k && v == digits_value(d.take(k as int))
                    && v <= limit,
            }
        }),
        res matches DigitScan::Value(n, _) ==> start + n <= end,
{
    let ghost d = b@.subrange(start as int, end as int);
    let mut j: usize = start;
    let mut acc: u128 = 0;
    let mut over = false;
    proof {
        assert(d.take(0) =~= Seq::<u8>::empty());
    }
    while j < end && 0x30 <= b[j] && b[j] <= 0x39
        invariant
            start <= j <= end <= b@.len(),
            d == b@.subrange(start as int, end as int),
            forall|i: int| 0 <= i < j - start ==> is_digit(#[trigger] d[i]),
            over ==> digits_value(d.take(j - start)) > limit,
            !over ==> acc == digits_value(d.take(j - start)) && acc <= limit,
            digits_value(d.take(j - start)) >= 0,
        decreases end - j,
    {
        let dig: u128 = (b[j] - 0x30) as u128;
        proof {
            assert(d[j - start] == b@[j as int]);
            lemma_digits_step(d, j - start);
        }
        if !over {
            if dig > limit || acc > (limit - dig) / 10 {
                proof {
                    if dig <= limit {
                        lemma_step_overflow(acc as int, dig as int, limit as int);
                    }
                }
                over = true;
            } else {
                proof {
                    lemma_step_overflow(acc as int, dig as int, limit as int);
                }
                acc = acc * 10 + dig;
            }
        }
        j = j + 1;
    }
    proof {
        if j < end {
            assert(d[j - start] == b@[j as int]);
        }
        lemma_leading_digits_is(d, j - start);
    }
    if over {
        DigitScan::Overflow
    } else {
        DigitScan::Value(j - start, acc)
    }
}

/// Counts the digits that `b` holds from `start` on, up to `end`.
pub fn count_digits(b: &[u8], start: usize, end: usize) -> (k: usize)
    requires
        start <= end <= b@.len(),
    ensures
        k == leading_digits(b@.subrange(start as int, end as int)),
        start + k <= end,
{
    let ghost d = b@.subrange(start as int, end as int);
    let mut j: usize = start;
    while j < end && 0x30 <= b[j] && b[j] <= 0x39
        invariant
            start <= j <= end <= b@.len(),
            d == b@.subrange(start as int, end as int),
            forall|i: int| 0 <= i < j - start ==> is_digit(#[trigger] d[i]),
        decreases end - j,
    {
        proof {
            assert(d[j - start] == b@[j as int]);
        }
        j = j + 1;
    }
    proof {
        if j < end {
            assert(d[j - start] == b@[j as int]);
        }
        lemma_leading_digits_is(d, j - start);
    }
    j - start
}

/// Reads an unsigned integer no greater than `max` from `b[..end]`, as std's `from_str` does.
pub fn parse_unsigned(b: &[u8], end: usize, max: u128) -> (res: Result<u128, ParseIntError>)
    requires
        end <= b@.len(),
    ensures
        match res {
            Ok(v) => spec_parse_int(b@.take(end as int), 0, max as int) == Ok::<int, ParseIntError>(v as int),
            Err(e) => spec_parse_int(b@.take(end as int), 0, max as int) == Err::<int, ParseIntError>(e),
        },
        res matches Ok(v) ==> v <= max,
{
    let ghost t = b@.take(end as int);
    if end == 0 {
        return Err(ParseIntError::Empty);
    }
    let first: u8 = b[0];
    assert(t[0] == first);
    if (first == 0x2b || first == 0x2d) && end == 1 {
        return Err(ParseIntError::InvalidDigit);
    }
    let start: usize = if first == 0x2b { 1 } else { 0 };
    proof {
        assert(t.skip(start as int) =~= b@.subrange(start as int, end as int));
    }
    match scan_digits(b, start, end, max) {
        DigitScan::Overflow => Err(ParseIntError::PosOverflow),
        DigitScan::Value(k, v) => {
            if start + k < end {
                Err(ParseIntError::InvalidDigit)
            } else {
                Ok(v)
            }
        },
    }
}

/// Reads a signed integer in `min..=max` from `b[..end]`, as std's `from_str` does.
pub fn parse_signed(b: &[u8], end: usize, min: i128, max: i128) -> (res: Result<i128, ParseIntError>)
    requires
        end <= b@.len(),
        0 < max,
        min == -max - 1,
    ensures
        match res {
            Ok(v) => spec_parse_int(b@.take(end as int), min as int, max as int) == Ok::<int, ParseIntError>(v as int),
            Err(e) => spec_parse_int(b@.take(end as int), min as int, max as int) == Err::<int, ParseIntError>(e),
        },
        res matches Ok(v) ==> min <= v <= max,
{
    let ghost t = b@.take(end as int);
    if end == 0 {
        return Err(ParseIntError::Empty);
    }
    let first: u8 = b[0];
    assert(t[0] == first);
    if (first == 0x2b || first == 0x2d) && end == 1 {
        return Err(ParseIntError::InvalidDigit);
    }
    let neg = first == 0x2d;
    let start: usize = if first == 0x2b || neg { 1 } else { 0 };
    let limit: u128 = if neg { max as u128 + 1 } else { max as u128 };
    proof {
        assert(t.skip(start as int) =~= b@.subrange(start as int, end as int));
    }
    match scan_digits(b, start, end, limit) {
        DigitScan::Overflow => if neg {
            Err(ParseIntError::NegOverflow)
        } else {
            Err(ParseIntError::PosOverflow)
        },
        DigitScan::Value(k, v) => {
            if start + k < end {
                Err(ParseIntError::InvalidDigit)
            } else if neg {
                if v == limit {
                    Ok(min)
                } else {
                    Ok(-(v as i128))
                }
            } else {
                Ok(v as i128)
            }
        },
    }
}

/// The first `end` bytes of `b`, each taken as the character with its code.
fn ascii_text(b: &[u8], end: usize) -> (res: String)
    requires
        end <= b@.len(),
    ensures
        res@ == ascii_chars(b@.take(end as int)),
{
    let mut s = String::new();
    let mut i: usize = 0;
    while i < end
        invariant
            i <= end <= b@.len(),
            s@ == ascii_chars(b@.take(i as int)),
        decreases end - i,
    {
        let c = b[i] as char;
        push_char(&mut s, c);
        proof {
            assert(b@.take(i + 1) =~= b@.take(i as int).push(b@[i as int]));
            assert(ascii_chars(b@.take(i + 1)) =~= ascii_chars(b@.take(i as int)).push(c));
        }
        i = i + 1;
    }
    s
}

/// The end of the sign-and-digits prefix that `Decode` reads and the text of the bytes, or
/// the error that comes first.
fn number_prefix(buf: &[u8], ty: IntType) -> (res: Result<(usize, String), DecodeFailure>)
    ensures
        match res {
            Ok((end, text)) => {
                &&& valid_utf8(buf@)
                &&& text@ == decode_utf8(buf@)
                &&& buf@.len() > 0
                &&& leading_digits(buf@.skip(if is_sign(buf@[0]) { 1 } else { 0 })) > 0
                &&& end == (if is_sign(buf@[0]) { 1int } else { 0int }) + leading_digits(buf@.skip(if is_sign(buf@[0]) { 1 } else { 0 }))
                &&& end <= buf@.len()
            },
            Err(e) => spec_decode_int(buf@, 0, 0, ty) == Err::<int, DecodeFailureView>(e@)
                && forall|min: int, max: int| #[trigger] spec_decode_int(buf@, min, max, ty) == Err::<int, DecodeFailureView>(e@),
        },
{
    let text = match str_from_utf8(buf) {
        Ok(s) => s.to_owned(),
        Err(t) => {
            return Err(DecodeFailure::InvalidUtf8(t));
        },
    };
    if buf.len() == 0 {
        return Err(DecodeFailure::Number {
            kind: ParseIntError::Empty,
            ty,
            digits: String::new(),
            text: String::new(),
        });
    }
    let sl: usize = if buf[0] == 0x2b || buf[0] == 0x2d { 1 } else { 0 };
    let k: usize = count_digits(buf, sl, buf.len());
    proof {
        assert(buf@.skip(sl as int) =~= buf@.subrange(sl as int, buf@.len() as int));
    }
    if k == 0 {
        return Err(DecodeFailure::NotANumber { ty, text });
    }
    Ok((sl + k, text))
}

/// Decodes an unsigned integer of type `ty`, no greater than `max`, as `Decode` does.
pub fn decode_unsigned(buf: &[u8], max: u128, ty: IntType) -> (res: Result<u128, DecodeFailure>)
    ensures
        match res {
            Ok(v) => spec_decode_int(buf@, 0, max as int, ty) == Ok::<int, DecodeFailureView>(v as int),
            Err(e) => spec_decode_int(buf@, 0, max as int, ty) == Err::<int, DecodeFailureView>(e@),
        },
        res matches Ok(v) ==> v <= max,
{
    let (end, text) = number_prefix(buf, ty)?;
    match parse_unsigned(buf, end, max) {
        Ok(v) => Ok(v),
        Err(kind) => Err(DecodeFailure::Number { kind, ty, digits: ascii_text(buf, end), text }),
    }
}

/// Decodes a signed integer of type `ty`, in `min..=max`, as `Decode` does.
pub fn decode_signed(buf: &[u8], min: i128, max: i128, ty: IntType) -> (res: Result<i128, DecodeFailure>)
    requires
        0 < max,
        min == -max - 1,
    ensures
        match res {
            Ok(v) => spec_decode_int(buf@, min as int, max as int, ty) == Ok::<int, DecodeFailureView>(v as int),
            Err(e) => spec_decode_int(buf@, min as int, max as int, ty) == Err::<int, DecodeFailureView>(e@),
        },
        res matches Ok(v) ==> min <= v <= max,
{
    let (end, text) = number_prefix(buf, ty)?;
    match parse_signed(buf, end, min, max) {
        Ok(v) => Ok(v),
        Err(kind) => Err(DecodeFailure::Number { kind, ty, digits: ascii_text(buf, end), text }),
    }
}

pub proof fn lemma_decimal_bytes(n: nat)
    ensures
        decimal_bytes(n).len() >= 1,
        forall|i: int| 0 <= i < decimal_bytes(n).len() ==> is_digit(#[trigger] decimal_bytes(n)[i]),
        leading_digits(decimal_bytes(n)) == decimal_bytes(n).len(),
        digits_value(decimal_bytes(n)) == n,
    decreases n,
{
    let b = decimal_bytes(n);
    if n >= 10 {
        lemma_decimal_bytes(n / 10);
        assert(b.drop_last() =~= decimal_bytes(n / 10));
        assert(b.last() == (n % 10 + 0x30) as u8);
        assert(((n % 10 + 0x30) as u8) as int == n % 10 + 0x30);
        assert((n / 10) * 10 + n % 10 == n);
        assert(digits_value(b) == digits_value(b.drop_last()) * 10 + (b.last() - 0x30));
    } else {
        assert(b.drop_last() =~= Seq::<u8>::empty());
        assert(digits_value(b) == digits_value(b.drop_last()) * 10 + (b.last() - 0x30));
    }
    lemma_leading_digits_is(b, b.len() as int);
}

/// `from_str` reads back the decimal text of any value in the type's range.
pub proof fn lemma_parse_decimal(v: int, min: int, max: int)
    requires
        min <= 0 <= max,
        min <= v <= max,
    ensures
        spec_parse_int(signed_decimal_bytes(v), min, max) == Ok::<int, ParseIntError>(v),
{
    let b = signed_decimal_bytes(v);
    if v < 0 {
        let m = decimal_bytes((-v) as nat);
        lemma_decimal_bytes((-v) as nat);
        assert(b.skip(1) =~= m);
        assert(b[0] == 0x2d);
        assert(m.take(m.len() as int) =~= m);
    } else {
        let m = decimal_bytes(v as nat);
        lemma_decimal_bytes(v as nat);
        assert(is_digit(m[0]));
        assert(b.skip(0) =~= m);
        assert(m.take(m.len() as int) =~= m);
    }
}

/// The UTF-8 bytes of a decimal text are its digit bytes.
pub proof fn lemma_encode_decimal_text(v: int)
    ensures
        encode_utf8(decimal_text(v)) == signed_decimal_bytes(v),
{
    let b = signed_decimal_bytes(v);
    let t = decimal_text(v);
    let m = decimal_bytes(if v < 0 { (-v) as nat } else { v as nat });
    lemma_decimal_bytes(if v < 0 { (-v) as nat } else { v as nat });
    assert forall|i: int| 0 <= i < b.len() implies (#[trigger] b[i]) < 0x80 by {
        if v < 0 {
            if i > 0 {
                assert(b[i] == m[i - 1]);
            }
        } else {
            assert(b[i] == m[i]);
        }
    }
    assert(is_ascii_chars(t));
    is_ascii_chars_encode_utf8(t);
    assert(encode_utf8(t) =~= b);
}

/// A decimal text holds only digits and `-`: no separator of the protocol.
pub proof fn lemma_decimal_text_no_bar(v: int)
    ensures
        !decimal_text(v).contains('|'),
        !decimal_text(v).contains(' '),
{
    let b = signed_decimal_bytes(v);
    let t = decimal_text(v);
    let m = decimal_bytes(if v < 0 { (-v) as nat } else { v as nat });
    lemma_decimal_bytes(if v < 0 { (-v) as nat } else { v as nat });
    assert forall|i: int| 0 <= i < t.len() implies t[i] != '|' && t[i] != ' ' by {
        assert(t[i] == b[i] as char);
        if v < 0 {
            if i > 0 {
                assert(b[i] == m[i - 1]);
            }
        } else {
            assert(b[i] == m[i]);
        }
    }
}

/// `Decode` reads back the decimal text of any value in the type's range.
pub proof fn lemma_decode_decimal(v: int, min: int, max: int, ty: IntType)
    requires
        min <= 0 <= max,
        min <= v <= max,
    ensures
        spec_decode_int(encode_utf8(decimal_text(v)), min, max, ty) == Ok::<int, DecodeFailureView>(v),
{
    let b = signed_decimal_bytes(v);
    lemma_encode_decimal_text(v);
    encode_utf8_valid_utf8(decimal_text(v));
    lemma_parse_decimal(v, min, max);
    let m = decimal_bytes(if v < 0 { (-v) as nat } else { v as nat });
    lemma_decimal_bytes(if v < 0 { (-v) as nat } else { v as nat });
    if v < 0 {
        assert(b.skip(1) =~= m);
        assert(b[0] == 0x2d);
    } else {
        assert(is_digit(m[0]));
        assert(b.skip(0) =~= m);
    }
    assert(b.take(b.len() as int) =~= b);
}

/// `from_str` refuses the decimal text of a value outside the type's range `min..=max`:
/// above it the value overflows; below it, it underflows where the type is signed and
/// the `-` is a stray character where it is not.
pub proof fn lemma_parse_decimal_out_of_range(v: int, min: int, max: int)
    requires
        min <= 0 <= max,
        v < min || v > max,
    ensures
        spec_parse_int(signed_decimal_bytes(v), min, max) == (if v > max {
            Err::<int, ParseIntError>(ParseIntError::PosOverflow)
        } else if min < 0 {
            Err::<int, ParseIntError>(ParseIntError::NegOverflow)
        } else {
            Err::<int, ParseIntError>(ParseIntError::InvalidDigit)
        }),
{
    let b = signed_decimal_bytes(v);
    if v < 0 {
        let m = decimal_bytes((-v) as nat);
        lemma_decimal_bytes((-v) as nat);
        assert(b[0] == 0x2d);
        if min < 0 {
            assert(b.skip(1) =~= m);
            assert(m.take(m.len() as int) =~= m);
        } else {
            assert(b.skip(0) =~= b);
            assert(!is_digit(b[0]));
            assert(leading_digits(b) == 0);
            assert(b.take(0) =~= Seq::<u8>::empty());
        }
    } else {
        let m = decimal_bytes(v as nat);
        lemma_decimal_bytes(v as nat);
        assert(is_digit(m[0]));
        assert(b.skip(0) =~= m);
        assert(m.take(m.len() as int) =~= m);
    }
}

/// `Decode` refuses the decimal text of any value outside the type's range.
pub proof fn lemma_decode_decimal_out_of_range(v: int, min: int, max: int, ty: IntType)
    requires
        min <= 0 <= max,
        v < min || v > max,
    ensures
        spec_decode_int(encode_utf8(decimal_text(v)), min, max, ty) is Err,
{
    let b = signed_decimal_bytes(v);
    lemma_encode_decimal_text(v);
    encode_utf8_valid_utf8(decimal_text(v));
    lemma_parse_decimal_out_of_range(v, min, max);
    let m = decimal_bytes(if v < 0 { (-v) as nat } else { v as nat });
    lemma_decimal_bytes(if v < 0 { (-v) as nat } else { v as nat });
    if v < 0 {
        assert(b.skip(1) =~= m);
        assert(b[0] == 0x2d);
    } else {
        assert(is_digit(m[0]));
        assert(b.skip(0) =~= m);
    }
    assert(b.take(b.len() as int) =~= b);
}

/// Appends the decimal digits of `v`.
pub fn write_unsigned(v: u128, writer: &mut String)
    ensures
        final(writer)@ == old(writer)@ + decimal_bytes(v as nat).map_values(|b: u8| b as char),
    decreases v,
{
    let ghost start = writer@;
    if v >= 10 {
        write_unsigned(v / 10, writer);
    }
    let d: u8 = (v % 10) as u8 + 0x30;
    push_char(writer, d as char);
    proof {
        let n: nat = v as nat;
        if n >= 10 {
            let p = decimal_bytes(n / 10);
            assert(decimal_bytes(n) == p.push(d));
            assert(p.push(d).map_values(|b: u8| b as char) =~= p.map_values(|b: u8| b as char).push(d as char));
            assert(writer@ =~= start + decimal_bytes(n).map_values(|b: u8| b as char));
        } else {
            assert(decimal_bytes(n) == seq![d]);
            assert(seq![d].map_values(|b: u8| b as char) =~= seq![d as char]);
            assert(writer@ =~= start + decimal_bytes(n).map_values(|b: u8| b as char));
        }
    }
}

/// Appends the decimal text of `v`, as `Display` writes it.
pub fn write_signed(v: i128, writer: &mut String)
    ensures
        final(writer)@ == old(writer)@ + decimal_text(v as int),
{
    let ghost start = writer@;
    if v < 0 {
        push_char(writer, '-');
        let mag: u128 = if v == i128::MIN { (i128::MAX as u128) + 1 } else { (-v) as u128 };
        write_unsigned(mag, writer);
        proof {
            let m = decimal_bytes(mag as nat);
            assert((seq![0x2du8] + m).map_values(|b: u8| b as char) =~= seq!['-'] + m.map_values(|b: u8| b as char));
            assert(writer@ =~= start + decimal_text(v as int));
        }
    } else {
        write_unsigned(v as u128, writer);
    }
}

} // verus!
