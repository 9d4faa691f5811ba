use ts3::{Decode, Error};

#[test]
fn test_vec_decode() {
    let buf = b"test|test2";
    assert_eq!(
        Vec::<String>::decode(buf).unwrap(),
        vec!["test".to_owned(), "test2".to_owned()]
    );
}

#[test]
fn test_string_decode() {
    let buf = b"Hello\\sWorld!";
    assert_eq!(String::decode(buf).unwrap(), "Hello World!".to_owned());
}

#[test]
fn test_error_decode() {
    let buf = b"error id=0 msg=ok";
    let (id, msg) = match Error::decode(buf).unwrap() {
        Error::TS3 { id, msg } => (id, msg),
        _ => unreachable!(),
    };
    assert!(id == 0 && msg == "ok".to_owned());
}

use ts3::{DecodeError, DecodeFailure, IntType, ParseIntError, Serialize};

fn not_a_number(ty: IntType, text: &str) -> DecodeFailure {
    DecodeFailure::NotANumber { ty, text: text.to_owned() }
}

fn bad_number(kind: ParseIntError, ty: IntType, digits: &str, text: &str) -> DecodeFailure {
    DecodeFailure::Number { kind, ty, digits: digits.to_owned(), text: text.to_owned() }
}

fn serialized<S: Serialize>(v: S) -> String {
    let mut s = String::new();
    v.serialize(&mut s);
    s
}

#[test]
fn string_escapes_roundtrip() {
    let original = "a b|c\\d/e\u{7}\u{8}\u{c}\n\r\t\u{b}ü🥧";
    let escaped = serialized(original);
    assert_eq!(escaped, "a\\sb\\pc\\\\d\\/e\\a\\b\\f\\n\\r\\t\\vü🥧");
    assert!(!escaped.contains(' ') && !escaped.contains('|'));
    assert_eq!(String::decode(escaped.as_bytes()).unwrap(), original);
}

#[test]
fn string_decode_errors() {
    assert_eq!(
        String::decode(b"abc\\").unwrap_err(),
        DecodeFailure::Syntax(DecodeError::UnexpectedEof)
    );
    assert_eq!(
        String::decode(b"a\\qb").unwrap_err(),
        DecodeFailure::Syntax(DecodeError::UnexpectedByte(b'q'))
    );
    assert_eq!(
        String::decode(&[0xff, 0x41]).unwrap_err(),
        DecodeFailure::InvalidUtf8("invalid utf-8 sequence of 1 bytes from index 0".to_owned())
    );
    assert_eq!(
        String::decode(&[0x41, 0x42, 0xe2, 0x82]).unwrap_err(),
        DecodeFailure::InvalidUtf8("incomplete utf-8 byte sequence from index 2".to_owned())
    );
    assert_eq!(String::decode(b"").unwrap(), "");
}

#[test]
fn integers_decode_their_leading_number() {
    assert_eq!(u8::decode(b"12abc").unwrap(), 12);
    assert_eq!(u16::decode(b"+7").unwrap(), 7);
    assert_eq!(i8::decode(b"-128").unwrap(), -128);
    assert_eq!(i64::decode(b"-9223372036854775808").unwrap(), i64::MIN);
    assert_eq!(u128::decode(b"340282366920938463463374607431768211455").unwrap(), u128::MAX);
    assert_eq!(usize::decode(b"1\\n\\rerror").unwrap(), 1);
}

#[test]
fn integers_decode_errors() {
    assert_eq!(u8::decode(b"").unwrap_err(), bad_number(ParseIntError::Empty, IntType::U8, "", ""));
    assert_eq!(u8::decode(b"abc").unwrap_err(), not_a_number(IntType::U8, "abc"));
    assert_eq!(i32::decode(b"-").unwrap_err(), not_a_number(IntType::I32, "-"));
    assert_eq!(u64::decode(b" 1").unwrap_err(), not_a_number(IntType::U64, " 1"));
    assert_eq!(
        u8::decode(b"256").unwrap_err(),
        bad_number(ParseIntError::PosOverflow, IntType::U8, "256", "256")
    );
    assert_eq!(
        u8::decode(b"300x").unwrap_err(),
        bad_number(ParseIntError::PosOverflow, IntType::U8, "300", "300x")
    );
    assert_eq!(
        i8::decode(b"-129").unwrap_err(),
        bad_number(ParseIntError::NegOverflow, IntType::I8, "-129", "-129")
    );
    assert_eq!(
        u32::decode(b"-5 ok").unwrap_err(),
        bad_number(ParseIntError::InvalidDigit, IntType::U32, "-5", "-5 ok")
    );
    assert_eq!(
        u8::decode(&[0x31, 0xff]).unwrap_err(),
        DecodeFailure::InvalidUtf8("invalid utf-8 sequence of 1 bytes from index 1".to_owned())
    );
}

#[test]
fn integers_serialize_in_decimal_and_read_back() {
    assert_eq!(serialized(0u8), "0");
    assert_eq!(serialized(1234u32), "1234");
    assert_eq!(serialized(-45i16), "-45");
    assert_eq!(serialized(i128::MIN), "-170141183460469231731687303715884105728");
    for v in [i64::MIN, -1, 0, 7, i64::MAX] {
        assert_eq!(i64::decode(serialized(v).as_bytes()).unwrap(), v);
    }
}

#[test]
fn bool_codec() {
    assert_eq!(bool::decode(b"0").unwrap(), true);
    assert_eq!(bool::decode(b"1x").unwrap(), false);
    assert_eq!(bool::decode(b"2").unwrap_err(), DecodeFailure::Syntax(DecodeError::UnexpectedByte(b'2')));
    assert_eq!(bool::decode(b"").unwrap_err(), DecodeFailure::Syntax(DecodeError::UnexpectedEof));
    assert_eq!(serialized(false), "48");
    assert_eq!(serialized(true), "49");
}

#[test]
fn unit_decode_never_fails() {
    assert_eq!(<()>::decode(b"\\").unwrap(), ());
}

#[test]
fn vec_decode_errors_and_pieces() {
    assert_eq!(Vec::<u8>::decode(b"1|2|3").unwrap(), vec![1, 2, 3]);
    assert_eq!(Vec::<u8>::decode(b"1|x|300").unwrap_err(), not_a_number(IntType::U8, "x"));
    assert_eq!(Vec::<String>::decode(b"").unwrap(), vec!["".to_owned()]);
    assert_eq!(Vec::<String>::decode(b"a||b").unwrap(), vec!["a".to_owned(), "".to_owned(), "b".to_owned()]);
}

#[test]
fn string_list_roundtrip() {
    let items = ["one two", "x|y", ""];
    let joined: Vec<String> = items.iter().map(|s| serialized(*s)).collect();
    let line = joined.join("|");
    assert_eq!(Vec::<String>::decode(line.as_bytes()).unwrap(), items.to_vec());
}

#[test]
fn error_decode_cases() {
    let line = format!("error id={} msg={}", serialized(1024u16), serialized("invalid clientID"));
    match Error::decode(line.as_bytes()).unwrap() {
        Error::TS3 { id, msg } => {
            assert_eq!(id, 1024);
            assert_eq!(msg, "invalid clientID");
        }
        _ => unreachable!(),
    }
    assert_eq!(
        Error::decode(b"error id").unwrap_err(),
        DecodeFailure::Syntax(DecodeError::UnexpectedEof)
    );
    assert_eq!(Error::decode(b"error id=x").unwrap_err(), not_a_number(IntType::U16, "x"));
    match Error::decode(b"").unwrap_err() {
        DecodeFailure::Syntax(DecodeError::UnexpectedEof) => {}
        e => panic!("unexpected {:?}", e),
    }
}

#[test]
fn error_messages() {
    let e = Error::TS3 { id: 5, msg: "bad thing".to_owned() };
    assert_eq!(e.to_string(), "TS3 Error 5: bad thing");
    assert_eq!(Error::SendError.to_string(), "Failed to send command, channel closed");
    assert_eq!(
        Error::Decode(DecodeFailure::Syntax(DecodeError::UnexpectedByte(7))).to_string(),
        "Error decoding value: Unexpected byte decoding: 7"
    );
    assert_eq!(
        Error::Decode(not_a_number(IntType::U8, "abc")).to_string(),
        "Error decoding value: Invalid numeric string for type <u8>: 'abc'"
    );
    assert_eq!(
        u8::decode(b"300x").unwrap_err().to_string(),
        "Failed to parse '300' as <u8>: number too large to fit in target type. Original buffer slice: '300x'"
    );
    assert_eq!(
        isize::decode(b"").unwrap_err().to_string(),
        "Failed to parse '' as <isize>: cannot parse integer from empty string. Original buffer slice: ''"
    );
    assert_eq!(
        String::decode(&[0x61, 0xc3]).unwrap_err().to_string(),
        "incomplete utf-8 byte sequence from index 1"
    );
    assert_eq!(DecodeError::UnexpectedChar('x').to_string(), "Unexpected char decoding: x");
    assert_eq!(DecodeError::UnexpectedEof.to_string(), "Unexpected end while decoding");
    let io = Error::from(std::io::Error::new(std::io::ErrorKind::Other, "boom"));
    assert_eq!(io.to_string(), "Io Error: boom");
}
