//! The errors of the codec.
use vstd::prelude::*;
use crate::number::write_unsigned;
use crate::text::{io_error_text, push_char, push_str};

verus! {

/// A textual value names no variant of the enum it was parsed into.
#[derive(Clone, Copy, Debug, PartialEq, Eq, Structural)]
pub enum ParseError {
    InvalidEnum,
}

/// A byte-level syntax error in an escaped query value.
#[derive(Clone, Copy, Debug, PartialEq, Eq, Structural)]
pub enum DecodeError {
    UnexpectedEof,
    UnexpectedChar(char),
    UnexpectedByte(u8),
}

/// Why an integer could not be read from a string, as std's `IntErrorKind` tells it.
#[derive(Clone, Copy, Debug, PartialEq, Eq, Structural)]
pub enum ParseIntError {
    Empty,
    InvalidDigit,
    PosOverflow,
    NegOverflow,
}

/// The integer types that the codec reads.
#[derive(Clone, Copy, Debug, PartialEq, Eq, Structural)]
pub enum IntType {
    I8,
    I16,
    I32,
    I64,
    I128,
    Isize,
    U8,
    U16,
    U32,
    U64,
    U128,
    Usize,
}

/// Why a value could not be decoded from the bytes of a server response.
#[derive(Clone, Debug, PartialEq, Eq)]
pub enum DecodeFailure {
    /// An escape sequence was cut short or unknown.
    Syntax(DecodeError),
    /// The bytes are not valid UTF-8; the text is std's description of where they stop being so.
    InvalidUtf8(String),
    /// No digits where a number of type `ty` was expected in `text`.
    NotANumber { ty: IntType, text: String },
    /// The sign and digits `digits` at the start of `text` do not form a number of type `ty`.
    Number { kind: ParseIntError, ty: IntType, digits: String, text: String },
}

/// What a `DecodeFailure` holds, with its texts as characters.
pub enum DecodeFailureView {
    Syntax(DecodeError),
    InvalidUtf8(Seq<char>),
    NotANumber { ty: IntType, text: Seq<char> },
    Number { kind: ParseIntError, ty: IntType, digits: Seq<char>, text: Seq<char> },
}

impl View for DecodeFailure {
    type V = DecodeFailureView;

    open spec fn view(&self) -> DecodeFailureView {
        match self {
            DecodeFailure::Syntax(e) => DecodeFailureView::Syntax(*e),
            DecodeFailure::InvalidUtf8(t) => DecodeFailureView::InvalidUtf8(t@),
            DecodeFailure::NotANumber { ty, text } => DecodeFailureView::NotANumber { ty: *ty, text: text@ },
            DecodeFailure::Number { kind, ty, digits, text } => DecodeFailureView::Number {
                kind: *kind,
                ty: *ty,
                digits: digits@,
                text: text@,
            },
        }
    }
}

impl IntType {
    /// The type's name, as Rust writes it.
    pub open spec fn spec_name(&self) -> Seq<char> {
        match self {
            IntType::I8 => "i8"@,
            IntType::I16 => "i16"@,
            IntType::I32 => "i32"@,
            IntType::I64 => "i64"@,
            IntType::I128 => "i128"@,
            IntType::Isize => "isize"@,
            IntType::U8 => "u8"@,
            IntType::U16 => "u16"@,
            IntType::U32 => "u32"@,
            IntType::U64 => "u64"@,
            IntType::U128 => "u128"@,
            IntType::Usize => "usize"@,
        }
    }

    /// The type's name, as Rust writes it.
    pub fn name(&self) -> (res: &'static str)
        ensures
            res@ == self.spec_name(),
    {
        match self {
            IntType::I8 => "i8",
            IntType::I16 => "i16",
            IntType::I32 => "i32",
            IntType::I64 => "i64",
            IntType::I128 => "i128",
            IntType::Isize => "isize",
            IntType::U8 => "u8",
            IntType::U16 => "u16",
            IntType::U32 => "u32",
            IntType::U64 => "u64",
            IntType::U128 => "u128",
            IntType::Usize => "usize",
        }
    }
}

impl DecodeError {
    /// The text that `Display` writes for the error.
    pub open spec fn spec_message(&self) -> Seq<char> {
        match self {
            DecodeError::UnexpectedEof => "Unexpected end while decoding"@,
            DecodeError::UnexpectedChar(c) => "Unexpected char decoding: "@.push(*c),
            DecodeError::UnexpectedByte(b) => "Unexpected byte decoding: "@ + crate::number::decimal_text(*b as int),
        }
    }

    /// Writes the error's message.
    pub fn to_string(&self) -> (res: String)
        ensures
            res@ == self.spec_message(),
    {
        match self {
            DecodeError::UnexpectedEof => "Unexpected end while decoding".to_owned(),
            DecodeError::UnexpectedChar(c) => {
                let mut s = "Unexpected char decoding: ".to_owned();
                push_char(&mut s, *c);
                s
            },
            DecodeError::UnexpectedByte(b) => {
                let mut s = "Unexpected byte decoding: ".to_owned();
                write_unsigned(*b as u128, &mut s);
                s
            },
        }
    }
}

impl ParseIntError {
    /// The text that std's `Display` writes for the error of this kind.
    pub open spec fn spec_message(&self) -> Seq<char> {
        match self {
            ParseIntError::Empty => "cannot parse integer from empty string"@,
            ParseIntError::InvalidDigit => "invalid digit found in string"@,
            ParseIntError::PosOverflow => "number too large to fit in target type"@,
            ParseIntError::NegOverflow => "number too small to fit in target type"@,
        }
    }

    /// Writes the error's message.
    pub fn to_string(&self) -> (res: String)
        ensures
            res@ == self.spec_message(),
    {
        match self {
            ParseIntError::Empty => "cannot parse integer from empty string".to_owned(),
            ParseIntError::InvalidDigit => "invalid digit found in string".to_owned(),
            ParseIntError::PosOverflow => "number too large to fit in target type".to_owned(),
            ParseIntError::NegOverflow => "number too small to fit in target type".to_owned(),
        }
    }
}

impl DecodeFailureView {
    /// The failure's message.
    pub open spec fn spec_message(&self) -> Seq<char> {
        match self {
            DecodeFailureView::Syntax(e) => e.spec_message(),
            DecodeFailureView::InvalidUtf8(t) => *t,
            DecodeFailureView::NotANumber { ty, text } => "Invalid numeric string for type <"@
                + ty.spec_name() + ">: '"@ + *text + "'"@,
            DecodeFailureView::Number { kind, ty, digits, text } => "Failed to parse '"@ + *digits
                + "' as <"@ + ty.spec_name() + ">: "@ + kind.spec_message()
                + ". Original buffer slice: '"@ + *text + "'"@,
        }
    }
}

impl DecodeFailure {
    /// Writes the failure's message.
    pub fn to_string(&self) -> (res: String)
        ensures
            res@ == self@.spec_message(),
    {
        match self {
            DecodeFailure::Syntax(e) => e.to_string(),
            DecodeFailure::InvalidUtf8(t) => t.clone(),
            DecodeFailure::NotANumber { ty, text } => {
                let mut s = "Invalid numeric string for type <".to_owned();
                push_str(&mut s, ty.name());
                push_str(&mut s, ">: '");
                push_str(&mut s, text.as_str());
                push_str(&mut s, "'");
                s
            },
            DecodeFailure::Number { kind, ty, digits, text } => {
                let mut s = "Failed to parse '".to_owned();
                push_str(&mut s, digits.as_str());
                push_str(&mut s, "' as <");
                push_str(&mut s, ty.name());
                push_str(&mut s, ">: ");
                let k = kind.to_string();
                push_str(&mut s, k.as_str());
                push_str(&mut s, ". Original buffer slice: '");
                push_str(&mut s, text.as_str());
                push_str(&mut s, "'");
                s
            },
        }
    }
}

/// std's I/O error, carried through as it is.
#[verifier::external_type_specification]
#[verifier::external_body]
pub struct ExIoError(std::io::Error);

/// An error of the query interface.
#[derive(Debug)]
pub enum Error {
    /// Error returned from the ts3 interface. id of 0 indicates no error.
    TS3 { id: u16, msg: String },
    /// Io error from the underlying tcp stream.
    Io(std::io::Error),
    /// Error occured while decoding the server response.
    Decode(DecodeFailure),
    SendError,
}

/// What an `Error` holds, with its message as characters.
pub enum ErrorView {
    TS3 { id: u16, msg: Seq<char> },
    Io,
    Decode(DecodeFailureView),
    SendError,
}

impl DeepView for Error {
    type V = ErrorView;

    open spec fn deep_view(&self) -> ErrorView {
        match self {
            Error::TS3 { id, msg } => ErrorView::TS3 { id: *id, msg: msg@ },
            Error::Io(_) => ErrorView::Io,
            Error::Decode(e) => ErrorView::Decode(e@),
            Error::SendError => ErrorView::SendError,
        }
    }
}

impl Error {
    /// Writes the error's message, as `Display` does; for an I/O error, what follows the
    /// prefix is std's own text.
    pub fn to_string(&self) -> (res: String)
        ensures
            match self.deep_view() {
                ErrorView::TS3 { id, msg } => res@ == "TS3 Error "@ + crate::number::decimal_text(id as int) + ": "@ + msg,
                ErrorView::Io => res@.take(10) == "Io Error: "@,
                ErrorView::Decode(e) => res@ == "Error decoding value: "@ + e.spec_message(),
                ErrorView::SendError => res@ == "Failed to send command, channel closed"@,
            },
    {
        match self {
            Error::TS3 { id, msg } => {
                let mut s = "TS3 Error ".to_owned();
                write_unsigned(*id as u128, &mut s);
                push_str(&mut s, ": ");
                push_str(&mut s, msg.as_str());
                s
            },
            Error::Io(err) => {
                let mut s = "Io Error: ".to_owned();
                let t = io_error_text(err);
                let ghost prefix = s@;
                push_str(&mut s, t.as_str());
                proof {
                    reveal_strlit("Io Error: ");
                    assert(s@.take(10) =~= prefix);
                }
                s
            },
            Error::Decode(err) => {
                let mut s = "Error decoding value: ".to_owned();
                let t = err.to_string();
                push_str(&mut s, t.as_str());
                s
            },
            Error::SendError => "Failed to send command, channel closed".to_owned(),
        }
    }
}

impl From<std::io::Error> for Error {
    fn from(err: std::io::Error) -> (res: Error) {
        Error::Io(err)
    }
}

impl vstd::std_specs::convert::FromSpecImpl<std::io::Error> for Error {
    open spec fn obeys_from_spec() -> bool {
        true
    }

    open spec fn from_spec(v: std::io::Error) -> Error {
        Error::Io(v)
    }
}

} // verus!
