//! Query-protocol codec for the TeamSpeak 3 server query interface: escaping and
//! unescaping of values, decoding of responses and events, and building of commands.
pub mod client;
pub mod codec;
pub mod command;
pub mod error;
pub mod escape;
pub mod event;
pub mod list;
pub mod number;
pub mod split;
mod text;

pub use client::ClientInfo;
pub use codec::{Decode, Serialize};
pub use command::CommandBuilder;
pub use event::{ClientLeftView, EventKind, RawResp, ReasonID, TextMessage};
pub use list::{FieldValue, FromText, List, ToText};
pub use error::{DecodeError, DecodeFailure, Error, IntType, ParseError, ParseIntError};
