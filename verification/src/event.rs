//! Events that the server sends, and the decisions about where they go.
use vstd::prelude::*;
use crate::codec::Decode;
use crate::error::{DecodeFailure, DecodeFailureView, ParseError};
use crate::list::{FieldValue, FromText};
use crate::split::{bytes_eq, split_bytes, split_chars, split_key_value, split_key_value_str, str_eq};
use crate::text::str_from_utf8;

verus! {

/// Defines a reason why an event happened. Used in multiple event types.
#[derive(Clone, Copy, Debug, PartialEq, Eq, Structural)]
pub enum ReasonID {
    /// Switched channel themselves or joined server
    SwitchChannel,
    // Moved by another client or channel
    Moved,
    // Left server because of timeout (disconnect)
    Timeout,
    // Kicked from channel
    ChannelKick,
    // Kicked from server
    ServerKick,
    // Banned from server
    Ban,
    // Left server themselves
    ServerLeave,
    // Edited channel or server
    Edited,
    // Left server due shutdown
    ServerShutdown,
}

/// The reason with the given number, in the order of the variants.
pub open spec fn reason_of_index(n: int) -> ReasonID {
    if n == 0 {
        ReasonID::SwitchChannel
    } else if n == 1 {
        ReasonID::Moved
    } else if n == 2 {
        ReasonID::Timeout
    } else if n == 3 {
        ReasonID::ChannelKick
    } else if n == 4 {
        ReasonID::ServerKick
    } else if n == 5 {
        ReasonID::Ban
    } else if n == 6 {
        ReasonID::ServerLeave
    } else if n == 7 {
        ReasonID::Edited
    } else {
        ReasonID::ServerShutdown
    }
}

/// Whether decoding a reason from `buf` stays clear of a number past the last variant,
/// on which it panics.
pub open spec fn reason_decodable(buf: Seq<u8>) -> bool {
    <u8 as Decode<u8>>::spec_decode(buf) matches Ok(n) ==> n <= 8
}

/// What `ReasonID::decode` gives: the variant whose number the bytes hold as a `u8`.
pub open spec fn spec_decode_reason(buf: Seq<u8>) -> Result<ReasonID, DecodeFailureView> {
    match <u8 as Decode<u8>>::spec_decode(buf) {
        Ok(n) => Ok(reason_of_index(n as int)),
        Err(e) => Err(e),
    }
}

/// The reason that a text names, as `FromStr` reads it (its numbering differs from the
/// decoder's).
pub open spec fn spec_reason_from_text(s: Seq<char>) -> Result<ReasonID, ParseError> {
    if s == "0"@ {
        Ok(ReasonID::SwitchChannel)
    } else if s == "1"@ {
        Ok(ReasonID::Moved)
    } else if s == "3"@ {
        Ok(ReasonID::Timeout)
    } else if s == "4"@ {
        Ok(ReasonID::ChannelKick)
    } else if s == "5"@ {
        Ok(ReasonID::ServerKick)
    } else if s == "6"@ {
        Ok(ReasonID::Ban)
    } else if s == "8"@ {
        Ok(ReasonID::ServerLeave)
    } else if s == "10"@ {
        Ok(ReasonID::Edited)
    } else if s == "11"@ {
        Ok(ReasonID::ServerShutdown)
    } else {
        Err(ParseError::InvalidEnum)
    }
}

impl ReasonID {
    /// Whether `decode` returns on `buf` rather than panicking.
    pub fn decodable(buf: &[u8]) -> (res: bool)
        ensures
            res == reason_decodable(buf@),
    {
        match u8::decode(buf) {
            Ok(n) => n <= 8,
            Err(_) => true,
        }
    }

    /// Decodes the reason numbered by a `u8`.
    pub fn decode(buf: &[u8]) -> (res: Result<ReasonID, DecodeFailure>)
        requires
            reason_decodable(buf@),
        ensures
            match res {
                Ok(r) => spec_decode_reason(buf@) == Ok::<ReasonID, DecodeFailureView>(r),
                Err(e) => spec_decode_reason(buf@) == Err::<ReasonID, DecodeFailureView>(e@),
            },
    {
        let n: u8 = u8::decode(buf)?;
        let r = if n == 0 {
            ReasonID::SwitchChannel
        } else if n == 1 {
            ReasonID::Moved
        } else if n == 2 {
            ReasonID::Timeout
        } else if n == 3 {
            ReasonID::ChannelKick
        } else if n == 4 {
            ReasonID::ServerKick
        } else if n == 5 {
            ReasonID::Ban
        } else if n == 6 {
            ReasonID::ServerLeave
        } else if n == 7 {
            ReasonID::Edited
        } else {
            ReasonID::ServerShutdown
        };
        Ok(r)
    }
}

/// `ReasonID::decode` numbers the reasons in the order they are declared: the decimal text of
/// `n` in `0..=8` decodes (without panicking) to the `n`-th of `SwitchChannel`, `Moved`,
/// `Timeout`, `ChannelKick`, `ServerKick`, `Ban`, `ServerLeave`, `Edited`, `ServerShutdown`.
pub proof fn lemma_reason_decode_numbers(n: int)
    requires
        0 <= n <= 8,
    ensures
        reason_decodable(vstd::utf8::encode_utf8(crate::number::decimal_text(n))),
        spec_decode_reason(vstd::utf8::encode_utf8(crate::number::decimal_text(n)))
            == Ok::<ReasonID, DecodeFailureView>(seq![ReasonID::SwitchChannel, ReasonID::Moved, ReasonID::Timeout, ReasonID::ChannelKick, ReasonID::ServerKick, ReasonID::Ban, ReasonID::ServerLeave, ReasonID::Edited, ReasonID::ServerShutdown][n]),
{
    crate::codec::lemma_u8_decode_decimal(n);
    let r = seq![ReasonID::SwitchChannel, ReasonID::Moved, ReasonID::Timeout, ReasonID::ChannelKick, ReasonID::ServerKick, ReasonID::Ban, ReasonID::ServerLeave, ReasonID::Edited, ReasonID::ServerShutdown];
    assert(reason_of_index(n) == r[n]) by {
        if n == 0 {} else if n == 1 {} else if n == 2 {} else if n == 3 {} else if n == 4 {
        } else if n == 5 {} else if n == 6 {} else if n == 7 {} else {}
    }
}

/// Reading a reason from text follows the server's own numbering, which skips some numbers:
/// the `i`-th reason in declaration order is read from the decimal text of the `i`-th of
/// `0, 1, 3, 4, 5, 6, 8, 10, 11`.
pub proof fn lemma_reason_text_numbers(i: int)
    requires
        0 <= i < 9,
    ensures
        spec_reason_from_text(crate::number::decimal_text(seq![0int, 1, 3, 4, 5, 6, 8, 10, 11][i]))
            == Ok::<ReasonID, ParseError>(seq![ReasonID::SwitchChannel, ReasonID::Moved, ReasonID::Timeout, ReasonID::ChannelKick, ReasonID::ServerKick, ReasonID::Ban, ReasonID::ServerLeave, ReasonID::Edited, ReasonID::ServerShutdown][i]),
{
    let nums = seq![0int, 1, 3, 4, 5, 6, 8, 10, 11];
    let r = seq![ReasonID::SwitchChannel, ReasonID::Moved, ReasonID::Timeout, ReasonID::ChannelKick, ReasonID::ServerKick, ReasonID::Ban, ReasonID::ServerLeave, ReasonID::Edited, ReasonID::ServerShutdown];
    let n = nums[i];
    reveal_strlit("0");
    reveal_strlit("1");
    reveal_strlit("3");
    reveal_strlit("4");
    reveal_strlit("5");
    reveal_strlit("6");
    reveal_strlit("8");
    reveal_strlit("10");
    reveal_strlit("11");
    let t = crate::number::decimal_text(n);
    if n < 10 {
        assert(crate::number::decimal_bytes(n as nat) == seq![(n + 0x30) as u8]);
        assert(t =~= seq![((n + 0x30) as u8) as char]);
    } else {
        assert(crate::number::decimal_bytes(1) == seq![0x31u8]);
        assert(crate::number::decimal_bytes(n as nat) == crate::number::decimal_bytes(1).push((n % 10 + 0x30) as u8));
        assert(t =~= seq!['1', ((n % 10 + 0x30) as u8) as char]);
    }
    if i == 0 {
        assert(t =~= "0"@);
    } else if i == 1 {
        assert(t =~= "1"@);
        assert(t[0] != "0"@[0]);
    } else if i == 2 {
        assert(t =~= "3"@);
        assert(t[0] != "0"@[0]);
        assert(t[0] != "1"@[0]);
    } else if i == 3 {
        assert(t =~= "4"@);
        assert(t[0] != "0"@[0]);
        assert(t[0] != "1"@[0]);
        assert(t[0] != "3"@[0]);
    } else if i == 4 {
        assert(t =~= "5"@);
        assert(t[0] != "0"@[0]);
        assert(t[0] != "1"@[0]);
        assert(t[0] != "3"@[0]);
        assert(t[0] != "4"@[0]);
    } else if i == 5 {
        assert(t =~= "6"@);
        assert(t[0] != "0"@[0]);
        assert(t[0] != "1"@[0]);
        assert(t[0] != "3"@[0]);
        assert(t[0] != "4"@[0]);
        assert(t[0] != "5"@[0]);
    } else if i == 6 {
        assert(t =~= "8"@);
        assert(t[0] != "0"@[0]);
        assert(t[0] != "1"@[0]);
        assert(t[0] != "3"@[0]);
        assert(t[0] != "4"@[0]);
        assert(t[0] != "5"@[0]);
        assert(t[0] != "6"@[0]);
    } else if i == 7 {
        assert(t =~= "10"@);
        assert(t.len() != "0"@.len());
        assert(t.len() != "1"@.len());
        assert(t.len() != "3"@.len());
        assert(t.len() != "4"@.len());
        assert(t.len() != "5"@.len());
        assert(t.len() != "6"@.len());
        assert(t.len() != "8"@.len());
    } else {
        assert(t =~= "11"@);
        assert(t.len() != "0"@.len());
        assert(t.len() != "1"@.len());
        assert(t.len() != "3"@.len());
        assert(t.len() != "4"@.len());
        assert(t.len() != "5"@.len());
        assert(t.len() != "6"@.len());
        assert(t.len() != "8"@.len());
        assert(t[1] != "10"@[1]);
    }
}

impl Default for ReasonID {
    fn default() -> (res: ReasonID)
        ensures
            res == ReasonID::SwitchChannel,
    {
        ReasonID::SwitchChannel
    }
}

impl DeepView for ReasonID {
    type V = ReasonID;

    open spec fn deep_view(&self) -> ReasonID {
        *self
    }
}

impl FromText for ReasonID {
    type Err = ParseError;

    open spec fn spec_from_text(s: Seq<char>) -> Result<ReasonID, ParseError> {
        spec_reason_from_text(s)
    }

    fn from_text(s: &str) -> (res: Result<ReasonID, ParseError>) {
        if str_eq(s, "0") {
            Ok(ReasonID::SwitchChannel)
        } else if str_eq(s, "1") {
            Ok(ReasonID::Moved)
        } else if str_eq(s, "3") {
            Ok(ReasonID::Timeout)
        } else if str_eq(s, "4") {
            Ok(ReasonID::ChannelKick)
        } else if str_eq(s, "5") {
            Ok(ReasonID::ServerKick)
        } else if str_eq(s, "6") {
            Ok(ReasonID::Ban)
        } else if str_eq(s, "8") {
            Ok(ReasonID::ServerLeave)
        } else if str_eq(s, "10") {
            Ok(ReasonID::Edited)
        } else if str_eq(s, "11") {
            Ok(ReasonID::ServerShutdown)
        } else {
            Err(ParseError::InvalidEnum)
        }
    }
}

impl std::str::FromStr for ReasonID {
    type Err = ParseError;

    fn from_str(s: &str) -> (res: Result<ReasonID, ParseError>)
        ensures
            res == spec_reason_from_text(s@),
    {
        ReasonID::from_text(s)
    }
}

/// One `key=value` pair of a raw response: the key, and the value where there is a `=`.
pub type RawPair = (String, Option<String>);

/// The view of a pair.
pub type RawPairView = (Seq<char>, Option<Seq<char>>);

/// A response as the server sent it: its `|`-separated entries, each a list of pairs.
#[derive(Clone, Debug)]
pub struct RawResp {
    pub items: Vec<Vec<RawPair>>,
}

impl DeepView for RawResp {
    type V = Seq<Seq<RawPairView>>;

    open spec fn deep_view(&self) -> Seq<Seq<RawPairView>> {
        self.items.deep_view()
    }
}

/// What decoding one pair gives: the key and any value are unescaped.
pub open spec fn spec_decode_pair(s: Seq<u8>) -> Result<RawPairView, DecodeFailureView> {
    match crate::escape::spec_decode_string(crate::split::key_of(s, 0x3du8)) {
        Err(e) => Err(e),
        Ok(k) => if crate::split::has_value(s, 0x3du8) {
            match crate::escape::spec_decode_string(crate::split::value_of(s, 0x3du8)) {
                Ok(v) => Ok((k, Some(v))),
                Err(e) => Err(e),
            }
        } else {
            Ok((k, None))
        },
    }
}

impl Decode<RawPair> for RawPair {
    open spec fn spec_decode(buf: Seq<u8>) -> Result<RawPairView, DecodeFailureView> {
        spec_decode_pair(buf)
    }

    fn decode(buf: &[u8]) -> (res: Result<RawPair, DecodeFailure>) {
        let (key, value) = split_key_value(buf, 0x3d);
        let k = String::decode(key.as_slice())?;
        match value {
            Some(v) => {
                let v = String::decode(v.as_slice())?;
                Ok((k, Some(v)))
            },
            None => Ok((k, None)),
        }
    }
}

/// What decoding one entry gives: its ` `-separated pairs, the first failing pair deciding
/// the error.
pub open spec fn spec_decode_entry(e: Seq<u8>) -> Result<Seq<RawPairView>, DecodeFailureView> {
    crate::codec::decode_each::<RawPair>(crate::split::split_on(e, 0x20u8))
}

/// Decodes one entry of a raw response.
fn decode_entry(e: &[u8]) -> (res: Result<Vec<RawPair>, DecodeFailure>)
    ensures
        match res {
            Ok(v) => spec_decode_entry(e@) == Ok::<Seq<RawPairView>, DecodeFailureView>(v.deep_view()),
            Err(err) => spec_decode_entry(e@) == Err::<Seq<RawPairView>, DecodeFailureView>(err@),
        },
{
    let parts = split_bytes(e, 0x20);
    let ghost ps = crate::split::split_on(e@, 0x20u8);
    let mut list: Vec<RawPair> = Vec::new();
    let mut i: usize = 0;
    proof {
        assert(ps.take(0) =~= Seq::<Seq<u8>>::empty());
        assert(list.deep_view() =~= Seq::<RawPairView>::empty());
    }
    while i < parts.len()
        invariant
            i <= parts@.len(),
            parts@.len() == ps.len(),
            ps == crate::split::split_on(e@, 0x20u8),
            forall|k: int| 0 <= k < parts@.len() ==> #[trigger] parts@[k]@ == ps[k],
            crate::codec::decode_each::<RawPair>(ps.take(i as int)) == Ok::<Seq<RawPairView>, DecodeFailureView>(list.deep_view()),
        decreases parts@.len() - i,
    {
        proof {
            assert(ps.take(i + 1).drop_last() =~= ps.take(i as int));
            assert(ps.take(i + 1).last() == ps[i as int]);
        }
        match RawPair::decode(parts[i].as_slice()) {
            Ok(v) => {
                let ghost before = list.deep_view();
                list.push(v);
                proof {
                    assert(list.deep_view() =~= before.push(v.deep_view()));
                }
            },
            Err(err) => {
                proof {
                    crate::codec::lemma_decode_each_prefix_err::<RawPair>(ps, i as int + 1);
                }
                return Err(err);
            },
        }
        i = i + 1;
    }
    proof {
        assert(ps.take(i as int) =~= ps);
    }
    Ok(list)
}

/// Decodes each entry in turn; the first that fails decides the error.
pub open spec fn decode_entries(parts: Seq<Seq<u8>>) -> Result<Seq<Seq<RawPairView>>, DecodeFailureView>
    decreases parts.len(),
{
    if parts.len() == 0 {
        Ok(Seq::empty())
    } else {
        match decode_entries(parts.drop_last()) {
            Err(e) => Err(e),
            Ok(vs) => match spec_decode_entry(parts.last()) {
                Ok(v) => Ok(vs.push(v)),
                Err(e) => Err(e),
            },
        }
    }
}

proof fn lemma_decode_entries_prefix_err(ps: Seq<Seq<u8>>, n: int)
    requires
        0 <= n <= ps.len(),
        decode_entries(ps.take(n)) is Err,
    ensures
        decode_entries(ps) == decode_entries(ps.take(n)),
    decreases ps.len() - n,
{
    if n < ps.len() {
        assert(ps.take(n + 1).drop_last() =~= ps.take(n));
        lemma_decode_entries_prefix_err(ps, n + 1);
    } else {
        assert(ps.take(n) =~= ps);
    }
}

/// A raw response: entries separated by `|`, pairs by ` `.
impl Decode<RawResp> for RawResp {
    open spec fn spec_decode(buf: Seq<u8>) -> Result<Seq<Seq<RawPairView>>, DecodeFailureView> {
        decode_entries(crate::split::split_on(buf, 0x7cu8))
    }

    fn decode(buf: &[u8]) -> (res: Result<RawResp, DecodeFailure>) {
        let parts = split_bytes(buf, 0x7c);
        let ghost ps = crate::split::split_on(buf@, 0x7cu8);
        let mut items: Vec<Vec<RawPair>> = Vec::new();
        let mut i: usize = 0;
        proof {
            assert(ps.take(0) =~= Seq::<Seq<u8>>::empty());
            assert(items.deep_view() =~= Seq::<Seq<RawPairView>>::empty());
        }
        while i < parts.len()
            invariant
                i <= parts@.len(),
                parts@.len() == ps.len(),
                ps == crate::split::split_on(buf@, 0x7cu8),
                forall|k: int| 0 <= k < parts@.len() ==> #[trigger] parts@[k]@ == ps[k],
                decode_entries(ps.take(i as int)) == Ok::<Seq<Seq<RawPairView>>, DecodeFailureView>(items.deep_view()),
            decreases parts@.len() - i,
        {
            proof {
                assert(ps.take(i + 1).drop_last() =~= ps.take(i as int));
                assert(ps.take(i + 1).last() == ps[i as int]);
            }
            match decode_entry(parts[i].as_slice()) {
                Ok(v) => {
                    let ghost before = items.deep_view();
                    items.push(v);
                    proof {
                        assert(items.deep_view() =~= before.push(v.deep_view()));
                    }
                },
                Err(err) => {
                    proof {
                        lemma_decode_entries_prefix_err(ps, i as int + 1);
                    }
                    return Err(err);
                },
            }
            i = i + 1;
        }
        proof {
            assert(ps.take(i as int) =~= ps);
        }
        Ok(RawResp { items })
    }
}

/// The value of the last pair with the given key, as a map that took the pairs in order
/// holds it.
pub open spec fn lookup(pairs: Seq<RawPairView>, name: Seq<char>) -> Option<Option<Seq<char>>>
    decreases pairs.len(),
{
    if pairs.len() == 0 {
        None
    } else if pairs.last().0 == name {
        Some(pairs.last().1)
    } else {
        lookup(pairs.drop_last(), name)
    }
}

/// Looking a key up in the pairs of an entry behaves as a map that took the pairs in order:
/// nothing is found in no pairs, the pair added last answers for its own key, and it leaves
/// the answer for every other key as it was.
pub proof fn lemma_lookup_insert(pairs: Seq<RawPairView>, key: Seq<char>, value: Option<Seq<char>>, other: Seq<char>)
    requires
        other != key,
    ensures
        lookup(Seq::empty(), key) is None,
        lookup(pairs.push((key, value)), key) == Some(value),
        lookup(pairs.push((key, value)), other) == lookup(pairs, other),
{
    assert(pairs.push((key, value)).drop_last() =~= pairs);
}

/// Finds the last pair with the given key.
fn find_pair(pairs: &Vec<RawPair>, name: &str) -> (res: Option<usize>)
    ensures
        match res {
            Some(i) => i < pairs@.len() && lookup(pairs.deep_view(), name@) == Some(pairs.deep_view()[i as int].1),
            None => lookup(pairs.deep_view(), name@) is None,
        },
{
    let ghost ps = pairs.deep_view();
    let mut i: usize = pairs.len();
    proof {
        assert(ps.take(i as int) =~= ps);
    }
    while i > 0
        invariant
            i <= pairs@.len(),
            ps == pairs.deep_view(),
            lookup(ps, name@) == lookup(ps.take(i as int), name@),
        decreases i,
    {
        let ghost t = ps.take(i as int);
        i = i - 1;
        proof {
            assert(t.drop_last() =~= ps.take(i as int));
            assert(t.last() == ps[i as int]);
            assert(ps[i as int].0 == pairs@[i as int].0@);
        }
        if str_eq(pairs[i].0.as_str(), name) {
            return Some(i);
        }
    }
    proof {
        assert(ps.take(0) =~= Seq::<RawPairView>::empty());
    }
    None
}

/// What `get_field` gives: the named field of the first entry read as `T`, or `T`'s
/// fallback where there is no entry, no such field, no value, or the value does not read.
pub open spec fn spec_get_field<T: FieldValue>(raw: Seq<Seq<RawPairView>>, name: Seq<char>) -> T::V {
    if raw.len() == 0 {
        T::spec_default()
    } else {
        match lookup(raw[0], name) {
            Some(Some(v)) => match T::spec_from_text(v) {
                Ok(x) => x,
                Err(_) => T::spec_default(),
            },
            _ => T::spec_default(),
        }
    }
}

/// Reads a field of the first entry of a raw response, falling back on `T`'s default.
pub fn get_field<T: FieldValue>(raw: &RawResp, name: &str) -> (res: T)
    ensures
        res.deep_view() == spec_get_field::<T>(raw.deep_view(), name@),
{
    if raw.items.len() == 0 {
        return T::default_value();
    }
    let first = &raw.items[0];
    proof {
        assert(raw.deep_view()[0] == first.deep_view());
    }
    match find_pair(first, name) {
        Some(i) => match &first[i].1 {
            Some(val) => match T::from_text(val.as_str()) {
                Ok(v) => v,
                Err(_) => T::default_value(),
            },
            None => T::default_value(),
        },
        None => T::default_value(),
    }
}

/// Returned from a "textmessage" event
#[derive(Debug, Default)]
pub struct TextMessage {
    pub targetmode: usize,
    pub msg: String,
    pub target: usize,
    pub invokerid: usize,
    pub invokername: String,
    pub invokeruid: String,
}

impl Clone for TextMessage {
    fn clone(&self) -> (res: Self)
        ensures
            res.targetmode == self.targetmode,
            res.msg@ == self.msg@,
            res.target == self.target,
            res.invokerid == self.invokerid,
            res.invokername@ == self.invokername@,
            res.invokeruid@ == self.invokeruid@,
    {
        TextMessage {
            targetmode: self.targetmode,
            msg: self.msg.clone(),
            target: self.target,
            invokerid: self.invokerid,
            invokername: self.invokername.clone(),
            invokeruid: self.invokeruid.clone(),
        }
    }
}

/// What a text message holds.
pub struct TextMessageData {
    pub targetmode: usize,
    pub msg: Seq<char>,
    pub target: usize,
    pub invokerid: usize,
    pub invokername: Seq<char>,
    pub invokeruid: Seq<char>,
}

impl DeepView for TextMessage {
    type V = TextMessageData;

    open spec fn deep_view(&self) -> TextMessageData {
        TextMessageData {
            targetmode: self.targetmode,
            msg: self.msg@,
            target: self.target,
            invokerid: self.invokerid,
            invokername: self.invokername@,
            invokeruid: self.invokeruid@,
        }
    }
}

/// What `TextMessage::from` gives for a raw response.
pub open spec fn spec_text_message_from(raw: Seq<Seq<RawPairView>>) -> TextMessageData {
    TextMessageData {
        targetmode: spec_get_field::<usize>(raw, "targetmod"@),
        msg: spec_get_field::<String>(raw, "msg"@),
        target: spec_get_field::<usize>(raw, "target"@),
        invokerid: spec_get_field::<usize>(raw, "invokerid"@),
        invokername: spec_get_field::<String>(raw, "invokername"@),
        invokeruid: spec_get_field::<String>(raw, "invokeruid"@),
    }
}

/// What `TextMessage::decode` gives for the bytes of a text message event.
pub open spec fn spec_text_message(buf: Seq<u8>) -> TextMessageData {
    let fs = text_message_fields(buf);
    TextMessageData {
        targetmode: usize_text_field(crate::split::last_value(fs, '=', "targetmode"@)),
        msg: string_text_field(crate::split::last_value(fs, '=', "msg"@)),
        target: usize_text_field(crate::split::last_value(fs, '=', "target"@)),
        invokerid: usize_text_field(crate::split::last_value(fs, '=', "invokerid"@)),
        invokername: string_text_field(crate::split::last_value(fs, '=', "invokername"@)),
        invokeruid: string_text_field(crate::split::last_value(fs, '=', "invokeruid"@)),
    }
}

impl TextMessage {
    /// Reads a text message from the first entry of a raw response; a missing or unreadable
    /// field falls back on its default. The target mode is looked up under `targetmod`.
    pub fn from(raw: RawResp) -> (res: TextMessage)
        ensures
            res.targetmode == spec_get_field::<usize>(raw.deep_view(), "targetmod"@),
            res.msg@ == spec_get_field::<String>(raw.deep_view(), "msg"@),
            res.target == spec_get_field::<usize>(raw.deep_view(), "target"@),
            res.invokerid == spec_get_field::<usize>(raw.deep_view(), "invokerid"@),
            res.invokername@ == spec_get_field::<String>(raw.deep_view(), "invokername"@),
            res.invokeruid@ == spec_get_field::<String>(raw.deep_view(), "invokeruid"@),
            res.deep_view() == spec_text_message_from(raw.deep_view()),
    {
        TextMessage {
            targetmode: get_field(&raw, "targetmod"),
            msg: get_field(&raw, "msg"),
            target: get_field(&raw, "target"),
            invokerid: get_field(&raw, "invokerid"),
            invokername: get_field(&raw, "invokername"),
            invokeruid: get_field(&raw, "invokeruid"),
        }
    }
}

/// The number that a text field holds, read as `usize` (0 where there is no such field).
pub open spec fn usize_text_field(v: Option<Seq<char>>) -> usize {
    match v {
        Some(t) => match <usize as FromText>::spec_from_text(t) {
            Ok(n) => n,
            Err(_) => 0,
        },
        None => 0,
    }
}

/// The text of a field, as it stands (empty where there is no such field).
pub open spec fn string_text_field(v: Option<Seq<char>>) -> Seq<char> {
    match v {
        Some(t) => t,
        None => Seq::empty(),
    }
}

/// The ` `-separated `key=value` fields of a text message event.
pub open spec fn text_message_fields(buf: Seq<u8>) -> Seq<Seq<char>> {
    crate::split::split_on(vstd::utf8::decode_utf8(buf), ' ')
}

/// The keys of a text message whose values are numbers.
pub open spec fn is_text_message_number_key(k: Seq<char>) -> bool {
    k == "targetmode"@ || k == "target"@ || k == "invokerid"@
}

/// The keys of a text message whose values are text.
pub open spec fn is_text_message_text_key(k: Seq<char>) -> bool {
    k == "msg"@ || k == "invokername"@ || k == "invokeruid"@
}

/// Whether a field of a text message stays clear of what `decode` panics on: a known key
/// without a value, or a number that does not read.
pub open spec fn text_message_field_ok(f: Seq<char>) -> bool {
    let k = crate::split::key_of(f, '=');
    &&& is_text_message_number_key(k) ==> crate::split::has_value(f, '=')
        && <usize as FromText>::spec_from_text(crate::split::value_of(f, '=')) is Ok
    &&& is_text_message_text_key(k) ==> crate::split::has_value(f, '=')
}

/// Whether `TextMessage::decode` returns on `buf` rather than panicking: the bytes are UTF-8
/// and every field is as `text_message_field_ok` asks.
pub open spec fn text_message_decodable(buf: Seq<u8>) -> bool {
    &&& vstd::utf8::valid_utf8(buf)
    &&& forall|i: int| 0 <= i < text_message_fields(buf).len() ==> text_message_field_ok(
        #[trigger] text_message_fields(buf)[i],
    )
}

/// Characters that are all lower-case ASCII letters hold no `=` and no space.
proof fn lemma_lower_case_chars(s: Seq<char>)
    requires
        forall|j: int| 0 <= j < s.len() ==> 'a' <= #[trigger] s[j] <= 'z',
    ensures
        !s.contains('='),
        !s.contains(' '),
{
}

/// The keys of a text message: none holds `=` or a space, and no two are the same.
proof fn lemma_text_message_names()
    ensures
        !"targetmode"@.contains('=') && !"targetmode"@.contains(' '),
        !"msg"@.contains('=') && !"msg"@.contains(' '),
        !"target"@.contains('=') && !"target"@.contains(' '),
        !"invokerid"@.contains('=') && !"invokerid"@.contains(' '),
        !"invokername"@.contains('=') && !"invokername"@.contains(' '),
        !"invokeruid"@.contains('=') && !"invokeruid"@.contains(' '),
        "msg"@ != "targetmode"@,
        "target"@ != "targetmode"@,
        "target"@ != "msg"@,
        "invokerid"@ != "targetmode"@,
        "invokerid"@ != "msg"@,
        "invokerid"@ != "target"@,
        "invokername"@ != "targetmode"@,
        "invokername"@ != "msg"@,
        "invokername"@ != "target"@,
        "invokername"@ != "invokerid"@,
        "invokeruid"@ != "targetmode"@,
        "invokeruid"@ != "msg"@,
        "invokeruid"@ != "target"@,
        "invokeruid"@ != "invokerid"@,
        "invokeruid"@ != "invokername"@,
{
    reveal_strlit("targetmode");
    assert(!"targetmode"@.contains('=') && !"targetmode"@.contains(' ')) by {
        lemma_lower_case_chars("targetmode"@);
    }
    reveal_strlit("msg");
    assert(!"msg"@.contains('=') && !"msg"@.contains(' ')) by {
        lemma_lower_case_chars("msg"@);
    }
    reveal_strlit("target");
    assert(!"target"@.contains('=') && !"target"@.contains(' ')) by {
        lemma_lower_case_chars("target"@);
    }
    reveal_strlit("invokerid");
    assert(!"invokerid"@.contains('=') && !"invokerid"@.contains(' ')) by {
        lemma_lower_case_chars("invokerid"@);
    }
    reveal_strlit("invokername");
    assert(!"invokername"@.contains('=') && !"invokername"@.contains(' ')) by {
        lemma_lower_case_chars("invokername"@);
    }
    reveal_strlit("invokeruid");
    assert(!"invokeruid"@.contains('=') && !"invokeruid"@.contains(' ')) by {
        lemma_lower_case_chars("invokeruid"@);
    }
    assert("msg"@.len() != "targetmode"@.len());
    assert("target"@.len() != "targetmode"@.len());
    assert("target"@.len() != "msg"@.len());
    assert("invokerid"@.len() != "targetmode"@.len());
    assert("invokerid"@.len() != "msg"@.len());
    assert("invokerid"@.len() != "target"@.len());
    assert("invokername"@.len() != "targetmode"@.len());
    assert("invokername"@.len() != "msg"@.len());
    assert("invokername"@.len() != "target"@.len());
    assert("invokername"@.len() != "invokerid"@.len());
    assert("invokeruid"@[0] != "targetmode"@[0]);
    assert("invokeruid"@.len() != "msg"@.len());
    assert("invokeruid"@.len() != "target"@.len());
    assert("invokeruid"@.len() != "invokerid"@.len());
    assert("invokeruid"@.len() != "invokername"@.len());
}

/// A text message event holding the one field `key=value` is that field alone: its last value
/// under `key` is `value`, and there is none under any other key.
proof fn lemma_text_message_one_field(key: Seq<char>, value: Seq<char>)
    requires
        !key.contains('='),
        !key.contains(' '),
        !value.contains(' '),
    ensures
        vstd::utf8::valid_utf8(vstd::utf8::encode_utf8(key + seq!['='] + value)),
        text_message_fields(vstd::utf8::encode_utf8(key + seq!['='] + value)) == seq![key + seq!['='] + value],
        crate::split::key_of(key + seq!['='] + value, '=') == key,
        crate::split::has_value(key + seq!['='] + value, '='),
        crate::split::value_of(key + seq!['='] + value, '=') == value,
        forall|k: Seq<char>| #[trigger] crate::split::last_value(seq![key + seq!['='] + value], '=', k)
            == (if k == key { Some(value) } else { None }),
{
    let f = key + seq!['='] + value;
    vstd::utf8::encode_utf8_valid_utf8(f);
    vstd::utf8::encode_utf8_decode_utf8(f);
    assert(!f.contains(' ')) by {
        if f.contains(' ') {
            let j: int = choose|j: int| 0 <= j < f.len() && f[j] == ' ';
            if j < key.len() {
                assert(key[j] == f[j]);
            } else if j > key.len() {
                assert(value[j - key.len() - 1] == f[j]);
            }
        }
    }
    let e = Seq::<char>::empty();
    crate::split::lemma_split_on_extend(e, f, ' ');
    assert(e + f =~= f);
    assert(crate::split::split_on(e, ' ') == seq![e]);
    assert(seq![e].update(0, f) =~= seq![f]);
    assert forall|j: int| 0 <= j < key.len() implies #[trigger] f[j] != '=' by {
        assert(f[j] == key[j]);
    }
    crate::split::lemma_key_of_is(f, '=', key.len() as int);
    assert(f.take(key.len() as int) =~= key);
    assert(crate::split::value_of(f, '=') =~= value);
    assert forall|k: Seq<char>| #[trigger] crate::split::last_value(seq![f], '=', k)
        == (if k == key { Some(value) } else { None }) by {
        assert(seq![f].drop_last() =~= Seq::<Seq<char>>::empty());
        assert(seq![f].last() == f);
        assert(crate::split::last_value(Seq::<Seq<char>>::empty(), '=', k) is None);
    }
}

/// The number field `targetmode` of a text message event is read from the field with that name:
/// the one field `targetmode=v`, with `v` in decimal, decodes (without panicking) to `v` in `targetmode`
/// and the defaults everywhere else.
pub proof fn lemma_text_message_targetmode_field(v: usize)
    ensures
        text_message_decodable(vstd::utf8::encode_utf8("targetmode"@ + seq!['='] + crate::number::decimal_text(v as int))),
        spec_text_message(vstd::utf8::encode_utf8("targetmode"@ + seq!['='] + crate::number::decimal_text(v as int)))
            == (TextMessageData {
                targetmode: v,
                msg: Seq::<char>::empty(),
                target: 0,
                invokerid: 0,
                invokername: Seq::<char>::empty(),
                invokeruid: Seq::<char>::empty(),
            }),
{
    lemma_text_message_names();
    crate::number::lemma_decimal_text_no_bar(v as int);
    crate::list::lemma_usize_text(v as int);
    let d = crate::number::decimal_text(v as int);
    lemma_text_message_one_field("targetmode"@, d);
    let f = "targetmode"@ + seq!['='] + d;
    assert(text_message_field_ok(f));
    assert(seq![f][0] == f);
}

/// The number field `target` of a text message event is read from the field with that name:
/// the one field `target=v`, with `v` in decimal, decodes (without panicking) to `v` in `target`
/// and the defaults everywhere else.
pub proof fn lemma_text_message_target_field(v: usize)
    ensures
        text_message_decodable(vstd::utf8::encode_utf8("target"@ + seq!['='] + crate::number::decimal_text(v as int))),
        spec_text_message(vstd::utf8::encode_utf8("target"@ + seq!['='] + crate::number::decimal_text(v as int)))
            == (TextMessageData {
                targetmode: 0,
                msg: Seq::<char>::empty(),
                target: v,
                invokerid: 0,
                invokername: Seq::<char>::empty(),
                invokeruid: Seq::<char>::empty(),
            }),
{
    lemma_text_message_names();
    crate::number::lemma_decimal_text_no_bar(v as int);
    crate::list::lemma_usize_text(v as int);
    let d = crate::number::decimal_text(v as int);
    lemma_text_message_one_field("target"@, d);
    let f = "target"@ + seq!['='] + d;
    assert(text_message_field_ok(f));
    assert(seq![f][0] == f);
}

/// The number field `invokerid` of a text message event is read from the field with that name:
/// the one field `invokerid=v`, with `v` in decimal, decodes (without panicking) to `v` in `invokerid`
/// and the defaults everywhere else.
pub proof fn lemma_text_message_invokerid_field(v: usize)
    ensures
        text_message_decodable(vstd::utf8::encode_utf8("invokerid"@ + seq!['='] + crate::number::decimal_text(v as int))),
        spec_text_message(vstd::utf8::encode_utf8("invokerid"@ + seq!['='] + crate::number::decimal_text(v as int)))
            == (TextMessageData {
                targetmode: 0,
                msg: Seq::<char>::empty(),
                target: 0,
                invokerid: v,
                invokername: Seq::<char>::empty(),
                invokeruid: Seq::<char>::empty(),
            }),
{
    lemma_text_message_names();
    crate::number::lemma_decimal_text_no_bar(v as int);
    crate::list::lemma_usize_text(v as int);
    let d = crate::number::decimal_text(v as int);
    lemma_text_message_one_field("invokerid"@, d);
    let f = "invokerid"@ + seq!['='] + d;
    assert(text_message_field_ok(f));
    assert(seq![f][0] == f);
}

/// The text field `msg` of a text message event is read from the field with that name: the
/// one field `msg=t`, for a text `t` without spaces, decodes (without panicking) to `t` in
/// `msg` and the defaults everywhere else.
pub proof fn lemma_text_message_msg_field(t: Seq<char>)
    requires
        !t.contains(' '),
    ensures
        text_message_decodable(vstd::utf8::encode_utf8("msg"@ + seq!['='] + t)),
        spec_text_message(vstd::utf8::encode_utf8("msg"@ + seq!['='] + t)) == (TextMessageData {
                targetmode: 0,
                msg: t,
                target: 0,
                invokerid: 0,
                invokername: Seq::<char>::empty(),
                invokeruid: Seq::<char>::empty(),
            }),
{
    lemma_text_message_names();
    lemma_text_message_one_field("msg"@, t);
    let f = "msg"@ + seq!['='] + t;
    assert(text_message_field_ok(f));
    assert(seq![f][0] == f);
}

/// The text field `invokername` of a text message event is read from the field with that name: the
/// one field `invokername=t`, for a text `t` without spaces, decodes (without panicking) to `t` in
/// `invokername` and the defaults everywhere else.
pub proof fn lemma_text_message_invokername_field(t: Seq<char>)
    requires
        !t.contains(' '),
    ensures
        text_message_decodable(vstd::utf8::encode_utf8("invokername"@ + seq!['='] + t)),
        spec_text_message(vstd::utf8::encode_utf8("invokername"@ + seq!['='] + t)) == (TextMessageData {
                targetmode: 0,
                msg: Seq::<char>::empty(),
                target: 0,
                invokerid: 0,
                invokername: t,
                invokeruid: Seq::<char>::empty(),
            }),
{
    lemma_text_message_names();
    lemma_text_message_one_field("invokername"@, t);
    let f = "invokername"@ + seq!['='] + t;
    assert(text_message_field_ok(f));
    assert(seq![f][0] == f);
}

/// The text field `invokeruid` of a text message event is read from the field with that name: the
/// one field `invokeruid=t`, for a text `t` without spaces, decodes (without panicking) to `t` in
/// `invokeruid` and the defaults everywhere else.
pub proof fn lemma_text_message_invokeruid_field(t: Seq<char>)
    requires
        !t.contains(' '),
    ensures
        text_message_decodable(vstd::utf8::encode_utf8("invokeruid"@ + seq!['='] + t)),
        spec_text_message(vstd::utf8::encode_utf8("invokeruid"@ + seq!['='] + t)) == (TextMessageData {
                targetmode: 0,
                msg: Seq::<char>::empty(),
                target: 0,
                invokerid: 0,
                invokername: Seq::<char>::empty(),
                invokeruid: t,
            }),
{
    lemma_text_message_names();
    lemma_text_message_one_field("invokeruid"@, t);
    let f = "invokeruid"@ + seq!['='] + t;
    assert(text_message_field_ok(f));
    assert(seq![f][0] == f);
}

/// A single pair answers for its own key and for no other.
proof fn lemma_lookup_one(key: Seq<char>, value: Option<Seq<char>>, name: Seq<char>)
    ensures
        lookup(seq![(key, value)], name) == (if name == key { Some(value) } else { None }),
{
    assert(seq![(key, value)].drop_last() =~= Seq::<RawPairView>::empty());
    assert(seq![(key, value)].last() == (key, value));
    assert(lookup(Seq::<RawPairView>::empty(), name) is None);
}

/// The keys that `TextMessage::from` looks up are all different.
proof fn lemma_text_message_from_names()
    ensures
        "msg"@ != "targetmod"@,
        "target"@ != "targetmod"@,
        "target"@ != "msg"@,
        "invokerid"@ != "targetmod"@,
        "invokerid"@ != "msg"@,
        "invokerid"@ != "target"@,
        "invokername"@ != "targetmod"@,
        "invokername"@ != "msg"@,
        "invokername"@ != "target"@,
        "invokername"@ != "invokerid"@,
        "invokeruid"@ != "targetmod"@,
        "invokeruid"@ != "msg"@,
        "invokeruid"@ != "target"@,
        "invokeruid"@ != "invokerid"@,
        "invokeruid"@ != "invokername"@,
{
    reveal_strlit("targetmod");
    reveal_strlit("msg");
    reveal_strlit("target");
    reveal_strlit("invokerid");
    reveal_strlit("invokername");
    reveal_strlit("invokeruid");
    assert("msg"@.len() != "targetmod"@.len());
    assert("target"@.len() != "targetmod"@.len());
    assert("target"@.len() != "msg"@.len());
    assert("invokerid"@[0] != "targetmod"@[0]);
    assert("invokerid"@.len() != "msg"@.len());
    assert("invokerid"@.len() != "target"@.len());
    assert("invokername"@.len() != "targetmod"@.len());
    assert("invokername"@.len() != "msg"@.len());
    assert("invokername"@.len() != "target"@.len());
    assert("invokername"@.len() != "invokerid"@.len());
    assert("invokeruid"@.len() != "targetmod"@.len());
    assert("invokeruid"@.len() != "msg"@.len());
    assert("invokeruid"@.len() != "target"@.len());
    assert("invokeruid"@.len() != "invokerid"@.len());
    assert("invokeruid"@.len() != "invokername"@.len());
}

/// `TextMessage::from` reads `targetmode` from the pair `targetmod` of the first entry: a response
/// whose one entry is that pair, with a number in decimal, gives the number there and the
/// defaults everywhere else.
pub proof fn lemma_text_message_from_targetmode(v: usize)
    ensures
        spec_text_message_from(seq![seq![("targetmod"@, Some(crate::number::decimal_text(v as int)))]])
            == (TextMessageData {
                targetmode: v,
                msg: Seq::<char>::empty(),
                target: 0,
                invokerid: 0,
                invokername: Seq::<char>::empty(),
                invokeruid: Seq::<char>::empty(),
            }),
{
    lemma_text_message_from_names();
    crate::list::lemma_usize_text(v as int);
    let p = ("targetmod"@, Some(crate::number::decimal_text(v as int)));
    assert(seq![seq![p]][0] == seq![p]);
    lemma_lookup_one(p.0, p.1, "targetmod"@);
    lemma_lookup_one(p.0, p.1, "msg"@);
    lemma_lookup_one(p.0, p.1, "target"@);
    lemma_lookup_one(p.0, p.1, "invokerid"@);
    lemma_lookup_one(p.0, p.1, "invokername"@);
    lemma_lookup_one(p.0, p.1, "invokeruid"@);
}

/// `TextMessage::from` reads `target` from the pair `target` of the first entry: a response
/// whose one entry is that pair, with a number in decimal, gives the number there and the
/// defaults everywhere else.
pub proof fn lemma_text_message_from_target(v: usize)
    ensures
        spec_text_message_from(seq![seq![("target"@, Some(crate::number::decimal_text(v as int)))]])
            == (TextMessageData {
                targetmode: 0,
                msg: Seq::<char>::empty(),
                target: v,
                invokerid: 0,
                invokername: Seq::<char>::empty(),
                invokeruid: Seq::<char>::empty(),
            }),
{
    lemma_text_message_from_names();
    crate::list::lemma_usize_text(v as int);
    let p = ("target"@, Some(crate::number::decimal_text(v as int)));
    assert(seq![seq![p]][0] == seq![p]);
    lemma_lookup_one(p.0, p.1, "targetmod"@);
    lemma_lookup_one(p.0, p.1, "msg"@);
    lemma_lookup_one(p.0, p.1, "target"@);
    lemma_lookup_one(p.0, p.1, "invokerid"@);
    lemma_lookup_one(p.0, p.1, "invokername"@);
    lemma_lookup_one(p.0, p.1, "invokeruid"@);
}

/// `TextMessage::from` reads `invokerid` from the pair `invokerid` of the first entry: a response
/// whose one entry is that pair, with a number in decimal, gives the number there and the
/// defaults everywhere else.
pub proof fn lemma_text_message_from_invokerid(v: usize)
    ensures
        spec_text_message_from(seq![seq![("invokerid"@, Some(crate::number::decimal_text(v as int)))]])
            == (TextMessageData {
                targetmode: 0,
                msg: Seq::<char>::empty(),
                target: 0,
                invokerid: v,
                invokername: Seq::<char>::empty(),
                invokeruid: Seq::<char>::empty(),
            }),
{
    lemma_text_message_from_names();
    crate::list::lemma_usize_text(v as int);
    let p = ("invokerid"@, Some(crate::number::decimal_text(v as int)));
    assert(seq![seq![p]][0] == seq![p]);
    lemma_lookup_one(p.0, p.1, "targetmod"@);
    lemma_lookup_one(p.0, p.1, "msg"@);
    lemma_lookup_one(p.0, p.1, "target"@);
    lemma_lookup_one(p.0, p.1, "invokerid"@);
    lemma_lookup_one(p.0, p.1, "invokername"@);
    lemma_lookup_one(p.0, p.1, "invokeruid"@);
}

/// `TextMessage::from` reads `msg` from the pair `msg` of the first entry: a response
/// whose one entry is that pair gives its text there and the defaults everywhere else.
pub proof fn lemma_text_message_from_msg(t: Seq<char>)
    ensures
        spec_text_message_from(seq![seq![("msg"@, Some(t))]]) == (TextMessageData {
                targetmode: 0,
                msg: t,
                target: 0,
                invokerid: 0,
                invokername: Seq::<char>::empty(),
                invokeruid: Seq::<char>::empty(),
            }),
{
    lemma_text_message_from_names();
    let p = ("msg"@, Some(t));
    assert(seq![seq![p]][0] == seq![p]);
    lemma_lookup_one(p.0, p.1, "targetmod"@);
    lemma_lookup_one(p.0, p.1, "msg"@);
    lemma_lookup_one(p.0, p.1, "target"@);
    lemma_lookup_one(p.0, p.1, "invokerid"@);
    lemma_lookup_one(p.0, p.1, "invokername"@);
    lemma_lookup_one(p.0, p.1, "invokeruid"@);
}

/// `TextMessage::from` reads `invokername` from the pair `invokername` of the first entry: a response
/// whose one entry is that pair gives its text there and the defaults everywhere else.
pub proof fn lemma_text_message_from_invokername(t: Seq<char>)
    ensures
        spec_text_message_from(seq![seq![("invokername"@, Some(t))]]) == (TextMessageData {
                targetmode: 0,
                msg: Seq::<char>::empty(),
                target: 0,
                invokerid: 0,
                invokername: t,
                invokeruid: Seq::<char>::empty(),
            }),
{
    lemma_text_message_from_names();
    let p = ("invokername"@, Some(t));
    assert(seq![seq![p]][0] == seq![p]);
    lemma_lookup_one(p.0, p.1, "targetmod"@);
    lemma_lookup_one(p.0, p.1, "msg"@);
    lemma_lookup_one(p.0, p.1, "target"@);
    lemma_lookup_one(p.0, p.1, "invokerid"@);
    lemma_lookup_one(p.0, p.1, "invokername"@);
    lemma_lookup_one(p.0, p.1, "invokeruid"@);
}

/// `TextMessage::from` reads `invokeruid` from the pair `invokeruid` of the first entry: a response
/// whose one entry is that pair gives its text there and the defaults everywhere else.
pub proof fn lemma_text_message_from_invokeruid(t: Seq<char>)
    ensures
        spec_text_message_from(seq![seq![("invokeruid"@, Some(t))]]) == (TextMessageData {
                targetmode: 0,
                msg: Seq::<char>::empty(),
                target: 0,
                invokerid: 0,
                invokername: Seq::<char>::empty(),
                invokeruid: t,
            }),
{
    lemma_text_message_from_names();
    let p = ("invokeruid"@, Some(t));
    assert(seq![seq![p]][0] == seq![p]);
    lemma_lookup_one(p.0, p.1, "targetmod"@);
    lemma_lookup_one(p.0, p.1, "msg"@);
    lemma_lookup_one(p.0, p.1, "target"@);
    lemma_lookup_one(p.0, p.1, "invokerid"@);
    lemma_lookup_one(p.0, p.1, "invokername"@);
    lemma_lookup_one(p.0, p.1, "invokeruid"@);
}

impl TextMessage {
    /// Whether `decode` returns on `buf` rather than panicking.
    pub fn decodable(buf: &[u8]) -> (res: bool)
        ensures
            res == text_message_decodable(buf@),
    {
        let string = match str_from_utf8(buf) {
            Ok(s) => s,
            Err(_) => {
                return false;
            },
        };
        let ghost fs = text_message_fields(buf@);
        let parts = split_chars(string, ' ');
        let mut i: usize = 0;
        while i < parts.len()
            invariant
                i <= parts@.len(),
                parts@.len() == fs.len(),
                fs == text_message_fields(buf@),
                vstd::utf8::valid_utf8(buf@),
                forall|k: int| 0 <= k < parts@.len() ==> #[trigger] parts@[k]@ == fs[k],
                forall|k: int| 0 <= k < i ==> text_message_field_ok(#[trigger] fs[k]),
            decreases parts@.len() - i,
        {
            let (key, value) = split_key_value_str(parts[i].as_str(), '=');
            let k = key.as_str();
            let number_key = str_eq(k, "targetmode") || str_eq(k, "target") || str_eq(k, "invokerid");
            let text_key = str_eq(k, "msg") || str_eq(k, "invokername") || str_eq(k, "invokeruid");
            let ok = match value {
                None => !number_key && !text_key,
                Some(val) => !number_key || usize::from_text(val.as_str()).is_ok(),
            };
            if !ok {
                return false;
            }
            i = i + 1;
        }
        true
    }

    /// Decodes a text message event: each field is the last field with its key, numbers read
    /// as `usize` and texts taken as they stand; fields with other keys are ignored.
    pub fn decode(buf: &[u8]) -> (res: Result<TextMessage, ()>)
        requires
            text_message_decodable(buf@),
        ensures
            res matches Ok(t) && {
                let fs = text_message_fields(buf@);
                &&& t.targetmode == usize_text_field(crate::split::last_value(fs, '=', "targetmode"@))
                &&& t.msg@ == string_text_field(crate::split::last_value(fs, '=', "msg"@))
                &&& t.target == usize_text_field(crate::split::last_value(fs, '=', "target"@))
                &&& t.invokerid == usize_text_field(crate::split::last_value(fs, '=', "invokerid"@))
                &&& t.invokername@ == string_text_field(crate::split::last_value(fs, '=', "invokername"@))
                &&& t.invokeruid@ == string_text_field(crate::split::last_value(fs, '=', "invokeruid"@))
            },
            res matches Ok(t) && t.deep_view() == spec_text_message(buf@),
    {
        let string = match str_from_utf8(buf) {
            Ok(s) => s,
            Err(_) => {
                return Err(());
            },
        };
        let ghost fs = text_message_fields(buf@);
        let parts = split_chars(string, ' ');
        let mut targetmode: usize = 0;
        let mut msg = String::new();
        let mut target: usize = 0;
        let mut invokerid: usize = 0;
        let mut invokername = String::new();
        let mut invokeruid = String::new();
        let mut i: usize = 0;
        while i < parts.len()
            invariant
                i <= parts@.len(),
                parts@.len() == fs.len(),
                fs == text_message_fields(buf@),
                forall|k: int| 0 <= k < parts@.len() ==> #[trigger] parts@[k]@ == fs[k],
                forall|k: int| 0 <= k < fs.len() ==> text_message_field_ok(#[trigger] fs[k]),
                targetmode == usize_text_field(crate::split::last_value(fs.take(i as int), '=', "targetmode"@)),
                msg@ == string_text_field(crate::split::last_value(fs.take(i as int), '=', "msg"@)),
                target == usize_text_field(crate::split::last_value(fs.take(i as int), '=', "target"@)),
                invokerid == usize_text_field(crate::split::last_value(fs.take(i as int), '=', "invokerid"@)),
                invokername@ == string_text_field(crate::split::last_value(fs.take(i as int), '=', "invokername"@)),
                invokeruid@ == string_text_field(crate::split::last_value(fs.take(i as int), '=', "invokeruid"@)),
            decreases parts@.len() - i,
        {
            let ghost f = fs[i as int];
            proof {
                assert(fs.take(i + 1).drop_last() =~= fs.take(i as int));
                assert(fs.take(i + 1).last() == f);
                assert(text_message_field_ok(f));
                reveal_strlit("targetmode");
                reveal_strlit("msg");
                reveal_strlit("target");
                reveal_strlit("invokerid");
                reveal_strlit("invokername");
                reveal_strlit("invokeruid");
                assert("targetmode"@[0] != "invokeruid"@[0]);
                crate::split::lemma_last_value_step(fs, i as int, '=', "targetmode"@);
                crate::split::lemma_last_value_step(fs, i as int, '=', "msg"@);
                crate::split::lemma_last_value_step(fs, i as int, '=', "target"@);
                crate::split::lemma_last_value_step(fs, i as int, '=', "invokerid"@);
                crate::split::lemma_last_value_step(fs, i as int, '=', "invokername"@);
                crate::split::lemma_last_value_step(fs, i as int, '=', "invokeruid"@);
            }
            let (key, value) = split_key_value_str(parts[i].as_str(), '=');
            if let Some(val) = value {
                if str_eq(key.as_str(), "targetmode") {
                    if let Ok(n) = usize::from_text(val.as_str()) {
                        targetmode = n;
                    }
                } else if str_eq(key.as_str(), "msg") {
                    msg = val;
                } else if str_eq(key.as_str(), "target") {
                    if let Ok(n) = usize::from_text(val.as_str()) {
                        target = n;
                    }
                } else if str_eq(key.as_str(), "invokerid") {
                    if let Ok(n) = usize::from_text(val.as_str()) {
                        invokerid = n;
                    }
                } else if str_eq(key.as_str(), "invokername") {
                    invokername = val;
                } else if str_eq(key.as_str(), "invokeruid") {
                    invokeruid = val;
                }
            }
            i = i + 1;
        }
        proof {
            assert(fs.take(i as int) =~= fs);
        }
        Ok(TextMessage { targetmode, msg, target, invokerid, invokername, invokeruid })
    }
}

/// The fields of a client-left-view event.
#[derive(Clone, Copy, Debug, PartialEq, Eq, Structural)]
pub enum LeftViewKey {
    Cfid, Ctid, Reasonid, Invokerid, Invokername, Invokeruid, Reasonmsg, Bantime, Clid,
}

/// The field that a key names, if it names one.
pub open spec fn left_view_key(k: Seq<u8>) -> Option<LeftViewKey> {
    if k == crate::split::bytes_of("cfid") {
        Some(LeftViewKey::Cfid)
    } else if k == crate::split::bytes_of("ctid") {
        Some(LeftViewKey::Ctid)
    } else if k == crate::split::bytes_of("reasonid") {
        Some(LeftViewKey::Reasonid)
    } else if k == crate::split::bytes_of("invokerid") {
        Some(LeftViewKey::Invokerid)
    } else if k == crate::split::bytes_of("invokername") {
        Some(LeftViewKey::Invokername)
    } else if k == crate::split::bytes_of("invokeruid") {
        Some(LeftViewKey::Invokeruid)
    } else if k == crate::split::bytes_of("reasonmsg") {
        Some(LeftViewKey::Reasonmsg)
    } else if k == crate::split::bytes_of("bantime") {
        Some(LeftViewKey::Bantime)
    } else if k == crate::split::bytes_of("clid") {
        Some(LeftViewKey::Clid)
    } else {
        None
    }
}

fn classify_left_view_key(k: &[u8]) -> (res: Option<LeftViewKey>)
    ensures
        res == left_view_key(k@),
{
    if bytes_eq(k, "cfid".as_bytes()) {
        Some(LeftViewKey::Cfid)
    } else if bytes_eq(k, "ctid".as_bytes()) {
        Some(LeftViewKey::Ctid)
    } else if bytes_eq(k, "reasonid".as_bytes()) {
        Some(LeftViewKey::Reasonid)
    } else if bytes_eq(k, "invokerid".as_bytes()) {
        Some(LeftViewKey::Invokerid)
    } else if bytes_eq(k, "invokername".as_bytes()) {
        Some(LeftViewKey::Invokername)
    } else if bytes_eq(k, "invokeruid".as_bytes()) {
        Some(LeftViewKey::Invokeruid)
    } else if bytes_eq(k, "reasonmsg".as_bytes()) {
        Some(LeftViewKey::Reasonmsg)
    } else if bytes_eq(k, "bantime".as_bytes()) {
        Some(LeftViewKey::Bantime)
    } else if bytes_eq(k, "clid".as_bytes()) {
        Some(LeftViewKey::Clid)
    } else {
        None
    }
}

/// The value of the last pair that sets the given field.
pub open spec fn left_view_value(fields: Seq<Seq<u8>>, key: LeftViewKey) -> Option<Seq<u8>>
    decreases fields.len(),
{
    if fields.len() == 0 {
        None
    } else {
        let f = fields.last();
        if left_view_key(crate::split::key_of(f, 0x3du8)) == Some(key) && crate::split::has_value(f, 0x3du8) {
            Some(crate::split::value_of(f, 0x3du8))
        } else {
            left_view_value(fields.drop_last(), key)
        }
    }
}

proof fn lemma_left_view_value_step(fs: Seq<Seq<u8>>, i: int, key: LeftViewKey)
    requires
        0 <= i < fs.len(),
    ensures
        left_view_value(fs.take(i + 1), key) == (if left_view_key(crate::split::key_of(fs[i], 0x3du8)) == Some(key)
            && crate::split::has_value(fs[i], 0x3du8) {
            Some(crate::split::value_of(fs[i], 0x3du8))
        } else {
            left_view_value(fs.take(i), key)
        }),
{
    assert(fs.take(i + 1).drop_last() =~= fs.take(i));
    assert(fs.take(i + 1).last() == fs[i]);
}

/// A number field: the value decoded as `usize`, or 0 where the field is absent.
pub open spec fn usize_bytes_field(v: Option<Seq<u8>>) -> usize {
    match v {
        Some(b) => match <usize as Decode<usize>>::spec_decode(b) {
            Ok(n) => n,
            Err(_) => 0,
        },
        None => 0,
    }
}

/// A text field: the value unescaped, or empty where the field is absent.
pub open spec fn string_bytes_field(v: Option<Seq<u8>>) -> Seq<char> {
    match v {
        Some(b) => match crate::escape::spec_decode_string(b) {
            Ok(t) => t,
            Err(_) => Seq::empty(),
        },
        None => Seq::empty(),
    }
}

/// A reason field: the value decoded as a reason, or the default reason where it is absent.
pub open spec fn reason_bytes_field(v: Option<Seq<u8>>) -> ReasonID {
    match v {
        Some(b) => match spec_decode_reason(b) {
            Ok(r) => r,
            Err(_) => ReasonID::SwitchChannel,
        },
        None => ReasonID::SwitchChannel,
    }
}

/// Whether the value of a field decodes, where the decoder would panic otherwise.
pub open spec fn left_view_value_ok(key: LeftViewKey, v: Seq<u8>) -> bool {
    match key {
        LeftViewKey::Reasonid => reason_decodable(v) && spec_decode_reason(v) is Ok,
        LeftViewKey::Invokername | LeftViewKey::Invokeruid | LeftViewKey::Reasonmsg =>
            crate::escape::spec_decode_string(v) is Ok,
        _ => <usize as Decode<usize>>::spec_decode(v) is Ok,
    }
}

/// Whether a pair of a client-left-view event stays clear of what `decode` panics on: a
/// known key without a value, or a value that does not decode.
pub open spec fn left_view_field_ok(f: Seq<u8>) -> bool {
    match left_view_key(crate::split::key_of(f, 0x3du8)) {
        Some(k) => crate::split::has_value(f, 0x3du8) && left_view_value_ok(k, crate::split::value_of(f, 0x3du8)),
        None => true,
    }
}

/// Whether `ClientLeftView::decode` returns on `buf` rather than panicking.
pub open spec fn left_view_decodable(buf: Seq<u8>) -> bool {
    let fs = crate::split::split_on(buf, 0x20u8);
    forall|i: int| 0 <= i < fs.len() ==> left_view_field_ok(#[trigger] fs[i])
}

/// What a client-left-view event holds.
pub struct LeftViewData {
    pub cfid: usize,
    pub ctid: usize,
    pub reasonid: ReasonID,
    pub invokerid: usize,
    pub invokername: Seq<char>,
    pub invokeruid: Seq<char>,
    pub reasonmsg: Seq<char>,
    pub bantime: usize,
    pub clid: usize,
}

/// What decoding a client-left-view event gives: each field from the last pair that sets it.
pub open spec fn spec_left_view(buf: Seq<u8>) -> LeftViewData {
    let fs = crate::split::split_on(buf, 0x20u8);
    LeftViewData {
        cfid: usize_bytes_field(left_view_value(fs, LeftViewKey::Cfid)),
        ctid: usize_bytes_field(left_view_value(fs, LeftViewKey::Ctid)),
        reasonid: reason_bytes_field(left_view_value(fs, LeftViewKey::Reasonid)),
        invokerid: usize_bytes_field(left_view_value(fs, LeftViewKey::Invokerid)),
        invokername: string_bytes_field(left_view_value(fs, LeftViewKey::Invokername)),
        invokeruid: string_bytes_field(left_view_value(fs, LeftViewKey::Invokeruid)),
        reasonmsg: string_bytes_field(left_view_value(fs, LeftViewKey::Reasonmsg)),
        bantime: usize_bytes_field(left_view_value(fs, LeftViewKey::Bantime)),
        clid: usize_bytes_field(left_view_value(fs, LeftViewKey::Clid)),
    }
}

/// Bytes that are all lower-case ASCII letters hold no `=` and no space.
proof fn lemma_lower_case_bytes(b: Seq<u8>)
    requires
        forall|j: int| 0 <= j < b.len() ==> 0x61 <= #[trigger] b[j] <= 0x7a,
    ensures
        !b.contains(0x3du8),
        !b.contains(0x20u8),
{
}

/// The bytes of the field names of a client-left-view event, and the field each one names.
proof fn lemma_left_view_names()
    ensures
        crate::split::bytes_of("cfid") == seq![0x63u8, 0x66, 0x69, 0x64],
        left_view_key(crate::split::bytes_of("cfid")) == Some(LeftViewKey::Cfid),
        !crate::split::bytes_of("cfid").contains(0x3du8) && !crate::split::bytes_of("cfid").contains(0x20u8),
        crate::split::bytes_of("ctid") == seq![0x63u8, 0x74, 0x69, 0x64],
        left_view_key(crate::split::bytes_of("ctid")) == Some(LeftViewKey::Ctid),
        !crate::split::bytes_of("ctid").contains(0x3du8) && !crate::split::bytes_of("ctid").contains(0x20u8),
        crate::split::bytes_of("reasonid") == seq![0x72u8, 0x65, 0x61, 0x73, 0x6f, 0x6e, 0x69, 0x64],
        left_view_key(crate::split::bytes_of("reasonid")) == Some(LeftViewKey::Reasonid),
        !crate::split::bytes_of("reasonid").contains(0x3du8) && !crate::split::bytes_of("reasonid").contains(0x20u8),
        crate::split::bytes_of("invokerid") == seq![0x69u8, 0x6e, 0x76, 0x6f, 0x6b, 0x65, 0x72, 0x69, 0x64],
        left_view_key(crate::split::bytes_of("invokerid")) == Some(LeftViewKey::Invokerid),
        !crate::split::bytes_of("invokerid").contains(0x3du8) && !crate::split::bytes_of("invokerid").contains(0x20u8),
        crate::split::bytes_of("invokername") == seq![0x69u8, 0x6e, 0x76, 0x6f, 0x6b, 0x65, 0x72, 0x6e, 0x61, 0x6d, 0x65],
        left_view_key(crate::split::bytes_of("invokername")) == Some(LeftViewKey::Invokername),
        !crate::split::bytes_of("invokername").contains(0x3du8) && !crate::split::bytes_of("invokername").contains(0x20u8),
        crate::split::bytes_of("invokeruid") == seq![0x69u8, 0x6e, 0x76, 0x6f, 0x6b, 0x65, 0x72, 0x75, 0x69, 0x64],
        left_view_key(crate::split::bytes_of("invokeruid")) == Some(LeftViewKey::Invokeruid),
        !crate::split::bytes_of("invokeruid").contains(0x3du8) && !crate::split::bytes_of("invokeruid").contains(0x20u8),
        crate::split::bytes_of("reasonmsg") == seq![0x72u8, 0x65, 0x61, 0x73, 0x6f, 0x6e, 0x6d, 0x73, 0x67],
        left_view_key(crate::split::bytes_of("reasonmsg")) == Some(LeftViewKey::Reasonmsg),
        !crate::split::bytes_of("reasonmsg").contains(0x3du8) && !crate::split::bytes_of("reasonmsg").contains(0x20u8),
        crate::split::bytes_of("bantime") == seq![0x62u8, 0x61, 0x6e, 0x74, 0x69, 0x6d, 0x65],
        left_view_key(crate::split::bytes_of("bantime")) == Some(LeftViewKey::Bantime),
        !crate::split::bytes_of("bantime").contains(0x3du8) && !crate::split::bytes_of("bantime").contains(0x20u8),
        crate::split::bytes_of("clid") == seq![0x63u8, 0x6c, 0x69, 0x64],
        left_view_key(crate::split::bytes_of("clid")) == Some(LeftViewKey::Clid),
        !crate::split::bytes_of("clid").contains(0x3du8) && !crate::split::bytes_of("clid").contains(0x20u8),
{
    reveal_strlit("cfid");
    vstd::utf8::is_ascii_chars_encode_utf8("cfid"@);
    assert(crate::split::bytes_of("cfid") =~= seq![0x63u8, 0x66, 0x69, 0x64]);
    lemma_lower_case_bytes(crate::split::bytes_of("cfid"));
    reveal_strlit("ctid");
    vstd::utf8::is_ascii_chars_encode_utf8("ctid"@);
    assert(crate::split::bytes_of("ctid") =~= seq![0x63u8, 0x74, 0x69, 0x64]);
    lemma_lower_case_bytes(crate::split::bytes_of("ctid"));
    reveal_strlit("reasonid");
    vstd::utf8::is_ascii_chars_encode_utf8("reasonid"@);
    assert(crate::split::bytes_of("reasonid") =~= seq![0x72u8, 0x65, 0x61, 0x73, 0x6f, 0x6e, 0x69, 0x64]);
    lemma_lower_case_bytes(crate::split::bytes_of("reasonid"));
    reveal_strlit("invokerid");
    vstd::utf8::is_ascii_chars_encode_utf8("invokerid"@);
    assert(crate::split::bytes_of("invokerid") =~= seq![0x69u8, 0x6e, 0x76, 0x6f, 0x6b, 0x65, 0x72, 0x69, 0x64]);
    lemma_lower_case_bytes(crate::split::bytes_of("invokerid"));
    reveal_strlit("invokername");
    vstd::utf8::is_ascii_chars_encode_utf8("invokername"@);
    assert(crate::split::bytes_of("invokername") =~= seq![0x69u8, 0x6e, 0x76, 0x6f, 0x6b, 0x65, 0x72, 0x6e, 0x61, 0x6d, 0x65]);
    lemma_lower_case_bytes(crate::split::bytes_of("invokername"));
    reveal_strlit("invokeruid");
    vstd::utf8::is_ascii_chars_encode_utf8("invokeruid"@);
    assert(crate::split::bytes_of("invokeruid") =~= seq![0x69u8, 0x6e, 0x76, 0x6f, 0x6b, 0x65, 0x72, 0x75, 0x69, 0x64]);
    lemma_lower_case_bytes(crate::split::bytes_of("invokeruid"));
    reveal_strlit("reasonmsg");
    vstd::utf8::is_ascii_chars_encode_utf8("reasonmsg"@);
    assert(crate::split::bytes_of("reasonmsg") =~= seq![0x72u8, 0x65, 0x61, 0x73, 0x6f, 0x6e, 0x6d, 0x73, 0x67]);
    lemma_lower_case_bytes(crate::split::bytes_of("reasonmsg"));
    reveal_strlit("bantime");
    vstd::utf8::is_ascii_chars_encode_utf8("bantime"@);
    assert(crate::split::bytes_of("bantime") =~= seq![0x62u8, 0x61, 0x6e, 0x74, 0x69, 0x6d, 0x65]);
    lemma_lower_case_bytes(crate::split::bytes_of("bantime"));
    reveal_strlit("clid");
    vstd::utf8::is_ascii_chars_encode_utf8("clid"@);
    assert(crate::split::bytes_of("clid") =~= seq![0x63u8, 0x6c, 0x69, 0x64]);
    lemma_lower_case_bytes(crate::split::bytes_of("clid"));
    assert(left_view_key(crate::split::bytes_of("cfid")) == Some(LeftViewKey::Cfid)) by {
    }
    assert(left_view_key(crate::split::bytes_of("ctid")) == Some(LeftViewKey::Ctid)) by {
        crate::split::lemma_bytes_of_injective("ctid", "cfid");
        assert("ctid"@[1] != "cfid"@[1]);
    }
    assert(left_view_key(crate::split::bytes_of("reasonid")) == Some(LeftViewKey::Reasonid)) by {
        crate::split::lemma_bytes_of_injective("reasonid", "cfid");
        assert("reasonid"@.len() != "cfid"@.len());
        crate::split::lemma_bytes_of_injective("reasonid", "ctid");
        assert("reasonid"@.len() != "ctid"@.len());
    }
    assert(left_view_key(crate::split::bytes_of("invokerid")) == Some(LeftViewKey::Invokerid)) by {
        crate::split::lemma_bytes_of_injective("invokerid", "cfid");
        assert("invokerid"@.len() != "cfid"@.len());
        crate::split::lemma_bytes_of_injective("invokerid", "ctid");
        assert("invokerid"@.len() != "ctid"@.len());
        crate::split::lemma_bytes_of_injective("invokerid", "reasonid");
        assert("invokerid"@.len() != "reasonid"@.len());
    }
    assert(left_view_key(crate::split::bytes_of("invokername")) == Some(LeftViewKey::Invokername)) by {
        crate::split::lemma_bytes_of_injective("invokername", "cfid");
        assert("invokername"@.len() != "cfid"@.len());
        crate::split::lemma_bytes_of_injective("invokername", "ctid");
        assert("invokername"@.len() != "ctid"@.len());
        crate::split::lemma_bytes_of_injective("invokername", "reasonid");
        assert("invokername"@.len() != "reasonid"@.len());
        crate::split::lemma_bytes_of_injective("invokername", "invokerid");
        assert("invokername"@.len() != "invokerid"@.len());
    }
    assert(left_view_key(crate::split::bytes_of("invokeruid")) == Some(LeftViewKey::Invokeruid)) by {
        crate::split::lemma_bytes_of_injective("invokeruid", "cfid");
        assert("invokeruid"@.len() != "cfid"@.len());
        crate::split::lemma_bytes_of_injective("invokeruid", "ctid");
        assert("invokeruid"@.len() != "ctid"@.len());
        crate::split::lemma_bytes_of_injective("invokeruid", "reasonid");
        assert("invokeruid"@.len() != "reasonid"@.len());
        crate::split::lemma_bytes_of_injective("invokeruid", "invokerid");
        assert("invokeruid"@.len() != "invokerid"@.len());
        crate::split::lemma_bytes_of_injective("invokeruid", "invokername");
        assert("invokeruid"@.len() != "invokername"@.len());
    }
    assert(left_view_key(crate::split::bytes_of("reasonmsg")) == Some(LeftViewKey::Reasonmsg)) by {
        crate::split::lemma_bytes_of_injective("reasonmsg", "cfid");
        assert("reasonmsg"@.len() != "cfid"@.len());
        crate::split::lemma_bytes_of_injective("reasonmsg", "ctid");
        assert("reasonmsg"@.len() != "ctid"@.len());
        crate::split::lemma_bytes_of_injective("reasonmsg", "reasonid");
        assert("reasonmsg"@.len() != "reasonid"@.len());
        crate::split::lemma_bytes_of_injective("reasonmsg", "invokerid");
        assert("reasonmsg"@[0] != "invokerid"@[0]);
        crate::split::lemma_bytes_of_injective("reasonmsg", "invokername");
        assert("reasonmsg"@.len() != "invokername"@.len());
        crate::split::lemma_bytes_of_injective("reasonmsg", "invokeruid");
        assert("reasonmsg"@.len() != "invokeruid"@.len());
    }
    assert(left_view_key(crate::split::bytes_of("bantime")) == Some(LeftViewKey::Bantime)) by {
        crate::split::lemma_bytes_of_injective("bantime", "cfid");
        assert("bantime"@.len() != "cfid"@.len());
        crate::split::lemma_bytes_of_injective("bantime", "ctid");
        assert("bantime"@.len() != "ctid"@.len());
        crate::split::lemma_bytes_of_injective("bantime", "reasonid");
        assert("bantime"@.len() != "reasonid"@.len());
        crate::split::lemma_bytes_of_injective("bantime", "invokerid");
        assert("bantime"@.len() != "invokerid"@.len());
        crate::split::lemma_bytes_of_injective("bantime", "invokername");
        assert("bantime"@.len() != "invokername"@.len());
        crate::split::lemma_bytes_of_injective("bantime", "invokeruid");
        assert("bantime"@.len() != "invokeruid"@.len());
        crate::split::lemma_bytes_of_injective("bantime", "reasonmsg");
        assert("bantime"@.len() != "reasonmsg"@.len());
    }
    assert(left_view_key(crate::split::bytes_of("clid")) == Some(LeftViewKey::Clid)) by {
        crate::split::lemma_bytes_of_injective("clid", "cfid");
        assert("clid"@[1] != "cfid"@[1]);
        crate::split::lemma_bytes_of_injective("clid", "ctid");
        assert("clid"@[1] != "ctid"@[1]);
        crate::split::lemma_bytes_of_injective("clid", "reasonid");
        assert("clid"@.len() != "reasonid"@.len());
        crate::split::lemma_bytes_of_injective("clid", "invokerid");
        assert("clid"@.len() != "invokerid"@.len());
        crate::split::lemma_bytes_of_injective("clid", "invokername");
        assert("clid"@.len() != "invokername"@.len());
        crate::split::lemma_bytes_of_injective("clid", "invokeruid");
        assert("clid"@.len() != "invokeruid"@.len());
        crate::split::lemma_bytes_of_injective("clid", "reasonmsg");
        assert("clid"@.len() != "reasonmsg"@.len());
        crate::split::lemma_bytes_of_injective("clid", "bantime");
        assert("clid"@.len() != "bantime"@.len());
    }
}

/// A buffer holding the one pair `key=value` is one field, and it sets just the field that
/// `key` names, to `value`.
proof fn lemma_left_view_one_pair(key: Seq<u8>, val: Seq<u8>, k: LeftViewKey)
    requires
        left_view_key(key) == Some(k),
        !key.contains(0x3du8),
        !key.contains(0x20u8),
        !val.contains(0x20u8),
    ensures
        crate::split::split_on(key + seq![0x3du8] + val, 0x20u8) == seq![key + seq![0x3du8] + val],
        crate::split::key_of(key + seq![0x3du8] + val, 0x3du8) == key,
        crate::split::has_value(key + seq![0x3du8] + val, 0x3du8),
        crate::split::value_of(key + seq![0x3du8] + val, 0x3du8) == val,
        forall|j: LeftViewKey| #[trigger] left_view_value(seq![key + seq![0x3du8] + val], j)
            == (if j == k { Some(val) } else { None }),
{
    let f = key + seq![0x3du8] + val;
    assert(!f.contains(0x20u8)) by {
        if f.contains(0x20u8) {
            let j: int = choose|j: int| 0 <= j < f.len() && f[j] == 0x20u8;
            if j < key.len() {
                assert(key[j] == f[j]);
            } else if j > key.len() {
                assert(val[j - key.len() - 1] == f[j]);
            }
        }
    }
    let e = Seq::<u8>::empty();
    crate::split::lemma_split_on_extend(e, f, 0x20u8);
    assert(e + f =~= f);
    assert(crate::split::split_on(e, 0x20u8) == seq![e]);
    assert(seq![e].update(0, f) =~= seq![f]);
    assert forall|j: int| 0 <= j < key.len() implies #[trigger] f[j] != 0x3du8 by {
        assert(f[j] == key[j]);
    }
    crate::split::lemma_key_of_is(f, 0x3du8, key.len() as int);
    assert(f.take(key.len() as int) =~= key);
    assert(crate::split::value_of(f, 0x3du8) =~= val);
    assert forall|j: LeftViewKey| #[trigger] left_view_value(seq![f], j) == (if j == k { Some(val) } else { None }) by {
        assert(seq![f].drop_last() =~= Seq::<Seq<u8>>::empty());
        assert(seq![f].last() == f);
        assert(left_view_value(Seq::<Seq<u8>>::empty(), j) is None);
        assert(crate::split::key_of(f, 0x3du8) == key);
    }
}

/// The number field `cfid` of a client-left-view event is read from the pair with that name:
/// the one pair `cfid=v`, with `v` in decimal, decodes (without panicking) to `v` in `cfid`
/// and the defaults in every other field.
pub proof fn lemma_left_view_cfid_field(v: usize)
    ensures
        left_view_decodable(crate::split::bytes_of("cfid") + seq![0x3du8] + crate::number::signed_decimal_bytes(v as int)),
        spec_left_view(crate::split::bytes_of("cfid") + seq![0x3du8] + crate::number::signed_decimal_bytes(v as int))
            == (LeftViewData {
                cfid: v,
                ctid: 0,
                reasonid: ReasonID::SwitchChannel,
                invokerid: 0,
                invokername: Seq::<char>::empty(),
                invokeruid: Seq::<char>::empty(),
                reasonmsg: Seq::<char>::empty(),
                bantime: 0,
                clid: 0,
            }),
{
    lemma_left_view_names();
    crate::codec::lemma_usize_decode_decimal(v as int);
    crate::number::lemma_encode_decimal_text(v as int);
    crate::number::lemma_decimal_bytes(v as nat);
    let d = crate::number::signed_decimal_bytes(v as int);
    assert(!d.contains(0x20u8)) by {
        if d.contains(0x20u8) {
            let j: int = choose|j: int| 0 <= j < d.len() && d[j] == 0x20u8;
            assert(crate::number::is_digit(d[j]));
        }
    }
    lemma_left_view_one_pair(crate::split::bytes_of("cfid"), d, LeftViewKey::Cfid);
    assert(left_view_field_ok(crate::split::bytes_of("cfid") + seq![0x3du8] + d));
}

/// The number field `ctid` of a client-left-view event is read from the pair with that name:
/// the one pair `ctid=v`, with `v` in decimal, decodes (without panicking) to `v` in `ctid`
/// and the defaults in every other field.
pub proof fn lemma_left_view_ctid_field(v: usize)
    ensures
        left_view_decodable(crate::split::bytes_of("ctid") + seq![0x3du8] + crate::number::signed_decimal_bytes(v as int)),
        spec_left_view(crate::split::bytes_of("ctid") + seq![0x3du8] + crate::number::signed_decimal_bytes(v as int))
            == (LeftViewData {
                cfid: 0,
                ctid: v,
                reasonid: ReasonID::SwitchChannel,
                invokerid: 0,
                invokername: Seq::<char>::empty(),
                invokeruid: Seq::<char>::empty(),
                reasonmsg: Seq::<char>::empty(),
                bantime: 0,
                clid: 0,
            }),
{
    lemma_left_view_names();
    crate::codec::lemma_usize_decode_decimal(v as int);
    crate::number::lemma_encode_decimal_text(v as int);
    crate::number::lemma_decimal_bytes(v as nat);
    let d = crate::number::signed_decimal_bytes(v as int);
    assert(!d.contains(0x20u8)) by {
        if d.contains(0x20u8) {
            let j: int = choose|j: int| 0 <= j < d.len() && d[j] == 0x20u8;
            assert(crate::number::is_digit(d[j]));
        }
    }
    lemma_left_view_one_pair(crate::split::bytes_of("ctid"), d, LeftViewKey::Ctid);
    assert(left_view_field_ok(crate::split::bytes_of("ctid") + seq![0x3du8] + d));
}

/// The number field `invokerid` of a client-left-view event is read from the pair with that name:
/// the one pair `invokerid=v`, with `v` in decimal, decodes (without panicking) to `v` in `invokerid`
/// and the defaults in every other field.
pub proof fn lemma_left_view_invokerid_field(v: usize)
    ensures
        left_view_decodable(crate::split::bytes_of("invokerid") + seq![0x3du8] + crate::number::signed_decimal_bytes(v as int)),
        spec_left_view(crate::split::bytes_of("invokerid") + seq![0x3du8] + crate::number::signed_decimal_bytes(v as int))
            == (LeftViewData {
                cfid: 0,
                ctid: 0,
                reasonid: ReasonID::SwitchChannel,
                invokerid: v,
                invokername: Seq::<char>::empty(),
                invokeruid: Seq::<char>::empty(),
                reasonmsg: Seq::<char>::empty(),
                bantime: 0,
                clid: 0,
            }),
{
    lemma_left_view_names();
    crate::codec::lemma_usize_decode_decimal(v as int);
    crate::number::lemma_encode_decimal_text(v as int);
    crate::number::lemma_decimal_bytes(v as nat);
    let d = crate::number::signed_decimal_bytes(v as int);
    assert(!d.contains(0x20u8)) by {
        if d.contains(0x20u8) {
            let j: int = choose|j: int| 0 <= j < d.len() && d[j] == 0x20u8;
            assert(crate::number::is_digit(d[j]));
        }
    }
    lemma_left_view_one_pair(crate::split::bytes_of("invokerid"), d, LeftViewKey::Invokerid);
    assert(left_view_field_ok(crate::split::bytes_of("invokerid") + seq![0x3du8] + d));
}

/// The number field `bantime` of a client-left-view event is read from the pair with that name:
/// the one pair `bantime=v`, with `v` in decimal, decodes (without panicking) to `v` in `bantime`
/// and the defaults in every other field.
pub proof fn lemma_left_view_bantime_field(v: usize)
    ensures
        left_view_decodable(crate::split::bytes_of("bantime") + seq![0x3du8] + crate::number::signed_decimal_bytes(v as int)),
        spec_left_view(crate::split::bytes_of("bantime") + seq![0x3du8] + crate::number::signed_decimal_bytes(v as int))
            == (LeftViewData {
                cfid: 0,
                ctid: 0,
                reasonid: ReasonID::SwitchChannel,
                invokerid: 0,
                invokername: Seq::<char>::empty(),
                invokeruid: Seq::<char>::empty(),
                reasonmsg: Seq::<char>::empty(),
                bantime: v,
                clid: 0,
            }),
{
    lemma_left_view_names();
    crate::codec::lemma_usize_decode_decimal(v as int);
    crate::number::lemma_encode_decimal_text(v as int);
    crate::number::lemma_decimal_bytes(v as nat);
    let d = crate::number::signed_decimal_bytes(v as int);
    assert(!d.contains(0x20u8)) by {
        if d.contains(0x20u8) {
            let j: int = choose|j: int| 0 <= j < d.len() && d[j] == 0x20u8;
            assert(crate::number::is_digit(d[j]));
        }
    }
    lemma_left_view_one_pair(crate::split::bytes_of("bantime"), d, LeftViewKey::Bantime);
    assert(left_view_field_ok(crate::split::bytes_of("bantime") + seq![0x3du8] + d));
}

/// The number field `clid` of a client-left-view event is read from the pair with that name:
/// the one pair `clid=v`, with `v` in decimal, decodes (without panicking) to `v` in `clid`
/// and the defaults in every other field.
pub proof fn lemma_left_view_clid_field(v: usize)
    ensures
        left_view_decodable(crate::split::bytes_of("clid") + seq![0x3du8] + crate::number::signed_decimal_bytes(v as int)),
        spec_left_view(crate::split::bytes_of("clid") + seq![0x3du8] + crate::number::signed_decimal_bytes(v as int))
            == (LeftViewData {
                cfid: 0,
                ctid: 0,
                reasonid: ReasonID::SwitchChannel,
                invokerid: 0,
                invokername: Seq::<char>::empty(),
                invokeruid: Seq::<char>::empty(),
                reasonmsg: Seq::<char>::empty(),
                bantime: 0,
                clid: v,
            }),
{
    lemma_left_view_names();
    crate::codec::lemma_usize_decode_decimal(v as int);
    crate::number::lemma_encode_decimal_text(v as int);
    crate::number::lemma_decimal_bytes(v as nat);
    let d = crate::number::signed_decimal_bytes(v as int);
    assert(!d.contains(0x20u8)) by {
        if d.contains(0x20u8) {
            let j: int = choose|j: int| 0 <= j < d.len() && d[j] == 0x20u8;
            assert(crate::number::is_digit(d[j]));
        }
    }
    lemma_left_view_one_pair(crate::split::bytes_of("clid"), d, LeftViewKey::Clid);
    assert(left_view_field_ok(crate::split::bytes_of("clid") + seq![0x3du8] + d));
}

/// The reason of a client-left-view event is read from the pair `reasonid=n`, numbered in the
/// order of the reasons' declaration.
pub proof fn lemma_left_view_reasonid_field(n: int)
    requires
        0 <= n <= 8,
    ensures
        left_view_decodable(crate::split::bytes_of("reasonid") + seq![0x3du8] + crate::number::signed_decimal_bytes(n)),
        spec_left_view(crate::split::bytes_of("reasonid") + seq![0x3du8] + crate::number::signed_decimal_bytes(n))
            == (LeftViewData {
                cfid: 0,
                ctid: 0,
                reasonid: seq![ReasonID::SwitchChannel, ReasonID::Moved, ReasonID::Timeout, ReasonID::ChannelKick, ReasonID::ServerKick, ReasonID::Ban, ReasonID::ServerLeave, ReasonID::Edited, ReasonID::ServerShutdown][n],
                invokerid: 0,
                invokername: Seq::<char>::empty(),
                invokeruid: Seq::<char>::empty(),
                reasonmsg: Seq::<char>::empty(),
                bantime: 0,
                clid: 0,
            }),
{
    lemma_left_view_names();
    lemma_reason_decode_numbers(n);
    crate::number::lemma_encode_decimal_text(n);
    crate::number::lemma_decimal_bytes(n as nat);
    let d = crate::number::signed_decimal_bytes(n);
    assert(!d.contains(0x20u8)) by {
        if d.contains(0x20u8) {
            let j: int = choose|j: int| 0 <= j < d.len() && d[j] == 0x20u8;
            assert(crate::number::is_digit(d[j]));
        }
    }
    lemma_left_view_one_pair(crate::split::bytes_of("reasonid"), d, LeftViewKey::Reasonid);
    assert(left_view_field_ok(crate::split::bytes_of("reasonid") + seq![0x3du8] + d));
}

/// The text field `invokername` of a client-left-view event is read from the pair with that name:
/// the one pair `invokername=` followed by the escaped text decodes to the text in `invokername` and the
/// defaults in every other field.
pub proof fn lemma_left_view_invokername_field(t: Seq<char>)
    ensures
        left_view_decodable(crate::split::bytes_of("invokername") + seq![0x3du8] + vstd::utf8::encode_utf8(crate::escape::escape(t))),
        spec_left_view(crate::split::bytes_of("invokername") + seq![0x3du8] + vstd::utf8::encode_utf8(crate::escape::escape(t)))
            == (LeftViewData {
                cfid: 0,
                ctid: 0,
                reasonid: ReasonID::SwitchChannel,
                invokerid: 0,
                invokername: t,
                invokeruid: Seq::<char>::empty(),
                reasonmsg: Seq::<char>::empty(),
                bantime: 0,
                clid: 0,
            }),
{
    lemma_left_view_names();
    crate::escape::lemma_decode_escaped_string(t);
    crate::escape::lemma_encode_escape(t);
    crate::escape::lemma_escape_bytes_no_separators(vstd::utf8::encode_utf8(t));
    let d = vstd::utf8::encode_utf8(crate::escape::escape(t));
    lemma_left_view_one_pair(crate::split::bytes_of("invokername"), d, LeftViewKey::Invokername);
    assert(left_view_field_ok(crate::split::bytes_of("invokername") + seq![0x3du8] + d));
}

/// The text field `invokeruid` of a client-left-view event is read from the pair with that name:
/// the one pair `invokeruid=` followed by the escaped text decodes to the text in `invokeruid` and the
/// defaults in every other field.
pub proof fn lemma_left_view_invokeruid_field(t: Seq<char>)
    ensures
        left_view_decodable(crate::split::bytes_of("invokeruid") + seq![0x3du8] + vstd::utf8::encode_utf8(crate::escape::escape(t))),
        spec_left_view(crate::split::bytes_of("invokeruid") + seq![0x3du8] + vstd::utf8::encode_utf8(crate::escape::escape(t)))
            == (LeftViewData {
                cfid: 0,
                ctid: 0,
                reasonid: ReasonID::SwitchChannel,
                invokerid: 0,
                invokername: Seq::<char>::empty(),
                invokeruid: t,
                reasonmsg: Seq::<char>::empty(),
                bantime: 0,
                clid: 0,
            }),
{
    lemma_left_view_names();
    crate::escape::lemma_decode_escaped_string(t);
    crate::escape::lemma_encode_escape(t);
    crate::escape::lemma_escape_bytes_no_separators(vstd::utf8::encode_utf8(t));
    let d = vstd::utf8::encode_utf8(crate::escape::escape(t));
    lemma_left_view_one_pair(crate::split::bytes_of("invokeruid"), d, LeftViewKey::Invokeruid);
    assert(left_view_field_ok(crate::split::bytes_of("invokeruid") + seq![0x3du8] + d));
}

/// The text field `reasonmsg` of a client-left-view event is read from the pair with that name:
/// the one pair `reasonmsg=` followed by the escaped text decodes to the text in `reasonmsg` and the
/// defaults in every other field.
pub proof fn lemma_left_view_reasonmsg_field(t: Seq<char>)
    ensures
        left_view_decodable(crate::split::bytes_of("reasonmsg") + seq![0x3du8] + vstd::utf8::encode_utf8(crate::escape::escape(t))),
        spec_left_view(crate::split::bytes_of("reasonmsg") + seq![0x3du8] + vstd::utf8::encode_utf8(crate::escape::escape(t)))
            == (LeftViewData {
                cfid: 0,
                ctid: 0,
                reasonid: ReasonID::SwitchChannel,
                invokerid: 0,
                invokername: Seq::<char>::empty(),
                invokeruid: Seq::<char>::empty(),
                reasonmsg: t,
                bantime: 0,
                clid: 0,
            }),
{
    lemma_left_view_names();
    crate::escape::lemma_decode_escaped_string(t);
    crate::escape::lemma_encode_escape(t);
    crate::escape::lemma_escape_bytes_no_separators(vstd::utf8::encode_utf8(t));
    let d = vstd::utf8::encode_utf8(crate::escape::escape(t));
    lemma_left_view_one_pair(crate::split::bytes_of("reasonmsg"), d, LeftViewKey::Reasonmsg);
    assert(left_view_field_ok(crate::split::bytes_of("reasonmsg") + seq![0x3du8] + d));
}

/// Returned from a "notifyclientleftview" event.
#[derive(Debug, Default)]
pub struct ClientLeftView {
    pub cfid: usize,
    pub ctid: usize,
    pub reasonid: ReasonID,
    pub invokerid: usize,
    pub invokername: String,
    pub invokeruid: String,
    pub reasonmsg: String,
    pub bantime: usize,
    pub clid: usize,
}

impl DeepView for ClientLeftView {
    type V = LeftViewData;

    open spec fn deep_view(&self) -> LeftViewData {
        LeftViewData {
            cfid: self.cfid,
            ctid: self.ctid,
            reasonid: self.reasonid,
            invokerid: self.invokerid,
            invokername: self.invokername@,
            invokeruid: self.invokeruid@,
            reasonmsg: self.reasonmsg@,
            bantime: self.bantime,
            clid: self.clid,
        }
    }
}

impl ClientLeftView {
    /// Whether `decode` returns on `buf` rather than panicking.
    pub fn decodable(buf: &[u8]) -> (res: bool)
        ensures
            res == left_view_decodable(buf@),
    {
        let parts = split_bytes(buf, 0x20);
        let ghost fs = crate::split::split_on(buf@, 0x20u8);
        let mut i: usize = 0;
        while i < parts.len()
            invariant
                i <= parts@.len(),
                parts@.len() == fs.len(),
                fs == crate::split::split_on(buf@, 0x20u8),
                forall|k: int| 0 <= k < parts@.len() ==> #[trigger] parts@[k]@ == fs[k],
                forall|k: int| 0 <= k < i ==> left_view_field_ok(#[trigger] fs[k]),
            decreases parts@.len() - i,
        {
            let (key, value) = split_key_value(parts[i].as_slice(), 0x3d);
            let ok = match classify_left_view_key(key.as_slice()) {
                Some(k) => match value {
                    None => false,
                    Some(val) => match k {
                        LeftViewKey::Reasonid => ReasonID::decodable(val.as_slice()) && ReasonID::decode(
                            val.as_slice(),
                        ).is_ok(),
                        LeftViewKey::Invokername | LeftViewKey::Invokeruid | LeftViewKey::Reasonmsg => String::decode(
                            val.as_slice(),
                        ).is_ok(),
                        _ => usize::decode(val.as_slice()).is_ok(),
                    },
                },
                None => true,
            };
            if !ok {
                return false;
            }
            i = i + 1;
        }
        true
    }

    /// Decodes a client-left-view event: ` `-separated `key=value` pairs, each field taken
    /// from the last pair that sets it; other keys are ignored.
    pub fn decode(buf: &[u8]) -> (res: Result<ClientLeftView, ()>)
        requires
            left_view_decodable(buf@),
        ensures
            res matches Ok(v) && v.deep_view() == spec_left_view(buf@),
    {
        let parts = split_bytes(buf, 0x20);
        let ghost fs = crate::split::split_on(buf@, 0x20u8);
        let mut st = ClientLeftView {
            cfid: 0,
            ctid: 0,
            reasonid: ReasonID::SwitchChannel,
            invokerid: 0,
            invokername: String::new(),
            invokeruid: String::new(),
            reasonmsg: String::new(),
            bantime: 0,
            clid: 0,
        };
        let mut i: usize = 0;
        proof {
            assert(fs.take(0) =~= Seq::<Seq<u8>>::empty());
        }
        while i < parts.len()
            invariant
                i <= parts@.len(),
                parts@.len() == fs.len(),
                fs == crate::split::split_on(buf@, 0x20u8),
                left_view_decodable(buf@),
                forall|k: int| 0 <= k < parts@.len() ==> #[trigger] parts@[k]@ == fs[k],
                    st.cfid == usize_bytes_field(left_view_value(fs.take(i as int), LeftViewKey::Cfid)),
                    st.ctid == usize_bytes_field(left_view_value(fs.take(i as int), LeftViewKey::Ctid)),
                    st.reasonid == reason_bytes_field(left_view_value(fs.take(i as int), LeftViewKey::Reasonid)),
                    st.invokerid == usize_bytes_field(left_view_value(fs.take(i as int), LeftViewKey::Invokerid)),
                    st.invokername@ == string_bytes_field(left_view_value(fs.take(i as int), LeftViewKey::Invokername)),
                    st.invokeruid@ == string_bytes_field(left_view_value(fs.take(i as int), LeftViewKey::Invokeruid)),
                    st.reasonmsg@ == string_bytes_field(left_view_value(fs.take(i as int), LeftViewKey::Reasonmsg)),
                    st.bantime == usize_bytes_field(left_view_value(fs.take(i as int), LeftViewKey::Bantime)),
                    st.clid == usize_bytes_field(left_view_value(fs.take(i as int), LeftViewKey::Clid)),
            decreases parts@.len() - i,
        {
            proof {
                lemma_left_view_value_step(fs, i as int, LeftViewKey::Cfid);
                lemma_left_view_value_step(fs, i as int, LeftViewKey::Ctid);
                lemma_left_view_value_step(fs, i as int, LeftViewKey::Reasonid);
                lemma_left_view_value_step(fs, i as int, LeftViewKey::Invokerid);
                lemma_left_view_value_step(fs, i as int, LeftViewKey::Invokername);
                lemma_left_view_value_step(fs, i as int, LeftViewKey::Invokeruid);
                lemma_left_view_value_step(fs, i as int, LeftViewKey::Reasonmsg);
                lemma_left_view_value_step(fs, i as int, LeftViewKey::Bantime);
                lemma_left_view_value_step(fs, i as int, LeftViewKey::Clid);
            }
            let (key, value) = split_key_value(parts[i].as_slice(), 0x3d);
            match classify_left_view_key(key.as_slice()) {
                Some(k) => {
                    if let Some(val) = value {
                        match k {
                        LeftViewKey::Cfid => {
                            if let Ok(x) = usize::decode(val.as_slice()) {
                                st.cfid = x;
                            }
                        },
                        LeftViewKey::Ctid => {
                            if let Ok(x) = usize::decode(val.as_slice()) {
                                st.ctid = x;
                            }
                        },
                        LeftViewKey::Reasonid => {
                            if let Ok(x) = ReasonID::decode(val.as_slice()) {
                                st.reasonid = x;
                            }
                        },
                        LeftViewKey::Invokerid => {
                            if let Ok(x) = usize::decode(val.as_slice()) {
                                st.invokerid = x;
                            }
                        },
                        LeftViewKey::Invokername => {
                            if let Ok(x) = String::decode(val.as_slice()) {
                                st.invokername = x;
                            }
                        },
                        LeftViewKey::Invokeruid => {
                            if let Ok(x) = String::decode(val.as_slice()) {
                                st.invokeruid = x;
                            }
                        },
                        LeftViewKey::Reasonmsg => {
                            if let Ok(x) = String::decode(val.as_slice()) {
                                st.reasonmsg = x;
                            }
                        },
                        LeftViewKey::Bantime => {
                            if let Ok(x) = usize::decode(val.as_slice()) {
                                st.bantime = x;
                            }
                        },
                        LeftViewKey::Clid => {
                            if let Ok(x) = usize::decode(val.as_slice()) {
                                st.clid = x;
                            }
                        },
                        }
                    }
                },
                None => {},
            }
            i = i + 1;
        }
        proof {
            assert(fs.take(i as int) =~= fs);
        }
        Ok(st)
    }
}

/// The handler that an event goes to.
#[derive(Clone, Copy, Debug, PartialEq, Eq, Structural)]
pub enum EventKind {
    ClientEnterView, ClientLeftView, ServerEdited, ChannelDescriptionChanged, ChannelPasswordChanged, ChannelMoved, ChannelEdited, ChannelCreated, ChannelDeleted, ClientMoved, TextMessage, TokenUsed,
}

/// The event that a name read off the server's stream stands for.
pub open spec fn spec_event_kind(name: Seq<u8>) -> Option<EventKind> {
    if name == crate::split::bytes_of("notifycliententerview") {
        Some(EventKind::ClientEnterView)
    } else if name == crate::split::bytes_of("notifyclientleftview") {
        Some(EventKind::ClientLeftView)
    } else if name == crate::split::bytes_of("notifyserveredited") {
        Some(EventKind::ServerEdited)
    } else if name == crate::split::bytes_of("notifychanneldescriptionchanged") {
        Some(EventKind::ChannelDescriptionChanged)
    } else if name == crate::split::bytes_of("notifychannelpasswordchanged") {
        Some(EventKind::ChannelPasswordChanged)
    } else if name == crate::split::bytes_of("notifychannelmoved") {
        Some(EventKind::ChannelMoved)
    } else if name == crate::split::bytes_of("notifychanneledited") {
        Some(EventKind::ChannelEdited)
    } else if name == crate::split::bytes_of("notifychannelcreated") {
        Some(EventKind::ChannelCreated)
    } else if name == crate::split::bytes_of("notifychanneldeleted") {
        Some(EventKind::ChannelDeleted)
    } else if name == crate::split::bytes_of("notifyclientmoved") {
        Some(EventKind::ClientMoved)
    } else if name == crate::split::bytes_of("notifytextmessage") {
        Some(EventKind::TextMessage)
    } else if name == crate::split::bytes_of("notifytokenused") {
        Some(EventKind::TokenUsed)
    } else {
        None
    }
}

/// Every event goes to the handler named after it: the name `notify` followed by a handler's
/// name selects that handler.
pub proof fn lemma_event_kind_names()
    ensures
        spec_event_kind(crate::split::bytes_of("notifycliententerview")) == Some(EventKind::ClientEnterView),
        spec_event_kind(crate::split::bytes_of("notifyclientleftview")) == Some(EventKind::ClientLeftView),
        spec_event_kind(crate::split::bytes_of("notifyserveredited")) == Some(EventKind::ServerEdited),
        spec_event_kind(crate::split::bytes_of("notifychanneldescriptionchanged")) == Some(EventKind::ChannelDescriptionChanged),
        spec_event_kind(crate::split::bytes_of("notifychannelpasswordchanged")) == Some(EventKind::ChannelPasswordChanged),
        spec_event_kind(crate::split::bytes_of("notifychannelmoved")) == Some(EventKind::ChannelMoved),
        spec_event_kind(crate::split::bytes_of("notifychanneledited")) == Some(EventKind::ChannelEdited),
        spec_event_kind(crate::split::bytes_of("notifychannelcreated")) == Some(EventKind::ChannelCreated),
        spec_event_kind(crate::split::bytes_of("notifychanneldeleted")) == Some(EventKind::ChannelDeleted),
        spec_event_kind(crate::split::bytes_of("notifyclientmoved")) == Some(EventKind::ClientMoved),
        spec_event_kind(crate::split::bytes_of("notifytextmessage")) == Some(EventKind::TextMessage),
        spec_event_kind(crate::split::bytes_of("notifytokenused")) == Some(EventKind::TokenUsed),
{
    reveal_strlit("notifycliententerview");
    reveal_strlit("notifyclientleftview");
    reveal_strlit("notifyserveredited");
    reveal_strlit("notifychanneldescriptionchanged");
    reveal_strlit("notifychannelpasswordchanged");
    reveal_strlit("notifychannelmoved");
    reveal_strlit("notifychanneledited");
    reveal_strlit("notifychannelcreated");
    reveal_strlit("notifychanneldeleted");
    reveal_strlit("notifyclientmoved");
    reveal_strlit("notifytextmessage");
    reveal_strlit("notifytokenused");
    assert(spec_event_kind(crate::split::bytes_of("notifycliententerview")) == Some(EventKind::ClientEnterView)) by {
    }
    assert(spec_event_kind(crate::split::bytes_of("notifyclientleftview")) == Some(EventKind::ClientLeftView)) by {
        crate::split::lemma_bytes_of_injective("notifyclientleftview", "notifycliententerview");
        assert("notifyclientleftview"@.len() != "notifycliententerview"@.len());
    }
    assert(spec_event_kind(crate::split::bytes_of("notifyserveredited")) == Some(EventKind::ServerEdited)) by {
        crate::split::lemma_bytes_of_injective("notifyserveredited", "notifycliententerview");
        assert("notifyserveredited"@.len() != "notifycliententerview"@.len());
        crate::split::lemma_bytes_of_injective("notifyserveredited", "notifyclientleftview");
        assert("notifyserveredited"@.len() != "notifyclientleftview"@.len());
    }
    assert(spec_event_kind(crate::split::bytes_of("notifychanneldescriptionchanged")) == Some(EventKind::ChannelDescriptionChanged)) by {
        crate::split::lemma_bytes_of_injective("notifychanneldescriptionchanged", "notifycliententerview");
        assert("notifychanneldescriptionchanged"@.len() != "notifycliententerview"@.len());
        crate::split::lemma_bytes_of_injective("notifychanneldescriptionchanged", "notifyclientleftview");
        assert("notifychanneldescriptionchanged"@.len() != "notifyclientleftview"@.len());
        crate::split::lemma_bytes_of_injective("notifychanneldescriptionchanged", "notifyserveredited");
        assert("notifychanneldescriptionchanged"@.len() != "notifyserveredited"@.len());
    }
    assert(spec_event_kind(crate::split::bytes_of("notifychannelpasswordchanged")) == Some(EventKind::ChannelPasswordChanged)) by {
        crate::split::lemma_bytes_of_injective("notifychannelpasswordchanged", "notifycliententerview");
        assert("notifychannelpasswordchanged"@.len() != "notifycliententerview"@.len());
        crate::split::lemma_bytes_of_injective("notifychannelpasswordchanged", "notifyclientleftview");
        assert("notifychannelpasswordchanged"@.len() != "notifyclientleftview"@.len());
        crate::split::lemma_bytes_of_injective("notifychannelpasswordchanged", "notifyserveredited");
        assert("notifychannelpasswordchanged"@.len() != "notifyserveredited"@.len());
        crate::split::lemma_bytes_of_injective("notifychannelpasswordchanged", "notifychanneldescriptionchanged");
        assert("notifychannelpasswordchanged"@.len() != "notifychanneldescriptionchanged"@.len());
    }
    assert(spec_event_kind(crate::split::bytes_of("notifychannelmoved")) == Some(EventKind::ChannelMoved)) by {
        crate::split::lemma_bytes_of_injective("notifychannelmoved", "notifycliententerview");
        assert("notifychannelmoved"@.len() != "notifycliententerview"@.len());
        crate::split::lemma_bytes_of_injective("notifychannelmoved", "notifyclientleftview");
        assert("notifychannelmoved"@.len() != "notifyclientleftview"@.len());
        crate::split::lemma_bytes_of_injective("notifychannelmoved", "notifyserveredited");
        assert("notifychannelmoved"@[6] != "notifyserveredited"@[6]);
        crate::split::lemma_bytes_of_injective("notifychannelmoved", "notifychanneldescriptionchanged");
        assert("notifychannelmoved"@.len() != "notifychanneldescriptionchanged"@.len());
        crate::split::lemma_bytes_of_injective("notifychannelmoved", "notifychannelpasswordchanged");
        assert("notifychannelmoved"@.len() != "notifychannelpasswordchanged"@.len());
    }
    assert(spec_event_kind(crate::split::bytes_of("notifychanneledited")) == Some(EventKind::ChannelEdited)) by {
        crate::split::lemma_bytes_of_injective("notifychanneledited", "notifycliententerview");
        assert("notifychanneledited"@.len() != "notifycliententerview"@.len());
        crate::split::lemma_bytes_of_injective("notifychanneledited", "notifyclientleftview");
        assert("notifychanneledited"@.len() != "notifyclientleftview"@.len());
        crate::split::lemma_bytes_of_injective("notifychanneledited", "notifyserveredited");
        assert("notifychanneledited"@.len() != "notifyserveredited"@.len());
        crate::split::lemma_bytes_of_injective("notifychanneledited", "notifychanneldescriptionchanged");
        assert("notifychanneledited"@.len() != "notifychanneldescriptionchanged"@.len());
        crate::split::lemma_bytes_of_injective("notifychanneledited", "notifychannelpasswordchanged");
        assert("notifychanneledited"@.len() != "notifychannelpasswordchanged"@.len());
        crate::split::lemma_bytes_of_injective("notifychanneledited", "notifychannelmoved");
        assert("notifychanneledited"@.len() != "notifychannelmoved"@.len());
    }
    assert(spec_event_kind(crate::split::bytes_of("notifychannelcreated")) == Some(EventKind::ChannelCreated)) by {
        crate::split::lemma_bytes_of_injective("notifychannelcreated", "notifycliententerview");
        assert("notifychannelcreated"@.len() != "notifycliententerview"@.len());
        crate::split::lemma_bytes_of_injective("notifychannelcreated", "notifyclientleftview");
        assert("notifychannelcreated"@[7] != "notifyclientleftview"@[7]);
        crate::split::lemma_bytes_of_injective("notifychannelcreated", "notifyserveredited");
        assert("notifychannelcreated"@.len() != "notifyserveredited"@.len());
        crate::split::lemma_bytes_of_injective("notifychannelcreated", "notifychanneldescriptionchanged");
        assert("notifychannelcreated"@.len() != "notifychanneldescriptionchanged"@.len());
        crate::split::lemma_bytes_of_injective("notifychannelcreated", "notifychannelpasswordchanged");
        assert("notifychannelcreated"@.len() != "notifychannelpasswordchanged"@.len());
        crate::split::lemma_bytes_of_injective("notifychannelcreated", "notifychannelmoved");
        assert("notifychannelcreated"@.len() != "notifychannelmoved"@.len());
        crate::split::lemma_bytes_of_injective("notifychannelcreated", "notifychanneledited");
        assert("notifychannelcreated"@.len() != "notifychanneledited"@.len());
    }
    assert(spec_event_kind(crate::split::bytes_of("notifychanneldeleted")) == Some(EventKind::ChannelDeleted)) by {
        crate::split::lemma_bytes_of_injective("notifychanneldeleted", "notifycliententerview");
        assert("notifychanneldeleted"@.len() != "notifycliententerview"@.len());
        crate::split::lemma_bytes_of_injective("notifychanneldeleted", "notifyclientleftview");
        assert("notifychanneldeleted"@[7] != "notifyclientleftview"@[7]);
        crate::split::lemma_bytes_of_injective("notifychanneldeleted", "notifyserveredited");
        assert("notifychanneldeleted"@.len() != "notifyserveredited"@.len());
        crate::split::lemma_bytes_of_injective("notifychanneldeleted", "notifychanneldescriptionchanged");
        assert("notifychanneldeleted"@.len() != "notifychanneldescriptionchanged"@.len());
        crate::split::lemma_bytes_of_injective("notifychanneldeleted", "notifychannelpasswordchanged");
        assert("notifychanneldeleted"@.len() != "notifychannelpasswordchanged"@.len());
        crate::split::lemma_bytes_of_injective("notifychanneldeleted", "notifychannelmoved");
        assert("notifychanneldeleted"@.len() != "notifychannelmoved"@.len());
        crate::split::lemma_bytes_of_injective("notifychanneldeleted", "notifychanneledited");
        assert("notifychanneldeleted"@.len() != "notifychanneledited"@.len());
        crate::split::lemma_bytes_of_injective("notifychanneldeleted", "notifychannelcreated");
        assert("notifychanneldeleted"@[13] != "notifychannelcreated"@[13]);
    }
    assert(spec_event_kind(crate::split::bytes_of("notifyclientmoved")) == Some(EventKind::ClientMoved)) by {
        crate::split::lemma_bytes_of_injective("notifyclientmoved", "notifycliententerview");
        assert("notifyclientmoved"@.len() != "notifycliententerview"@.len());
        crate::split::lemma_bytes_of_injective("notifyclientmoved", "notifyclientleftview");
        assert("notifyclientmoved"@.len() != "notifyclientleftview"@.len());
        crate::split::lemma_bytes_of_injective("notifyclientmoved", "notifyserveredited");
        assert("notifyclientmoved"@.len() != "notifyserveredited"@.len());
        crate::split::lemma_bytes_of_injective("notifyclientmoved", "notifychanneldescriptionchanged");
        assert("notifyclientmoved"@.len() != "notifychanneldescriptionchanged"@.len());
        crate::split::lemma_bytes_of_injective("notifyclientmoved", "notifychannelpasswordchanged");
        assert("notifyclientmoved"@.len() != "notifychannelpasswordchanged"@.len());
        crate::split::lemma_bytes_of_injective("notifyclientmoved", "notifychannelmoved");
        assert("notifyclientmoved"@.len() != "notifychannelmoved"@.len());
        crate::split::lemma_bytes_of_injective("notifyclientmoved", "notifychanneledited");
        assert("notifyclientmoved"@.len() != "notifychanneledited"@.len());
        crate::split::lemma_bytes_of_injective("notifyclientmoved", "notifychannelcreated");
        assert("notifyclientmoved"@.len() != "notifychannelcreated"@.len());
        crate::split::lemma_bytes_of_injective("notifyclientmoved", "notifychanneldeleted");
        assert("notifyclientmoved"@.len() != "notifychanneldeleted"@.len());
    }
    assert(spec_event_kind(crate::split::bytes_of("notifytextmessage")) == Some(EventKind::TextMessage)) by {
        crate::split::lemma_bytes_of_injective("notifytextmessage", "notifycliententerview");
        assert("notifytextmessage"@.len() != "notifycliententerview"@.len());
        crate::split::lemma_bytes_of_injective("notifytextmessage", "notifyclientleftview");
        assert("notifytextmessage"@.len() != "notifyclientleftview"@.len());
        crate::split::lemma_bytes_of_injective("notifytextmessage", "notifyserveredited");
        assert("notifytextmessage"@.len() != "notifyserveredited"@.len());
        crate::split::lemma_bytes_of_injective("notifytextmessage", "notifychanneldescriptionchanged");
        assert("notifytextmessage"@.len() != "notifychanneldescriptionchanged"@.len());
        crate::split::lemma_bytes_of_injective("notifytextmessage", "notifychannelpasswordchanged");
        assert("notifytextmessage"@.len() != "notifychannelpasswordchanged"@.len());
        crate::split::lemma_bytes_of_injective("notifytextmessage", "notifychannelmoved");
        assert("notifytextmessage"@.len() != "notifychannelmoved"@.len());
        crate::split::lemma_bytes_of_injective("notifytextmessage", "notifychanneledited");
        assert("notifytextmessage"@.len() != "notifychanneledited"@.len());
        crate::split::lemma_bytes_of_injective("notifytextmessage", "notifychannelcreated");
        assert("notifytextmessage"@.len() != "notifychannelcreated"@.len());
        crate::split::lemma_bytes_of_injective("notifytextmessage", "notifychanneldeleted");
        assert("notifytextmessage"@.len() != "notifychanneldeleted"@.len());
        crate::split::lemma_bytes_of_injective("notifytextmessage", "notifyclientmoved");
        assert("notifytextmessage"@[6] != "notifyclientmoved"@[6]);
    }
    assert(spec_event_kind(crate::split::bytes_of("notifytokenused")) == Some(EventKind::TokenUsed)) by {
        crate::split::lemma_bytes_of_injective("notifytokenused", "notifycliententerview");
        assert("notifytokenused"@.len() != "notifycliententerview"@.len());
        crate::split::lemma_bytes_of_injective("notifytokenused", "notifyclientleftview");
        assert("notifytokenused"@.len() != "notifyclientleftview"@.len());
        crate::split::lemma_bytes_of_injective("notifytokenused", "notifyserveredited");
        assert("notifytokenused"@.len() != "notifyserveredited"@.len());
        crate::split::lemma_bytes_of_injective("notifytokenused", "notifychanneldescriptionchanged");
        assert("notifytokenused"@.len() != "notifychanneldescriptionchanged"@.len());
        crate::split::lemma_bytes_of_injective("notifytokenused", "notifychannelpasswordchanged");
        assert("notifytokenused"@.len() != "notifychannelpasswordchanged"@.len());
        crate::split::lemma_bytes_of_injective("notifytokenused", "notifychannelmoved");
        assert("notifytokenused"@.len() != "notifychannelmoved"@.len());
        crate::split::lemma_bytes_of_injective("notifytokenused", "notifychanneledited");
        assert("notifytokenused"@.len() != "notifychanneledited"@.len());
        crate::split::lemma_bytes_of_injective("notifytokenused", "notifychannelcreated");
        assert("notifytokenused"@.len() != "notifychannelcreated"@.len());
        crate::split::lemma_bytes_of_injective("notifytokenused", "notifychanneldeleted");
        assert("notifytokenused"@.len() != "notifychanneldeleted"@.len());
        crate::split::lemma_bytes_of_injective("notifytokenused", "notifyclientmoved");
        assert("notifytokenused"@.len() != "notifyclientmoved"@.len());
        crate::split::lemma_bytes_of_injective("notifytokenused", "notifytextmessage");
        assert("notifytokenused"@.len() != "notifytextmessage"@.len());
    }
}

/// No two event names go to the same handler.
pub proof fn lemma_event_kind_injective(a: Seq<u8>, b: Seq<u8>)
    requires
        spec_event_kind(a) is Some,
        spec_event_kind(a) == spec_event_kind(b),
    ensures
        a == b,
{
}

/// Finds the event that a name read off the server's stream stands for.
pub fn event_kind(name: &[u8]) -> (res: Option<EventKind>)
    ensures
        res == spec_event_kind(name@),
{
    if bytes_eq(name, "notifycliententerview".as_bytes()) {
        Some(EventKind::ClientEnterView)
    } else if bytes_eq(name, "notifyclientleftview".as_bytes()) {
        Some(EventKind::ClientLeftView)
    } else if bytes_eq(name, "notifyserveredited".as_bytes()) {
        Some(EventKind::ServerEdited)
    } else if bytes_eq(name, "notifychanneldescriptionchanged".as_bytes()) {
        Some(EventKind::ChannelDescriptionChanged)
    } else if bytes_eq(name, "notifychannelpasswordchanged".as_bytes()) {
        Some(EventKind::ChannelPasswordChanged)
    } else if bytes_eq(name, "notifychannelmoved".as_bytes()) {
        Some(EventKind::ChannelMoved)
    } else if bytes_eq(name, "notifychanneledited".as_bytes()) {
        Some(EventKind::ChannelEdited)
    } else if bytes_eq(name, "notifychannelcreated".as_bytes()) {
        Some(EventKind::ChannelCreated)
    } else if bytes_eq(name, "notifychanneldeleted".as_bytes()) {
        Some(EventKind::ChannelDeleted)
    } else if bytes_eq(name, "notifyclientmoved".as_bytes()) {
        Some(EventKind::ClientMoved)
    } else if bytes_eq(name, "notifytextmessage".as_bytes()) {
        Some(EventKind::TextMessage)
    } else if bytes_eq(name, "notifytokenused".as_bytes()) {
        Some(EventKind::TokenUsed)
    } else {
        None
    }
}

/// Where an event read off the stream goes: the handler that its name (the part before the
/// first space) selects, and the rest of the bytes as its data; `None` where the buffer holds
/// no space, and so no event data, or where the name is no event's.
pub fn route_event(buf: &[u8]) -> (res: Option<(EventKind, Vec<u8>)>)
    ensures
        match res {
            Some((kind, rest)) => crate::split::has_value(buf@, 0x20u8)
                && spec_event_kind(crate::split::key_of(buf@, 0x20u8)) == Some(kind)
                && rest@ == crate::split::value_of(buf@, 0x20u8),
            None => !crate::split::has_value(buf@, 0x20u8)
                || spec_event_kind(crate::split::key_of(buf@, 0x20u8)) is None,
        },
{
    let (name, rest) = split_key_value(buf, 0x20);
    match rest {
        Some(rest) => match event_kind(name.as_slice()) {
            Some(kind) => Some((kind, rest)),
            None => None,
        },
        None => None,
    }
}

/// The event that a notification's name stands for, where a handler takes it as a raw
/// response (client-left-view events are not among them).
pub open spec fn spec_notify_event_kind(name: Seq<char>) -> Option<EventKind> {
    if name == "notifycliententerview"@ {
        Some(EventKind::ClientEnterView)
    } else if name == "notifyserveredited"@ {
        Some(EventKind::ServerEdited)
    } else if name == "notifychanneldescriptionchanged"@ {
        Some(EventKind::ChannelDescriptionChanged)
    } else if name == "notifychannelpasswordchanged"@ {
        Some(EventKind::ChannelPasswordChanged)
    } else if name == "notifychannelmoved"@ {
        Some(EventKind::ChannelMoved)
    } else if name == "notifychanneledited"@ {
        Some(EventKind::ChannelEdited)
    } else if name == "notifychannelcreated"@ {
        Some(EventKind::ChannelCreated)
    } else if name == "notifychanneldeleted"@ {
        Some(EventKind::ChannelDeleted)
    } else if name == "notifyclientmoved"@ {
        Some(EventKind::ClientMoved)
    } else if name == "notifytextmessage"@ {
        Some(EventKind::TextMessage)
    } else if name == "notifytokenused"@ {
        Some(EventKind::TokenUsed)
    } else {
        None
    }
}

/// Finds the event that a notification's name stands for.
pub fn notify_event_kind(name: &str) -> (res: Option<EventKind>)
    ensures
        res == spec_notify_event_kind(name@),
{
    if str_eq(name, "notifycliententerview") {
        Some(EventKind::ClientEnterView)
    } else if str_eq(name, "notifyserveredited") {
        Some(EventKind::ServerEdited)
    } else if str_eq(name, "notifychanneldescriptionchanged") {
        Some(EventKind::ChannelDescriptionChanged)
    } else if str_eq(name, "notifychannelpasswordchanged") {
        Some(EventKind::ChannelPasswordChanged)
    } else if str_eq(name, "notifychannelmoved") {
        Some(EventKind::ChannelMoved)
    } else if str_eq(name, "notifychanneledited") {
        Some(EventKind::ChannelEdited)
    } else if str_eq(name, "notifychannelcreated") {
        Some(EventKind::ChannelCreated)
    } else if str_eq(name, "notifychanneldeleted") {
        Some(EventKind::ChannelDeleted)
    } else if str_eq(name, "notifyclientmoved") {
        Some(EventKind::ClientMoved)
    } else if str_eq(name, "notifytextmessage") {
        Some(EventKind::TextMessage)
    } else if str_eq(name, "notifytokenused") {
        Some(EventKind::TokenUsed)
    } else {
        None
    }
}

/// Every notification that a handler takes as a raw response goes to the handler named after
/// it.
pub proof fn lemma_notify_event_kind_names()
    ensures
        spec_notify_event_kind("notifycliententerview"@) == Some(EventKind::ClientEnterView),
        spec_notify_event_kind("notifyserveredited"@) == Some(EventKind::ServerEdited),
        spec_notify_event_kind("notifychanneldescriptionchanged"@) == Some(EventKind::ChannelDescriptionChanged),
        spec_notify_event_kind("notifychannelpasswordchanged"@) == Some(EventKind::ChannelPasswordChanged),
        spec_notify_event_kind("notifychannelmoved"@) == Some(EventKind::ChannelMoved),
        spec_notify_event_kind("notifychanneledited"@) == Some(EventKind::ChannelEdited),
        spec_notify_event_kind("notifychannelcreated"@) == Some(EventKind::ChannelCreated),
        spec_notify_event_kind("notifychanneldeleted"@) == Some(EventKind::ChannelDeleted),
        spec_notify_event_kind("notifyclientmoved"@) == Some(EventKind::ClientMoved),
        spec_notify_event_kind("notifytextmessage"@) == Some(EventKind::TextMessage),
        spec_notify_event_kind("notifytokenused"@) == Some(EventKind::TokenUsed),
{
    reveal_strlit("notifycliententerview");
    reveal_strlit("notifyserveredited");
    reveal_strlit("notifychanneldescriptionchanged");
    reveal_strlit("notifychannelpasswordchanged");
    reveal_strlit("notifychannelmoved");
    reveal_strlit("notifychanneledited");
    reveal_strlit("notifychannelcreated");
    reveal_strlit("notifychanneldeleted");
    reveal_strlit("notifyclientmoved");
    reveal_strlit("notifytextmessage");
    reveal_strlit("notifytokenused");
    assert(spec_notify_event_kind("notifycliententerview"@) == Some(EventKind::ClientEnterView)) by {
    }
    assert(spec_notify_event_kind("notifyserveredited"@) == Some(EventKind::ServerEdited)) by {
        assert("notifyserveredited"@.len() != "notifycliententerview"@.len());
    }
    assert(spec_notify_event_kind("notifychanneldescriptionchanged"@) == Some(EventKind::ChannelDescriptionChanged)) by {
        assert("notifychanneldescriptionchanged"@.len() != "notifycliententerview"@.len());
        assert("notifychanneldescriptionchanged"@.len() != "notifyserveredited"@.len());
    }
    assert(spec_notify_event_kind("notifychannelpasswordchanged"@) == Some(EventKind::ChannelPasswordChanged)) by {
        assert("notifychannelpasswordchanged"@.len() != "notifycliententerview"@.len());
        assert("notifychannelpasswordchanged"@.len() != "notifyserveredited"@.len());
        assert("notifychannelpasswordchanged"@.len() != "notifychanneldescriptionchanged"@.len());
    }
    assert(spec_notify_event_kind("notifychannelmoved"@) == Some(EventKind::ChannelMoved)) by {
        assert("notifychannelmoved"@.len() != "notifycliententerview"@.len());
        assert("notifychannelmoved"@[6] != "notifyserveredited"@[6]);
        assert("notifychannelmoved"@.len() != "notifychanneldescriptionchanged"@.len());
        assert("notifychannelmoved"@.len() != "notifychannelpasswordchanged"@.len());
    }
    assert(spec_notify_event_kind("notifychanneledited"@) == Some(EventKind::ChannelEdited)) by {
        assert("notifychanneledited"@.len() != "notifycliententerview"@.len());
        assert("notifychanneledited"@.len() != "notifyserveredited"@.len());
        assert("notifychanneledited"@.len() != "notifychanneldescriptionchanged"@.len());
        assert("notifychanneledited"@.len() != "notifychannelpasswordchanged"@.len());
        assert("notifychanneledited"@.len() != "notifychannelmoved"@.len());
    }
    assert(spec_notify_event_kind("notifychannelcreated"@) == Some(EventKind::ChannelCreated)) by {
        assert("notifychannelcreated"@.len() != "notifycliententerview"@.len());
        assert("notifychannelcreated"@.len() != "notifyserveredited"@.len());
        assert("notifychannelcreated"@.len() != "notifychanneldescriptionchanged"@.len());
        assert("notifychannelcreated"@.len() != "notifychannelpasswordchanged"@.len());
        assert("notifychannelcreated"@.len() != "notifychannelmoved"@.len());
        assert("notifychannelcreated"@.len() != "notifychanneledited"@.len());
    }
    assert(spec_notify_event_kind("notifychanneldeleted"@) == Some(EventKind::ChannelDeleted)) by {
        assert("notifychanneldeleted"@.len() != "notifycliententerview"@.len());
        assert("notifychanneldeleted"@.len() != "notifyserveredited"@.len());
        assert("notifychanneldeleted"@.len() != "notifychanneldescriptionchanged"@.len());
        assert("notifychanneldeleted"@.len() != "notifychannelpasswordchanged"@.len());
        assert("notifychanneldeleted"@.len() != "notifychannelmoved"@.len());
        assert("notifychanneldeleted"@.len() != "notifychanneledited"@.len());
        assert("notifychanneldeleted"@[13] != "notifychannelcreated"@[13]);
    }
    assert(spec_notify_event_kind("notifyclientmoved"@) == Some(EventKind::ClientMoved)) by {
        assert("notifyclientmoved"@.len() != "notifycliententerview"@.len());
        assert("notifyclientmoved"@.len() != "notifyserveredited"@.len());
        assert("notifyclientmoved"@.len() != "notifychanneldescriptionchanged"@.len());
        assert("notifyclientmoved"@.len() != "notifychannelpasswordchanged"@.len());
        assert("notifyclientmoved"@.len() != "notifychannelmoved"@.len());
        assert("notifyclientmoved"@.len() != "notifychanneledited"@.len());
        assert("notifyclientmoved"@.len() != "notifychannelcreated"@.len());
        assert("notifyclientmoved"@.len() != "notifychanneldeleted"@.len());
    }
    assert(spec_notify_event_kind("notifytextmessage"@) == Some(EventKind::TextMessage)) by {
        assert("notifytextmessage"@.len() != "notifycliententerview"@.len());
        assert("notifytextmessage"@.len() != "notifyserveredited"@.len());
        assert("notifytextmessage"@.len() != "notifychanneldescriptionchanged"@.len());
        assert("notifytextmessage"@.len() != "notifychannelpasswordchanged"@.len());
        assert("notifytextmessage"@.len() != "notifychannelmoved"@.len());
        assert("notifytextmessage"@.len() != "notifychanneledited"@.len());
        assert("notifytextmessage"@.len() != "notifychannelcreated"@.len());
        assert("notifytextmessage"@.len() != "notifychanneldeleted"@.len());
        assert("notifytextmessage"@[6] != "notifyclientmoved"@[6]);
    }
    assert(spec_notify_event_kind("notifytokenused"@) == Some(EventKind::TokenUsed)) by {
        assert("notifytokenused"@.len() != "notifycliententerview"@.len());
        assert("notifytokenused"@.len() != "notifyserveredited"@.len());
        assert("notifytokenused"@.len() != "notifychanneldescriptionchanged"@.len());
        assert("notifytokenused"@.len() != "notifychannelpasswordchanged"@.len());
        assert("notifytokenused"@.len() != "notifychannelmoved"@.len());
        assert("notifytokenused"@.len() != "notifychanneledited"@.len());
        assert("notifytokenused"@.len() != "notifychannelcreated"@.len());
        assert("notifytokenused"@.len() != "notifychanneldeleted"@.len());
        assert("notifytokenused"@.len() != "notifyclientmoved"@.len());
        assert("notifytokenused"@.len() != "notifytextmessage"@.len());
    }
}

/// No two notification names go to the same handler.
pub proof fn lemma_notify_event_kind_injective(a: Seq<char>, b: Seq<char>)
    requires
        spec_notify_event_kind(a) is Some,
        spec_notify_event_kind(a) == spec_notify_event_kind(b),
    ensures
        a == b,
{
}

/// A notification name goes to the same handler whether it is read as text or as the bytes
/// off the stream.
pub proof fn lemma_notify_event_kind_agrees(name: Seq<char>)
    requires
        spec_notify_event_kind(name) is Some,
    ensures
        spec_event_kind(vstd::utf8::encode_utf8(name)) == spec_notify_event_kind(name),
{
    lemma_event_kind_names();
}

} // verus!
