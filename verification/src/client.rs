//! Information about a client, as the `clientinfo` command returns it.
use vstd::prelude::*;
use crate::codec::Decode;
use crate::error::{DecodeFailure, DecodeFailureView};
use crate::split::{bytes_eq, split_bytes, split_key_value};

verus! {

/// The fields of a client information response.
#[derive(Clone, Copy, Debug, PartialEq, Eq, Structural)]
pub enum ClientInfoKey {
    Clid, Cid, ClientDatabaseId, ClientNickname, ClientType,
}

/// The field that a key names, if it names one.
pub open spec fn client_info_key(k: Seq<u8>) -> Option<ClientInfoKey> {
    if k == crate::split::bytes_of("clid") {
        Some(ClientInfoKey::Clid)
    } else if k == crate::split::bytes_of("cid") {
        Some(ClientInfoKey::Cid)
    } else if k == crate::split::bytes_of("client_database_id") {
        Some(ClientInfoKey::ClientDatabaseId)
    } else if k == crate::split::bytes_of("client_nickname") {
        Some(ClientInfoKey::ClientNickname)
    } else if k == crate::split::bytes_of("client_type") {
        Some(ClientInfoKey::ClientType)
    } else {
        None
    }
}

fn classify_client_info_key(k: &[u8]) -> (res: Option<ClientInfoKey>)
    ensures
        res == client_info_key(k@),
{
    if bytes_eq(k, "clid".as_bytes()) {
        Some(ClientInfoKey::Clid)
    } else if bytes_eq(k, "cid".as_bytes()) {
        Some(ClientInfoKey::Cid)
    } else if bytes_eq(k, "client_database_id".as_bytes()) {
        Some(ClientInfoKey::ClientDatabaseId)
    } else if bytes_eq(k, "client_nickname".as_bytes()) {
        Some(ClientInfoKey::ClientNickname)
    } else if bytes_eq(k, "client_type".as_bytes()) {
        Some(ClientInfoKey::ClientType)
    } else {
        None
    }
}

/// The value of the last pair that sets the given field.
pub open spec fn client_info_value(fields: Seq<Seq<u8>>, key: ClientInfoKey) -> Option<Seq<u8>>
    decreases fields.len(),
{
    if fields.len() == 0 {
        None
    } else {
        let f = fields.last();
        if client_info_key(crate::split::key_of(f, 0x3du8)) == Some(key) && crate::split::has_value(f, 0x3du8) {
            Some(crate::split::value_of(f, 0x3du8))
        } else {
            client_info_value(fields.drop_last(), key)
        }
    }
}

proof fn lemma_client_info_value_step(fs: Seq<Seq<u8>>, i: int, key: ClientInfoKey)
    requires
        0 <= i < fs.len(),
    ensures
        client_info_value(fs.take(i + 1), key) == (if client_info_key(crate::split::key_of(fs[i], 0x3du8)) == Some(key)
            && crate::split::has_value(fs[i], 0x3du8) {
            Some(crate::split::value_of(fs[i], 0x3du8))
        } else {
            client_info_value(fs.take(i), key)
        }),
{
    assert(fs.take(i + 1).drop_last() =~= fs.take(i));
    assert(fs.take(i + 1).last() == fs[i]);
}

/// The error of a pair whose key names a field and whose value does not decode.
pub open spec fn client_info_field_error(f: Seq<u8>) -> Option<DecodeFailureView> {
    if !crate::split::has_value(f, 0x3du8) {
        None
    } else {
        let v = crate::split::value_of(f, 0x3du8);
        match client_info_key(crate::split::key_of(f, 0x3du8)) {
            None => None,
            Some(ClientInfoKey::Clid) => match <u64 as Decode<u64>>::spec_decode(v) {
                Ok(_) => None,
                Err(e) => Some(e),
            },
            Some(ClientInfoKey::Cid) => match <u64 as Decode<u64>>::spec_decode(v) {
                Ok(_) => None,
                Err(e) => Some(e),
            },
            Some(ClientInfoKey::ClientDatabaseId) => match <u64 as Decode<u64>>::spec_decode(v) {
                Ok(_) => None,
                Err(e) => Some(e),
            },
            Some(ClientInfoKey::ClientNickname) => match <String as Decode<String>>::spec_decode(v) {
                Ok(_) => None,
                Err(e) => Some(e),
            },
            Some(ClientInfoKey::ClientType) => match <u8 as Decode<u8>>::spec_decode(v) {
                Ok(_) => None,
                Err(e) => Some(e),
            },
        }
    }
}

/// The error of the first pair that fails, reading from the left.
pub open spec fn client_info_first_error(fields: Seq<Seq<u8>>) -> Option<DecodeFailureView>
    decreases fields.len(),
{
    if fields.len() == 0 {
        None
    } else {
        match client_info_first_error(fields.drop_last()) {
            Some(e) => Some(e),
            None => client_info_field_error(fields.last()),
        }
    }
}

proof fn lemma_client_info_error_prefix(fs: Seq<Seq<u8>>, n: int)
    requires
        0 <= n <= fs.len(),
        client_info_first_error(fs.take(n)) is Some,
    ensures
        client_info_first_error(fs) == client_info_first_error(fs.take(n)),
    decreases fs.len() - n,
{
    if n < fs.len() {
        assert(fs.take(n + 1).drop_last() =~= fs.take(n));
        lemma_client_info_error_prefix(fs, n + 1);
    } else {
        assert(fs.take(n) =~= fs);
    }
}

/// What a client information response holds.
pub struct ClientInfoData {
    pub clid: u64,
    pub cid: u64,
    pub client_database_id: u64,
    pub client_nickname: Seq<char>,
    pub client_type: u8,
}

/// What decoding a client information response gives: ` `-separated `key=value` pairs;
/// a pair without `=` or with another key is skipped; the first value that does not decode
/// decides the error; otherwise each field comes from the last pair that sets it.
pub open spec fn spec_decode_client_info(buf: Seq<u8>) -> Result<ClientInfoData, DecodeFailureView> {
    let fs = crate::split::split_on(buf, 0x20u8);
    match client_info_first_error(fs) {
        Some(e) => Err(e),
        None => Ok(ClientInfoData {
            clid: match client_info_value(fs, ClientInfoKey::Clid) {
            Some(b) => match <u64 as Decode<u64>>::spec_decode(b) {
                Ok(x) => x,
                Err(_) => 0,
            },
            None => 0,
        },
            cid: match client_info_value(fs, ClientInfoKey::Cid) {
            Some(b) => match <u64 as Decode<u64>>::spec_decode(b) {
                Ok(x) => x,
                Err(_) => 0,
            },
            None => 0,
        },
            client_database_id: match client_info_value(fs, ClientInfoKey::ClientDatabaseId) {
            Some(b) => match <u64 as Decode<u64>>::spec_decode(b) {
                Ok(x) => x,
                Err(_) => 0,
            },
            None => 0,
        },
            client_nickname: match client_info_value(fs, ClientInfoKey::ClientNickname) {
            Some(b) => match <String as Decode<String>>::spec_decode(b) {
                Ok(x) => x,
                Err(_) => Seq::empty(),
            },
            None => Seq::empty(),
        },
            client_type: match client_info_value(fs, ClientInfoKey::ClientType) {
            Some(b) => match <u8 as Decode<u8>>::spec_decode(b) {
                Ok(x) => x,
                Err(_) => 0,
            },
            None => 0,
        },
        }),
    }
}

/// Information about a client.
#[derive(Debug, Default)]
pub struct ClientInfo {
    pub clid: u64,
    pub cid: u64,
    pub client_database_id: u64,
    pub client_nickname: String,
    pub client_type: u8,
}

impl DeepView for ClientInfo {
    type V = ClientInfoData;

    open spec fn deep_view(&self) -> ClientInfoData {
        ClientInfoData {
            clid: self.clid,
            cid: self.cid,
            client_database_id: self.client_database_id,
            client_nickname: self.client_nickname@,
            client_type: self.client_type,
        }
    }
}

impl Decode<ClientInfo> for ClientInfo {
    open spec fn spec_decode(buf: Seq<u8>) -> Result<ClientInfoData, DecodeFailureView> {
        spec_decode_client_info(buf)
    }

    fn decode(buf: &[u8]) -> (res: Result<ClientInfo, DecodeFailure>) {
        let parts = split_bytes(buf, 0x20);
        let ghost fs = crate::split::split_on(buf@, 0x20u8);
        let mut st = ClientInfo {
            clid: 0,
            cid: 0,
            client_database_id: 0,
            client_nickname: String::new(),
            client_type: 0,
        };
        let mut i: usize = 0;
        proof {
            assert(fs.take(0) =~= Seq::<Seq<u8>>::empty());
        }
        while i < parts.len()
            invariant
                i <= parts@.len(),
                parts@.len() == fs.len(),
                fs == crate::split::split_on(buf@, 0x20u8),
                forall|k: int| 0 <= k < parts@.len() ==> #[trigger] parts@[k]@ == fs[k],
                client_info_first_error(fs.take(i as int)) is None,
                st.clid == (match client_info_value(fs.take(i as int), ClientInfoKey::Clid) {
            Some(b) => match <u64 as Decode<u64>>::spec_decode(b) {
                Ok(x) => x,
                Err(_) => 0,
            },
            None => 0,
        }),
                st.cid == (match client_info_value(fs.take(i as int), ClientInfoKey::Cid) {
            Some(b) => match <u64 as Decode<u64>>::spec_decode(b) {
                Ok(x) => x,
                Err(_) => 0,
            },
            None => 0,
        }),
                st.client_database_id == (match client_info_value(fs.take(i as int), ClientInfoKey::ClientDatabaseId) {
            Some(b) => match <u64 as Decode<u64>>::spec_decode(b) {
                Ok(x) => x,
                Err(_) => 0,
            },
            None => 0,
        }),
                st.client_nickname@ == (match client_info_value(fs.take(i as int), ClientInfoKey::ClientNickname) {
            Some(b) => match <String as Decode<String>>::spec_decode(b) {
                Ok(x) => x,
                Err(_) => Seq::empty(),
            },
            None => Seq::empty(),
        }),
                st.client_type == (match client_info_value(fs.take(i as int), ClientInfoKey::ClientType) {
            Some(b) => match <u8 as Decode<u8>>::spec_decode(b) {
                Ok(x) => x,
                Err(_) => 0,
            },
            None => 0,
        }),
            decreases parts@.len() - i,
        {
            proof {
                assert(fs.take(i + 1).drop_last() =~= fs.take(i as int));
                assert(fs.take(i + 1).last() == fs[i as int]);
                lemma_client_info_value_step(fs, i as int, ClientInfoKey::Clid);
                lemma_client_info_value_step(fs, i as int, ClientInfoKey::Cid);
                lemma_client_info_value_step(fs, i as int, ClientInfoKey::ClientDatabaseId);
                lemma_client_info_value_step(fs, i as int, ClientInfoKey::ClientNickname);
                lemma_client_info_value_step(fs, i as int, ClientInfoKey::ClientType);
            }
            let (key, value) = split_key_value(parts[i].as_slice(), 0x3d);
            if let Some(val) = value {
                match classify_client_info_key(key.as_slice()) {
                    Some(k) => match k {
                        ClientInfoKey::Clid => match u64::decode(val.as_slice()) {
                            Ok(x) => {
                                st.clid = x;
                            },
                            Err(e) => {
                                proof {
                                    lemma_client_info_error_prefix(fs, i as int + 1);
                                }
                                return Err(e);
                            },
                        },
                        ClientInfoKey::Cid => match u64::decode(val.as_slice()) {
                            Ok(x) => {
                                st.cid = x;
                            },
                            Err(e) => {
                                proof {
                                    lemma_client_info_error_prefix(fs, i as int + 1);
                                }
                                return Err(e);
                            },
                        },
                        ClientInfoKey::ClientDatabaseId => match u64::decode(val.as_slice()) {
                            Ok(x) => {
                                st.client_database_id = x;
                            },
                            Err(e) => {
                                proof {
                                    lemma_client_info_error_prefix(fs, i as int + 1);
                                }
                                return Err(e);
                            },
                        },
                        ClientInfoKey::ClientNickname => match String::decode(val.as_slice()) {
                            Ok(x) => {
                                st.client_nickname = x;
                            },
                            Err(e) => {
                                proof {
                                    lemma_client_info_error_prefix(fs, i as int + 1);
                                }
                                return Err(e);
                            },
                        },
                        ClientInfoKey::ClientType => match u8::decode(val.as_slice()) {
                            Ok(x) => {
                                st.client_type = x;
                            },
                            Err(e) => {
                                proof {
                                    lemma_client_info_error_prefix(fs, i as int + 1);
                                }
                                return Err(e);
                            },
                        },
                    },
                    None => {},
                }
            }
            i = i + 1;
        }
        proof {
            assert(fs.take(i as int) =~= fs);
        }
        Ok(st)
    }
}

/// Bytes that are all lower-case ASCII letters or `_` hold no `=` and no space.
proof fn lemma_name_bytes(b: Seq<u8>)
    requires
        forall|j: int| 0 <= j < b.len() ==> (0x61 <= #[trigger] b[j] <= 0x7a || b[j] == 0x5f),
    ensures
        !b.contains(0x3du8),
        !b.contains(0x20u8),
{
}

/// The field names of a client information response, and the field each one names.
proof fn lemma_client_info_names()
    ensures
        client_info_key(crate::split::bytes_of("clid")) == Some(ClientInfoKey::Clid),
        !crate::split::bytes_of("clid").contains(0x3du8) && !crate::split::bytes_of("clid").contains(0x20u8),
        client_info_key(crate::split::bytes_of("cid")) == Some(ClientInfoKey::Cid),
        !crate::split::bytes_of("cid").contains(0x3du8) && !crate::split::bytes_of("cid").contains(0x20u8),
        client_info_key(crate::split::bytes_of("client_database_id")) == Some(ClientInfoKey::ClientDatabaseId),
        !crate::split::bytes_of("client_database_id").contains(0x3du8) && !crate::split::bytes_of("client_database_id").contains(0x20u8),
        client_info_key(crate::split::bytes_of("client_nickname")) == Some(ClientInfoKey::ClientNickname),
        !crate::split::bytes_of("client_nickname").contains(0x3du8) && !crate::split::bytes_of("client_nickname").contains(0x20u8),
        client_info_key(crate::split::bytes_of("client_type")) == Some(ClientInfoKey::ClientType),
        !crate::split::bytes_of("client_type").contains(0x3du8) && !crate::split::bytes_of("client_type").contains(0x20u8),
{
    reveal_strlit("clid");
    vstd::utf8::is_ascii_chars_encode_utf8("clid"@);
    assert(crate::split::bytes_of("clid") =~= seq![0x63u8, 0x6c, 0x69, 0x64]);
    lemma_name_bytes(crate::split::bytes_of("clid"));
    reveal_strlit("cid");
    vstd::utf8::is_ascii_chars_encode_utf8("cid"@);
    assert(crate::split::bytes_of("cid") =~= seq![0x63u8, 0x69, 0x64]);
    lemma_name_bytes(crate::split::bytes_of("cid"));
    reveal_strlit("client_database_id");
    vstd::utf8::is_ascii_chars_encode_utf8("client_database_id"@);
    assert(crate::split::bytes_of("client_database_id") =~= seq![0x63u8, 0x6c, 0x69, 0x65, 0x6e, 0x74, 0x5f, 0x64, 0x61, 0x74, 0x61, 0x62, 0x61, 0x73, 0x65, 0x5f, 0x69, 0x64]);
    lemma_name_bytes(crate::split::bytes_of("client_database_id"));
    reveal_strlit("client_nickname");
    vstd::utf8::is_ascii_chars_encode_utf8("client_nickname"@);
    assert(crate::split::bytes_of("client_nickname") =~= seq![0x63u8, 0x6c, 0x69, 0x65, 0x6e, 0x74, 0x5f, 0x6e, 0x69, 0x63, 0x6b, 0x6e, 0x61, 0x6d, 0x65]);
    lemma_name_bytes(crate::split::bytes_of("client_nickname"));
    reveal_strlit("client_type");
    vstd::utf8::is_ascii_chars_encode_utf8("client_type"@);
    assert(crate::split::bytes_of("client_type") =~= seq![0x63u8, 0x6c, 0x69, 0x65, 0x6e, 0x74, 0x5f, 0x74, 0x79, 0x70, 0x65]);
    lemma_name_bytes(crate::split::bytes_of("client_type"));
    assert(client_info_key(crate::split::bytes_of("clid")) == Some(ClientInfoKey::Clid)) by {
    }
    assert(client_info_key(crate::split::bytes_of("cid")) == Some(ClientInfoKey::Cid)) by {
        crate::split::lemma_bytes_of_injective("cid", "clid");
        assert("cid"@.len() != "clid"@.len());
    }
    assert(client_info_key(crate::split::bytes_of("client_database_id")) == Some(ClientInfoKey::ClientDatabaseId)) by {
        crate::split::lemma_bytes_of_injective("client_database_id", "clid");
        assert("client_database_id"@.len() != "clid"@.len());
        crate::split::lemma_bytes_of_injective("client_database_id", "cid");
        assert("client_database_id"@.len() != "cid"@.len());
    }
    assert(client_info_key(crate::split::bytes_of("client_nickname")) == Some(ClientInfoKey::ClientNickname)) by {
        crate::split::lemma_bytes_of_injective("client_nickname", "clid");
        assert("client_nickname"@.len() != "clid"@.len());
        crate::split::lemma_bytes_of_injective("client_nickname", "cid");
        assert("client_nickname"@.len() != "cid"@.len());
        crate::split::lemma_bytes_of_injective("client_nickname", "client_database_id");
        assert("client_nickname"@.len() != "client_database_id"@.len());
    }
    assert(client_info_key(crate::split::bytes_of("client_type")) == Some(ClientInfoKey::ClientType)) by {
        crate::split::lemma_bytes_of_injective("client_type", "clid");
        assert("client_type"@.len() != "clid"@.len());
        crate::split::lemma_bytes_of_injective("client_type", "cid");
        assert("client_type"@.len() != "cid"@.len());
        crate::split::lemma_bytes_of_injective("client_type", "client_database_id");
        assert("client_type"@.len() != "client_database_id"@.len());
        crate::split::lemma_bytes_of_injective("client_type", "client_nickname");
        assert("client_type"@.len() != "client_nickname"@.len());
    }
}

/// A response holding the one pair `key=value` is one field, and it sets just the field that
/// `key` names, to `value`.
proof fn lemma_client_info_one_pair(key: Seq<u8>, val: Seq<u8>, k: ClientInfoKey)
    requires
        client_info_key(key) == Some(k),
        !key.contains(0x3du8),
        !key.contains(0x20u8),
        !val.contains(0x20u8),
    ensures
        crate::split::split_on(key + seq![0x3du8] + val, 0x20u8) == seq![key + seq![0x3du8] + val],
        client_info_first_error(seq![key + seq![0x3du8] + val])
            == client_info_field_error(key + seq![0x3du8] + val),
        client_info_field_error(key + seq![0x3du8] + val) == (match k {
            ClientInfoKey::ClientNickname => match <String as Decode<String>>::spec_decode(val) {
                Ok(_) => None,
                Err(e) => Some(e),
            },
            ClientInfoKey::ClientType => match <u8 as Decode<u8>>::spec_decode(val) {
                Ok(_) => None,
                Err(e) => Some(e),
            },
            _ => match <u64 as Decode<u64>>::spec_decode(val) {
                Ok(_) => None,
                Err(e) => Some(e),
            },
        }),
        forall|j: ClientInfoKey| #[trigger] client_info_value(seq![key + seq![0x3du8] + val], j)
            == (if j == k { Some(val) } else { None }),
{
    let f = key + seq![0x3du8] + val;
    assert(!f.contains(0x20u8)) by {
        if f.contains(0x20u8) {
            let j: int = choose|j: int| 0 <= j < f.len() && f[j] == 0x20u8;
            if j < key.len() {
                assert(key[j] == f[j]);
            } else if j > key.len() {
                assert(val[j - key.len() - 1] == f[j]);
            }
        }
    }
    let e = Seq::<u8>::empty();
    crate::split::lemma_split_on_extend(e, f, 0x20u8);
    assert(e + f =~= f);
    assert(crate::split::split_on(e, 0x20u8) == seq![e]);
    assert(seq![e].update(0, f) =~= seq![f]);
    assert forall|j: int| 0 <= j < key.len() implies #[trigger] f[j] != 0x3du8 by {
        assert(f[j] == key[j]);
    }
    crate::split::lemma_key_of_is(f, 0x3du8, key.len() as int);
    assert(f.take(key.len() as int) =~= key);
    assert(crate::split::value_of(f, 0x3du8) =~= val);
    assert(seq![f].drop_last() =~= Seq::<Seq<u8>>::empty());
    assert(seq![f].last() == f);
    assert(client_info_first_error(Seq::<Seq<u8>>::empty()) is None);
    assert forall|j: ClientInfoKey| #[trigger] client_info_value(seq![f], j) == (if j == k { Some(val) } else { None }) by {
        assert(client_info_value(Seq::<Seq<u8>>::empty(), j) is None);
        assert(crate::split::key_of(f, 0x3du8) == key);
    }
}

/// The number field `clid` of a client information response is read from the pair with that
/// name: the one pair `clid=v`, with `v` in decimal, decodes to `v` in `clid` and the defaults
/// in every other field.
pub proof fn lemma_client_info_clid_field(v: u64)
    ensures
        spec_decode_client_info(crate::split::bytes_of("clid") + seq![0x3du8] + crate::number::signed_decimal_bytes(v as int))
            == Ok::<ClientInfoData, DecodeFailureView>(ClientInfoData {
                clid: v,
                cid: 0,
                client_database_id: 0,
                client_nickname: Seq::<char>::empty(),
                client_type: 0,
            }),
{
    lemma_client_info_names();
    crate::codec::lemma_u64_decode_decimal(v as int);
    crate::number::lemma_encode_decimal_text(v as int);
    crate::number::lemma_decimal_bytes(v as nat);
    let d = crate::number::signed_decimal_bytes(v as int);
    assert(!d.contains(0x20u8)) by {
        if d.contains(0x20u8) {
            let j: int = choose|j: int| 0 <= j < d.len() && d[j] == 0x20u8;
            assert(crate::number::is_digit(d[j]));
        }
    }
    lemma_client_info_one_pair(crate::split::bytes_of("clid"), d, ClientInfoKey::Clid);
}

/// The number field `cid` of a client information response is read from the pair with that
/// name: the one pair `cid=v`, with `v` in decimal, decodes to `v` in `cid` and the defaults
/// in every other field.
pub proof fn lemma_client_info_cid_field(v: u64)
    ensures
        spec_decode_client_info(crate::split::bytes_of("cid") + seq![0x3du8] + crate::number::signed_decimal_bytes(v as int))
            == Ok::<ClientInfoData, DecodeFailureView>(ClientInfoData {
                clid: 0,
                cid: v,
                client_database_id: 0,
                client_nickname: Seq::<char>::empty(),
                client_type: 0,
            }),
{
    lemma_client_info_names();
    crate::codec::lemma_u64_decode_decimal(v as int);
    crate::number::lemma_encode_decimal_text(v as int);
    crate::number::lemma_decimal_bytes(v as nat);
    let d = crate::number::signed_decimal_bytes(v as int);
    assert(!d.contains(0x20u8)) by {
        if d.contains(0x20u8) {
            let j: int = choose|j: int| 0 <= j < d.len() && d[j] == 0x20u8;
            assert(crate::number::is_digit(d[j]));
        }
    }
    lemma_client_info_one_pair(crate::split::bytes_of("cid"), d, ClientInfoKey::Cid);
}

/// The number field `client_database_id` of a client information response is read from the pair with that
/// name: the one pair `client_database_id=v`, with `v` in decimal, decodes to `v` in `client_database_id` and the defaults
/// in every other field.
pub proof fn lemma_client_info_client_database_id_field(v: u64)
    ensures
        spec_decode_client_info(crate::split::bytes_of("client_database_id") + seq![0x3du8] + crate::number::signed_decimal_bytes(v as int))
            == Ok::<ClientInfoData, DecodeFailureView>(ClientInfoData {
                clid: 0,
                cid: 0,
                client_database_id: v,
                client_nickname: Seq::<char>::empty(),
                client_type: 0,
            }),
{
    lemma_client_info_names();
    crate::codec::lemma_u64_decode_decimal(v as int);
    crate::number::lemma_encode_decimal_text(v as int);
    crate::number::lemma_decimal_bytes(v as nat);
    let d = crate::number::signed_decimal_bytes(v as int);
    assert(!d.contains(0x20u8)) by {
        if d.contains(0x20u8) {
            let j: int = choose|j: int| 0 <= j < d.len() && d[j] == 0x20u8;
            assert(crate::number::is_digit(d[j]));
        }
    }
    lemma_client_info_one_pair(crate::split::bytes_of("client_database_id"), d, ClientInfoKey::ClientDatabaseId);
}

/// The number field `client_type` of a client information response is read from the pair with that
/// name: the one pair `client_type=v`, with `v` in decimal, decodes to `v` in `client_type` and the defaults
/// in every other field.
pub proof fn lemma_client_info_client_type_field(v: u8)
    ensures
        spec_decode_client_info(crate::split::bytes_of("client_type") + seq![0x3du8] + crate::number::signed_decimal_bytes(v as int))
            == Ok::<ClientInfoData, DecodeFailureView>(ClientInfoData {
                clid: 0,
                cid: 0,
                client_database_id: 0,
                client_nickname: Seq::<char>::empty(),
                client_type: v,
            }),
{
    lemma_client_info_names();
    crate::codec::lemma_u8_decode_decimal(v as int);
    crate::number::lemma_encode_decimal_text(v as int);
    crate::number::lemma_decimal_bytes(v as nat);
    let d = crate::number::signed_decimal_bytes(v as int);
    assert(!d.contains(0x20u8)) by {
        if d.contains(0x20u8) {
            let j: int = choose|j: int| 0 <= j < d.len() && d[j] == 0x20u8;
            assert(crate::number::is_digit(d[j]));
        }
    }
    lemma_client_info_one_pair(crate::split::bytes_of("client_type"), d, ClientInfoKey::ClientType);
}

/// The nickname of a client information response is read from the pair with its name: the
/// one pair `client_nickname=` followed by the escaped text decodes to that text and the
/// defaults in every other field.
pub proof fn lemma_client_info_client_nickname_field(t: Seq<char>)
    ensures
        spec_decode_client_info(crate::split::bytes_of("client_nickname") + seq![0x3du8] + vstd::utf8::encode_utf8(crate::escape::escape(t)))
            == Ok::<ClientInfoData, DecodeFailureView>(ClientInfoData {
                clid: 0,
                cid: 0,
                client_database_id: 0,
                client_nickname: t,
                client_type: 0,
            }),
{
    lemma_client_info_names();
    crate::escape::lemma_decode_escaped_string(t);
    crate::escape::lemma_encode_escape(t);
    crate::escape::lemma_escape_bytes_no_separators(vstd::utf8::encode_utf8(t));
    let d = vstd::utf8::encode_utf8(crate::escape::escape(t));
    lemma_client_info_one_pair(crate::split::bytes_of("client_nickname"), d, ClientInfoKey::ClientNickname);
}

} // verus!
