//! Building query commands: a name followed by ` key=value` arguments with escaped values.
use vstd::prelude::*;
use crate::codec::Serialize;
use crate::list::ToText;
use crate::text::{push_char, push_str};

verus! {

/// A command under construction.
#[derive(Debug)]
pub struct CommandBuilder(String);

/// The default builder holds an empty command.
impl Default for CommandBuilder {
    fn default() -> (res: Self)
        ensures
            res@ == Seq::<char>::empty(),
    {
        CommandBuilder(String::new())
    }
}

impl Clone for CommandBuilder {
    fn clone(&self) -> (res: Self)
        ensures
            res@ == self@,
    {
        CommandBuilder(self.0.clone())
    }
}

impl View for CommandBuilder {
    type V = Seq<char>;

    closed spec fn view(&self) -> Seq<char> {
        self.0@
    }
}

impl CommandBuilder {
    /// The text that `arg` appends for a key and a value.
    pub open spec fn spec_arg<S: Serialize>(key: Seq<char>, value: S) -> Seq<char> {
        seq![' '] + key + seq!['='] + value.spec_serialize()
    }

    /// Starts a command with the given name.
    pub fn new<T: ToText>(name: T) -> (res: Self)
        ensures
            res@ == T::spec_to_text(name.deep_view()),
    {
        CommandBuilder(name.to_text())
    }

    /// Appends ` key=value`, the value serialized.
    pub fn arg<S: Serialize>(self, key: &str, value: S) -> (res: Self)
        ensures
            res@ == self@ + Self::spec_arg(key@, value),
    {
        let mut s = self.0;
        push_char(&mut s, ' ');
        push_str(&mut s, key);
        push_char(&mut s, '=');
        value.serialize(&mut s);
        proof {
            assert(s@ =~= self@ + Self::spec_arg(key@, value));
        }
        CommandBuilder(s)
    }

    /// Appends ` key=value` when there is a value, and nothing otherwise.
    pub fn arg_opt<S: Serialize>(self, key: &str, value: Option<S>) -> (res: Self)
        ensures
            match value {
                Some(v) => res@ == self@ + Self::spec_arg(key@, v),
                None => res@ == self@,
            },
    {
        match value {
            Some(value) => self.arg(key, value),
            None => self,
        }
    }

    /// The command text.
    pub fn into_inner(self) -> (res: String)
        ensures
            res@ == self@,
    {
        self.0
    }
}

/// An argument added to a command is a field of its own: splitting the command's text at
/// spaces gives the fields it had and then `key=value`, whose key is `key` and whose value is
/// the escaped text, which decodes back to the text.
pub proof fn lemma_arg_is_a_field(cmd: Seq<char>, key: Seq<char>, value: &str)
    requires
        !key.contains(' '),
        !key.contains('='),
    ensures
        crate::split::split_on(cmd + CommandBuilder::spec_arg::<&str>(key, value), ' ')
            == crate::split::split_on(cmd, ' ').push(key + seq!['='] + crate::escape::escape(value@)),
        crate::split::key_of(key + seq!['='] + crate::escape::escape(value@), '=') == key,
        crate::split::value_of(key + seq!['='] + crate::escape::escape(value@), '=') == crate::escape::escape(value@),
        crate::escape::spec_decode_string(vstd::utf8::encode_utf8(crate::escape::escape(value@)))
            == Ok::<Seq<char>, crate::error::DecodeFailureView>(value@),
{
    let e = crate::escape::escape(value@);
    let f = key + seq!['='] + e;
    crate::escape::lemma_escape_no_separators(value@);
    crate::escape::lemma_decode_escaped_string(value@);
    assert(!f.contains(' ')) by {
        if f.contains(' ') {
            let j: int = choose|j: int| 0 <= j < f.len() && f[j] == ' ';
            if j < key.len() {
                assert(key[j] == f[j]);
            } else if j > key.len() {
                assert(e[j - key.len() - 1] == f[j]);
            }
        }
    }
    assert(cmd + CommandBuilder::spec_arg::<&str>(key, value) =~= cmd.push(' ') + f);
    assert(cmd.push(' ').drop_last() =~= cmd);
    crate::split::lemma_split_on_extend(cmd.push(' '), f, ' ');
    assert(Seq::<char>::empty() + f =~= f);
    assert(crate::split::split_on(cmd.push(' '), ' ').update(
        crate::split::split_on(cmd, ' ').len() as int,
        Seq::<char>::empty() + f,
    ) =~= crate::split::split_on(cmd, ' ').push(f));
    assert forall|j: int| 0 <= j < key.len() implies #[trigger] f[j] != '=' by {
        assert(f[j] == key[j]);
    }
    crate::split::lemma_key_of_is(f, '=', key.len() as int);
    assert(f.take(key.len() as int) =~= key);
    assert(crate::split::value_of(f, '=') =~= e);
}

} // verus!
