//! Splitting byte and character sequences on a separator.
use vstd::prelude::*;
use crate::text::push_char;

verus! {

/// The pieces of `s` between occurrences of `sep`, as `slice::split` yields them:
/// there is always one piece more than there are separators.
pub open spec fn split_on<A>(s: Seq<A>, sep: A) -> Seq<Seq<A>>
    decreases s.len(),
{
    if s.len() == 0 {
        seq![Seq::empty()]
    } else {
        let prev = split_on(s.drop_last(), sep);
        if s.last() == sep {
            prev.push(Seq::empty())
        } else {
            prev.update(prev.len() - 1, prev.last().push(s.last()))
        }
    }
}

/// The pieces joined with `sep` between them.
pub open spec fn join_on<A>(items: Seq<Seq<A>>, sep: A) -> Seq<A>
    decreases items.len(),
{
    if items.len() == 0 {
        Seq::empty()
    } else if items.len() == 1 {
        items[0]
    } else {
        join_on(items.drop_last(), sep) + seq![sep] + items.last()
    }
}

/// Appending pieces free of `sep` extends the last piece.
pub proof fn lemma_split_on_extend<A>(x: Seq<A>, y: Seq<A>, sep: A)
    requires
        !y.contains(sep),
    ensures
        split_on(x + y, sep).len() == split_on(x, sep).len(),
        split_on(x + y, sep) == split_on(x, sep).update(
            split_on(x, sep).len() - 1,
            split_on(x, sep).last() + y,
        ),
    decreases y.len(),
{
    lemma_split_on_nonempty(x, sep);
    if y.len() == 0 {
        assert(x + y =~= x);
        assert(split_on(x, sep).last() + y =~= split_on(x, sep).last());
        assert(split_on(x, sep).update(split_on(x, sep).len() - 1, split_on(x, sep).last()) =~= split_on(x, sep));
    } else {
        let y0 = y.drop_last();
        assert(!y0.contains(sep)) by {
            if y0.contains(sep) {
                let k: int = choose|k: int| 0 <= k < y0.len() && y0[k] == sep;
                assert(y0[k] == y[k]);
            }
        }
        assert(y.last() != sep) by {
            assert(y[y.len() - 1] == y.last());
        }
        lemma_split_on_extend(x, y0, sep);
        assert((x + y).drop_last() =~= x + y0);
        assert((x + y).last() == y.last());
        let p = split_on(x, sep);
        let prev = split_on(x + y0, sep);
        assert(prev == p.update(p.len() - 1, p.last() + y0));
        assert(prev.len() == p.len());
        assert(prev.last() == p.last() + y0);
        assert(split_on(x + y, sep) == prev.update(prev.len() - 1, prev.last().push(y.last())));
        assert(p.last() + y0 + seq![y.last()] =~= p.last() + y);
        assert((p.last() + y0).push(y.last()) =~= p.last() + y);
        assert(split_on(x + y, sep) =~= p.update(p.len() - 1, p.last() + y));
    }
}

/// Splitting pieces joined with `sep` gives the pieces back, where none holds `sep`.
pub proof fn lemma_split_on_join<A>(items: Seq<Seq<A>>, sep: A)
    requires
        items.len() > 0,
        forall|i: int| 0 <= i < items.len() ==> !(#[trigger] items[i]).contains(sep),
    ensures
        split_on(join_on(items, sep), sep) == items,
    decreases items.len(),
{
    if items.len() == 1 {
        let e = Seq::<A>::empty();
        lemma_split_on_extend(e, items[0], sep);
        assert(split_on(e, sep) == seq![e]);
        assert(e + items[0] =~= items[0]);
        assert(seq![e].update(0, e + items[0]) =~= items);
    } else {
        let front = items.drop_last();
        assert forall|i: int| 0 <= i < front.len() implies !(#[trigger] front[i]).contains(sep) by {
            assert(front[i] == items[i]);
        }
        lemma_split_on_join(front, sep);
        let j = join_on(front, sep);
        let js = j + seq![sep];
        assert(js.drop_last() =~= j);
        assert(split_on(js, sep) == split_on(j, sep).push(Seq::<A>::empty()));
        assert(!items.last().contains(sep)) by {
            assert(items[items.len() - 1] == items.last());
        }
        lemma_split_on_extend(js, items.last(), sep);
        assert(Seq::<A>::empty() + items.last() =~= items.last());
        assert(front.push(Seq::<A>::empty()).update(front.len() as int, items.last()) =~= items);
    }
}

pub proof fn lemma_split_on_nonempty<A>(s: Seq<A>, sep: A)
    ensures
        split_on(s, sep).len() >= 1,
    decreases s.len(),
{
    if s.len() > 0 {
        lemma_split_on_nonempty(s.drop_last(), sep);
    }
}

/// Splits `buf` at every `sep` byte.
pub fn split_bytes(buf: &[u8], sep: u8) -> (parts: Vec<Vec<u8>>)
    ensures
        parts@.len() == split_on(buf@, sep).len(),
        forall|i: int| 0 <= i < parts@.len() ==> #[trigger] parts@[i]@ == split_on(buf@, sep)[i],
{
    let mut parts: Vec<Vec<u8>> = Vec::new();
    let mut cur: Vec<u8> = Vec::new();
    let mut i: usize = 0;
    while i < buf.len()
        invariant
            i <= buf@.len(),
            split_on(buf@.take(i as int), sep).len() == parts@.len() + 1,
            forall|k: int| 0 <= k < parts@.len() ==> #[trigger] parts@[k]@ == split_on(buf@.take(i as int), sep)[k],
            cur@ == split_on(buf@.take(i as int), sep).last(),
        decreases buf@.len() - i,
    {
        proof {
            assert(buf@.take(i + 1).drop_last() =~= buf@.take(i as int));
            lemma_split_on_nonempty(buf@.take(i as int), sep);
        }
        let b: u8 = buf[i];
        if b == sep {
            let done = cur;
            parts.push(done);
            cur = Vec::new();
        } else {
            cur.push(b);
        }
        i = i + 1;
    }
    parts.push(cur);
    proof {
        assert(buf@.take(i as int) =~= buf@);
    }
    parts
}

/// Splits `s` at every `sep` character.
pub fn split_chars(s: &str, sep: char) -> (parts: Vec<String>)
    ensures
        parts@.len() == split_on(s@, sep).len(),
        forall|i: int| 0 <= i < parts@.len() ==> #[trigger] parts@[i]@ == split_on(s@, sep)[i],
{
    let mut parts: Vec<String> = Vec::new();
    let mut cur = String::new();
    for c in it: s.chars()
        invariant
            it.seq() == s@,
            split_on(s@.take(it.index() as int), sep).len() == parts@.len() + 1,
            forall|k: int| 0 <= k < parts@.len() ==> #[trigger] parts@[k]@ == split_on(s@.take(it.index() as int), sep)[k],
            cur@ == split_on(s@.take(it.index() as int), sep).last(),
    {
        let ghost i = it.index();
        proof {
            assert(s@.take(i + 1).drop_last() =~= s@.take(i as int));
            assert(s@.take(i + 1).last() == c);
            lemma_split_on_nonempty(s@.take(i as int), sep);
        }
        if c == sep {
            let done = cur;
            parts.push(done);
            cur = String::new();
        } else {
            push_char(&mut cur, c);
        }
    }
    parts.push(cur);
    proof {
        assert(s@.take(s@.len() as int) =~= s@);
    }
    parts
}

/// The UTF-8 bytes of a string.
pub open spec fn bytes_of(s: &str) -> Seq<u8> {
    vstd::utf8::encode_utf8(s@)
}

/// Texts with the same UTF-8 bytes are the same text.
pub proof fn lemma_bytes_of_injective(a: &str, b: &str)
    ensures
        bytes_of(a) == bytes_of(b) ==> a@ == b@,
{
    vstd::utf8::encode_utf8_decode_utf8(a@);
    vstd::utf8::encode_utf8_decode_utf8(b@);
}

/// The part of a `key=value` pair before the first `sep` (the whole pair when it has
/// none), as the first item of `splitn(2, sep)`.
pub open spec fn key_of<A>(s: Seq<A>, sep: A) -> Seq<A>
    decreases s.len(),
{
    if s.len() == 0 || s[0] == sep {
        Seq::empty()
    } else {
        seq![s[0]] + key_of(s.drop_first(), sep)
    }
}

/// Whether the pair holds `sep` at all, so that `splitn(2, sep)` yields a second item.
pub open spec fn has_value<A>(s: Seq<A>, sep: A) -> bool {
    key_of(s, sep).len() < s.len()
}

/// The part of the pair after the first `sep`.
pub open spec fn value_of<A>(s: Seq<A>, sep: A) -> Seq<A> {
    s.skip(key_of(s, sep).len() as int + 1)
}

/// The value of the last of `fields` whose key is `key` and that has a value: the one a
/// left-to-right reading keeps.
pub open spec fn last_value<A>(fields: Seq<Seq<A>>, sep: A, key: Seq<A>) -> Option<Seq<A>>
    decreases fields.len(),
{
    if fields.len() == 0 {
        None
    } else {
        let f = fields.last();
        if key_of(f, sep) == key && has_value(f, sep) {
            Some(value_of(f, sep))
        } else {
            last_value(fields.drop_last(), sep, key)
        }
    }
}

/// Reading one more field.
pub proof fn lemma_last_value_step<A>(fs: Seq<Seq<A>>, i: int, sep: A, key: Seq<A>)
    requires
        0 <= i < fs.len(),
    ensures
        last_value(fs.take(i + 1), sep, key) == (if key_of(fs[i], sep) == key && has_value(fs[i], sep) {
            Some(value_of(fs[i], sep))
        } else {
            last_value(fs.take(i), sep, key)
        }),
{
    assert(fs.take(i + 1).drop_last() =~= fs.take(i));
    assert(fs.take(i + 1).last() == fs[i]);
}

pub proof fn lemma_key_of_is<A>(s: Seq<A>, sep: A, j: int)
    requires
        0 <= j <= s.len(),
        forall|i: int| 0 <= i < j ==> #[trigger] s[i] != sep,
        j < s.len() ==> s[j] == sep,
    ensures
        key_of(s, sep) == s.take(j),
    decreases j,
{
    if j > 0 {
        assert forall|i: int| 0 <= i < j - 1 implies #[trigger] s.drop_first()[i] != sep by {
            assert(s.drop_first()[i] == s[i + 1]);
        }
        if j < s.len() {
            assert(s.drop_first()[j - 1] == s[j]);
        }
        lemma_key_of_is(s.drop_first(), sep, j - 1);
        assert(seq![s[0]] + s.drop_first().take(j - 1) =~= s.take(j));
    } else {
        assert(s.take(0) =~= Seq::<A>::empty());
    }
}

/// Splits a byte string at its first `sep`, as `splitn(2, sep)` does.
pub fn split_key_value(s: &[u8], sep: u8) -> (res: (Vec<u8>, Option<Vec<u8>>))
    ensures
        res.0@ == key_of(s@, sep),
        res.1 is Some <==> has_value(s@, sep),
        res.1 matches Some(v) ==> v@ == value_of(s@, sep),
{
    let mut key: Vec<u8> = Vec::new();
    let mut j: usize = 0;
    while j < s.len() && s[j] != sep
        invariant
            j <= s@.len(),
            key@ == s@.take(j as int),
            forall|i: int| 0 <= i < j ==> #[trigger] s@[i] != sep,
        decreases s@.len() - j,
    {
        key.push(s[j]);
        proof {
            assert(s@.take(j + 1) =~= s@.take(j as int).push(s@[j as int]));
        }
        j = j + 1;
    }
    proof {
        lemma_key_of_is(s@, sep, j as int);
    }
    if j < s.len() {
        let mut value: Vec<u8> = Vec::new();
        let mut k: usize = j + 1;
        while k < s.len()
            invariant
                j < k <= s@.len(),
                value@ == s@.subrange(j + 1, k as int),
            decreases s@.len() - k,
        {
            value.push(s[k]);
            proof {
                assert(s@.subrange(j + 1, k + 1) =~= s@.subrange(j + 1, k as int).push(s@[k as int]));
            }
            k = k + 1;
        }
        proof {
            assert(value@ =~= value_of(s@, sep));
        }
        (key, Some(value))
    } else {
        (key, None)
    }
}

/// Splits a `key=value` pair of characters at its first `sep`.
pub fn split_key_value_str(s: &str, sep: char) -> (res: (String, Option<String>))
    ensures
        res.0@ == key_of(s@, sep),
        res.1 is Some <==> has_value(s@, sep),
        res.1 matches Some(v) ==> v@ == value_of(s@, sep),
{
    let mut key = String::new();
    let mut value = String::new();
    let mut found = false;
    let ghost mut j: int = 0;
    for c in it: s.chars()
        invariant
            it.seq() == s@,
            !found ==> key@ == s@.take(it.index() as int) && forall|k: int|
                0 <= k < it.index() ==> #[trigger] s@[k] != sep,
            !found ==> value@ == Seq::<char>::empty(),
            found ==> 0 <= j < it.index(),
            found ==> key@ == s@.take(j),
            found ==> s@[j] == sep,
            found ==> forall|k: int| 0 <= k < j ==> #[trigger] s@[k] != sep,
            found ==> value@ == s@.subrange(j + 1, it.index() as int),
    {
        let ghost i = it.index();
        if found {
            proof {
                assert(s@.take(i + 1) =~= s@.take(i as int).push(c));
                assert(s@[i as int] == c);
                assert(s@.subrange(j + 1, i + 1) =~= s@.subrange(j + 1, i as int).push(c));
            }
            push_char(&mut value, c);
        } else if c == sep {
            proof {
                j = i as int;
                assert(s@.take(i + 1) =~= s@.take(i as int).push(c));
                assert(s@[j] == c);
                assert(s@.subrange(j + 1, i + 1) =~= Seq::<char>::empty());
            }
            found = true;
        } else {
            proof {
                assert(s@.take(i + 1) =~= s@.take(i as int).push(c));
            }
            push_char(&mut key, c);
        }
    }
    if found {
        proof {
            lemma_key_of_is(s@, sep, j);
            assert(value@ =~= value_of(s@, sep));
        }
        (key, Some(value))
    } else {
        proof {
            lemma_key_of_is(s@, sep, s@.len() as int);
            assert(s@.take(s@.len() as int) =~= s@);
        }
        (key, None)
    }
}

/// Compares two strings.
pub fn str_eq(a: &str, b: &str) -> (res: bool)
    ensures
        res == (a@ == b@),
{
    let r = bytes_eq(a.as_bytes(), b.as_bytes());
    proof {
        vstd::utf8::encode_utf8_decode_utf8(a@);
        vstd::utf8::encode_utf8_decode_utf8(b@);
    }
    r
}

/// Compares two byte strings.
pub fn bytes_eq(a: &[u8], b: &[u8]) -> (res: bool)
    ensures
        res == (a@ == b@),
{
    if a.len() != b.len() {
        return false;
    }
    let mut i: usize = 0;
    while i < a.len()
        invariant
            i <= a@.len(),
            a@.len() == b@.len(),
            forall|k: int| 0 <= k < i ==> a@[k] == b@[k],
        decreases a@.len() - i,
    {
        if a[i] != b[i] {
            return false;
        }
        i = i + 1;
    }
    proof {
        assert(a@ =~= b@);
    }
    true
}

} // verus!
