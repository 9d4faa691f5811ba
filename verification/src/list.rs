//! Lists of values separated by `|`, and the text conversions that they are built on.
use vstd::prelude::*;
use crate::error::ParseIntError;
use crate::number::{parse_signed, parse_unsigned, write_signed, write_unsigned};
use crate::split::split_chars;
use crate::text::{push_char, push_str};

verus! {

/// A type that can be read from text, as `FromStr` reads it.
pub trait FromText: Sized + DeepView {
    type Err;

    /// What reading the text `s` gives, by the value's view.
    spec fn spec_from_text(s: Seq<char>) -> Result<Self::V, Self::Err>;

    fn from_text(s: &str) -> (res: Result<Self, Self::Err>)
        ensures
            match res {
                Ok(v) => Self::spec_from_text(s@) == Ok::<Self::V, Self::Err>(v.deep_view()),
                Err(e) => Self::spec_from_text(s@) == Err::<Self::V, Self::Err>(e),
            },
    ;
}

/// A type that can be written as text, as `ToString` writes it.
pub trait ToText: DeepView {
    /// The text of a value, by its view.
    spec fn spec_to_text(v: Self::V) -> Seq<char>;

    fn to_text(&self) -> (res: String)
        ensures
            res@ == Self::spec_to_text(self.deep_view()),
    ;
}

// Reading text into a `String` never fails: its error is std's `Infallible`.

impl FromText for String {
    type Err = core::convert::Infallible;

    open spec fn spec_from_text(s: Seq<char>) -> Result<Seq<char>, core::convert::Infallible> {
        Ok(s)
    }

    fn from_text(s: &str) -> (res: Result<String, core::convert::Infallible>) {
        Ok(s.to_owned())
    }
}

impl ToText for String {
    open spec fn spec_to_text(v: Seq<char>) -> Seq<char> {
        v
    }

    fn to_text(&self) -> (res: String) {
        self.clone()
    }
}

impl<'a> ToText for &'a str {
    open spec fn spec_to_text(v: Seq<char>) -> Seq<char> {
        v
    }

    fn to_text(&self) -> (res: String) {
        (*self).to_owned()
    }
}

/// A type that a field of a raw response can be read into, with a value to fall back on.
pub trait FieldValue: FromText {
    /// The fallback value, by its view.
    spec fn spec_default() -> Self::V;

    fn default_value() -> (res: Self)
        ensures
            res.deep_view() == Self::spec_default(),
    ;
}

impl FieldValue for String {
    open spec fn spec_default() -> Seq<char> {
        Seq::empty()
    }

    fn default_value() -> (res: String) {
        String::new()
    }
}

impl FieldValue for usize {
    open spec fn spec_default() -> usize {
        0
    }

    fn default_value() -> (res: usize) {
        0
    }
}

/// A list of other objects that are being read from or written to the TS3 server interface.
/// It can be read from text and written as text as long as `T` itself can.
#[derive(Debug, PartialEq)]
pub struct List<T> {
    items: Vec<T>,
}

impl<T> View for List<T> {
    type V = Seq<T>;

    closed spec fn view(&self) -> Seq<T> {
        self.items@
    }
}

impl<T: DeepView> DeepView for List<T> {
    type V = Seq<T::V>;

    open spec fn deep_view(&self) -> Seq<T::V> {
        self@.map_values(|t: T| t.deep_view())
    }
}

impl<T> List<T> {
    /// Create a new empty list
    pub fn new() -> (res: List<T>)
        ensures
            res@ == Seq::<T>::empty(),
    {
        List { items: Vec::new() }
    }

    /// Create a new list filled with the items in the `Vec`.
    pub fn from_vec(vec: Vec<T>) -> (res: List<T>)
        ensures
            res@ == vec@,
    {
        List { items: vec }
    }

    /// Push an item to the end of the list
    pub fn push(&mut self, item: T)
        ensures
            final(self)@ == old(self)@.push(item),
    {
        self.items.push(item);
    }

    /// Consumes the List and returns the inner `Vec` of all items in the list.
    pub fn into_vec(self) -> (res: Vec<T>)
        ensures
            res@ == self@,
    {
        self.items
    }
}

/// Reads each text in turn; the first that fails decides the error.
pub open spec fn from_text_each<T: FromText>(parts: Seq<Seq<char>>) -> Result<Seq<T::V>, T::Err>
    decreases parts.len(),
{
    if parts.len() == 0 {
        Ok(Seq::empty())
    } else {
        match from_text_each::<T>(parts.drop_last()) {
            Err(e) => Err(e),
            Ok(vs) => match T::spec_from_text(parts.last()) {
                Ok(v) => Ok(vs.push(v)),
                Err(e) => Err(e),
            },
        }
    }
}

pub proof fn lemma_from_text_each_prefix_err<T: FromText>(ps: Seq<Seq<char>>, n: int)
    requires
        0 <= n <= ps.len(),
        from_text_each::<T>(ps.take(n)) is Err,
    ensures
        from_text_each::<T>(ps) == from_text_each::<T>(ps.take(n)),
    decreases ps.len() - n,
{
    if n < ps.len() {
        assert(ps.take(n + 1).drop_last() =~= ps.take(n));
        lemma_from_text_each_prefix_err::<T>(ps, n + 1);
    } else {
        assert(ps.take(n) =~= ps);
    }
}

impl<T: FromText> List<T> {
    /// Reads the `|`-separated items of `s`; the first item that fails decides the error.
    pub fn from_str(s: &str) -> (res: Result<List<T>, T::Err>)
        ensures
            match res {
                Ok(l) => from_text_each::<T>(crate::split::split_on(s@, '|')) == Ok::<Seq<T::V>, T::Err>(l.deep_view()),
                Err(e) => from_text_each::<T>(crate::split::split_on(s@, '|')) == Err::<Seq<T::V>, T::Err>(e),
            },
    {
        let parts = split_chars(s, '|');
        let ghost ps = crate::split::split_on(s@, '|');
        let mut list: List<T> = List::new();
        let mut i: usize = 0;
        proof {
            assert(ps.take(0) =~= Seq::<Seq<char>>::empty());
            assert(list.deep_view() =~= Seq::<T::V>::empty());
        }
        while i < parts.len()
            invariant
                i <= parts@.len(),
                parts@.len() == ps.len(),
                ps == crate::split::split_on(s@, '|'),
                forall|k: int| 0 <= k < parts@.len() ==> #[trigger] parts@[k]@ == ps[k],
                from_text_each::<T>(ps.take(i as int)) == Ok::<Seq<T::V>, T::Err>(list.deep_view()),
            decreases parts@.len() - i,
        {
            proof {
                assert(ps.take(i + 1).drop_last() =~= ps.take(i as int));
                assert(ps.take(i + 1).last() == ps[i as int]);
            }
            match T::from_text(parts[i].as_str()) {
                Ok(v) => {
                    let ghost before = list.deep_view();
                    list.push(v);
                    proof {
                        assert(list.deep_view() =~= before.push(v.deep_view()));
                    }
                },
                Err(e) => {
                    proof {
                        lemma_from_text_each_prefix_err::<T>(ps, i as int + 1);
                    }
                    return Err(e);
                },
            }
            i = i + 1;
        }
        proof {
            assert(ps.take(i as int) =~= ps);
        }
        Ok(list)
    }
}

impl<T: ToText> List<T> {
    /// The items' texts joined with `|`.
    pub open spec fn spec_to_string(&self) -> Seq<char> {
        crate::split::join_on(self.deep_view().map_values(|v: T::V| T::spec_to_text(v)), '|')
    }

    /// Writes the items' texts with `|` between them.
    pub fn to_string(&self) -> (res: String)
        ensures
            res@ == self.spec_to_string(),
    {
        let ghost texts = self.deep_view().map_values(|v: T::V| T::spec_to_text(v));
        let n: usize = self.items.len();
        if n == 0 {
            proof {
                assert(texts.len() == 0);
            }
            return String::new();
        }
        let mut string = self.items[0].to_text();
        let mut i: usize = 1;
        proof {
            assert(texts.take(1).drop_last() =~= Seq::<Seq<char>>::empty());
            assert(texts.take(1)[0] == texts[0]);
            assert(self.deep_view()[0] == self.items@[0].deep_view());
        }
        while i < n
            invariant
                1 <= i <= n,
                n == self.items@.len(),
                texts == self.deep_view().map_values(|v: T::V| T::spec_to_text(v)),
                texts.len() == n,
                string@ == crate::split::join_on(texts.take(i as int), '|'),
            decreases n - i,
        {
            push_char(&mut string, '|');
            let t = self.items[i].to_text();
            push_str(&mut string, t.as_str());
            proof {
                assert(texts.take(i + 1).drop_last() =~= texts.take(i as int));
                assert(texts.take(i + 1).last() == texts[i as int]);
                assert(self.deep_view()[i as int] == self.items@[i as int].deep_view());
            }
            i = i + 1;
        }
        proof {
            assert(texts.take(n as int) =~= texts);
        }
        string
    }
}

proof fn lemma_from_text_each_all<T: FromText>(texts: Seq<Seq<char>>, items: Seq<<T as DeepView>::V>)
    requires
        texts.len() == items.len(),
        forall|i: int| 0 <= i < texts.len() ==> T::spec_from_text(#[trigger] texts[i])
            == Ok::<<T as DeepView>::V, T::Err>(items[i]),
    ensures
        from_text_each::<T>(texts) == Ok::<Seq<<T as DeepView>::V>, T::Err>(items),
    decreases texts.len(),
{
    if texts.len() == 0 {
        assert(items =~= Seq::<<T as DeepView>::V>::empty());
    } else {
        let n: int = texts.len() - 1;
        assert forall|i: int| 0 <= i < texts.drop_last().len() implies T::spec_from_text(#[trigger] texts.drop_last()[i])
            == Ok::<<T as DeepView>::V, T::Err>(items.drop_last()[i]) by {
            assert(texts.drop_last()[i] == texts[i]);
        }
        lemma_from_text_each_all::<T>(texts.drop_last(), items.drop_last());
        assert(T::spec_from_text(texts[n]) == Ok::<<T as DeepView>::V, T::Err>(items[n]));
        assert(items.drop_last().push(items[n]) =~= items);
    }
}

/// Reading back the text that `to_string` writes for a list gives the list back, where the
/// list is not empty and each item's text holds no `|` and reads back as the item. (An empty
/// list is written as the empty text, which reads as one empty item.)
pub proof fn lemma_list_text_roundtrip<T: FromText + ToText>(items: Seq<<T as DeepView>::V>)
    requires
        items.len() > 0,
        forall|i: int| 0 <= i < items.len() ==> !(#[trigger] T::spec_to_text(items[i])).contains('|'),
        forall|i: int| 0 <= i < items.len() ==> T::spec_from_text(#[trigger] T::spec_to_text(items[i]))
            == Ok::<<T as DeepView>::V, <T as FromText>::Err>(items[i]),
    ensures
        from_text_each::<T>(
            crate::split::split_on(crate::split::join_on(items.map_values(|v: <T as DeepView>::V| T::spec_to_text(v)), '|'), '|'),
        ) == Ok::<Seq<<T as DeepView>::V>, <T as FromText>::Err>(items),
{
    let texts = items.map_values(|v: <T as DeepView>::V| T::spec_to_text(v));
    assert forall|i: int| 0 <= i < texts.len() implies !(#[trigger] texts[i]).contains('|') by {
        assert(texts[i] == T::spec_to_text(items[i]));
    }
    crate::split::lemma_split_on_join(texts, '|');
    assert forall|i: int| 0 <= i < texts.len() implies T::spec_from_text(#[trigger] texts[i])
        == Ok::<<T as DeepView>::V, <T as FromText>::Err>(items[i]) by {
        assert(texts[i] == T::spec_to_text(items[i]));
    }
    lemma_from_text_each_all::<T>(texts, items);
}

/// The decimal text of an `i32` holds no `|` and reads back as the value.
pub proof fn lemma_i32_text_roundtrip(v: i32)
    ensures
        !<i32 as ToText>::spec_to_text(v).contains('|'),
        <i32 as FromText>::spec_from_text(<i32 as ToText>::spec_to_text(v)) == Ok::<i32, ParseIntError>(v),
{
    let t = crate::number::decimal_text(v as int);
    crate::number::lemma_encode_decimal_text(v as int);
    crate::number::lemma_parse_decimal(v as int, i32::MIN as int, i32::MAX as int);
    crate::number::lemma_decimal_text_no_bar(v as int);
}

/// A list of `i32` written by `to_string` reads back as the same list, where it is not empty.
pub proof fn lemma_i32_list_text_roundtrip(items: Seq<i32>)
    requires
        items.len() > 0,
    ensures
        from_text_each::<i32>(
            crate::split::split_on(crate::split::join_on(items.map_values(|v: i32| <i32 as ToText>::spec_to_text(v)), '|'), '|'),
        ) == Ok::<Seq<i32>, ParseIntError>(items),
{
    assert forall|i: int| 0 <= i < items.len() implies !(#[trigger] <i32 as ToText>::spec_to_text(items[i])).contains('|') by {
        lemma_i32_text_roundtrip(items[i]);
    }
    assert forall|i: int| 0 <= i < items.len() implies <i32 as FromText>::spec_from_text(#[trigger] <i32 as ToText>::spec_to_text(items[i]))
        == Ok::<i32, ParseIntError>(items[i]) by {
        lemma_i32_text_roundtrip(items[i]);
    }
    lemma_list_text_roundtrip::<i32>(items);
}

// Integers are read as std's `from_str` reads them, and written in decimal.

impl FromText for u8 {
    type Err = ParseIntError;

    open spec fn spec_from_text(s: Seq<char>) -> Result<u8, ParseIntError> {
        match crate::number::spec_parse_int(vstd::utf8::encode_utf8(s), 0, u8::MAX as int) {
            Ok(v) => Ok(v as u8),
            Err(e) => Err(e),
        }
    }

    fn from_text(s: &str) -> (res: Result<u8, ParseIntError>) {
        let b = s.as_bytes();
        proof {
            assert(b@.take(b@.len() as int) =~= b@);
        }
        match parse_unsigned(b, b.len(), u8::MAX as u128) {
            Ok(v) => Ok(v as u8),
            Err(e) => Err(e),
        }
    }
}

impl ToText for u8 {
    open spec fn spec_to_text(v: u8) -> Seq<char> {
        crate::number::decimal_text(v as int)
    }

    fn to_text(&self) -> (res: String) {
        let mut s = String::new();
        write_unsigned(*self as u128, &mut s);
        s
    }
}

impl FromText for u16 {
    type Err = ParseIntError;

    open spec fn spec_from_text(s: Seq<char>) -> Result<u16, ParseIntError> {
        match crate::number::spec_parse_int(vstd::utf8::encode_utf8(s), 0, u16::MAX as int) {
            Ok(v) => Ok(v as u16),
            Err(e) => Err(e),
        }
    }

    fn from_text(s: &str) -> (res: Result<u16, ParseIntError>) {
        let b = s.as_bytes();
        proof {
            assert(b@.take(b@.len() as int) =~= b@);
        }
        match parse_unsigned(b, b.len(), u16::MAX as u128) {
            Ok(v) => Ok(v as u16),
            Err(e) => Err(e),
        }
    }
}

impl ToText for u16 {
    open spec fn spec_to_text(v: u16) -> Seq<char> {
        crate::number::decimal_text(v as int)
    }

    fn to_text(&self) -> (res: String) {
        let mut s = String::new();
        write_unsigned(*self as u128, &mut s);
        s
    }
}

impl FromText for u32 {
    type Err = ParseIntError;

    open spec fn spec_from_text(s: Seq<char>) -> Result<u32, ParseIntError> {
        match crate::number::spec_parse_int(vstd::utf8::encode_utf8(s), 0, u32::MAX as int) {
            Ok(v) => Ok(v as u32),
            Err(e) => Err(e),
        }
    }

    fn from_text(s: &str) -> (res: Result<u32, ParseIntError>) {
        let b = s.as_bytes();
        proof {
            assert(b@.take(b@.len() as int) =~= b@);
        }
        match parse_unsigned(b, b.len(), u32::MAX as u128) {
            Ok(v) => Ok(v as u32),
            Err(e) => Err(e),
        }
    }
}

impl ToText for u32 {
    open spec fn spec_to_text(v: u32) -> Seq<char> {
        crate::number::decimal_text(v as int)
    }

    fn to_text(&self) -> (res: String) {
        let mut s = String::new();
        write_unsigned(*self as u128, &mut s);
        s
    }
}

impl FromText for u64 {
    type Err = ParseIntError;

    open spec fn spec_from_text(s: Seq<char>) -> Result<u64, ParseIntError> {
        match crate::number::spec_parse_int(vstd::utf8::encode_utf8(s), 0, u64::MAX as int) {
            Ok(v) => Ok(v as u64),
            Err(e) => Err(e),
        }
    }

    fn from_text(s: &str) -> (res: Result<u64, ParseIntError>) {
        let b = s.as_bytes();
        proof {
            assert(b@.take(b@.len() as int) =~= b@);
        }
        match parse_unsigned(b, b.len(), u64::MAX as u128) {
            Ok(v) => Ok(v as u64),
            Err(e) => Err(e),
        }
    }
}

impl ToText for u64 {
    open spec fn spec_to_text(v: u64) -> Seq<char> {
        crate::number::decimal_text(v as int)
    }

    fn to_text(&self) -> (res: String) {
        let mut s = String::new();
        write_unsigned(*self as u128, &mut s);
        s
    }
}

impl FromText for u128 {
    type Err = ParseIntError;

    open spec fn spec_from_text(s: Seq<char>) -> Result<u128, ParseIntError> {
        match crate::number::spec_parse_int(vstd::utf8::encode_utf8(s), 0, u128::MAX as int) {
            Ok(v) => Ok(v as u128),
            Err(e) => Err(e),
        }
    }

    fn from_text(s: &str) -> (res: Result<u128, ParseIntError>) {
        let b = s.as_bytes();
        proof {
            assert(b@.take(b@.len() as int) =~= b@);
        }
        match parse_unsigned(b, b.len(), u128::MAX as u128) {
            Ok(v) => Ok(v as u128),
            Err(e) => Err(e),
        }
    }
}

impl ToText for u128 {
    open spec fn spec_to_text(v: u128) -> Seq<char> {
        crate::number::decimal_text(v as int)
    }

    fn to_text(&self) -> (res: String) {
        let mut s = String::new();
        write_unsigned(*self as u128, &mut s);
        s
    }
}

impl FromText for usize {
    type Err = ParseIntError;

    open spec fn spec_from_text(s: Seq<char>) -> Result<usize, ParseIntError> {
        match crate::number::spec_parse_int(vstd::utf8::encode_utf8(s), 0, usize::MAX as int) {
            Ok(v) => Ok(v as usize),
            Err(e) => Err(e),
        }
    }

    fn from_text(s: &str) -> (res: Result<usize, ParseIntError>) {
        let b = s.as_bytes();
        proof {
            assert(b@.take(b@.len() as int) =~= b@);
        }
        match parse_unsigned(b, b.len(), usize::MAX as u128) {
            Ok(v) => Ok(v as usize),
            Err(e) => Err(e),
        }
    }
}

impl ToText for usize {
    open spec fn spec_to_text(v: usize) -> Seq<char> {
        crate::number::decimal_text(v as int)
    }

    fn to_text(&self) -> (res: String) {
        let mut s = String::new();
        write_unsigned(*self as u128, &mut s);
        s
    }
}

impl FromText for i8 {
    type Err = ParseIntError;

    open spec fn spec_from_text(s: Seq<char>) -> Result<i8, ParseIntError> {
        match crate::number::spec_parse_int(vstd::utf8::encode_utf8(s), i8::MIN as int, i8::MAX as int) {
            Ok(v) => Ok(v as i8),
            Err(e) => Err(e),
        }
    }

    fn from_text(s: &str) -> (res: Result<i8, ParseIntError>) {
        let b = s.as_bytes();
        proof {
            assert(b@.take(b@.len() as int) =~= b@);
        }
        match parse_signed(b, b.len(), i8::MIN as i128, i8::MAX as i128) {
            Ok(v) => Ok(v as i8),
            Err(e) => Err(e),
        }
    }
}

impl ToText for i8 {
    open spec fn spec_to_text(v: i8) -> Seq<char> {
        crate::number::decimal_text(v as int)
    }

    fn to_text(&self) -> (res: String) {
        let mut s = String::new();
        write_signed(*self as i128, &mut s);
        s
    }
}

impl FromText for i16 {
    type Err = ParseIntError;

    open spec fn spec_from_text(s: Seq<char>) -> Result<i16, ParseIntError> {
        match crate::number::spec_parse_int(vstd::utf8::encode_utf8(s), i16::MIN as int, i16::MAX as int) {
            Ok(v) => Ok(v as i16),
            Err(e) => Err(e),
        }
    }

    fn from_text(s: &str) -> (res: Result<i16, ParseIntError>) {
        let b = s.as_bytes();
        proof {
            assert(b@.take(b@.len() as int) =~= b@);
        }
        match parse_signed(b, b.len(), i16::MIN as i128, i16::MAX as i128) {
            Ok(v) => Ok(v as i16),
            Err(e) => Err(e),
        }
    }
}

impl ToText for i16 {
    open spec fn spec_to_text(v: i16) -> Seq<char> {
        crate::number::decimal_text(v as int)
    }

    fn to_text(&self) -> (res: String) {
        let mut s = String::new();
        write_signed(*self as i128, &mut s);
        s
    }
}

impl FromText for i32 {
    type Err = ParseIntError;

    open spec fn spec_from_text(s: Seq<char>) -> Result<i32, ParseIntError> {
        match crate::number::spec_parse_int(vstd::utf8::encode_utf8(s), i32::MIN as int, i32::MAX as int) {
            Ok(v) => Ok(v as i32),
            Err(e) => Err(e),
        }
    }

    fn from_text(s: &str) -> (res: Result<i32, ParseIntError>) {
        let b = s.as_bytes();
        proof {
            assert(b@.take(b@.len() as int) =~= b@);
        }
        match parse_signed(b, b.len(), i32::MIN as i128, i32::MAX as i128) {
            Ok(v) => Ok(v as i32),
            Err(e) => Err(e),
        }
    }
}

impl ToText for i32 {
    open spec fn spec_to_text(v: i32) -> Seq<char> {
        crate::number::decimal_text(v as int)
    }

    fn to_text(&self) -> (res: String) {
        let mut s = String::new();
        write_signed(*self as i128, &mut s);
        s
    }
}

impl FromText for i64 {
    type Err = ParseIntError;

    open spec fn spec_from_text(s: Seq<char>) -> Result<i64, ParseIntError> {
        match crate::number::spec_parse_int(vstd::utf8::encode_utf8(s), i64::MIN as int, i64::MAX as int) {
            Ok(v) => Ok(v as i64),
            Err(e) => Err(e),
        }
    }

    fn from_text(s: &str) -> (res: Result<i64, ParseIntError>) {
        let b = s.as_bytes();
        proof {
            assert(b@.take(b@.len() as int) =~= b@);
        }
        match parse_signed(b, b.len(), i64::MIN as i128, i64::MAX as i128) {
            Ok(v) => Ok(v as i64),
            Err(e) => Err(e),
        }
    }
}

impl ToText for i64 {
    open spec fn spec_to_text(v: i64) -> Seq<char> {
        crate::number::decimal_text(v as int)
    }

    fn to_text(&self) -> (res: String) {
        let mut s = String::new();
        write_signed(*self as i128, &mut s);
        s
    }
}

impl FromText for i128 {
    type Err = ParseIntError;

    open spec fn spec_from_text(s: Seq<char>) -> Result<i128, ParseIntError> {
        match crate::number::spec_parse_int(vstd::utf8::encode_utf8(s), i128::MIN as int, i128::MAX as int) {
            Ok(v) => Ok(v as i128),
            Err(e) => Err(e),
        }
    }

    fn from_text(s: &str) -> (res: Result<i128, ParseIntError>) {
        let b = s.as_bytes();
        proof {
            assert(b@.take(b@.len() as int) =~= b@);
        }
        match parse_signed(b, b.len(), i128::MIN as i128, i128::MAX as i128) {
            Ok(v) => Ok(v as i128),
            Err(e) => Err(e),
        }
    }
}

impl ToText for i128 {
    open spec fn spec_to_text(v: i128) -> Seq<char> {
        crate::number::decimal_text(v as int)
    }

    fn to_text(&self) -> (res: String) {
        let mut s = String::new();
        write_signed(*self as i128, &mut s);
        s
    }
}

impl FromText for isize {
    type Err = ParseIntError;

    open spec fn spec_from_text(s: Seq<char>) -> Result<isize, ParseIntError> {
        match crate::number::spec_parse_int(vstd::utf8::encode_utf8(s), isize::MIN as int, isize::MAX as int) {
            Ok(v) => Ok(v as isize),
            Err(e) => Err(e),
        }
    }

    fn from_text(s: &str) -> (res: Result<isize, ParseIntError>) {
        let b = s.as_bytes();
        proof {
            assert(b@.take(b@.len() as int) =~= b@);
        }
        match parse_signed(b, b.len(), isize::MIN as i128, isize::MAX as i128) {
            Ok(v) => Ok(v as isize),
            Err(e) => Err(e),
        }
    }
}

impl ToText for isize {
    open spec fn spec_to_text(v: isize) -> Seq<char> {
        crate::number::decimal_text(v as int)
    }

    fn to_text(&self) -> (res: String) {
        let mut s = String::new();
        write_signed(*self as i128, &mut s);
        s
    }
}

// The decimal text of every integer type reads back exactly over the type's range.

/// Reading the decimal text of any integer as `u8` gives the value back where it lies in
/// `u8`'s range; above the range it overflows, and below it the `-` is a stray character.
pub proof fn lemma_u8_text(v: int)
    ensures
        <u8 as FromText>::spec_from_text(crate::number::decimal_text(v)) == (if 0 <= v <= u8::MAX as int {
            Ok::<u8, ParseIntError>(v as u8)
        } else if v > u8::MAX as int {
            Err::<u8, ParseIntError>(ParseIntError::PosOverflow)
        } else {
            Err::<u8, ParseIntError>(ParseIntError::InvalidDigit)
        }),
{
    crate::number::lemma_encode_decimal_text(v);
    if 0 <= v <= u8::MAX as int {
        crate::number::lemma_parse_decimal(v, 0, u8::MAX as int);
    } else {
        crate::number::lemma_parse_decimal_out_of_range(v, 0, u8::MAX as int);
    }
}

/// A non-empty list of `u8` written by `to_string` reads back as the same list.
pub proof fn lemma_u8_list_text_roundtrip(items: Seq<u8>)
    requires
        items.len() > 0,
    ensures
        from_text_each::<u8>(
            crate::split::split_on(crate::split::join_on(items.map_values(|v: u8| <u8 as ToText>::spec_to_text(v)), '|'), '|'),
        ) == Ok::<Seq<u8>, ParseIntError>(items),
{
    assert forall|i: int| 0 <= i < items.len() implies !(#[trigger] <u8 as ToText>::spec_to_text(items[i])).contains('|') by {
        crate::number::lemma_decimal_text_no_bar(items[i] as int);
    }
    assert forall|i: int| 0 <= i < items.len() implies <u8 as FromText>::spec_from_text(#[trigger] <u8 as ToText>::spec_to_text(items[i]))
        == Ok::<u8, ParseIntError>(items[i]) by {
        lemma_u8_text(items[i] as int);
    }
    lemma_list_text_roundtrip::<u8>(items);
}

/// Reading the decimal text of any integer as `u16` gives the value back where it lies in
/// `u16`'s range; above the range it overflows, and below it the `-` is a stray character.
pub proof fn lemma_u16_text(v: int)
    ensures
        <u16 as FromText>::spec_from_text(crate::number::decimal_text(v)) == (if 0 <= v <= u16::MAX as int {
            Ok::<u16, ParseIntError>(v as u16)
        } else if v > u16::MAX as int {
            Err::<u16, ParseIntError>(ParseIntError::PosOverflow)
        } else {
            Err::<u16, ParseIntError>(ParseIntError::InvalidDigit)
        }),
{
    crate::number::lemma_encode_decimal_text(v);
    if 0 <= v <= u16::MAX as int {
        crate::number::lemma_parse_decimal(v, 0, u16::MAX as int);
    } else {
        crate::number::lemma_parse_decimal_out_of_range(v, 0, u16::MAX as int);
    }
}

/// A non-empty list of `u16` written by `to_string` reads back as the same list.
pub proof fn lemma_u16_list_text_roundtrip(items: Seq<u16>)
    requires
        items.len() > 0,
    ensures
        from_text_each::<u16>(
            crate::split::split_on(crate::split::join_on(items.map_values(|v: u16| <u16 as ToText>::spec_to_text(v)), '|'), '|'),
        ) == Ok::<Seq<u16>, ParseIntError>(items),
{
    assert forall|i: int| 0 <= i < items.len() implies !(#[trigger] <u16 as ToText>::spec_to_text(items[i])).contains('|') by {
        crate::number::lemma_decimal_text_no_bar(items[i] as int);
    }
    assert forall|i: int| 0 <= i < items.len() implies <u16 as FromText>::spec_from_text(#[trigger] <u16 as ToText>::spec_to_text(items[i]))
        == Ok::<u16, ParseIntError>(items[i]) by {
        lemma_u16_text(items[i] as int);
    }
    lemma_list_text_roundtrip::<u16>(items);
}

/// Reading the decimal text of any integer as `u32` gives the value back where it lies in
/// `u32`'s range; above the range it overflows, and below it the `-` is a stray character.
pub proof fn lemma_u32_text(v: int)
    ensures
        <u32 as FromText>::spec_from_text(crate::number::decimal_text(v)) == (if 0 <= v <= u32::MAX as int {
            Ok::<u32, ParseIntError>(v as u32)
        } else if v > u32::MAX as int {
            Err::<u32, ParseIntError>(ParseIntError::PosOverflow)
        } else {
            Err::<u32, ParseIntError>(ParseIntError::InvalidDigit)
        }),
{
    crate::number::lemma_encode_decimal_text(v);
    if 0 <= v <= u32::MAX as int {
        crate::number::lemma_parse_decimal(v, 0, u32::MAX as int);
    } else {
        crate::number::lemma_parse_decimal_out_of_range(v, 0, u32::MAX as int);
    }
}

/// A non-empty list of `u32` written by `to_string` reads back as the same list.
pub proof fn lemma_u32_list_text_roundtrip(items: Seq<u32>)
    requires
        items.len() > 0,
    ensures
        from_text_each::<u32>(
            crate::split::split_on(crate::split::join_on(items.map_values(|v: u32| <u32 as ToText>::spec_to_text(v)), '|'), '|'),
        ) == Ok::<Seq<u32>, ParseIntError>(items),
{
    assert forall|i: int| 0 <= i < items.len() implies !(#[trigger] <u32 as ToText>::spec_to_text(items[i])).contains('|') by {
        crate::number::lemma_decimal_text_no_bar(items[i] as int);
    }
    assert forall|i: int| 0 <= i < items.len() implies <u32 as FromText>::spec_from_text(#[trigger] <u32 as ToText>::spec_to_text(items[i]))
        == Ok::<u32, ParseIntError>(items[i]) by {
        lemma_u32_text(items[i] as int);
    }
    lemma_list_text_roundtrip::<u32>(items);
}

/// Reading the decimal text of any integer as `u64` gives the value back where it lies in
/// `u64`'s range; above the range it overflows, and below it the `-` is a stray character.
pub proof fn lemma_u64_text(v: int)
    ensures
        <u64 as FromText>::spec_from_text(crate::number::decimal_text(v)) == (if 0 <= v <= u64::MAX as int {
            Ok::<u64, ParseIntError>(v as u64)
        } else if v > u64::MAX as int {
            Err::<u64, ParseIntError>(ParseIntError::PosOverflow)
        } else {
            Err::<u64, ParseIntError>(ParseIntError::InvalidDigit)
        }),
{
    crate::number::lemma_encode_decimal_text(v);
    if 0 <= v <= u64::MAX as int {
        crate::number::lemma_parse_decimal(v, 0, u64::MAX as int);
    } else {
        crate::number::lemma_parse_decimal_out_of_range(v, 0, u64::MAX as int);
    }
}

/// A non-empty list of `u64` written by `to_string` reads back as the same list.
pub proof fn lemma_u64_list_text_roundtrip(items: Seq<u64>)
    requires
        items.len() > 0,
    ensures
        from_text_each::<u64>(
            crate::split::split_on(crate::split::join_on(items.map_values(|v: u64| <u64 as ToText>::spec_to_text(v)), '|'), '|'),
        ) == Ok::<Seq<u64>, ParseIntError>(items),
{
    assert forall|i: int| 0 <= i < items.len() implies !(#[trigger] <u64 as ToText>::spec_to_text(items[i])).contains('|') by {
        crate::number::lemma_decimal_text_no_bar(items[i] as int);
    }
    assert forall|i: int| 0 <= i < items.len() implies <u64 as FromText>::spec_from_text(#[trigger] <u64 as ToText>::spec_to_text(items[i]))
        == Ok::<u64, ParseIntError>(items[i]) by {
        lemma_u64_text(items[i] as int);
    }
    lemma_list_text_roundtrip::<u64>(items);
}

/// Reading the decimal text of any integer as `u128` gives the value back where it lies in
/// `u128`'s range; above the range it overflows, and below it the `-` is a stray character.
pub proof fn lemma_u128_text(v: int)
    ensures
        <u128 as FromText>::spec_from_text(crate::number::decimal_text(v)) == (if 0 <= v <= u128::MAX as int {
            Ok::<u128, ParseIntError>(v as u128)
        } else if v > u128::MAX as int {
            Err::<u128, ParseIntError>(ParseIntError::PosOverflow)
        } else {
            Err::<u128, ParseIntError>(ParseIntError::InvalidDigit)
        }),
{
    crate::number::lemma_encode_decimal_text(v);
    if 0 <= v <= u128::MAX as int {
        crate::number::lemma_parse_decimal(v, 0, u128::MAX as int);
    } else {
        crate::number::lemma_parse_decimal_out_of_range(v, 0, u128::MAX as int);
    }
}

/// A non-empty list of `u128` written by `to_string` reads back as the same list.
pub proof fn lemma_u128_list_text_roundtrip(items: Seq<u128>)
    requires
        items.len() > 0,
    ensures
        from_text_each::<u128>(
            crate::split::split_on(crate::split::join_on(items.map_values(|v: u128| <u128 as ToText>::spec_to_text(v)), '|'), '|'),
        ) == Ok::<Seq<u128>, ParseIntError>(items),
{
    assert forall|i: int| 0 <= i < items.len() implies !(#[trigger] <u128 as ToText>::spec_to_text(items[i])).contains('|') by {
        crate::number::lemma_decimal_text_no_bar(items[i] as int);
    }
    assert forall|i: int| 0 <= i < items.len() implies <u128 as FromText>::spec_from_text(#[trigger] <u128 as ToText>::spec_to_text(items[i]))
        == Ok::<u128, ParseIntError>(items[i]) by {
        lemma_u128_text(items[i] as int);
    }
    lemma_list_text_roundtrip::<u128>(items);
}

/// Reading the decimal text of any integer as `usize` gives the value back where it lies in
/// `usize`'s range; above the range it overflows, and below it the `-` is a stray character.
pub proof fn lemma_usize_text(v: int)
    ensures
        <usize as FromText>::spec_from_text(crate::number::decimal_text(v)) == (if 0 <= v <= usize::MAX as int {
            Ok::<usize, ParseIntError>(v as usize)
        } else if v > usize::MAX as int {
            Err::<usize, ParseIntError>(ParseIntError::PosOverflow)
        } else {
            Err::<usize, ParseIntError>(ParseIntError::InvalidDigit)
        }),
{
    crate::number::lemma_encode_decimal_text(v);
    if 0 <= v <= usize::MAX as int {
        crate::number::lemma_parse_decimal(v, 0, usize::MAX as int);
    } else {
        crate::number::lemma_parse_decimal_out_of_range(v, 0, usize::MAX as int);
    }
}

/// A non-empty list of `usize` written by `to_string` reads back as the same list.
pub proof fn lemma_usize_list_text_roundtrip(items: Seq<usize>)
    requires
        items.len() > 0,
    ensures
        from_text_each::<usize>(
            crate::split::split_on(crate::split::join_on(items.map_values(|v: usize| <usize as ToText>::spec_to_text(v)), '|'), '|'),
        ) == Ok::<Seq<usize>, ParseIntError>(items),
{
    assert forall|i: int| 0 <= i < items.len() implies !(#[trigger] <usize as ToText>::spec_to_text(items[i])).contains('|') by {
        crate::number::lemma_decimal_text_no_bar(items[i] as int);
    }
    assert forall|i: int| 0 <= i < items.len() implies <usize as FromText>::spec_from_text(#[trigger] <usize as ToText>::spec_to_text(items[i]))
        == Ok::<usize, ParseIntError>(items[i]) by {
        lemma_usize_text(items[i] as int);
    }
    lemma_list_text_roundtrip::<usize>(items);
}

/// Reading the decimal text of any integer as `i8` gives the value back where it lies in
/// `i8`'s range; above the range it overflows, and below it underflows.
pub proof fn lemma_i8_text(v: int)
    ensures
        <i8 as FromText>::spec_from_text(crate::number::decimal_text(v)) == (if i8::MIN as int <= v <= i8::MAX as int {
            Ok::<i8, ParseIntError>(v as i8)
        } else if v > i8::MAX as int {
            Err::<i8, ParseIntError>(ParseIntError::PosOverflow)
        } else {
            Err::<i8, ParseIntError>(ParseIntError::NegOverflow)
        }),
{
    crate::number::lemma_encode_decimal_text(v);
    if i8::MIN as int <= v <= i8::MAX as int {
        crate::number::lemma_parse_decimal(v, i8::MIN as int, i8::MAX as int);
    } else {
        crate::number::lemma_parse_decimal_out_of_range(v, i8::MIN as int, i8::MAX as int);
    }
}

/// A non-empty list of `i8` written by `to_string` reads back as the same list.
pub proof fn lemma_i8_list_text_roundtrip(items: Seq<i8>)
    requires
        items.len() > 0,
    ensures
        from_text_each::<i8>(
            crate::split::split_on(crate::split::join_on(items.map_values(|v: i8| <i8 as ToText>::spec_to_text(v)), '|'), '|'),
        ) == Ok::<Seq<i8>, ParseIntError>(items),
{
    assert forall|i: int| 0 <= i < items.len() implies !(#[trigger] <i8 as ToText>::spec_to_text(items[i])).contains('|') by {
        crate::number::lemma_decimal_text_no_bar(items[i] as int);
    }
    assert forall|i: int| 0 <= i < items.len() implies <i8 as FromText>::spec_from_text(#[trigger] <i8 as ToText>::spec_to_text(items[i]))
        == Ok::<i8, ParseIntError>(items[i]) by {
        lemma_i8_text(items[i] as int);
    }
    lemma_list_text_roundtrip::<i8>(items);
}

/// Reading the decimal text of any integer as `i16` gives the value back where it lies in
/// `i16`'s range; above the range it overflows, and below it underflows.
pub proof fn lemma_i16_text(v: int)
    ensures
        <i16 as FromText>::spec_from_text(crate::number::decimal_text(v)) == (if i16::MIN as int <= v <= i16::MAX as int {
            Ok::<i16, ParseIntError>(v as i16)
        } else if v > i16::MAX as int {
            Err::<i16, ParseIntError>(ParseIntError::PosOverflow)
        } else {
            Err::<i16, ParseIntError>(ParseIntError::NegOverflow)
        }),
{
    crate::number::lemma_encode_decimal_text(v);
    if i16::MIN as int <= v <= i16::MAX as int {
        crate::number::lemma_parse_decimal(v, i16::MIN as int, i16::MAX as int);
    } else {
        crate::number::lemma_parse_decimal_out_of_range(v, i16::MIN as int, i16::MAX as int);
    }
}

/// A non-empty list of `i16` written by `to_string` reads back as the same list.
pub proof fn lemma_i16_list_text_roundtrip(items: Seq<i16>)
    requires
        items.len() > 0,
    ensures
        from_text_each::<i16>(
            crate::split::split_on(crate::split::join_on(items.map_values(|v: i16| <i16 as ToText>::spec_to_text(v)), '|'), '|'),
        ) == Ok::<Seq<i16>, ParseIntError>(items),
{
    assert forall|i: int| 0 <= i < items.len() implies !(#[trigger] <i16 as ToText>::spec_to_text(items[i])).contains('|') by {
        crate::number::lemma_decimal_text_no_bar(items[i] as int);
    }
    assert forall|i: int| 0 <= i < items.len() implies <i16 as FromText>::spec_from_text(#[trigger] <i16 as ToText>::spec_to_text(items[i]))
        == Ok::<i16, ParseIntError>(items[i]) by {
        lemma_i16_text(items[i] as int);
    }
    lemma_list_text_roundtrip::<i16>(items);
}

/// Reading the decimal text of any integer as `i32` gives the value back where it lies in
/// `i32`'s range; above the range it overflows, and below it underflows.
pub proof fn lemma_i32_text(v: int)
    ensures
        <i32 as FromText>::spec_from_text(crate::number::decimal_text(v)) == (if i32::MIN as int <= v <= i32::MAX as int {
            Ok::<i32, ParseIntError>(v as i32)
        } else if v > i32::MAX as int {
            Err::<i32, ParseIntError>(ParseIntError::PosOverflow)
        } else {
            Err::<i32, ParseIntError>(ParseIntError::NegOverflow)
        }),
{
    crate::number::lemma_encode_decimal_text(v);
    if i32::MIN as int <= v <= i32::MAX as int {
        crate::number::lemma_parse_decimal(v, i32::MIN as int, i32::MAX as int);
    } else {
        crate::number::lemma_parse_decimal_out_of_range(v, i32::MIN as int, i32::MAX as int);
    }
}

/// Reading the decimal text of any integer as `i64` gives the value back where it lies in
/// `i64`'s range; above the range it overflows, and below it underflows.
pub proof fn lemma_i64_text(v: int)
    ensures
        <i64 as FromText>::spec_from_text(crate::number::decimal_text(v)) == (if i64::MIN as int <= v <= i64::MAX as int {
            Ok::<i64, ParseIntError>(v as i64)
        } else if v > i64::MAX as int {
            Err::<i64, ParseIntError>(ParseIntError::PosOverflow)
        } else {
            Err::<i64, ParseIntError>(ParseIntError::NegOverflow)
        }),
{
    crate::number::lemma_encode_decimal_text(v);
    if i64::MIN as int <= v <= i64::MAX as int {
        crate::number::lemma_parse_decimal(v, i64::MIN as int, i64::MAX as int);
    } else {
        crate::number::lemma_parse_decimal_out_of_range(v, i64::MIN as int, i64::MAX as int);
    }
}

/// A non-empty list of `i64` written by `to_string` reads back as the same list.
pub proof fn lemma_i64_list_text_roundtrip(items: Seq<i64>)
    requires
        items.len() > 0,
    ensures
        from_text_each::<i64>(
            crate::split::split_on(crate::split::join_on(items.map_values(|v: i64| <i64 as ToText>::spec_to_text(v)), '|'), '|'),
        ) == Ok::<Seq<i64>, ParseIntError>(items),
{
    assert forall|i: int| 0 <= i < items.len() implies !(#[trigger] <i64 as ToText>::spec_to_text(items[i])).contains('|') by {
        crate::number::lemma_decimal_text_no_bar(items[i] as int);
    }
    assert forall|i: int| 0 <= i < items.len() implies <i64 as FromText>::spec_from_text(#[trigger] <i64 as ToText>::spec_to_text(items[i]))
        == Ok::<i64, ParseIntError>(items[i]) by {
        lemma_i64_text(items[i] as int);
    }
    lemma_list_text_roundtrip::<i64>(items);
}

/// Reading the decimal text of any integer as `i128` gives the value back where it lies in
/// `i128`'s range; above the range it overflows, and below it underflows.
pub proof fn lemma_i128_text(v: int)
    ensures
        <i128 as FromText>::spec_from_text(crate::number::decimal_text(v)) == (if i128::MIN as int <= v <= i128::MAX as int {
            Ok::<i128, ParseIntError>(v as i128)
        } else if v > i128::MAX as int {
            Err::<i128, ParseIntError>(ParseIntError::PosOverflow)
        } else {
            Err::<i128, ParseIntError>(ParseIntError::NegOverflow)
        }),
{
    crate::number::lemma_encode_decimal_text(v);
    if i128::MIN as int <= v <= i128::MAX as int {
        crate::number::lemma_parse_decimal(v, i128::MIN as int, i128::MAX as int);
    } else {
        crate::number::lemma_parse_decimal_out_of_range(v, i128::MIN as int, i128::MAX as int);
    }
}

/// A non-empty list of `i128` written by `to_string` reads back as the same list.
pub proof fn lemma_i128_list_text_roundtrip(items: Seq<i128>)
    requires
        items.len() > 0,
    ensures
        from_text_each::<i128>(
            crate::split::split_on(crate::split::join_on(items.map_values(|v: i128| <i128 as ToText>::spec_to_text(v)), '|'), '|'),
        ) == Ok::<Seq<i128>, ParseIntError>(items),
{
    assert forall|i: int| 0 <= i < items.len() implies !(#[trigger] <i128 as ToText>::spec_to_text(items[i])).contains('|') by {
        crate::number::lemma_decimal_text_no_bar(items[i] as int);
    }
    assert forall|i: int| 0 <= i < items.len() implies <i128 as FromText>::spec_from_text(#[trigger] <i128 as ToText>::spec_to_text(items[i]))
        == Ok::<i128, ParseIntError>(items[i]) by {
        lemma_i128_text(items[i] as int);
    }
    lemma_list_text_roundtrip::<i128>(items);
}

/// Reading the decimal text of any integer as `isize` gives the value back where it lies in
/// `isize`'s range; above the range it overflows, and below it underflows.
pub proof fn lemma_isize_text(v: int)
    ensures
        <isize as FromText>::spec_from_text(crate::number::decimal_text(v)) == (if isize::MIN as int <= v <= isize::MAX as int {
            Ok::<isize, ParseIntError>(v as isize)
        } else if v > isize::MAX as int {
            Err::<isize, ParseIntError>(ParseIntError::PosOverflow)
        } else {
            Err::<isize, ParseIntError>(ParseIntError::NegOverflow)
        }),
{
    crate::number::lemma_encode_decimal_text(v);
    if isize::MIN as int <= v <= isize::MAX as int {
        crate::number::lemma_parse_decimal(v, isize::MIN as int, isize::MAX as int);
    } else {
        crate::number::lemma_parse_decimal_out_of_range(v, isize::MIN as int, isize::MAX as int);
    }
}

/// A non-empty list of `isize` written by `to_string` reads back as the same list.
pub proof fn lemma_isize_list_text_roundtrip(items: Seq<isize>)
    requires
        items.len() > 0,
    ensures
        from_text_each::<isize>(
            crate::split::split_on(crate::split::join_on(items.map_values(|v: isize| <isize as ToText>::spec_to_text(v)), '|'), '|'),
        ) == Ok::<Seq<isize>, ParseIntError>(items),
{
    assert forall|i: int| 0 <= i < items.len() implies !(#[trigger] <isize as ToText>::spec_to_text(items[i])).contains('|') by {
        crate::number::lemma_decimal_text_no_bar(items[i] as int);
    }
    assert forall|i: int| 0 <= i < items.len() implies <isize as FromText>::spec_from_text(#[trigger] <isize as ToText>::spec_to_text(items[i]))
        == Ok::<isize, ParseIntError>(items[i]) by {
        lemma_isize_text(items[i] as int);
    }
    lemma_list_text_roundtrip::<isize>(items);
}

} // verus!
