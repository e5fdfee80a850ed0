//! The keys by which rows are found.
use vstd::prelude::*;
use crate::map::{texts, EntryMap, MapKey};

verus! {

/// What a [`PrimaryKey`] stands for.
#[verifier::ext_equal]
pub enum PrimaryKeyView {
    Single(Seq<char>),
    Composite(Map<Seq<char>, Seq<char>>),
}

/// The key of a row within its table.
#[derive(Debug)]
pub enum PrimaryKey {
    /// A key of one column.
    Single(String),
    /// A key of several columns, by their names.
    Composite(EntryMap<String, String>),
}

impl View for PrimaryKey {
    type V = PrimaryKeyView;

    open spec fn view(&self) -> PrimaryKeyView {
        match *self {
            PrimaryKey::Single(key) => PrimaryKeyView::Single(key@),
            PrimaryKey::Composite(keys) => PrimaryKeyView::Composite(texts(keys@)),
        }
    }
}

impl PrimaryKey {
    /// No column of the key occurs twice.
    pub open spec fn wf(self) -> bool {
        match self {
            PrimaryKey::Single(_) => true,
            PrimaryKey::Composite(keys) => keys.wf(),
        }
    }
}

impl MapKey for PrimaryKey {
    fn same_key(&self, other: &Self) -> (same: bool) {
        match (self, other) {
            (PrimaryKey::Single(mine), PrimaryKey::Single(others)) => *mine == *others,
            (PrimaryKey::Composite(mine), PrimaryKey::Composite(others)) => mine.same_texts(others),
            _ => false,
        }
    }
}

impl PartialEq for PrimaryKey {
    fn eq(&self, other: &Self) -> (same: bool) {
        self.same_key(other)
    }
}

impl Eq for PrimaryKey {

}

impl vstd::std_specs::cmp::PartialEqSpecImpl for PrimaryKey {
    open spec fn obeys_eq_spec() -> bool {
        true
    }

    open spec fn eq_spec(&self, other: &Self) -> bool {
        self@ == other@
    }
}

/// `key` may be turned into the primary key `primary_key`.
///
/// For the types of this module the conversion's own contract says which one that is.
pub open spec fn converts_to<K: Into<PrimaryKey>>(key: K, primary_key: PrimaryKey) -> bool {
    call_ensures(<K as Into<PrimaryKey>>::into, (key,), primary_key)
}

// Views say which text a string holds, but not that two strings with the same text are one value.
// So where a conversion makes a new string, its contract speaks of views, and it follows no
// `from_spec`.

impl From<&str> for PrimaryKey {
    fn from(x: &str) -> (key: Self)
        ensures
            key@ == PrimaryKeyView::Single(x@),
            key.wf(),
    {
        PrimaryKey::Single(x.to_string())
    }
}

impl vstd::std_specs::convert::FromSpecImpl<&str> for PrimaryKey {
    open spec fn obeys_from_spec() -> bool {
        false
    }

    open spec fn from_spec(x: &str) -> Self {
        arbitrary()
    }
}

impl From<&String> for PrimaryKey {
    fn from(x: &String) -> (key: Self)
        ensures
            key@ == PrimaryKeyView::Single(x@),
            key.wf(),
    {
        PrimaryKey::Single(x.clone())
    }
}

impl vstd::std_specs::convert::FromSpecImpl<&String> for PrimaryKey {
    open spec fn obeys_from_spec() -> bool {
        false
    }

    open spec fn from_spec(x: &String) -> Self {
        arbitrary()
    }
}

impl From<String> for PrimaryKey {
    fn from(x: String) -> (key: Self)
        ensures
            key == PrimaryKey::Single(x),
    {
        PrimaryKey::Single(x)
    }
}

impl vstd::std_specs::convert::FromSpecImpl<String> for PrimaryKey {
    open spec fn obeys_from_spec() -> bool {
        true
    }

    open spec fn from_spec(x: String) -> Self {
        PrimaryKey::Single(x)
    }
}

/// A text that can name a column of a composite key.
pub trait KeyName {
    /// The characters of the name.
    spec fn name_text(&self) -> Seq<char>;

    fn name(&self) -> (name: &str)
        ensures
            name@ == self.name_text(),
    ;
}

impl<T: KeyName> KeyName for &T {
    open spec fn name_text(&self) -> Seq<char> {
        (**self).name_text()
    }

    fn name(&self) -> (name: &str) {
        (**self).name()
    }
}

impl KeyName for &str {
    open spec fn name_text(&self) -> Seq<char> {
        (*self)@
    }

    fn name(&self) -> (name: &str) {
        *self
    }
}

impl KeyName for String {
    open spec fn name_text(&self) -> Seq<char> {
        self@
    }

    fn name(&self) -> (name: &str) {
        self.as_str()
    }
}

impl KeyName for Box<str> {
    open spec fn name_text(&self) -> Seq<char> {
        (**self)@
    }

    fn name(&self) -> (name: &str) {
        &**self
    }
}

impl KeyName for std::rc::Rc<str> {
    open spec fn name_text(&self) -> Seq<char> {
        (**self)@
    }

    fn name(&self) -> (name: &str) {
        &**self
    }
}

impl KeyName for std::sync::Arc<str> {
    open spec fn name_text(&self) -> Seq<char> {
        (**self)@
    }

    fn name(&self) -> (name: &str) {
        &**self
    }
}

impl KeyName for std::borrow::Cow<'_, str> {
    open spec fn name_text(&self) -> Seq<char> {
        self@
    }

    fn name(&self) -> (name: &str) {
        match self {
            std::borrow::Cow::Borrowed(name) => *name,
            std::borrow::Cow::Owned(name) => name.as_str(),
        }
    }
}

/// The columns of a composite key: of those with the same name, the last one counts.
pub open spec fn key_columns(pairs: Seq<(Seq<char>, Seq<char>)>) -> Map<Seq<char>, Seq<char>>
    decreases pairs.len(),
{
    if pairs.len() == 0 {
        Map::empty()
    } else {
        key_columns(pairs.drop_last()).insert(pairs.last().0, pairs.last().1)
    }
}

/// The texts of pairs, in their order.
spec fn name_pairs<K: KeyName, V: KeyName>(pairs: Seq<(K, V)>) -> Seq<(Seq<char>, Seq<char>)> {
    pairs.map_values(|pair: (K, V)| (pair.0.name_text(), pair.1.name_text()))
}

fn composite_key<K: KeyName, V: KeyName, const N: usize>(arr: &[(K, V); N]) -> (key: PrimaryKey)
    ensures
        key@ == PrimaryKeyView::Composite(key_columns(name_pairs(arr@))),
        key.wf(),
{
    let ghost pairs = name_pairs(arr@);
    let mut keys: EntryMap<String, String> = EntryMap::new();
    let mut i: usize = 0;
    assert(texts(keys@) =~= key_columns(pairs.take(0)));
    while i < N
        invariant
            i <= N,
            pairs == name_pairs(arr@),
            texts(keys@) == key_columns(pairs.take(i as int)),
            keys.wf(),
        decreases N - i,
    {
        let ghost before = keys@;
        keys.insert(arr[i].0.name().to_string(), arr[i].1.name().to_string());
        i += 1;
        assert(pairs.take(i as int).drop_last() =~= pairs.take(i - 1));
        assert(texts(keys@) =~= texts(before).insert(pairs[i - 1].0, pairs[i - 1].1));
    }
    assert(pairs.take(N as int) =~= pairs);
    PrimaryKey::Composite(keys)
}

impl<K: KeyName, const N: usize> From<[(K, String); N]> for PrimaryKey {
    fn from(arr: [(K, String); N]) -> (key: Self)
        ensures
            key@ == PrimaryKeyView::Composite(
                key_columns(
                    Seq::new(N as nat, |i: int| (arr@[i].0.name_text(), arr@[i].1@)),
                ),
            ),
            key.wf(),
    {
        let key = composite_key(&arr);
        assert(name_pairs(arr@) =~= Seq::new(
            N as nat,
            |i: int| (arr@[i].0.name_text(), arr@[i].1@),
        ));
        key
    }
}

impl<K: KeyName, const N: usize> vstd::std_specs::convert::FromSpecImpl<[(K, String); N]> for PrimaryKey {
    open spec fn obeys_from_spec() -> bool {
        false
    }

    open spec fn from_spec(arr: [(K, String); N]) -> Self {
        arbitrary()
    }
}

impl<K: KeyName, const N: usize> From<[(K, &str); N]> for PrimaryKey {
    fn from(arr: [(K, &str); N]) -> (key: Self)
        ensures
            key@ == PrimaryKeyView::Composite(
                key_columns(
                    Seq::new(N as nat, |i: int| (arr@[i].0.name_text(), arr@[i].1@)),
                ),
            ),
            key.wf(),
    {
        let key = composite_key(&arr);
        assert(name_pairs(arr@) =~= Seq::new(
            N as nat,
            |i: int| (arr@[i].0.name_text(), arr@[i].1@),
        ));
        key
    }
}

impl<K: KeyName, const N: usize> vstd::std_specs::convert::FromSpecImpl<[(K, &str); N]> for PrimaryKey {
    open spec fn obeys_from_spec() -> bool {
        false
    }

    open spec fn from_spec(arr: [(K, &str); N]) -> Self {
        arbitrary()
    }
}

} // verus!
