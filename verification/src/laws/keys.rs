//! What holds of keys, and of the maps that hold rows and columns.
use vstd::prelude::*;
use vstd::std_specs::cmp::PartialEqSpec;
use crate::key::{converts_to, key_columns, KeyName, PrimaryKey, PrimaryKeyView};
use crate::map::{lemma_entries, lemma_entry_count, texts, EntryMap};

verus! {

// Columns of a composite key.

/// A further column of a composite key has the value that it is given, in place of one that a column
/// of the same name had before; the other columns stay.
pub proof fn law_key_takes_the_last_value(
    pairs: Seq<(Seq<char>, Seq<char>)>,
    name: Seq<char>,
    value: Seq<char>,
    other: Seq<char>,
)
    requires
        other != name,
    ensures
        pairs.len() == 0 ==> !key_columns(pairs).contains_key(other),
        key_columns(pairs.push((name, value))).contains_key(name),
        key_columns(pairs.push((name, value)))[name] == value,
        key_columns(pairs.push((name, value))).contains_key(other) == key_columns(
            pairs,
        ).contains_key(other),
        key_columns(pairs).contains_key(other) ==> key_columns(pairs.push((name, value)))[other]
            == key_columns(pairs)[other],
{
    let more = pairs.push((name, value));
    assert(more.drop_last() =~= pairs);
}

/// A name has the characters of the text that holds it.
pub proof fn law_names_are_those_held(
    text: &str,
    string: String,
    boxed: Box<str>,
    counted: std::rc::Rc<str>,
    shared: std::sync::Arc<str>,
    either: std::borrow::Cow<'_, str>,
)
    ensures
        text.name_text() == text@,
        string.name_text() == string@,
        boxed.name_text() == (*boxed)@,
        counted.name_text() == (*counted)@,
        shared.name_text() == (*shared)@,
        either.name_text() == either@,
        KeyName::name_text(&&string) == string@,
        KeyName::name_text(&&text) == text@,
{
}

// Keys.

/// A key stands for its text, or for its columns by their names.
pub proof fn law_what_a_key_stands_for(text: String, columns: EntryMap<String, String>)
    ensures
        PrimaryKey::Single(text)@ == PrimaryKeyView::Single(text@),
        PrimaryKey::Composite(columns)@ is Composite,
        forall|name: Seq<char>|
            #![trigger columns@.contains_key(name)]
            ({
                let view = PrimaryKey::Composite(columns)@->Composite_0;
                &&& view.contains_key(name) <==> columns@.contains_key(name)
                &&& columns@.contains_key(name) ==> view[name] == columns@[name]@
            }),
{
}

/// Two keys of one column are equal when their texts are, and no such key is equal to one of several
/// columns.
pub proof fn law_single_keys_are_equal_by_text(
    a: String,
    b: String,
    columns: EntryMap<String, String>,
)
    ensures
        <PrimaryKey as PartialEqSpec>::obeys_eq_spec(),
        PrimaryKey::Single(a).eq_spec(&PrimaryKey::Single(b)) <==> a@ == b@,
        !PrimaryKey::Single(a).eq_spec(&PrimaryKey::Composite(columns)),
        !PrimaryKey::Composite(columns).eq_spec(&PrimaryKey::Single(a)),
{
}

/// Two keys of several columns are equal when they have the same columns with the same values, and
/// two maps of texts likewise.
pub proof fn law_composite_keys_are_equal_by_columns(
    a: EntryMap<String, String>,
    b: EntryMap<String, String>,
)
    ensures
        <EntryMap<String, String> as PartialEqSpec>::obeys_eq_spec(),
        a.eq_spec(&b) <==> PrimaryKey::Composite(a).eq_spec(&PrimaryKey::Composite(b)),
        a.eq_spec(&b) <==> forall|name: Seq<char>|
            #![trigger a@.contains_key(name)]
            #![trigger b@.contains_key(name)]
            a@.contains_key(name) == b@.contains_key(name) && (a@.contains_key(name) ==> a@[name]@
                == b@[name]@),
{
    let same = forall|name: Seq<char>|
        #![trigger a@.contains_key(name)]
        #![trigger b@.contains_key(name)]
        a@.contains_key(name) == b@.contains_key(name) && (a@.contains_key(name) ==> a@[name]@
            == b@[name]@);
    if same {
        assert(texts(a@) =~= texts(b@));
    }
    if texts(a@) == texts(b@) {
        assert forall|name: Seq<char>|
            #![trigger a@.contains_key(name)]
            #![trigger b@.contains_key(name)]
            a@.contains_key(name) == b@.contains_key(name) && (a@.contains_key(name) ==> a@[name]@
                == b@[name]@) by {
            assert(texts(a@).contains_key(name) == texts(b@).contains_key(name));
            if a@.contains_key(name) {
                assert(texts(a@)[name] == texts(b@)[name]);
            }
        }
    }
}

// Conversions.

/// A text is turned into the key of one column that holds it; a key stays as it is.
pub proof fn law_texts_become_single_keys(
    text: &str,
    string: String,
    key: PrimaryKey,
    of_text: PrimaryKey,
    of_string: PrimaryKey,
    of_ref: PrimaryKey,
    of_key: PrimaryKey,
)
    requires
        converts_to(text, of_text),
        converts_to(string, of_string),
        converts_to(&string, of_ref),
        converts_to(key, of_key),
    ensures
        of_text@ == PrimaryKeyView::Single(text@),
        of_string@ == PrimaryKeyView::Single(string@),
        of_ref@ == PrimaryKeyView::Single(string@),
        of_key == key,
{
}

/// A list of names and values is turned into the key of just these columns, each once: the columns
/// are those named in the list, and each has the last value that the list gives it.
pub proof fn law_lists_become_composite_keys<K: KeyName, const N: usize>(
    list: [(K, String); N],
    key: PrimaryKey,
)
    requires
        converts_to(list, key),
    ensures
        key.wf(),
        key@ is Composite,
        forall|i: int| #![trigger list@[i]]
            0 <= i < N ==> key@->Composite_0.contains_key(list@[i].0.name_text()),
        forall|i: int| #![trigger list@[i]]
            0 <= i < N && (forall|j: int| i < j < N ==> (#[trigger] list@[j]).0.name_text()
                != list@[i].0.name_text()) ==> key@->Composite_0[list@[i].0.name_text()]
                == list@[i].1@,
        forall|name: Seq<char>| #[trigger]
            key@->Composite_0.contains_key(name) ==> exists|i: int|
                0 <= i < N && (#[trigger] list@[i]).0.name_text() == name,
{
    let pairs = Seq::new(N as nat, |i: int| (list@[i].0.name_text(), list@[i].1@));
    assert(key@ == PrimaryKeyView::Composite(key_columns(pairs)));
    lemma_last_values(pairs);
    assert forall|i: int| #![trigger list@[i]]
        0 <= i < N implies key@->Composite_0.contains_key(list@[i].0.name_text()) by {
        assert(key_columns(pairs).contains_key(pairs[i].0));
    }
    assert forall|i: int| #![trigger list@[i]]
        0 <= i < N && (forall|j: int| i < j < N ==> (#[trigger] list@[j]).0.name_text()
            != list@[i].0.name_text()) implies key@->Composite_0[list@[i].0.name_text()]
            == list@[i].1@ by {
        assert forall|j: int| i < j < pairs.len() implies (#[trigger] pairs[j]).0 != pairs[i].0 by {
            assert(list@[j].0.name_text() != list@[i].0.name_text());
        }
        assert(key_columns(pairs)[pairs[i].0] == pairs[i].1);
    }
    assert forall|name: Seq<char>| #[trigger]
        key@->Composite_0.contains_key(name) implies exists|i: int|
        0 <= i < N && (#[trigger] list@[i]).0.name_text() == name by {
        let i = choose|i: int| 0 <= i < pairs.len() && (#[trigger] pairs[i]).0 == name;
        assert(list@[i].0.name_text() == name);
    }
}

/// A list of names and borrowed values is turned into a key in the same way.
pub proof fn law_borrowed_lists_become_composite_keys<K: KeyName, const N: usize>(
    list: [(K, &str); N],
    key: PrimaryKey,
)
    requires
        converts_to(list, key),
    ensures
        key.wf(),
        key@ is Composite,
        forall|i: int| #![trigger list@[i]]
            0 <= i < N ==> key@->Composite_0.contains_key(list@[i].0.name_text()),
        forall|i: int| #![trigger list@[i]]
            0 <= i < N && (forall|j: int| i < j < N ==> (#[trigger] list@[j]).0.name_text()
                != list@[i].0.name_text()) ==> key@->Composite_0[list@[i].0.name_text()]
                == list@[i].1@,
        forall|name: Seq<char>| #[trigger]
            key@->Composite_0.contains_key(name) ==> exists|i: int|
                0 <= i < N && (#[trigger] list@[i]).0.name_text() == name,
{
    let pairs = Seq::new(N as nat, |i: int| (list@[i].0.name_text(), list@[i].1@));
    assert(key@ == PrimaryKeyView::Composite(key_columns(pairs)));
    lemma_last_values(pairs);
    assert forall|i: int| #![trigger list@[i]]
        0 <= i < N implies key@->Composite_0.contains_key(list@[i].0.name_text()) by {
        assert(key_columns(pairs).contains_key(pairs[i].0));
    }
    assert forall|i: int| #![trigger list@[i]]
        0 <= i < N && (forall|j: int| i < j < N ==> (#[trigger] list@[j]).0.name_text()
            != list@[i].0.name_text()) implies key@->Composite_0[list@[i].0.name_text()]
            == list@[i].1@ by {
        assert forall|j: int| i < j < pairs.len() implies (#[trigger] pairs[j]).0 != pairs[i].0 by {
            assert(list@[j].0.name_text() != list@[i].0.name_text());
        }
        assert(key_columns(pairs)[pairs[i].0] == pairs[i].1);
    }
    assert forall|name: Seq<char>| #[trigger]
        key@->Composite_0.contains_key(name) implies exists|i: int|
        0 <= i < N && (#[trigger] list@[i]).0.name_text() == name by {
        let i = choose|i: int| 0 <= i < pairs.len() && (#[trigger] pairs[i]).0 == name;
        assert(list@[i].0.name_text() == name);
    }
}

proof fn lemma_last_values(pairs: Seq<(Seq<char>, Seq<char>)>)
    ensures
        forall|i: int|
            0 <= i < pairs.len() ==> key_columns(pairs).contains_key((#[trigger] pairs[i]).0),
        forall|i: int|
            0 <= i < pairs.len() && (forall|j: int|
                i < j < pairs.len() ==> (#[trigger] pairs[j]).0 != pairs[i].0) ==> key_columns(
                pairs,
            )[(#[trigger] pairs[i]).0] == pairs[i].1,
        forall|name: Seq<char>| #[trigger]
            key_columns(pairs).contains_key(name) ==> exists|i: int|
                0 <= i < pairs.len() && (#[trigger] pairs[i]).0 == name,
    decreases pairs.len(),
{
    if pairs.len() > 0 {
        let rest = pairs.drop_last();
        let last = pairs.len() - 1;
        lemma_last_values(rest);
        assert forall|i: int| 0 <= i < pairs.len() implies key_columns(pairs).contains_key(
            (#[trigger] pairs[i]).0,
        ) by {
            if i < last {
                assert(rest[i] == pairs[i]);
            }
        }
        assert forall|i: int|
            0 <= i < pairs.len() && (forall|j: int|
                i < j < pairs.len() ==> (#[trigger] pairs[j]).0 != pairs[i].0) implies key_columns(
            pairs,
        )[(#[trigger] pairs[i]).0] == pairs[i].1 by {
            if i < last {
                assert(pairs[last].0 != pairs[i].0);
                assert(rest[i] == pairs[i]);
                assert forall|j: int| i < j < rest.len() implies (#[trigger] rest[j]).0
                    != rest[i].0 by {
                    assert(pairs[j].0 != pairs[i].0);
                }
            }
        }
        assert forall|name: Seq<char>| #[trigger] key_columns(pairs).contains_key(
            name,
        ) implies exists|i: int| 0 <= i < pairs.len() && (#[trigger] pairs[i]).0 == name by {
            if name == pairs[last].0 {
                assert(pairs[last].0 == name);
            } else {
                assert(key_columns(rest).contains_key(name));
                let i = choose|i: int| 0 <= i < rest.len() && (#[trigger] rest[i]).0 == name;
                assert(pairs[i].0 == name);
            }
        }
    }
}

// Maps.

/// A map holds the entries that it lists: as many as it has keys, and each key with its value.
pub proof fn law_maps_hold_their_entries<K: View, V>(map: EntryMap<K, V>)
    requires
        map.wf(),
    ensures
        map@.dom().finite(),
        map@.dom().len() == map.entries().len(),
        forall|i: int|
            0 <= i < map.entries().len() ==> map@.contains_key((#[trigger] map.entries()[i]).0@)
                && map@[map.entries()[i].0@] == map.entries()[i].1,
        forall|key: K::V| #[trigger]
            map@.contains_key(key) ==> exists|i: int|
                0 <= i < map.entries().len() && (#[trigger] map.entries()[i]).0@ == key,
{
    lemma_entries(map.entries());
    lemma_entry_count(map.entries());
}

/// A key that a map has keeps its place in the list of keys, and a new one comes behind all others.
pub proof fn law_new_keys_come_last<K: View, V>(map: EntryMap<K, V>, key: K)
    ensures
        map.keys().len() == map.entries().len(),
        forall|i: int|
            0 <= i < map.entries().len() ==> map.keys()[i] == (#[trigger] map.entries()[i]).0,
        map@.contains_key(key@) ==> map.keys_with(key) == map.keys(),
        !map@.contains_key(key@) ==> map.keys_with(key).drop_last() == map.keys() && map.keys_with(
            key,
        ).last() == key,
{
    if !map@.contains_key(key@) {
        assert(map.keys_with(key).drop_last() =~= map.keys());
    }
}

/// A map of texts has the text of each value under the value's key.
pub proof fn law_maps_of_texts(map: Map<Seq<char>, String>, key: Seq<char>)
    ensures
        texts(map).contains_key(key) <==> map.contains_key(key),
        map.contains_key(key) ==> texts(map)[key] == map[key]@,
{
}

} // verus!
