//! The JSON document of a save file: an object with up to four members,
//! `booleanDictionary`, `intDictionary`, `floatDictionary` and
//! `stringDictionary`, each an object whose members are all of one kind.

use crate::dictionary::{
    assoc_map, distinct_keys, keyed_at, lemma_assoc_map_entries, lemma_assoc_map_related,
    Dictionary,
};
use crate::json::{
    integer_of_number, json_view, members_of, node_of_value, number_of_integer, number_view,
    value_of_node, JsonModel, JsonNode, NumberModel,
};
use crate::key_order::{compare_keys, KeyOrder};
use crate::model::SavefileModel;
use serde_json::{Number, Value};
use vstd::prelude::*;

verus! {

/// The number that a stored `Number` holds.
pub open spec fn number_viewer() -> spec_fn(Number) -> NumberModel {
    |n: Number| number_view(n)
}

/// The characters of a stored string.
pub open spec fn string_viewer() -> spec_fn(String) -> Seq<char> {
    |s: String| s@
}

/// Reads a boolean.
pub open spec fn boolean_reader() -> spec_fn(JsonModel) -> Option<bool> {
    |v: JsonModel|
        match v {
            JsonModel::Bool(b) => Some(b),
            _ => None,
        }
}

/// Reads an integer that fits in 32 bits.
pub open spec fn integer_reader() -> spec_fn(JsonModel) -> Option<i32> {
    |v: JsonModel|
        match v {
            JsonModel::Number(NumberModel::Integer(i)) => if i32::MIN <= i <= i32::MAX {
                Some(i as i32)
            } else {
                None
            },
            _ => None,
        }
}

/// Reads a number of any kind.
pub open spec fn number_reader() -> spec_fn(JsonModel) -> Option<NumberModel> {
    |v: JsonModel|
        match v {
            JsonModel::Number(n) => Some(n),
            _ => None,
        }
}

/// Reads a string.
pub open spec fn text_reader() -> spec_fn(JsonModel) -> Option<Seq<char>> {
    |v: JsonModel|
        match v {
            JsonModel::Text(s) => Some(s),
            _ => None,
        }
}

/// Writes a boolean.
pub open spec fn boolean_writer() -> spec_fn(bool) -> JsonModel {
    |b: bool| JsonModel::Bool(b)
}

/// Writes a 32-bit integer.
pub open spec fn integer_writer() -> spec_fn(i32) -> JsonModel {
    |i: i32| JsonModel::Number(NumberModel::Integer(i as int))
}

/// Writes a number.
pub open spec fn number_writer() -> spec_fn(NumberModel) -> JsonModel {
    |n: NumberModel| JsonModel::Number(n)
}

/// Writes a string.
pub open spec fn text_writer() -> spec_fn(Seq<char>) -> JsonModel {
    |s: Seq<char>| JsonModel::Text(s)
}

/// The members of an object read with `read`, if it reads every one.
pub open spec fn typed<T>(
    members: Map<Seq<char>, JsonModel>,
    read: spec_fn(JsonModel) -> Option<T>,
) -> Option<Map<Seq<char>, T>> {
    if forall|k: Seq<char>| members.dom().contains(k) ==> (#[trigger] read(members[k])) is Some {
        Some(members.map_values(|v: JsonModel| read(v)->0))
    } else {
        None
    }
}

/// The dictionary under `name` in a document: empty where the document has
/// no such member, none where the member is no object or holds a value of
/// another kind.
pub open spec fn section<T>(
    top: Map<Seq<char>, JsonModel>,
    name: Seq<char>,
    read: spec_fn(JsonModel) -> Option<T>,
) -> Option<Map<Seq<char>, T>> {
    if !top.dom().contains(name) {
        Some(Map::empty())
    } else {
        match top[name] {
            JsonModel::Object(members) => typed(members, read),
            _ => None,
        }
    }
}

/// The record that a document holds, if it holds one. Members of other
/// names are passed over.
pub open spec fn model_of_document(document: JsonModel) -> Option<SavefileModel> {
    match document {
        JsonModel::Object(top) => {
            let booleans = section(top, "booleanDictionary"@, boolean_reader());
            let integers = section(top, "intDictionary"@, integer_reader());
            let floats = section(top, "floatDictionary"@, number_reader());
            let strings = section(top, "stringDictionary"@, text_reader());
            if booleans is Some && integers is Some && floats is Some && strings is Some {
                Some(
                    SavefileModel {
                        booleans: booleans->0,
                        integers: integers->0,
                        floats: floats->0,
                        strings: strings->0,
                    },
                )
            } else {
                None
            }
        },
        _ => None,
    }
}

/// The document that holds a record: an object of four objects.
pub open spec fn document_of_model(model: SavefileModel) -> JsonModel {
    JsonModel::Object(
        Map::empty().insert(
            "booleanDictionary"@,
            JsonModel::Object(model.booleans.map_values(boolean_writer())),
        ).insert(
            "intDictionary"@,
            JsonModel::Object(model.integers.map_values(integer_writer())),
        ).insert(
            "floatDictionary"@,
            JsonModel::Object(model.floats.map_values(number_writer())),
        ).insert("stringDictionary"@, JsonModel::Object(model.strings.map_values(text_writer()))),
    )
}

/// The four member names differ from one another.
pub proof fn lemma_names_differ()
    ensures
        "booleanDictionary"@ != "intDictionary"@,
        "booleanDictionary"@ != "floatDictionary"@,
        "booleanDictionary"@ != "stringDictionary"@,
        "intDictionary"@ != "floatDictionary"@,
        "intDictionary"@ != "stringDictionary"@,
        "floatDictionary"@ != "stringDictionary"@,
{
    reveal_strlit("booleanDictionary");
    reveal_strlit("intDictionary");
    reveal_strlit("floatDictionary");
    reveal_strlit("stringDictionary");
    assert("booleanDictionary"@.len() == 17);
    assert("intDictionary"@.len() == 13);
    assert("floatDictionary"@.len() == 15);
    assert("stringDictionary"@.len() == 16);
}

/// A dictionary written with a writer is read back by the reader of its
/// kind.
pub proof fn lemma_typed_of_written<T>(
    values: Map<Seq<char>, T>,
    write: spec_fn(T) -> JsonModel,
    read: spec_fn(JsonModel) -> Option<T>,
)
    requires
        forall|x: T| #[trigger] read(write(x)) == Some(x),
    ensures
        typed(values.map_values(write), read) == Some(values),
{
    let members = values.map_values(write);
    assert forall|k: Seq<char>| members.dom().contains(k) implies (#[trigger] read(
        members[k],
    )) is Some by {
        assert(read(write(values[k])) == Some(values[k]));
    }
    assert forall|k: Seq<char>| values.dom().contains(k) implies members.map_values(
        |v: JsonModel| read(v)->0,
    )[k] == values[k] by {
        assert(read(write(values[k])) == Some(values[k]));
    }
    assert(members.map_values(|v: JsonModel| read(v)->0) =~= values);
}

/// Reading the document of a record gives the record back.
pub proof fn lemma_model_of_document_of_model(model: SavefileModel)
    ensures
        model_of_document(document_of_model(model)) == Some(model),
{
    lemma_names_differ();
    assert forall|x: bool| #[trigger] boolean_reader()(boolean_writer()(x)) == Some(x) by {}
    assert forall|x: i32| #[trigger] integer_reader()(integer_writer()(x)) == Some(x) by {}
    assert forall|x: NumberModel| #[trigger] number_reader()(number_writer()(x)) == Some(x) by {}
    assert forall|x: Seq<char>| #[trigger] text_reader()(text_writer()(x)) == Some(x) by {}
    lemma_typed_of_written(model.booleans, boolean_writer(), boolean_reader());
    lemma_typed_of_written(model.integers, integer_writer(), integer_reader());
    lemma_typed_of_written(model.floats, number_writer(), number_reader());
    lemma_typed_of_written(model.strings, text_writer(), text_reader());
}

/// The first `upto` members of `listing` have been read with `read`, and
/// `sofar` holds what was read, under their names and no others.
pub open spec fn read_upto<T>(
    listing: Seq<(Seq<char>, JsonModel)>,
    upto: int,
    read: spec_fn(JsonModel) -> Option<T>,
    sofar: Map<Seq<char>, T>,
) -> bool {
    &&& forall|j: int|
        0 <= j < upto ==> sofar.dom().contains(#[trigger] listing[j].0) && read(listing[j].1)
            == Some(sofar[listing[j].0])
    &&& forall|k: Seq<char>|
        sofar.dom().contains(k) ==> exists|j: int| 0 <= j < upto && #[trigger] keyed_at(listing, k, j)
}

/// Reading one more member adds it to what was read.
pub proof fn lemma_read_next<T>(
    listing: Seq<(Seq<char>, JsonModel)>,
    upto: int,
    read: spec_fn(JsonModel) -> Option<T>,
    sofar: Map<Seq<char>, T>,
    x: T,
)
    requires
        distinct_keys(listing),
        0 <= upto < listing.len(),
        read_upto(listing, upto, read, sofar),
        read(listing[upto].1) == Some(x),
    ensures
        read_upto(listing, upto + 1, read, sofar.insert(listing[upto].0, x)),
{
    let next = sofar.insert(listing[upto].0, x);
    assert forall|k: Seq<char>| next.dom().contains(k) implies exists|j: int|
        0 <= j < upto + 1 && #[trigger] keyed_at(listing, k, j) by {
        if k == listing[upto].0 {
            assert(keyed_at(listing, k, upto));
        } else {
            let j = choose|j: int| 0 <= j < upto && #[trigger] keyed_at(listing, k, j);
            assert(keyed_at(listing, k, j));
        }
    }
}

/// Once every member has been read, what was read is the typed object.
pub proof fn lemma_read_all<T>(
    listing: Seq<(Seq<char>, JsonModel)>,
    read: spec_fn(JsonModel) -> Option<T>,
    sofar: Map<Seq<char>, T>,
)
    requires
        distinct_keys(listing),
        read_upto(listing, listing.len() as int, read, sofar),
    ensures
        typed(assoc_map(listing), read) == Some(sofar),
{
    let members = assoc_map(listing);
    lemma_assoc_map_entries(listing);
    assert forall|k: Seq<char>| members.dom().contains(k) implies (#[trigger] read(
        members[k],
    )) is Some && sofar.dom().contains(k) && read(members[k]) == Some(sofar[k]) by {
        let j = choose|j: int| keyed_at(listing, k, j);
        assert(listing[j].0 == k);
    }
    assert forall|k: Seq<char>| sofar.dom().contains(k) implies members.dom().contains(k) by {
        let j = choose|j: int| 0 <= j < listing.len() && #[trigger] keyed_at(listing, k, j);
        assert(listing[j].0 == k);
    }
    assert(members.map_values(|v: JsonModel| read(v)->0) =~= sofar);
}

/// A member that cannot be read leaves the object untyped.
pub proof fn lemma_read_fails<T>(
    listing: Seq<(Seq<char>, JsonModel)>,
    at: int,
    read: spec_fn(JsonModel) -> Option<T>,
)
    requires
        distinct_keys(listing),
        0 <= at < listing.len(),
        read(listing[at].1) is None,
    ensures
        typed(assoc_map(listing), read) is None,
{
    lemma_assoc_map_entries(listing);
    assert(assoc_map(listing).dom().contains(listing[at].0));
    assert(read(assoc_map(listing)[listing[at].0]) is None);
}

/// Reads the members of an object as booleans.
pub(crate) fn read_booleans(entries: &Vec<(String, Value)>) -> (r: Option<Dictionary<bool>>)
    requires
        distinct_keys(members_of(entries@)),
    ensures
        match r {
            Some(dictionary) => typed(assoc_map(members_of(entries@)), boolean_reader()) == Some(
                dictionary.map(),
            ),
            None => typed(assoc_map(members_of(entries@)), boolean_reader()) is None,
        },
{
    let ghost listing = members_of(entries@);
    let mut dictionary: Dictionary<bool> = Dictionary::new();
    let mut i: usize = 0;
    while i < entries.len()
        invariant
            i <= entries@.len(),
            listing == members_of(entries@),
            distinct_keys(listing),
            read_upto(listing, i as int, boolean_reader(), dictionary.map()),
        decreases entries@.len() - i,
    {
        match node_of_value(&entries[i].1) {
            JsonNode::Bool(b) => {
                proof {
                    lemma_read_next(listing, i as int, boolean_reader(), dictionary.map(), b);
                }
                dictionary.insert(entries[i].0.clone(), b);
            },
            _ => {
                proof {
                    lemma_read_fails(listing, i as int, boolean_reader());
                }
                return None;
            },
        }
        i += 1;
    }
    proof {
        lemma_read_all(listing, boolean_reader(), dictionary.map());
    }
    Some(dictionary)
}

/// Reads the members of an object as 32-bit integers.
pub(crate) fn read_integers(entries: &Vec<(String, Value)>) -> (r: Option<Dictionary<i32>>)
    requires
        distinct_keys(members_of(entries@)),
    ensures
        match r {
            Some(dictionary) => typed(assoc_map(members_of(entries@)), integer_reader()) == Some(
                dictionary.map(),
            ),
            None => typed(assoc_map(members_of(entries@)), integer_reader()) is None,
        },
{
    let ghost listing = members_of(entries@);
    let mut dictionary: Dictionary<i32> = Dictionary::new();
    let mut i: usize = 0;
    while i < entries.len()
        invariant
            i <= entries@.len(),
            listing == members_of(entries@),
            distinct_keys(listing),
            read_upto(listing, i as int, integer_reader(), dictionary.map()),
        decreases entries@.len() - i,
    {
        let mut read: Option<i32> = None;
        if let JsonNode::Number(number) = node_of_value(&entries[i].1) {
            if let Some(wide) = integer_of_number(&number) {
                if -0x8000_0000 <= wide && wide <= 0x7fff_ffff {
                    read = Some(wide as i32);
                }
            }
        }
        assert(read == integer_reader()(listing[i as int].1));
        match read {
            Some(value) => {
                proof {
                    lemma_read_next(listing, i as int, integer_reader(), dictionary.map(), value);
                }
                dictionary.insert(entries[i].0.clone(), value);
            },
            None => {
                proof {
                    lemma_read_fails(listing, i as int, integer_reader());
                }
                return None;
            },
        }
        i += 1;
    }
    proof {
        lemma_read_all(listing, integer_reader(), dictionary.map());
    }
    Some(dictionary)
}

/// Reads the members of an object as numbers.
pub(crate) fn read_numbers(entries: &Vec<(String, Value)>) -> (r: Option<Dictionary<Number>>)
    requires
        distinct_keys(members_of(entries@)),
    ensures
        match r {
            Some(dictionary) => typed(assoc_map(members_of(entries@)), number_reader()) == Some(
                dictionary.map().map_values(number_viewer()),
            ),
            None => typed(assoc_map(members_of(entries@)), number_reader()) is None,
        },
{
    let ghost listing = members_of(entries@);
    let mut dictionary: Dictionary<Number> = Dictionary::new();
    assert(dictionary.map().map_values(number_viewer()) =~= Map::empty());
    let mut i: usize = 0;
    while i < entries.len()
        invariant
            i <= entries@.len(),
            listing == members_of(entries@),
            distinct_keys(listing),
            read_upto(
                listing,
                i as int,
                number_reader(),
                dictionary.map().map_values(number_viewer()),
            ),
        decreases entries@.len() - i,
    {
        match node_of_value(&entries[i].1) {
            JsonNode::Number(number) => {
                let ghost before = dictionary.map().map_values(number_viewer());
                proof {
                    lemma_read_next(listing, i as int, number_reader(), before, number_view(number));
                }
                dictionary.insert(entries[i].0.clone(), number);
                assert(dictionary.map().map_values(number_viewer()) =~= before.insert(
                    listing[i as int].0,
                    number_view(number),
                ));
            },
            _ => {
                proof {
                    lemma_read_fails(listing, i as int, number_reader());
                }
                return None;
            },
        }
        i += 1;
    }
    proof {
        lemma_read_all(listing, number_reader(), dictionary.map().map_values(number_viewer()));
    }
    Some(dictionary)
}

/// Reads the members of an object as strings.
pub(crate) fn read_strings(entries: &Vec<(String, Value)>) -> (r: Option<Dictionary<String>>)
    requires
        distinct_keys(members_of(entries@)),
    ensures
        match r {
            Some(dictionary) => typed(assoc_map(members_of(entries@)), text_reader()) == Some(
                dictionary.map().map_values(string_viewer()),
            ),
            None => typed(assoc_map(members_of(entries@)), text_reader()) is None,
        },
{
    let ghost listing = members_of(entries@);
    let mut dictionary: Dictionary<String> = Dictionary::new();
    assert(dictionary.map().map_values(string_viewer()) =~= Map::empty());
    let mut i: usize = 0;
    while i < entries.len()
        invariant
            i <= entries@.len(),
            listing == members_of(entries@),
            distinct_keys(listing),
            read_upto(
                listing,
                i as int,
                text_reader(),
                dictionary.map().map_values(string_viewer()),
            ),
        decreases entries@.len() - i,
    {
        match node_of_value(&entries[i].1) {
            JsonNode::Text(text) => {
                let ghost before = dictionary.map().map_values(string_viewer());
                proof {
                    lemma_read_next(listing, i as int, text_reader(), before, text@);
                }
                dictionary.insert(entries[i].0.clone(), text);
                assert(dictionary.map().map_values(string_viewer()) =~= before.insert(
                    listing[i as int].0,
                    text@,
                ));
            },
            _ => {
                proof {
                    lemma_read_fails(listing, i as int, text_reader());
                }
                return None;
            },
        }
        i += 1;
    }
    proof {
        lemma_read_all(listing, text_reader(), dictionary.map().map_values(string_viewer()));
    }
    Some(dictionary)
}

/// The index of the member called `name`, if there is one.
pub(crate) fn find_member(entries: &Vec<(String, Value)>, name: &str) -> (r: Option<usize>)
    ensures
        match r {
            Some(at) => keyed_at(members_of(entries@), name@, at as int),
            None => forall|j: int| !keyed_at(members_of(entries@), name@, j),
        },
{
    let mut i: usize = 0;
    while i < entries.len()
        invariant
            i <= entries@.len(),
            forall|j: int| 0 <= j < i ==> !keyed_at(members_of(entries@), name@, j),
        decreases entries@.len() - i,
    {
        if compare_keys(entries[i].0.as_str(), name) == KeyOrder::Same {
            return Some(i);
        }
        i += 1;
    }
    None
}

/// The members of the object under `name` in a document: none where the
/// document has no such member, and no answer where the member is no
/// object.
pub(crate) fn section_entries(top: &Vec<(String, Value)>, name: &str) -> (r: Option<
    Vec<(String, Value)>,
>)
    requires
        distinct_keys(members_of(top@)),
    ensures
        match r {
            Some(entries) => {
                &&& distinct_keys(members_of(entries@))
                &&& (forall|j: int| !keyed_at(members_of(top@), name@, j)) ==> entries@.len() == 0
                &&& forall|j: int|
                    keyed_at(members_of(top@), name@, j) ==> json_view(top@[j].1)
                        == JsonModel::Object(assoc_map(members_of(entries@)))
            },
            None => exists|j: int|
                keyed_at(members_of(top@), name@, j) && !(json_view(top@[j].1) is Object),
        },
{
    match find_member(top, name) {
        None => {
            let entries: Vec<(String, Value)> = Vec::new();
            Some(entries)
        },
        Some(at) => {
            match node_of_value(&top[at].1) {
                JsonNode::Object(entries) => {
                    assert forall|j: int| keyed_at(members_of(top@), name@, j) implies json_view(
                        top@[j].1,
                    ) == JsonModel::Object(assoc_map(members_of(entries@))) by {
                        assert(members_of(top@)[j].0 == members_of(top@)[at as int].0);
                    }
                    Some(entries)
                },
                _ => None,
            }
        },
    }
}

/// What `section_entries` finds is the section of the document.
pub proof fn lemma_section_of_entries<T>(
    top: Seq<(Seq<char>, JsonModel)>,
    name: Seq<char>,
    entries: Seq<(Seq<char>, JsonModel)>,
    read: spec_fn(JsonModel) -> Option<T>,
)
    requires
        distinct_keys(top),
        (forall|j: int| !keyed_at(top, name, j)) ==> entries.len() == 0,
        forall|j: int|
            keyed_at(top, name, j) ==> top[j].1 == JsonModel::Object(assoc_map(entries)),
    ensures
        section(assoc_map(top), name, read) == typed(assoc_map(entries), read),
{
    lemma_assoc_map_entries(top);
    if assoc_map(top).dom().contains(name) {
        let j = choose|j: int| keyed_at(top, name, j);
        assert(assoc_map(top)[top[j].0] == top[j].1);
    } else {
        assert(forall|j: int| !keyed_at(top, name, j));
        assert(assoc_map(entries) =~= Map::empty());
        assert(assoc_map(entries).map_values(|v: JsonModel| read(v)->0) =~= Map::empty());
    }
}

/// A member that is no object leaves the document without that section.
pub proof fn lemma_section_not_object<T>(
    top: Seq<(Seq<char>, JsonModel)>,
    name: Seq<char>,
    read: spec_fn(JsonModel) -> Option<T>,
)
    requires
        distinct_keys(top),
        exists|j: int| keyed_at(top, name, j) && !(top[j].1 is Object),
    ensures
        section(assoc_map(top), name, read) is None,
{
    lemma_assoc_map_entries(top);
    let j = choose|j: int| keyed_at(top, name, j) && !(top[j].1 is Object);
    assert(assoc_map(top)[top[j].0] == top[j].1);
}

/// The object whose members are the booleans of a dictionary.
pub(crate) fn write_booleans(dictionary: &Dictionary<bool>) -> (r: Value)
    ensures
        json_view(r) == JsonModel::Object(dictionary.map().map_values(boolean_writer())),
{
    let count = dictionary.len();
    let ghost listing = dictionary.listing();
    let mut entries: Vec<(String, Value)> = Vec::new();
    let mut i: usize = 0;
    while i < count
        invariant
            i <= count,
            count == listing.len(),
            listing == dictionary.listing(),
            entries@.len() == i,
            forall|j: int|
                0 <= j < i ==> (#[trigger] entries@[j]).0@ == listing[j].0 && json_view(
                    entries@[j].1,
                ) == boolean_writer()(listing[j].1),
        decreases count - i,
    {
        let value = value_of_node(JsonNode::Bool(*dictionary.value_at(i)));
        entries.push((dictionary.key_at(i).to_owned(), value));
        i += 1;
    }
    proof {
        dictionary.lemma_map_of_listing();
        lemma_assoc_map_related(listing, members_of(entries@), boolean_writer());
    }
    value_of_node(JsonNode::Object(entries))
}

/// The object whose members are the integers of a dictionary.
pub(crate) fn write_integers(dictionary: &Dictionary<i32>) -> (r: Value)
    ensures
        json_view(r) == JsonModel::Object(dictionary.map().map_values(integer_writer())),
{
    let count = dictionary.len();
    let ghost listing = dictionary.listing();
    let mut entries: Vec<(String, Value)> = Vec::new();
    let mut i: usize = 0;
    while i < count
        invariant
            i <= count,
            count == listing.len(),
            listing == dictionary.listing(),
            entries@.len() == i,
            forall|j: int|
                0 <= j < i ==> (#[trigger] entries@[j]).0@ == listing[j].0 && json_view(
                    entries@[j].1,
                ) == integer_writer()(listing[j].1),
        decreases count - i,
    {
        let number = number_of_integer(*dictionary.value_at(i) as i64);
        let value = value_of_node(JsonNode::Number(number));
        entries.push((dictionary.key_at(i).to_owned(), value));
        i += 1;
    }
    proof {
        dictionary.lemma_map_of_listing();
        lemma_assoc_map_related(listing, members_of(entries@), integer_writer());
    }
    value_of_node(JsonNode::Object(entries))
}

/// The object whose members are the numbers of a dictionary.
pub(crate) fn write_numbers(dictionary: &Dictionary<Number>) -> (r: Value)
    ensures
        json_view(r) == JsonModel::Object(
            dictionary.map().map_values(number_viewer()).map_values(number_writer()),
        ),
{
    let count = dictionary.len();
    let ghost listing = dictionary.listing();
    let ghost write = |n: Number| number_writer()(number_viewer()(n));
    let mut entries: Vec<(String, Value)> = Vec::new();
    let mut i: usize = 0;
    while i < count
        invariant
            i <= count,
            count == listing.len(),
            listing == dictionary.listing(),
            write == |n: Number| number_writer()(number_viewer()(n)),
            entries@.len() == i,
            forall|j: int|
                0 <= j < i ==> (#[trigger] entries@[j]).0@ == listing[j].0 && json_view(
                    entries@[j].1,
                ) == write(listing[j].1),
        decreases count - i,
    {
        let value = value_of_node(JsonNode::Number(dictionary.value_at(i).clone()));
        entries.push((dictionary.key_at(i).to_owned(), value));
        i += 1;
    }
    proof {
        dictionary.lemma_map_of_listing();
        lemma_assoc_map_related(listing, members_of(entries@), write);
        assert(dictionary.map().map_values(write) =~= dictionary.map().map_values(
            number_viewer(),
        ).map_values(number_writer()));
    }
    value_of_node(JsonNode::Object(entries))
}

/// The object whose members are the strings of a dictionary.
pub(crate) fn write_strings(dictionary: &Dictionary<String>) -> (r: Value)
    ensures
        json_view(r) == JsonModel::Object(
            dictionary.map().map_values(string_viewer()).map_values(text_writer()),
        ),
{
    let count = dictionary.len();
    let ghost listing = dictionary.listing();
    let ghost write = |s: String| text_writer()(string_viewer()(s));
    let mut entries: Vec<(String, Value)> = Vec::new();
    let mut i: usize = 0;
    while i < count
        invariant
            i <= count,
            count == listing.len(),
            listing == dictionary.listing(),
            write == |s: String| text_writer()(string_viewer()(s)),
            entries@.len() == i,
            forall|j: int|
                0 <= j < i ==> (#[trigger] entries@[j]).0@ == listing[j].0 && json_view(
                    entries@[j].1,
                ) == write(listing[j].1),
        decreases count - i,
    {
        let value = value_of_node(JsonNode::Text(dictionary.value_at(i).clone()));
        entries.push((dictionary.key_at(i).to_owned(), value));
        i += 1;
    }
    proof {
        dictionary.lemma_map_of_listing();
        lemma_assoc_map_related(listing, members_of(entries@), write);
        assert(dictionary.map().map_values(write) =~= dictionary.map().map_values(
            string_viewer(),
        ).map_values(text_writer()));
    }
    value_of_node(JsonNode::Object(entries))
}

/// The document of four sections, each under its name.
pub(crate) fn write_sections(booleans: Value, integers: Value, floats: Value, strings: Value) -> (r:
    Value)
    ensures
        json_view(r) == JsonModel::Object(
            Map::empty().insert("booleanDictionary"@, json_view(booleans)).insert(
                "intDictionary"@,
                json_view(integers),
            ).insert("floatDictionary"@, json_view(floats)).insert(
                "stringDictionary"@,
                json_view(strings),
            ),
        ),
{
    let mut top: Vec<(String, Value)> = Vec::new();
    top.push(("booleanDictionary".to_owned(), booleans));
    top.push(("intDictionary".to_owned(), integers));
    top.push(("floatDictionary".to_owned(), floats));
    top.push(("stringDictionary".to_owned(), strings));
    proof {
        let listing = members_of(top@);
        lemma_names_differ();
        assert(distinct_keys(listing));
        lemma_assoc_map_entries(listing);
        let expected = Map::empty().insert("booleanDictionary"@, json_view(booleans)).insert(
            "intDictionary"@,
            json_view(integers),
        ).insert("floatDictionary"@, json_view(floats)).insert(
            "stringDictionary"@,
            json_view(strings),
        );
        assert(listing[0].0 == "booleanDictionary"@);
        assert(listing[1].0 == "intDictionary"@);
        assert(listing[2].0 == "floatDictionary"@);
        assert(listing[3].0 == "stringDictionary"@);
        assert forall|k: Seq<char>| assoc_map(listing).dom().contains(k) implies expected.dom().contains(
            k,
        ) by {
            let j = choose|j: int| keyed_at(listing, k, j);
            assert(listing[j].0 == k);
        }
        assert(assoc_map(listing) =~= expected);
    }
    value_of_node(JsonNode::Object(top))
}

} // verus!
