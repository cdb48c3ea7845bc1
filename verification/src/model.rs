//! The mathematical model of a save file.

use crate::json::NumberModel;
use vstd::prelude::*;

verus! {

/// What a save file holds: four maps, independent of one another.
pub ghost struct SavefileModel {
    pub booleans: Map<Seq<char>, bool>,
    pub integers: Map<Seq<char>, i32>,
    pub floats: Map<Seq<char>, NumberModel>,
    pub strings: Map<Seq<char>, Seq<char>>,
}

impl SavefileModel {
    /// The record with four empty maps.
    pub open spec fn empty() -> SavefileModel {
        SavefileModel {
            booleans: Map::empty(),
            integers: Map::empty(),
            floats: Map::empty(),
            strings: Map::empty(),
        }
    }

    /// The boolean under `name`, if there is one.
    pub open spec fn get_bool(self, name: Seq<char>) -> Option<bool> {
        if self.booleans.dom().contains(name) {
            Some(self.booleans[name])
        } else {
            None
        }
    }

    /// The integer under `name`, if there is one.
    pub open spec fn get_int(self, name: Seq<char>) -> Option<i32> {
        if self.integers.dom().contains(name) {
            Some(self.integers[name])
        } else {
            None
        }
    }

    /// The number under `name`, if there is one.
    pub open spec fn get_float(self, name: Seq<char>) -> Option<NumberModel> {
        if self.floats.dom().contains(name) {
            Some(self.floats[name])
        } else {
            None
        }
    }

    /// The string under `name`, if there is one.
    pub open spec fn get_str(self, name: Seq<char>) -> Option<Seq<char>> {
        if self.strings.dom().contains(name) {
            Some(self.strings[name])
        } else {
            None
        }
    }

    /// The record with `val` under `name` among the booleans.
    pub open spec fn set_bool(self, name: Seq<char>, val: bool) -> SavefileModel {
        SavefileModel { booleans: self.booleans.insert(name, val), ..self }
    }

    /// The record with `val` under `name` among the integers.
    pub open spec fn set_int(self, name: Seq<char>, val: i32) -> SavefileModel {
        SavefileModel { integers: self.integers.insert(name, val), ..self }
    }

    /// The record with `val` under `name` among the numbers.
    pub open spec fn set_float(self, name: Seq<char>, val: NumberModel) -> SavefileModel {
        SavefileModel { floats: self.floats.insert(name, val), ..self }
    }

    /// The record with `val` under `name` among the strings.
    pub open spec fn set_str(self, name: Seq<char>, val: Seq<char>) -> SavefileModel {
        SavefileModel { strings: self.strings.insert(name, val), ..self }
    }
}

/// A key set in two dictionaries is found in each, with the value that was
/// set there, whichever was set first.
pub proof fn lemma_mapping_independence(model: SavefileModel, name: Seq<char>, flag: bool, number: i32)
    ensures
        model.set_bool(name, flag).set_int(name, number).get_bool(name) == Some(flag),
        model.set_bool(name, flag).set_int(name, number).get_int(name) == Some(number),
        model.set_int(name, number).set_bool(name, flag).get_bool(name) == Some(flag),
        model.set_int(name, number).set_bool(name, flag).get_int(name) == Some(number),
{
}

/// Setting a key in one dictionary changes nothing in the other three.
pub proof fn lemma_set_leaves_others(model: SavefileModel, name: Seq<char>, other: Seq<char>)
    ensures
        forall|val: bool|
            {
                let after = #[trigger] model.set_bool(name, val);
                &&& after.get_int(other) == model.get_int(other)
                &&& after.get_float(other) == model.get_float(other)
                &&& after.get_str(other) == model.get_str(other)
            },
        forall|val: i32|
            {
                let after = #[trigger] model.set_int(name, val);
                &&& after.get_bool(other) == model.get_bool(other)
                &&& after.get_float(other) == model.get_float(other)
                &&& after.get_str(other) == model.get_str(other)
            },
        forall|val: NumberModel|
            {
                let after = #[trigger] model.set_float(name, val);
                &&& after.get_bool(other) == model.get_bool(other)
                &&& after.get_int(other) == model.get_int(other)
                &&& after.get_str(other) == model.get_str(other)
            },
        forall|val: Seq<char>|
            {
                let after = #[trigger] model.set_str(name, val);
                &&& after.get_bool(other) == model.get_bool(other)
                &&& after.get_int(other) == model.get_int(other)
                &&& after.get_float(other) == model.get_float(other)
            },
{
}

/// A key that was never set is absent: the empty record holds none, and
/// setting one key brings in no other.
pub proof fn lemma_absence(model: SavefileModel, name: Seq<char>, other: Seq<char>)
    requires
        name != other,
    ensures
        SavefileModel::empty().get_bool(name) is None,
        SavefileModel::empty().get_int(name) is None,
        SavefileModel::empty().get_float(name) is None,
        SavefileModel::empty().get_str(name) is None,
        forall|val: bool|
            model.get_bool(name) is None ==> (#[trigger] model.set_bool(other, val)).get_bool(
                name,
            ) is None,
        forall|val: i32|
            model.get_int(name) is None ==> (#[trigger] model.set_int(other, val)).get_int(name)
                is None,
        forall|val: NumberModel|
            model.get_float(name) is None ==> (#[trigger] model.set_float(other, val)).get_float(
                name,
            ) is None,
        forall|val: Seq<char>|
            model.get_str(name) is None ==> (#[trigger] model.set_str(other, val)).get_str(name)
                is None,
{
}

} // verus!
