//! The record of a save file: four dictionaries, of booleans, of 32-bit
//! integers, of numbers and of strings, each with its own keys.

pub use crate::container::{ParseError, SAVEFILE_HEADER};
pub use crate::options::SuperhotOptions;
use crate::container::{
    container_of, framing, has_header, lemma_header_rejection, lemma_length_prefix_boundary,
    lemma_payload_ignores_what_follows, lemma_payload_text_of_container, payload_text,
    payload_text_of, write_container,
};
use crate::dictionary::Dictionary;
use crate::document::{
    boolean_reader, document_of_model, integer_reader, lemma_model_of_document_of_model,
    lemma_section_not_object, lemma_section_of_entries, model_of_document, number_reader,
    number_viewer, read_booleans, read_integers, read_numbers, read_strings, section_entries,
    string_viewer, text_reader, write_booleans, write_integers, write_numbers, write_sections,
    write_strings,
};
use crate::leb128::decoding;
use crate::json::{
    json_parse, json_print, json_view, members_of, node_of_value, number_view, text_of_value,
    value_of_text, JsonNode,
};
use crate::model::SavefileModel;
use serde_json::{Number, Value};
use vstd::prelude::*;
use vstd::utf8::*;

verus! {

/// The record that a payload text holds.
pub open spec fn reading(text: Seq<char>) -> Result<SavefileModel, ParseError> {
    match json_parse(text) {
        None => Err(ParseError::MalformedPayload),
        Some(document) => match model_of_document(document) {
            None => Err(ParseError::MalformedPayload),
            Some(model) => Ok(model),
        },
    }
}

/// The record that a buffer holds.
pub open spec fn parsing(bytes: Seq<u8>) -> Result<SavefileModel, ParseError> {
    match payload_text_of(bytes) {
        Err(e) => Err(e),
        Ok(text) => reading(text),
    }
}

/// The bytes of the save file that holds a record.
pub open spec fn serialization(model: SavefileModel) -> Seq<u8> {
    container_of(encode_utf8(json_print(document_of_model(model))))
}

/// A buffer that is shorter than the header, or differs from it in one of
/// its first 22 bytes, is rejected for its header, whatever else it holds.
pub proof fn lemma_parsing_rejects_header(bytes: Seq<u8>)
    requires
        bytes.len() < 22 || exists|i: int| 0 <= i < 22 && bytes[i] != SAVEFILE_HEADER@[i],
    ensures
        parsing(bytes) == Err::<SavefileModel, ParseError>(ParseError::HeaderMismatch),
{
    lemma_header_rejection(bytes);
}

/// After the header and a length that decodes: a length beyond the bytes
/// that remain is rejected as a truncated payload; any other length, one
/// that takes all of them too, lets the payload decide, and nothing after
/// the payload is looked at.
pub proof fn lemma_parsing_length_boundary(bytes: Seq<u8>)
    requires
        has_header(bytes),
        decoding(bytes.skip(22)) is Ok,
    ensures
        ({
            let (length, used) = decoding(bytes.skip(22))->Ok_0;
            let start = 22 + used;
            let payload = bytes.subrange(start as int, (start + length) as int);
            &&& start <= bytes.len()
            &&& length > bytes.len() - start ==> parsing(bytes) == Err::<
                SavefileModel,
                ParseError,
            >(ParseError::TruncatedPayload)
            &&& length <= bytes.len() - start && !valid_utf8(payload) ==> parsing(bytes) == Err::<
                SavefileModel,
                ParseError,
            >(ParseError::InvalidEncoding)
            &&& length <= bytes.len() - start && valid_utf8(payload) ==> parsing(bytes) == reading(
                decode_utf8(payload),
            )
        }),
{
    lemma_length_prefix_boundary(bytes);
}

/// The sentinel is not checked: once the payload is found, the bytes after
/// it, whatever they are, change nothing.
pub proof fn lemma_parsing_ignores_what_follows(bytes: Seq<u8>, tail: Seq<u8>)
    requires
        framing(bytes) is Ok,
    ensures
        parsing(bytes + tail) == parsing(bytes),
{
    lemma_payload_ignores_what_follows(bytes, tail);
}

/// Parsing the bytes of a record reads the text that was printed for its
/// document; where that reading gives the document back, parsing gives the
/// record back.
pub proof fn lemma_round_trip(model: SavefileModel)
    ensures
        ({
            let document = document_of_model(model);
            let text = json_print(document);
            encode_utf8(text).len() <= u64::MAX ==> {
                &&& parsing(serialization(model)) == reading(text)
                &&& json_parse(text) == Some(document) ==> parsing(serialization(model)) == Ok::<
                    SavefileModel,
                    ParseError,
                >(model)
            }
        }),
{
    let text = json_print(document_of_model(model));
    if encode_utf8(text).len() <= u64::MAX {
        lemma_payload_text_of_container(text);
        lemma_model_of_document_of_model(model);
    }
}

/// The record with every known flag set, the last level marked as
/// finished, and the tag list that goes with it.
pub open spec fn unlocked(model: SavefileModel) -> SavefileModel {
    model.set_bool(SuperhotOptions::StoryFinished.key(), true).set_bool(
        SuperhotOptions::UnlockEverything.key(),
        true,
    ).set_bool(SuperhotOptions::Subway.key(), true).set_bool(
        SuperhotOptions::AppQuitUnlocked.key(),
        true,
    ).set_bool(SuperhotOptions::HotswitchReady.key(), true).set_bool(
        SuperhotOptions::RecruitRedirectUnlock.key(),
        true,
    ).set_bool(SuperhotOptions::KillstagramUnlocked.key(), true).set_bool(
        SuperhotOptions::ReplayUploaded.key(),
        true,
    ).set_bool(SuperhotOptions::WasPlayedBefore.key(), true).set_bool(
        SuperhotOptions::HallOfFame.key(),
        true,
    ).set_str("highestfinishedLevel"@, "34FREE.lvl"@).set_str("tags"@, "[1337]"@)
}

/// In an unlocked record every known flag is set; the integers and the
/// numbers are those of the record it was made from.
pub proof fn lemma_unlocked_flags(model: SavefileModel, option: SuperhotOptions)
    ensures
        unlocked(model).get_bool(option.key()) == Some(true),
        unlocked(model).get_str("highestfinishedLevel"@) == Some("34FREE.lvl"@),
        unlocked(model).get_str("tags"@) == Some("[1337]"@),
        unlocked(model).integers == model.integers,
        unlocked(model).floats == model.floats,
{
    reveal_strlit("highestfinishedLevel");
    reveal_strlit("tags");
    assert("highestfinishedLevel"@.len() != "tags"@.len());
}

/// A save file in memory.
#[derive(Debug, PartialEq)]
pub struct SuperhotSavefile {
    boolean_dictionary: Dictionary<bool>,
    int_dictionary: Dictionary<i32>,
    float_dictionary: Dictionary<Number>,
    string_dictionary: Dictionary<String>,
}

impl View for SuperhotSavefile {
    type V = SavefileModel;

    closed spec fn view(&self) -> SavefileModel {
        SavefileModel {
            booleans: self.boolean_dictionary.map(),
            integers: self.int_dictionary.map(),
            floats: self.float_dictionary.map().map_values(number_viewer()),
            strings: self.string_dictionary.map().map_values(string_viewer()),
        }
    }
}

impl Default for SuperhotSavefile {
    /// The save file with four empty dictionaries.
    fn default() -> (r: Self)
        ensures
            r@ == SavefileModel::empty(),
    {
        let r = SuperhotSavefile {
            boolean_dictionary: Dictionary::new(),
            int_dictionary: Dictionary::new(),
            float_dictionary: Dictionary::new(),
            string_dictionary: Dictionary::new(),
        };
        assert(r@.floats =~= Map::empty());
        assert(r@.strings =~= Map::empty());
        r
    }
}

impl SuperhotSavefile {
    /// The boolean stored under `name`, if there is one.
    pub fn get_bool(&self, name: &str) -> (r: Option<bool>)
        ensures
            r == self@.get_bool(name@),
    {
        match self.boolean_dictionary.get(name) {
            Some(val) => Some(*val),
            None => None,
        }
    }

    /// Stores a boolean under `name`, in place of any that was there. The
    /// other three dictionaries stay as they are.
    pub fn set_bool(&mut self, name: &str, val: bool)
        ensures
            final(self)@ == old(self)@.set_bool(name@, val),
    {
        self.boolean_dictionary.insert(name.to_owned(), val);
    }

    /// The integer stored under `name`, if there is one.
    pub fn get_int(&self, name: &str) -> (r: Option<i32>)
        ensures
            r == self@.get_int(name@),
    {
        match self.int_dictionary.get(name) {
            Some(val) => Some(*val),
            None => None,
        }
    }

    /// Stores an integer under `name`, in place of any that was there. The
    /// other three dictionaries stay as they are.
    pub fn set_int(&mut self, name: &str, val: i32)
        ensures
            final(self)@ == old(self)@.set_int(name@, val),
    {
        self.int_dictionary.insert(name.to_owned(), val);
    }

    /// The number stored under `name`, if there is one.
    pub fn get_float(&self, name: &str) -> (r: Option<&Number>)
        ensures
            match r {
                Some(val) => self@.get_float(name@) == Some(number_view(*val)),
                None => self@.get_float(name@) is None,
            },
    {
        self.float_dictionary.get(name)
    }

    /// Stores a number under `name`, in place of any that was there. The
    /// other three dictionaries stay as they are.
    pub fn set_float(&mut self, name: &str, val: Number)
        ensures
            final(self)@ == old(self)@.set_float(name@, number_view(val)),
    {
        self.float_dictionary.insert(name.to_owned(), val);
        assert(self@.floats =~= old(self)@.floats.insert(name@, number_view(val)));
    }

    /// The string stored under `name`, if there is one.
    pub fn get_str(&self, name: &str) -> (r: Option<&str>)
        ensures
            match r {
                Some(val) => self@.get_str(name@) == Some(val@),
                None => self@.get_str(name@) is None,
            },
    {
        match self.string_dictionary.get(name) {
            Some(val) => Some(val.as_str()),
            None => None,
        }
    }

    /// Stores a string under `name`, in place of any that was there. The
    /// other three dictionaries stay as they are.
    pub fn set_str(&mut self, name: &str, val: String)
        ensures
            final(self)@ == old(self)@.set_str(name@, val@),
    {
        self.string_dictionary.insert(name.to_owned(), val);
        assert(self@.strings =~= old(self)@.strings.insert(name@, val@));
    }

    /// Sets every known flag, marks the last level as finished, and stores
    /// the tag list that goes with it.
    pub fn unlock_everything(&mut self)
        ensures
            final(self)@ == unlocked(old(self)@),
    {
        self.set_bool(SuperhotOptions::StoryFinished.name(), true);
        self.set_bool(SuperhotOptions::UnlockEverything.name(), true);
        self.set_bool(SuperhotOptions::Subway.name(), true);
        self.set_bool(SuperhotOptions::AppQuitUnlocked.name(), true);
        self.set_bool(SuperhotOptions::HotswitchReady.name(), true);
        self.set_bool(SuperhotOptions::RecruitRedirectUnlock.name(), true);
        self.set_bool(SuperhotOptions::KillstagramUnlocked.name(), true);
        self.set_bool(SuperhotOptions::ReplayUploaded.name(), true);
        self.set_bool(SuperhotOptions::WasPlayedBefore.name(), true);
        self.set_bool(SuperhotOptions::HallOfFame.name(), true);
        self.set_str("highestfinishedLevel", "34FREE.lvl".to_owned());
        self.set_str("tags", "[1337]".to_owned());
    }

    /// The save file that a document holds. Each of the four dictionaries
    /// may be missing, and is then empty; each one that is there must be an
    /// object whose members are all of its kind.
    pub fn from_document(document: &Value) -> (r: Result<Self, ParseError>)
        ensures
            match r {
                Ok(save) => model_of_document(json_view(*document)) == Some(save@),
                Err(e) => e == ParseError::MalformedPayload && model_of_document(
                    json_view(*document),
                ) is None,
            },
    {
        let top = match node_of_value(document) {
            JsonNode::Object(top) => top,
            _ => {
                return Err(ParseError::MalformedPayload);
            },
        };
        let ghost listing = members_of(top@);
        let boolean_dictionary = match section_entries(&top, "booleanDictionary") {
            Some(entries) => {
                proof {
                    lemma_section_of_entries(
                        listing,
                        "booleanDictionary"@,
                        members_of(entries@),
                        boolean_reader(),
                    );
                }
                match read_booleans(&entries) {
                    Some(dictionary) => dictionary,
                    None => {
                        return Err(ParseError::MalformedPayload);
                    },
                }
            },
            None => {
                proof {
                    lemma_section_not_object(listing, "booleanDictionary"@, boolean_reader());
                }
                return Err(ParseError::MalformedPayload);
            },
        };
        let int_dictionary = match section_entries(&top, "intDictionary") {
            Some(entries) => {
                proof {
                    lemma_section_of_entries(
                        listing,
                        "intDictionary"@,
                        members_of(entries@),
                        integer_reader(),
                    );
                }
                match read_integers(&entries) {
                    Some(dictionary) => dictionary,
                    None => {
                        return Err(ParseError::MalformedPayload);
                    },
                }
            },
            None => {
                proof {
                    lemma_section_not_object(listing, "intDictionary"@, integer_reader());
                }
                return Err(ParseError::MalformedPayload);
            },
        };
        let float_dictionary = match section_entries(&top, "floatDictionary") {
            Some(entries) => {
                proof {
                    lemma_section_of_entries(
                        listing,
                        "floatDictionary"@,
                        members_of(entries@),
                        number_reader(),
                    );
                }
                match read_numbers(&entries) {
                    Some(dictionary) => dictionary,
                    None => {
                        return Err(ParseError::MalformedPayload);
                    },
                }
            },
            None => {
                proof {
                    lemma_section_not_object(listing, "floatDictionary"@, number_reader());
                }
                return Err(ParseError::MalformedPayload);
            },
        };
        let string_dictionary = match section_entries(&top, "stringDictionary") {
            Some(entries) => {
                proof {
                    lemma_section_of_entries(
                        listing,
                        "stringDictionary"@,
                        members_of(entries@),
                        text_reader(),
                    );
                }
                match read_strings(&entries) {
                    Some(dictionary) => dictionary,
                    None => {
                        return Err(ParseError::MalformedPayload);
                    },
                }
            },
            None => {
                proof {
                    lemma_section_not_object(listing, "stringDictionary"@, text_reader());
                }
                return Err(ParseError::MalformedPayload);
            },
        };
        Ok(SuperhotSavefile { boolean_dictionary, int_dictionary, float_dictionary, string_dictionary })
    }

    /// The document that holds the save file.
    pub fn to_document(&self) -> (r: Value)
        ensures
            json_view(r) == document_of_model(self@),
    {
        write_sections(
            write_booleans(&self.boolean_dictionary),
            write_integers(&self.int_dictionary),
            write_numbers(&self.float_dictionary),
            write_strings(&self.string_dictionary),
        )
    }

    /// Parses a save file: the header, the length of the payload, the
    /// payload as UTF-8 text, and the text as a document of the four
    /// dictionaries. The byte after the payload is not looked at.
    pub fn new(bytes: &[u8]) -> (r: Result<Self, ParseError>)
        ensures
            match r {
                Ok(save) => parsing(bytes@) == Ok::<SavefileModel, ParseError>(save@),
                Err(e) => parsing(bytes@) == Err::<SavefileModel, ParseError>(e),
            },
    {
        let text = match payload_text(bytes) {
            Ok(text) => text,
            Err(e) => {
                return Err(e);
            },
        };
        match value_of_text(text) {
            Some(document) => Self::from_document(&document),
            None => Err(ParseError::MalformedPayload),
        }
    }

    /// Appends the bytes of the save file to `writer`: the header, the
    /// length of the document text, the text, and the sentinel.
    pub fn write_to(&self, writer: &mut Vec<u8>)
        ensures
            final(writer)@ == old(writer)@ + serialization(self@),
    {
        let document = self.to_document();
        let text = text_of_value(&document).unwrap();
        write_container(text.as_str(), writer);
    }
}

} // verus!
