use serde_json::{Number, Value};
use supermagma::container::{ParseError, SAVEFILE_HEADER};
use supermagma::leb128::encode;
use supermagma::options::SuperhotOptions;
use supermagma::save::SuperhotSavefile;

fn number(x: f32) -> Number {
    Number::from_f64(x as f64).unwrap()
}

fn file_of(payload: &[u8]) -> Vec<u8> {
    let mut bytes = SAVEFILE_HEADER.to_vec();
    bytes.extend_from_slice(&encode(payload.len() as u64));
    bytes.extend_from_slice(payload);
    bytes.push(0x0B);
    bytes
}

fn parse_text(text: &str) -> Result<SuperhotSavefile, ParseError> {
    SuperhotSavefile::new(&file_of(text.as_bytes()))
}

#[test]
fn savefile_round_trip() {
    let mut save = SuperhotSavefile::default();
    save.set_bool("a", true);
    save.set_bool("b", false);
    save.set_float("a", number(-1.0));
    save.set_float("b", number(1.0));
    save.set_float("c", number(0.0));
    save.set_int("a", -1);
    save.set_int("b", 1);
    save.set_int("c", 0);
    save.set_str("a", "".into());
    save.set_str("b", "hunter2".into());

    let mut out: Vec<u8> = vec![];
    save.write_to(&mut out);

    assert_eq!(save, SuperhotSavefile::new(&out).unwrap())
}

#[test]
fn round_trip_of_the_empty_record() {
    let save = SuperhotSavefile::default();
    let mut out: Vec<u8> = vec![];
    save.write_to(&mut out);
    assert_eq!(SuperhotSavefile::new(&out), Ok(save));
}

#[test]
fn round_trip_keeps_every_value() {
    let mut save = SuperhotSavefile::default();
    save.set_bool("", true);
    save.set_bool("caf\u{e9} \"quoted\" \\ \n", false);
    save.set_int("min", i32::MIN);
    save.set_int("max", i32::MAX);
    save.set_float("tenth", number(0.1));
    save.set_float("big", number(f32::MAX));
    save.set_float("small", number(f32::MIN_POSITIVE));
    save.set_float("minus zero", number(-0.0));
    save.set_float("whole", Number::from(7));
    save.set_str("text", "\u{1F525} line\nbreak \u{0}".into());
    let mut out: Vec<u8> = vec![];
    save.write_to(&mut out);
    let back = SuperhotSavefile::new(&out).unwrap();
    assert_eq!(back, save);
    assert_eq!(back.get_bool(""), Some(true));
    assert_eq!(back.get_bool("caf\u{e9} \"quoted\" \\ \n"), Some(false));
    assert_eq!(back.get_int("min"), Some(i32::MIN));
    assert_eq!(back.get_int("max"), Some(i32::MAX));
    assert_eq!(back.get_float("tenth").unwrap().as_f64().unwrap() as f32, 0.1f32);
    assert_eq!(back.get_float("big").unwrap().as_f64().unwrap() as f32, f32::MAX);
    assert_eq!(back.get_float("whole"), Some(&Number::from(7)));
    assert_eq!(back.get_str("text"), Some("\u{1F525} line\nbreak \u{0}"));
}

#[test]
fn serialized_bytes_are_header_length_text_sentinel() {
    let mut save = SuperhotSavefile::default();
    save.set_bool("a", true);
    save.set_int("n", -3);
    save.set_float("x", number(1.5));
    save.set_str("s", "hi".into());
    let text = "{\"booleanDictionary\":{\"a\":true},\"floatDictionary\":{\"x\":1.5},\
                \"intDictionary\":{\"n\":-3},\"stringDictionary\":{\"s\":\"hi\"}}";
    assert_eq!(text.len(), 115);
    let mut expected = SAVEFILE_HEADER.to_vec();
    expected.push(115);
    expected.extend_from_slice(text.as_bytes());
    expected.push(0x0B);
    let mut out: Vec<u8> = vec![];
    save.write_to(&mut out);
    assert_eq!(out, expected);
}

#[test]
fn serialized_length_counts_bytes_not_characters() {
    let mut save = SuperhotSavefile::default();
    let long = "\u{e9}".repeat(100);
    save.set_str("k", long.clone());
    let mut out: Vec<u8> = vec![];
    save.write_to(&mut out);
    let text = format!(
        "{{\"booleanDictionary\":{{}},\"floatDictionary\":{{}},\"intDictionary\":{{}},\
         \"stringDictionary\":{{\"k\":\"{}\"}}}}",
        long
    );
    assert_eq!(text.len(), 292);
    assert_eq!(&out[..22], &SAVEFILE_HEADER[..]);
    assert_eq!(&out[22..24], &[0xA4, 0x02]);
    assert_eq!(&out[24..out.len() - 1], text.as_bytes());
    assert_eq!(out[out.len() - 1], 0x0B);
    assert_eq!(SuperhotSavefile::new(&out).unwrap().get_str("k"), Some(long.as_str()));
}

#[test]
fn write_to_appends() {
    let save = SuperhotSavefile::default();
    let mut once: Vec<u8> = vec![];
    save.write_to(&mut once);
    let mut out: Vec<u8> = vec![1, 2, 3];
    save.write_to(&mut out);
    assert_eq!(&out[..3], &[1, 2, 3]);
    assert_eq!(&out[3..], &once[..]);
}

#[test]
fn header_rejection_of_short_buffers() {
    for len in 0..22 {
        assert_eq!(
            SuperhotSavefile::new(&SAVEFILE_HEADER[..len]),
            Err(ParseError::HeaderMismatch)
        );
    }
    assert_eq!(SuperhotSavefile::new(&[0x7B, 0x7D]), Err(ParseError::HeaderMismatch));
}

#[test]
fn header_rejection_of_any_wrong_byte() {
    let good = file_of(b"{}");
    assert!(SuperhotSavefile::new(&good).is_ok());
    for at in 0..22 {
        let mut bad = good.clone();
        bad[at] ^= 0x01;
        assert_eq!(SuperhotSavefile::new(&bad), Err(ParseError::HeaderMismatch));
    }
}

#[test]
fn truncated_length() {
    assert_eq!(SuperhotSavefile::new(&SAVEFILE_HEADER), Err(ParseError::TruncatedLength));
    let mut bytes = SAVEFILE_HEADER.to_vec();
    bytes.push(0x80);
    assert_eq!(SuperhotSavefile::new(&bytes), Err(ParseError::TruncatedLength));
    let mut bytes = SAVEFILE_HEADER.to_vec();
    bytes.extend_from_slice(&[0xFF; 12]);
    assert_eq!(SuperhotSavefile::new(&bytes), Err(ParseError::TruncatedLength));
}

#[test]
fn truncated_payload() {
    let mut bytes = SAVEFILE_HEADER.to_vec();
    bytes.push(3);
    bytes.extend_from_slice(b"{}");
    assert_eq!(SuperhotSavefile::new(&bytes), Err(ParseError::TruncatedPayload));
    let mut bytes = SAVEFILE_HEADER.to_vec();
    bytes.push(1);
    assert_eq!(SuperhotSavefile::new(&bytes), Err(ParseError::TruncatedPayload));
    let mut bytes = SAVEFILE_HEADER.to_vec();
    bytes.extend_from_slice(&encode(u64::MAX));
    bytes.extend_from_slice(b"{}");
    assert_eq!(SuperhotSavefile::new(&bytes), Err(ParseError::TruncatedPayload));
}

#[test]
fn length_that_takes_all_remaining_bytes_succeeds() {
    let mut bytes = SAVEFILE_HEADER.to_vec();
    bytes.push(2);
    bytes.extend_from_slice(b"{}");
    assert_eq!(SuperhotSavefile::new(&bytes), Ok(SuperhotSavefile::default()));
}

#[test]
fn sentinel_is_not_checked() {
    let mut bytes = file_of(b"{}");
    let last = bytes.len() - 1;
    bytes[last] = 0xFF;
    assert_eq!(SuperhotSavefile::new(&bytes), Ok(SuperhotSavefile::default()));
    bytes.extend_from_slice(b"trailing bytes");
    assert_eq!(SuperhotSavefile::new(&bytes), Ok(SuperhotSavefile::default()));
}

#[test]
fn padded_length_prefix_is_read() {
    let mut bytes = SAVEFILE_HEADER.to_vec();
    bytes.extend_from_slice(&[0x82, 0x00]);
    bytes.extend_from_slice(b"{}");
    bytes.push(0x0B);
    assert_eq!(SuperhotSavefile::new(&bytes), Ok(SuperhotSavefile::default()));
}

#[test]
fn invalid_encoding() {
    assert_eq!(
        SuperhotSavefile::new(&file_of(&[0x7B, 0xFF, 0x7D])).unwrap_err(),
        ParseError::InvalidEncoding
    );
    assert_eq!(
        SuperhotSavefile::new(&file_of(&[0xC3])).unwrap_err(),
        ParseError::InvalidEncoding
    );
    assert_eq!(
        SuperhotSavefile::new(&file_of(&[0xED, 0xA0, 0x80])).unwrap_err(),
        ParseError::InvalidEncoding
    );
}

#[test]
fn malformed_payload_that_is_no_document() {
    for text in ["", "{", "{}{}", "nonsense", "{\"booleanDictionary\":}", "{'a':1}"] {
        assert_eq!(parse_text(text).unwrap_err(), ParseError::MalformedPayload, "{}", text);
    }
}

#[test]
fn malformed_payload_that_is_no_object() {
    for text in ["null", "true", "1", "\"text\"", "[]", "[{},{},{},{}]"] {
        assert_eq!(parse_text(text).unwrap_err(), ParseError::MalformedPayload, "{}", text);
    }
}

#[test]
fn malformed_payload_with_a_section_that_is_no_object() {
    for text in [
        "{\"booleanDictionary\":null}",
        "{\"intDictionary\":[]}",
        "{\"floatDictionary\":1.0}",
        "{\"stringDictionary\":\"\"}",
    ] {
        assert_eq!(parse_text(text).unwrap_err(), ParseError::MalformedPayload, "{}", text);
    }
}

#[test]
fn malformed_payload_with_a_value_of_another_kind() {
    for text in [
        "{\"booleanDictionary\":{\"a\":1}}",
        "{\"booleanDictionary\":{\"a\":true,\"b\":\"true\"}}",
        "{\"intDictionary\":{\"a\":true}}",
        "{\"intDictionary\":{\"a\":1.0}}",
        "{\"intDictionary\":{\"a\":1e2}}",
        "{\"intDictionary\":{\"a\":\"1\"}}",
        "{\"floatDictionary\":{\"a\":\"1.0\"}}",
        "{\"floatDictionary\":{\"a\":null}}",
        "{\"stringDictionary\":{\"a\":1}}",
        "{\"stringDictionary\":{\"a\":{}}}",
    ] {
        assert_eq!(parse_text(text).unwrap_err(), ParseError::MalformedPayload, "{}", text);
    }
}

#[test]
fn integers_are_32_bits() {
    let save = parse_text("{\"intDictionary\":{\"hi\":2147483647,\"lo\":-2147483648}}").unwrap();
    assert_eq!(save.get_int("hi"), Some(2147483647));
    assert_eq!(save.get_int("lo"), Some(-2147483648));
    for text in [
        "{\"intDictionary\":{\"a\":2147483648}}",
        "{\"intDictionary\":{\"a\":-2147483649}}",
        "{\"intDictionary\":{\"a\":9223372036854775808}}",
        "{\"intDictionary\":{\"a\":18446744073709551616}}",
    ] {
        assert_eq!(parse_text(text).unwrap_err(), ParseError::MalformedPayload, "{}", text);
    }
}

#[test]
fn float_dictionary_takes_any_number() {
    let save = parse_text("{\"floatDictionary\":{\"a\":-1.5,\"b\":2,\"c\":1e3}}").unwrap();
    assert_eq!(save.get_float("a").unwrap().as_f64(), Some(-1.5));
    assert_eq!(save.get_float("b").unwrap().as_f64(), Some(2.0));
    assert_eq!(save.get_float("c").unwrap().as_f64(), Some(1000.0));
    assert_eq!(save.get_float("d"), None);
}

#[test]
fn missing_sections_are_empty() {
    assert_eq!(parse_text("{}"), Ok(SuperhotSavefile::default()));
    let save = parse_text(" { \"stringDictionary\" : { \"k\" : \"v\" } } ").unwrap();
    let mut expected = SuperhotSavefile::default();
    expected.set_str("k", "v".into());
    assert_eq!(save, expected);
    assert_eq!(save.get_bool("k"), None);
    assert_eq!(save.get_int("k"), None);
    assert_eq!(save.get_float("k"), None);
}

#[test]
fn section_names_are_case_sensitive_and_others_are_passed_over() {
    let save = parse_text(
        "{\"BooleanDictionary\":{\"a\":7},\"extra\":[1,2],\"booleanDictionary\":{\"a\":true}}",
    )
    .unwrap();
    let mut expected = SuperhotSavefile::default();
    expected.set_bool("a", true);
    assert_eq!(save, expected);
}

#[test]
fn repeated_keys_keep_the_last_value() {
    let save = parse_text(
        "{\"intDictionary\":{\"a\":1,\"a\":2},\"stringDictionary\":{\"s\":\"x\"},\
         \"stringDictionary\":{\"t\":\"y\"}}",
    )
    .unwrap();
    assert_eq!(save.get_int("a"), Some(2));
    assert_eq!(save.get_str("s"), None);
    assert_eq!(save.get_str("t"), Some("y"));
}

#[test]
fn mapping_independence() {
    let mut save = SuperhotSavefile::default();
    save.set_bool("k", true);
    save.set_int("k", 5);
    assert_eq!(save.get_bool("k"), Some(true));
    assert_eq!(save.get_int("k"), Some(5));
    assert_eq!(save.get_float("k"), None);
    assert_eq!(save.get_str("k"), None);
    save.set_float("k", number(2.5));
    save.set_str("k", "five".into());
    assert_eq!(save.get_bool("k"), Some(true));
    assert_eq!(save.get_int("k"), Some(5));
    assert_eq!(save.get_float("k"), Some(&number(2.5)));
    assert_eq!(save.get_str("k"), Some("five"));
}

#[test]
fn absence() {
    let mut save = SuperhotSavefile::default();
    assert_eq!(save.get_bool("unset"), None);
    assert_eq!(save.get_int("unset"), None);
    assert_eq!(save.get_float("unset"), None);
    assert_eq!(save.get_str("unset"), None);
    save.set_bool("set", false);
    save.set_int("set", 0);
    save.set_float("set", number(0.0));
    save.set_str("set", String::new());
    assert_eq!(save.get_bool("unset"), None);
    assert_eq!(save.get_int("unset"), None);
    assert_eq!(save.get_float("unset"), None);
    assert_eq!(save.get_str("unset"), None);
    assert_eq!(save.get_bool("se"), None);
    assert_eq!(save.get_bool("sett"), None);
    assert_eq!(save.get_bool("set"), Some(false));
    assert_eq!(save.get_int("set"), Some(0));
    assert_eq!(save.get_str("set"), Some(""));
}

#[test]
fn set_overwrites() {
    let mut save = SuperhotSavefile::default();
    save.set_int("a", 1);
    save.set_int("b", 2);
    save.set_int("a", 3);
    assert_eq!(save.get_int("a"), Some(3));
    assert_eq!(save.get_int("b"), Some(2));
    save.set_str("s", "old".into());
    save.set_str("s", "new".into());
    assert_eq!(save.get_str("s"), Some("new"));
}

#[test]
fn story_finished_scenario() {
    let mut save = SuperhotSavefile::default();
    save.set_bool("storyFinished", true);
    save.set_str("highestfinishedLevel", "34FREE.lvl".into());
    let mut out: Vec<u8> = vec![];
    save.write_to(&mut out);
    let back = SuperhotSavefile::new(&out).unwrap();
    assert_eq!(back.get_bool("storyFinished"), Some(true));
    assert_eq!(back.get_str("highestfinishedLevel"), Some("34FREE.lvl"));
    let mut expected = SuperhotSavefile::default();
    expected.set_str("highestfinishedLevel", "34FREE.lvl".into());
    expected.set_bool("storyFinished", true);
    assert_eq!(back, expected);
    let document = back.to_document();
    assert_eq!(document["intDictionary"], Value::Object(serde_json::Map::new()));
    assert_eq!(document["floatDictionary"], Value::Object(serde_json::Map::new()));
    assert_eq!(document["booleanDictionary"].as_object().unwrap().len(), 1);
    assert_eq!(document["stringDictionary"].as_object().unwrap().len(), 1);
}

#[test]
fn order_of_setting_does_not_matter() {
    let keys = ["b", "a", "", "ab", "B", "\u{e9}", "aa", "z", "a\u{0}"];
    let mut forward = SuperhotSavefile::default();
    for (i, key) in keys.iter().enumerate() {
        forward.set_int(key, i as i32);
        forward.set_str(key, key.to_string());
    }
    let mut backward = SuperhotSavefile::default();
    for (i, key) in keys.iter().enumerate().rev() {
        backward.set_str(key, key.to_string());
        backward.set_int(key, i as i32);
    }
    assert_eq!(forward, backward);
    let mut a: Vec<u8> = vec![];
    forward.write_to(&mut a);
    let mut b: Vec<u8> = vec![];
    backward.write_to(&mut b);
    assert_eq!(a, b);
    for (i, key) in keys.iter().enumerate() {
        assert_eq!(forward.get_int(key), Some(i as i32));
        assert_eq!(forward.get_str(key), Some(*key));
    }
    assert_eq!(SuperhotSavefile::new(&a), Ok(forward));
}

#[test]
fn to_document_builds_the_four_objects() {
    let mut save = SuperhotSavefile::default();
    save.set_bool("flag", true);
    save.set_int("count", -7);
    save.set_float("ratio", number(0.25));
    save.set_str("name", "x".into());
    let mut booleans = serde_json::Map::new();
    booleans.insert("flag".to_string(), Value::Bool(true));
    let mut integers = serde_json::Map::new();
    integers.insert("count".to_string(), Value::Number(Number::from(-7)));
    let mut floats = serde_json::Map::new();
    floats.insert("ratio".to_string(), Value::Number(number(0.25)));
    let mut strings = serde_json::Map::new();
    strings.insert("name".to_string(), Value::String("x".to_string()));
    let mut top = serde_json::Map::new();
    top.insert("booleanDictionary".to_string(), Value::Object(booleans));
    top.insert("intDictionary".to_string(), Value::Object(integers));
    top.insert("floatDictionary".to_string(), Value::Object(floats));
    top.insert("stringDictionary".to_string(), Value::Object(strings));
    let expected = Value::Object(top);
    assert_eq!(save.to_document(), expected);
    assert_eq!(SuperhotSavefile::from_document(&expected), Ok(save));
}

#[test]
fn from_document_rejects_what_is_no_record() {
    assert_eq!(
        SuperhotSavefile::from_document(&Value::Null),
        Err(ParseError::MalformedPayload)
    );
    assert_eq!(
        SuperhotSavefile::from_document(&Value::Array(vec![])),
        Err(ParseError::MalformedPayload)
    );
    let mut integers = serde_json::Map::new();
    integers.insert("a".to_string(), Value::Number(Number::from(1u64 << 31)));
    let mut top = serde_json::Map::new();
    top.insert("intDictionary".to_string(), Value::Object(integers));
    assert_eq!(
        SuperhotSavefile::from_document(&Value::Object(top)),
        Err(ParseError::MalformedPayload)
    );
    assert_eq!(
        SuperhotSavefile::from_document(&Value::Object(serde_json::Map::new())),
        Ok(SuperhotSavefile::default())
    );
}

#[test]
fn unlock_everything_sets_all_flags() {
    let mut save = SuperhotSavefile::default();
    save.set_bool("storyFinished", false);
    save.set_bool("other", false);
    save.set_int("n", 1);
    save.set_str("tags", "[]".into());
    save.unlock_everything();
    for option in [
        SuperhotOptions::UnlockEverything,
        SuperhotOptions::StoryFinished,
        SuperhotOptions::Subway,
        SuperhotOptions::AppQuitUnlocked,
        SuperhotOptions::HotswitchReady,
        SuperhotOptions::RecruitRedirectUnlock,
        SuperhotOptions::KillstagramUnlocked,
        SuperhotOptions::ReplayUploaded,
        SuperhotOptions::WasPlayedBefore,
        SuperhotOptions::HallOfFame,
    ] {
        assert_eq!(save.get_bool(option.name()), Some(true));
    }
    assert_eq!(save.get_bool("other"), Some(false));
    assert_eq!(save.get_int("n"), Some(1));
    assert_eq!(save.get_str("highestfinishedLevel"), Some("34FREE.lvl"));
    assert_eq!(save.get_str("tags"), Some("[1337]"));
    assert_eq!(save.to_document()["booleanDictionary"].as_object().unwrap().len(), 11);
}

#[test]
fn option_names() {
    assert_eq!(SuperhotOptions::UnlockEverything.name(), "unlockEverything");
    assert_eq!(SuperhotOptions::StoryFinished.name(), "storyFinished");
    assert_eq!(SuperhotOptions::Subway.name(), "subway");
    assert_eq!(SuperhotOptions::AppQuitUnlocked.name(), "APPquitunlocked");
    assert_eq!(SuperhotOptions::HotswitchReady.name(), "hotswitchReady");
    assert_eq!(SuperhotOptions::RecruitRedirectUnlock.name(), "APPrecruitredirectunlocked");
    assert_eq!(SuperhotOptions::KillstagramUnlocked.name(), "APPkillstagramunlocked");
    assert_eq!(SuperhotOptions::ReplayUploaded.name(), "repleyUploaded");
    assert_eq!(SuperhotOptions::WasPlayedBefore.name(), "WasPlayedBefore");
    assert_eq!(SuperhotOptions::HallOfFame.name(), "hallOfFame");
}

#[test]
fn option_into_static_str() {
    let name: &'static str = SuperhotOptions::StoryFinished.into();
    assert_eq!(name, "storyFinished");
    let name: &'static str = SuperhotOptions::ReplayUploaded.into();
    assert_eq!(name, "repleyUploaded");
    let mut save = SuperhotSavefile::default();
    save.set_bool(SuperhotOptions::HallOfFame.into(), true);
    assert_eq!(save.get_bool("hallOfFame"), Some(true));
}
