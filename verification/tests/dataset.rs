use dust::dataset::{same_key_set, Dataset, DatasetError};
use dust::hex::to_hex;
use dust::text::decimal_text;
use serde_json::Value;

fn lines(text: &[&str]) -> Vec<String> {
    text.iter().map(|line| line.to_string()).collect()
}

fn values(text: &[&str]) -> Vec<Value> {
    text.iter().map(|line| serde_json::from_str(line).unwrap()).collect()
}

fn sorted(mut keys: Vec<String>) -> Vec<String> {
    keys.sort();
    keys
}

fn strings(text: &[&str]) -> Vec<String> {
    text.iter().map(|s| s.to_string()).collect()
}

const EMPTY_HASH: &str = "af1349b9f5f9a1a6a0404dea36dcc9499bcb25c9adc112b7cc9a93cae41f3262";

#[test]
fn hex_of_bytes() {
    assert_eq!(to_hex(&[]), "");
    assert_eq!(to_hex(&[0x00, 0xff, 0x1a, 0xa1, 0x09]), "00ff1aa109");
}

#[test]
fn key_sets_compare_without_order() {
    assert!(same_key_set(&strings(&["a", "b"]), &strings(&["b", "a"])));
    assert!(same_key_set(&strings(&[]), &strings(&[])));
    assert!(!same_key_set(&strings(&["a"]), &strings(&["a", "b"])));
    assert!(!same_key_set(&strings(&["a", "b"]), &strings(&["a"])));
    assert!(!same_key_set(&strings(&["a", "b"]), &strings(&["a", "c"])));
}

#[test]
fn empty_source_has_no_records_and_no_keys() {
    let d = Dataset::new_from_jsonl("empty", &Vec::new(), 7).unwrap();
    assert_eq!(d.len(), 0);
    assert!(d.keys().is_empty());
    assert_eq!(d.iter().count(), 0);
    assert_eq!(d.created(), 7);
    assert_eq!(d.dataset_id(), "empty");
    assert_eq!(d.hash(), EMPTY_HASH);
}

#[test]
fn hash_is_that_of_the_rewritten_records() {
    let d = Dataset::new_from_jsonl(
        "d",
        &lines(&["{ \"b\" : 2, \"a\" : 1 }", "{\"a\":\"x\",\"b\":[1, 2]}"]),
        1,
    )
    .unwrap();
    let content = "{\"a\":1,\"b\":2}{\"a\":\"x\",\"b\":[1,2]}";
    assert_eq!(d.hash(), blake3::hash(content.as_bytes()).to_hex().as_str());
    assert_eq!(d.hash(), "fbdb2348d64dd572d29356396e4dd669733db6b48cdd048836c36e9b9ffa7eac");
    assert_eq!(d.len(), 2);
    assert_eq!(sorted(d.keys()), strings(&["a", "b"]));
    let records: Vec<Value> = d.iter().cloned().collect();
    assert_eq!(records, values(&["{\"a\":1,\"b\":2}", "{\"a\":\"x\",\"b\":[1,2]}"]));
}

#[test]
fn hash_does_not_depend_on_layout_name_or_time() {
    let a = Dataset::new_from_jsonl("a", &lines(&["{\"k\":1}", "{\"k\":2}"]), 1).unwrap();
    let b = Dataset::new_from_jsonl("b", &lines(&[" {  \"k\" : 1 } ", "{\"k\":2}"]), 99).unwrap();
    assert_eq!(a.hash(), b.hash());
    let c = Dataset::new_from_jsonl("a", &lines(&["{\"k\":2}", "{\"k\":1}"]), 1).unwrap();
    assert_ne!(a.hash(), c.hash());
}

#[test]
fn different_keys_are_refused_at_their_line() {
    let r = Dataset::new_from_jsonl(
        "d",
        &lines(&["{\"a\":1}", "{\"a\":2}", "{\"b\":3}", "{\"c\":4}"]),
        0,
    );
    assert_eq!(r.unwrap_err(), DatasetError::KeysDiffer { line: 2 });
    let r = Dataset::new_from_jsonl("d", &lines(&["{\"a\":1}", "{\"a\":2,\"b\":3}"]), 0);
    assert_eq!(r.unwrap_err(), DatasetError::KeysDiffer { line: 1 });
    let r = Dataset::new_from_jsonl("d", &lines(&["{\"a\":1,\"b\":3}", "{\"a\":2}"]), 0);
    assert_eq!(r.unwrap_err(), DatasetError::KeysDiffer { line: 1 });
}

#[test]
fn a_line_that_is_no_object_is_refused() {
    let r = Dataset::new_from_jsonl("d", &lines(&["{\"a\":1}", "[1,2]"]), 0);
    assert_eq!(r.unwrap_err(), DatasetError::NotAnObject { line: 1 });
    let r = Dataset::new_from_jsonl("d", &lines(&["3"]), 0);
    assert_eq!(r.unwrap_err(), DatasetError::NotAnObject { line: 0 });
}

#[test]
fn a_line_that_is_no_json_is_refused() {
    let r = Dataset::new_from_jsonl("d", &lines(&["{\"a\":1}", "{\"a\":"]), 0);
    assert_eq!(r.unwrap_err(), DatasetError::InvalidJson { line: 1 });
    let r = Dataset::new_from_jsonl("d", &lines(&["{\"a\":1}", "", "{\"a\":2}"]), 0);
    assert_eq!(r.unwrap_err(), DatasetError::InvalidJson { line: 1 });
}

#[test]
fn the_first_faulty_line_is_reported() {
    let r = Dataset::new_from_jsonl("d", &lines(&["{\"a\":1}", "7", "{\"b\":1}", "x"]), 0);
    assert_eq!(r.unwrap_err(), DatasetError::NotAnObject { line: 1 });
    let r = Dataset::new_from_jsonl("d", &lines(&["nope", "{\"a\":1}", "{\"b\":1}"]), 0);
    assert_eq!(r.unwrap_err(), DatasetError::InvalidJson { line: 0 });
}

#[test]
fn records_without_keys_form_a_dataset() {
    let d = Dataset::new_from_jsonl("d", &lines(&["{}", "{}"]), 0).unwrap();
    assert_eq!(d.len(), 2);
    assert!(d.keys().is_empty());
    assert_eq!(d.hash(), blake3::hash(b"{}{}").to_hex().as_str());
}

#[test]
fn stored_records_load_under_their_hash() {
    let d = Dataset::new_from_jsonl("d", &lines(&["{\"x\":1,\"y\":null}", "{\"y\":2,\"x\":[]}"]), 5)
        .unwrap();
    let stored: Vec<Value> = d.iter().cloned().collect();
    let loaded = Dataset::new_from_store(9, d.dataset_id(), d.hash(), stored.clone()).unwrap();
    assert_eq!(loaded.hash(), d.hash());
    assert_eq!(loaded.dataset_id(), "d");
    assert_eq!(loaded.created(), 9);
    assert_eq!(loaded.len(), 2);
    assert_eq!(sorted(loaded.keys()), sorted(d.keys()));
    assert_eq!(loaded.iter().cloned().collect::<Vec<Value>>(), stored);
}

#[test]
fn an_empty_dataset_loads_under_the_hash_of_nothing() {
    let loaded = Dataset::new_from_store(1, "none", EMPTY_HASH, Vec::new()).unwrap();
    assert_eq!(loaded.len(), 0);
    assert!(loaded.keys().is_empty());
}

#[test]
fn changed_records_do_not_load() {
    let d = Dataset::new_from_jsonl("d", &lines(&["{\"x\":1}", "{\"x\":2}"]), 5).unwrap();
    let changed = values(&["{\"x\":1}", "{\"x\":3}"]);
    let r = Dataset::new_from_store(5, "d", d.hash(), changed);
    let computed = blake3::hash(b"{\"x\":1}{\"x\":3}").to_hex().to_string();
    assert_eq!(r.unwrap_err(), DatasetError::HashMismatch { computed });
    let r = Dataset::new_from_store(5, "d", d.hash(), values(&["{\"x\":1}"]));
    assert!(matches!(r, Err(DatasetError::HashMismatch { .. })));
    let r = Dataset::new_from_store(5, "d", "", values(&["{\"x\":1}", "{\"x\":2}"]));
    assert_eq!(r.unwrap_err(), DatasetError::HashMismatch { computed: d.hash().to_string() });
}

#[test]
fn stored_records_are_checked_before_their_hash() {
    let r = Dataset::new_from_store(5, "d", "0000", values(&["{\"x\":1}", "[]", "{\"y\":1}"]));
    assert_eq!(r.unwrap_err(), DatasetError::NotAnObject { line: 1 });
    let r = Dataset::new_from_store(5, "d", "0000", values(&["{\"x\":1}", "{\"y\":1}"]));
    assert_eq!(r.unwrap_err(), DatasetError::KeysDiffer { line: 1 });
}

#[test]
fn records_as_one_array() {
    let d = Dataset::new_from_jsonl("d", &lines(&["{\"x\":1}", "{\"x\":2}"]), 5).unwrap();
    let expected: Value = serde_json::from_str("[{\"x\":1},{\"x\":2}]").unwrap();
    assert_eq!(d.data_as_value(), expected);
    let none = Dataset::new_from_jsonl("d", &Vec::new(), 5).unwrap();
    assert_eq!(none.data_as_value(), serde_json::from_str::<Value>("[]").unwrap());
}

#[test]
fn numbers_as_decimal_text() {
    assert_eq!(decimal_text(0), "0");
    assert_eq!(decimal_text(7), "7");
    assert_eq!(decimal_text(10), "10");
    assert_eq!(decimal_text(4096), "4096");
    assert_eq!(decimal_text(usize::MAX), usize::MAX.to_string());
}

#[test]
fn errors_say_which_line_is_wrong() {
    assert_eq!(
        DatasetError::KeysDiffer { line: 12 }.message(),
        "Line 12: JSON Object has different keys from previous lines."
    );
    assert_eq!(
        DatasetError::NotAnObject { line: 0 }.message(),
        "Line 0: Not a JSON object. Only JSON Objects are expected at each line of the JSONL file."
    );
    assert_eq!(DatasetError::InvalidJson { line: 3 }.message(), "Line 3: Not well-formed JSON.");
    assert_eq!(
        DatasetError::InvalidJson { line: 105 }.message(),
        "Line 105: Not well-formed JSON."
    );
    assert_eq!(
        DatasetError::HashMismatch { computed: "ab12".to_string() }.message(),
        "The records hash to ab12, not to the hash they were stored under."
    );
}

#[test]
fn records_written_out_and_read_again_hash_the_same() {
    let source = lines(&[
        "{\"name\":\"a\\u00e9\\\"b\",\"n\":1.5e3,\"tags\":[true,null,{\"z\":0,\"a\":-7}]}",
        "{\"tags\":[],\"n\":0,\"name\":\"\"}",
    ]);
    let first = Dataset::new_from_jsonl("d", &source, 1).unwrap();
    let written: Vec<String> =
        first.iter().map(|record| serde_json::to_string(record).unwrap()).collect();
    let second = Dataset::new_from_jsonl("d", &written, 2).unwrap();
    assert_eq!(first.hash(), second.hash());
    assert_eq!(first.hash(), blake3::hash(written.concat().as_bytes()).to_hex().as_str());
    assert_eq!(sorted(second.keys()), strings(&["n", "name", "tags"]));
    let stored: Vec<Value> = second.iter().cloned().collect();
    assert!(Dataset::new_from_store(3, "d", first.hash(), stored).is_ok());
}

#[test]
fn a_hash_is_64_lowercase_hexadecimal_digits() {
    for source in [lines(&[]), lines(&["{\"a\":1}"]), lines(&["{\"a\":1}", "{\"a\":[2,3]}"])] {
        let d = Dataset::new_from_jsonl("d", &source, 0).unwrap();
        assert_eq!(d.hash().len(), 64);
        assert!(d.hash().chars().all(|c| "0123456789abcdef".contains(c)));
        let stored: Vec<Value> = d.iter().cloned().collect();
        let loaded = Dataset::new_from_store(0, "d", d.hash(), stored).unwrap();
        assert_eq!(loaded.hash(), d.hash());
    }
}

#[test]
fn a_text_that_is_no_hash_loads_nothing() {
    let d = Dataset::new_from_jsonl("d", &lines(&["{\"a\":1}"]), 0).unwrap();
    let computed = d.hash().to_string();
    for asked in ["", "0", &computed[..63], &computed.to_uppercase(), &format!("{}0", computed)] {
        let r = Dataset::new_from_store(0, "d", asked, values(&["{\"a\":1}"]));
        assert_eq!(r.unwrap_err(), DatasetError::HashMismatch { computed: computed.clone() });
    }
    let r = Dataset::new_from_store(0, "d", "", Vec::new());
    assert!(matches!(r, Err(DatasetError::HashMismatch { .. })));
}

#[test]
fn the_items_of_the_array_are_the_records() {
    let d = Dataset::new_from_jsonl("d", &lines(&["{\"x\":[1]}", "{\"x\":{}}", "{\"x\":null}"]), 5)
        .unwrap();
    let array = d.data_as_value();
    let items = array.as_array().unwrap();
    let records: Vec<Value> = d.iter().cloned().collect();
    assert_eq!(items, &records);
    assert_eq!(items.len(), d.len());
}
