//! Datasets: immutable, content-hashed collections of JSON objects that
//! all have the same keys.

use crate::dataset_model::{
    content_bytes, content_hash, ingest_outcome, inferred_keys, is_first_fault,
    is_first_faulty_line, lemma_content_bytes_push, lemma_first_fault_unique,
    is_hash_text, lemma_content_hash_shape, lemma_first_faulty_line_unique, line_fault,
    load_outcome, message_of, parsed_lines, record_fault, record_keys, valid, DatasetView, Fault,
    RecordFault,
};
use crate::digest::{hasher_finalize, hasher_input, hasher_new, hasher_update};
use crate::hex::to_hex;
use crate::json::{
    array_value, json_array, json_items, json_keys, parse_value, text_bytes, text_of, value_keys,
};
use crate::text::{decimal, decimal_text};
use serde_json::Value;
use vstd::prelude::*;
use vstd::string::*;

verus! {

/// Why a dataset could not be built. Lines and records are counted from
/// zero.
#[derive(Clone, Debug, PartialEq, Eq)]
pub enum DatasetError {
    /// The line is not well-formed JSON.
    InvalidJson { line: usize },
    /// Schema error: the record is no JSON object.
    NotAnObject { line: usize },
    /// Schema error: the record's keys are not those of the records
    /// before it.
    KeysDiffer { line: usize },
    /// Integrity error: the records hash to `computed`, not to the hash
    /// under which they were stored.
    HashMismatch { computed: String },
}

impl View for DatasetError {
    type V = Fault;

    open spec fn view(&self) -> Fault {
        match self {
            DatasetError::InvalidJson { line } => Fault::Record {
                line: *line as int,
                fault: RecordFault::InvalidJson,
            },
            DatasetError::NotAnObject { line } => Fault::Record {
                line: *line as int,
                fault: RecordFault::NotAnObject,
            },
            DatasetError::KeysDiffer { line } => Fault::Record {
                line: *line as int,
                fault: RecordFault::KeysDiffer,
            },
            DatasetError::HashMismatch { computed } => Fault::HashMismatch { computed: computed@ },
        }
    }
}

impl DatasetError {
    /// What is said to the user of the error.
    pub fn message(&self) -> (text: String)
        ensures
            text@ == message_of(self@),
    {
        match self {
            DatasetError::InvalidJson { line } => line_message(
                *line,
                ": Not well-formed JSON.",
            ),
            DatasetError::NotAnObject { line } => line_message(
                *line,
                ": Not a JSON object. Only JSON Objects are expected at each line of the JSONL file.",
            ),
            DatasetError::KeysDiffer { line } => line_message(
                *line,
                ": JSON Object has different keys from previous lines.",
            ),
            DatasetError::HashMismatch { computed } => {
                let mut text = String::from_str("The records hash to ");
                text.append(computed.as_str());
                text.append(", not to the hash they were stored under.");
                text
            },
        }
    }
}

/// `Line `, the number of the line, and what is said of it.
fn line_message(line: usize, said: &str) -> (text: String)
    ensures
        text@ == "Line "@ + decimal(line as nat) + said@,
{
    let mut text = String::from_str("Line ");
    text.append(decimal_text(line).as_str());
    text.append(said);
    text
}

/// The error that reports `fault` at `line`.
fn error_at(fault: RecordFault, line: usize) -> (error: DatasetError)
    ensures
        error@ == (Fault::Record { line: line as int, fault }),
{
    match fault {
        RecordFault::InvalidJson => DatasetError::InvalidJson { line },
        RecordFault::NotAnObject => DatasetError::NotAnObject { line },
        RecordFault::KeysDiffer => DatasetError::KeysDiffer { line },
    }
}

/// Whether `key` is one of `keys`.
fn has_key(keys: &Vec<String>, key: &String) -> (found: bool)
    ensures
        found == keys.deep_view().contains(key@),
{
    let mut i: usize = 0;
    while i < keys.len()
        invariant
            i <= keys.len(),
            forall|j: int| 0 <= j < i ==> keys.deep_view()[j] != key@,
        decreases keys.len() - i,
    {
        if keys[i] == *key {
            assert(keys.deep_view()[i as int] == key@);
            return true;
        }
        i += 1;
    }
    false
}

/// Whether every one of `keys` is one of `others`.
fn all_keys_in(keys: &Vec<String>, others: &Vec<String>) -> (all: bool)
    ensures
        all == keys.deep_view().to_set().subset_of(others.deep_view().to_set()),
{
    let mut i: usize = 0;
    while i < keys.len()
        invariant
            i <= keys.len(),
            forall|j: int| 0 <= j < i ==> others.deep_view().contains(#[trigger] keys.deep_view()[j]),
        decreases keys.len() - i,
    {
        if !has_key(others, &keys[i]) {
            assert(keys.deep_view().to_set().contains(keys.deep_view()[i as int]));
            return false;
        }
        i += 1;
    }
    true
}

/// Whether two key lists hold the same keys, whatever their order.
pub fn same_key_set(a: &Vec<String>, b: &Vec<String>) -> (same: bool)
    ensures
        same == (a.deep_view().to_set() == b.deep_view().to_set()),
{
    let same = all_keys_in(a, b) && all_keys_in(b, a);
    proof {
        if same {
            assert(a.deep_view().to_set() =~= b.deep_view().to_set());
        }
    }
    same
}

/// What is wrong with a record that is held against the key set `shared`,
/// or against none where it is the first.
pub open spec fn fault_against(record: Value, shared: Option<Set<Seq<char>>>) -> Option<
    RecordFault,
> {
    if json_keys(record) is None {
        Some(RecordFault::NotAnObject)
    } else if shared is Some && record_keys(record) != shared->0 {
        Some(RecordFault::KeysDiffer)
    } else {
        None
    }
}

/// The key set of a key list, if there is a list.
pub open spec fn key_set_of(keys: Option<Vec<String>>) -> Option<Set<Seq<char>>> {
    match keys {
        Some(ks) => Some(ks.deep_view().to_set()),
        None => None,
    }
}

/// Checks one record and feeds its text to the hash state. The first
/// record sets the key list; every later one is held against it.
fn absorb_record(
    record: &Value,
    keys: &mut Option<Vec<String>>,
    state: &mut blake3::Hasher,
) -> (fault: Option<RecordFault>)
    ensures
        fault == fault_against(*record, key_set_of(*old(keys))),
        fault is None ==> {
            &&& hasher_input(*final(state)) == hasher_input(*old(state)) + text_bytes(*record)
            &&& *final(keys) matches Some(ks)
            &&& key_set_of(*final(keys)) == Some(record_keys(*record))
            &&& match *old(keys) {
                Some(before) => ks == before,
                None => ks.deep_view().no_duplicates(),
            }
        },
{
    let record_keys = match value_keys(record) {
        Some(ks) => ks,
        None => {
            return Some(RecordFault::NotAnObject);
        },
    };
    match keys {
        Some(shared) => {
            if !same_key_set(shared, &record_keys) {
                return Some(RecordFault::KeysDiffer);
            }
        },
        None => {},
    }
    let text = text_of(record);
    if keys.is_none() {
        *keys = Some(record_keys);
    }
    hasher_update(state, text.as_str().as_bytes());
    None
}

/// An immutable collection of JSON objects with one shared key set,
/// named by an identifier and by the hash of its content.
#[derive(Debug)]
pub struct Dataset {
    created: u64,
    dataset_id: String,
    hash: String,
    keys: Vec<String>,
    data: Vec<Value>,
}

impl View for Dataset {
    type V = DatasetView;

    closed spec fn view(&self) -> DatasetView {
        DatasetView {
            created: self.created,
            dataset_id: self.dataset_id@,
            hash: self.hash@,
            keys: if self.data@.len() == 0 {
                None
            } else {
                Some(self.keys.deep_view().to_set())
            },
            records: self.data@,
        }
    }
}

/// What a constructor returned, as a mathematical value.
pub open spec fn outcome(result: Result<Dataset, DatasetError>) -> Result<DatasetView, Fault> {
    match result {
        Ok(dataset) => Ok(dataset@),
        Err(error) => Err(error@),
    }
}

impl Dataset {
    /// The shared keys in the order in which `keys` hands them out.
    pub closed spec fn key_list(&self) -> Seq<Seq<char>> {
        self.keys.deep_view()
    }

    /// The invariant that the constructors establish: the dataset is valid,
    /// and its key list holds each shared key once.
    pub open spec fn wf(&self) -> bool {
        &&& valid(self@)
        &&& self.key_list().no_duplicates()
        &&& self@.keys == if self@.records.len() == 0 {
            None
        } else {
            Some(self.key_list().to_set())
        }
        &&& self@.records.len() == 0 ==> self.key_list().len() == 0
    }

    /// Rebuilds a dataset from records that were stored under `hash`. The
    /// records are checked again and their hash is computed again: the
    /// first record that is no object, or whose keys are not those of the
    /// first one, refuses them, and so does a hash other than `hash`.
    pub fn new_from_store(created: u64, dataset_id: &str, hash: &str, data: Vec<Value>) -> (result:
        Result<Dataset, DatasetError>)
        ensures
            outcome(result) == load_outcome(created, dataset_id@, hash@, data@),
            result matches Ok(dataset) ==> dataset.wf() && is_hash_text(dataset@.hash),
            !is_hash_text(hash@) ==> result is Err,
    {
        let mut keys: Option<Vec<String>> = None;
        let mut state = hasher_new();
        let mut i: usize = 0;
        while i < data.len()
            invariant
                i <= data.len(),
                forall|j: int| 0 <= j < i ==> record_fault(data@, j) is None,
                hasher_input(state) == content_bytes(data@.take(i as int)),
                i == 0 ==> keys is None,
                i > 0 ==> keys is Some && key_set_of(keys) == Some(record_keys(data@[0])),
                keys matches Some(ks) ==> ks.deep_view().no_duplicates(),
            decreases data.len() - i,
        {
            match absorb_record(&data[i], &mut keys, &mut state) {
                Some(fault) => {
                    proof {
                        assert(record_fault(data@, i as int) == Some(fault));
                        assert(is_first_fault(data@, i as int));
                        let k = choose|k: int| is_first_fault(data@, k);
                        lemma_first_fault_unique(data@, i as int, k);
                    }
                    return Err(error_at(fault, i));
                },
                None => {},
            }
            proof {
                lemma_content_bytes_push(data@.take(i as int), data@[i as int]);
                assert(data@.take(i as int).push(data@[i as int]) =~= data@.take(i + 1));
            }
            i += 1;
        }
        proof {
            assert(data@.take(i as int) =~= data@);
            assert(forall|k: int| !is_first_fault(data@, k));
        }
        proof {
            lemma_content_hash_shape(data@);
        }
        let computed = to_hex(hasher_finalize(&state).as_slice());
        let hash = hash.to_owned();
        if computed != hash {
            return Err(DatasetError::HashMismatch { computed });
        }
        let keys = match keys {
            Some(ks) => ks,
            None => Vec::new(),
        };
        let dataset = Dataset { created, dataset_id: dataset_id.to_owned(), hash, keys, data };
        proof {
            assert(dataset@ == (DatasetView {
                created,
                dataset_id: dataset_id@,
                hash: hash@,
                keys: inferred_keys(data@),
                records: data@,
            }));
        }
        Ok(dataset)
    }

    /// Builds a dataset from the lines of a line-delimited JSON text, one
    /// record per line. The first line that is not well-formed JSON, that
    /// is no object, or whose keys are not those of the first line refuses
    /// the text. The hash is computed from the records as they are written
    /// back, not from the lines as they came.
    pub fn new_from_jsonl(id: &str, lines: &Vec<String>, created: u64) -> (result: Result<
        Dataset,
        DatasetError,
    >)
        ensures
            outcome(result) == ingest_outcome(created, id@, lines.deep_view()),
            result matches Ok(dataset) ==> dataset.wf() && is_hash_text(dataset@.hash),
    {
        let ghost text = lines.deep_view();
        let ghost records = parsed_lines(text);
        let mut keys: Option<Vec<String>> = None;
        let mut state = hasher_new();
        let mut data: Vec<Value> = Vec::new();
        let mut i: usize = 0;
        while i < lines.len()
            invariant
                i <= lines.len(),
                text == lines.deep_view(),
                records == parsed_lines(text),
                data@ == records.take(i as int),
                forall|j: int| 0 <= j < i ==> line_fault(text, j) is None,
                hasher_input(state) == content_bytes(data@),
                i == 0 ==> keys is None,
                i > 0 ==> keys is Some && key_set_of(keys) == Some(record_keys(records[0])),
                keys matches Some(ks) ==> ks.deep_view().no_duplicates(),
            decreases lines.len() - i,
        {
            assert(text[i as int] == lines[i as int]@);
            let fault = match parse_value(lines[i].as_str()) {
                Ok(record) => {
                    assert(records[i as int] == record);
                    match absorb_record(&record, &mut keys, &mut state) {
                        Some(fault) => Some(fault),
                        None => {
                            proof {
                                lemma_content_bytes_push(data@, record);
                            }
                            data.push(record);
                            None
                        },
                    }
                },
                Err(_) => Some(RecordFault::InvalidJson),
            };
            match fault {
                Some(fault) => {
                    proof {
                        assert(line_fault(text, i as int) == Some(fault));
                        assert(is_first_faulty_line(text, i as int));
                        let k = choose|k: int| is_first_faulty_line(text, k);
                        lemma_first_faulty_line_unique(text, i as int, k);
                    }
                    return Err(error_at(fault, i));
                },
                None => {},
            }
            assert(data@ =~= records.take(i + 1));
            i += 1;
        }
        proof {
            assert(data@ =~= records);
            assert(forall|k: int| !is_first_faulty_line(text, k));
            assert(forall|j: int| 0 <= j < records.len() ==> record_fault(records, j) is None) by {
                assert forall|j: int| 0 <= j < records.len() implies record_fault(records, j)
                    is None by {
                    assert(line_fault(text, j) is None);
                }
            }
        }
        proof {
            lemma_content_hash_shape(records);
        }
        let hash = to_hex(hasher_finalize(&state).as_slice());
        let keys = match keys {
            Some(ks) => ks,
            None => Vec::new(),
        };
        let dataset = Dataset { created, dataset_id: id.to_owned(), hash, keys, data };
        proof {
            assert(dataset@ == (DatasetView {
                created,
                dataset_id: id@,
                hash: content_hash(records),
                keys: inferred_keys(records),
                records,
            }));
        }
        Ok(dataset)
    }

    /// When the dataset was made, in the unit of the clock that the caller
    /// read.
    pub fn created(&self) -> (created: u64)
        ensures
            created == self@.created,
    {
        self.created
    }

    /// The name under which the dataset's versions are kept.
    pub fn dataset_id(&self) -> (id: &str)
        ensures
            id@ == self@.dataset_id,
    {
        self.dataset_id.as_str()
    }

    /// The content hash: 64 lowercase hexadecimal digits.
    pub fn hash(&self) -> (hash: &str)
        ensures
            hash@ == self@.hash,
            self.wf() ==> is_hash_text(hash@),
    {
        self.hash.as_str()
    }

    /// The number of records.
    pub fn len(&self) -> (len: usize)
        ensures
            len == self@.records.len(),
    {
        self.data.len()
    }

    /// The keys that every record has; none for a dataset without records.
    pub fn keys(&self) -> (keys: Vec<String>)
        ensures
            keys.deep_view() == self.key_list(),
    {
        let mut keys: Vec<String> = Vec::new();
        let mut i: usize = 0;
        while i < self.keys.len()
            invariant
                i <= self.keys.len(),
                keys@.len() == i,
                forall|j: int| 0 <= j < i ==> keys@[j]@ == self.keys@[j]@,
            decreases self.keys.len() - i,
        {
            keys.push(self.keys[i].clone());
            i += 1;
        }
        assert(keys.deep_view() =~= self.keys.deep_view());
        keys
    }

    /// An iterator over the records, in their order.
    pub fn iter(&self) -> (records: std::slice::Iter<'_, Value>)
        ensures
            vstd::std_specs::slice::into_iter_elts(records) == self@.records,
    {
        let records = self.data.as_slice().iter();
        proof {
            broadcast use vstd::std_specs::slice::axiom_spec_slice_iter;
            assert(self.data@.as_ref().unref() =~= self.data@);
        }
        records
    }

    /// The records as one JSON array, in their order.
    pub fn data_as_value(&self) -> (array: Value)
        ensures
            array == json_array(self@.records),
            json_items(array) == Some(self@.records),
    {
        let mut items: Vec<Value> = Vec::new();
        let mut i: usize = 0;
        while i < self.data.len()
            invariant
                i <= self.data.len(),
                items@ == self.data@.take(i as int),
            decreases self.data.len() - i,
        {
            items.push(self.data[i].clone());
            assert(items@ =~= self.data@.take(i + 1));
            i += 1;
        }
        assert(self.data@.take(i as int) =~= self.data@);
        array_value(items)
    }
}

} // verus!
