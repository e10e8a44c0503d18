//! What a dataset is, stated over sequences and sets.

use crate::digest::blake3_digest;
use crate::hex::{hex_lower, is_lower_hex, lemma_hex_lower_shape};
use crate::json::{json_keys, json_parsed, text_bytes};
use crate::text::decimal;
use serde_json::Value;
use vstd::prelude::*;

verus! {

/// What can be wrong with one record.
pub enum RecordFault {
    /// The text of the line is not well-formed JSON.
    InvalidJson,
    /// The value is no object.
    NotAnObject,
    /// The object's keys are not those of the first record.
    KeysDiffer,
}

/// Why a dataset was refused.
pub enum Fault {
    /// The record at `line`, counted from zero, is the first faulty one.
    Record { line: int, fault: RecordFault },
    /// The records are sound but hash to `computed`, not to the hash that
    /// was asked for.
    HashMismatch { computed: Seq<char> },
}

/// A dataset as a mathematical value.
pub struct DatasetView {
    pub created: u64,
    pub dataset_id: Seq<char>,
    pub hash: Seq<char>,
    /// The key set that all records share; `None` while there is no record
    /// to infer it from.
    pub keys: Option<Set<Seq<char>>>,
    pub records: Seq<Value>,
}

/// The key set of an object.
pub open spec fn record_keys(record: Value) -> Set<Seq<char>> {
    json_keys(record)->0.to_set()
}

/// The content of a dataset: the bytes of the texts of its records, one
/// after the other with nothing between them.
pub open spec fn content_bytes(records: Seq<Value>) -> Seq<u8>
    decreases records.len(),
{
    if records.len() == 0 {
        Seq::<u8>::empty()
    } else {
        content_bytes(records.drop_last()) + text_bytes(records.last())
    }
}

/// The content hash of a dataset: the BLAKE3 digest of its content, in
/// lowercase hexadecimal.
pub open spec fn content_hash(records: Seq<Value>) -> Seq<char> {
    hex_lower(blake3_digest(content_bytes(records))@)
}

/// The text is a hash: 64 lowercase hexadecimal digits.
pub open spec fn is_hash_text(text: Seq<char>) -> bool {
    text.len() == 64 && is_lower_hex(text)
}

/// Every content hash is 64 lowercase hexadecimal digits.
pub proof fn lemma_content_hash_shape(records: Seq<Value>)
    ensures
        is_hash_text(content_hash(records)),
{
    broadcast use vstd::array::array_len_matches_n;

    lemma_hex_lower_shape(blake3_digest(content_bytes(records))@);
}

/// The key set that the records give: that of the first one.
pub open spec fn inferred_keys(records: Seq<Value>) -> Option<Set<Seq<char>>> {
    if records.len() == 0 {
        None
    } else {
        Some(record_keys(records[0]))
    }
}

/// What is wrong with record `i`, if anything. The key set is held
/// against that of the first record.
pub open spec fn record_fault(records: Seq<Value>, i: int) -> Option<RecordFault> {
    if json_keys(records[i]) is None {
        Some(RecordFault::NotAnObject)
    } else if record_keys(records[i]) != record_keys(records[0]) {
        Some(RecordFault::KeysDiffer)
    } else {
        None
    }
}

/// Record `i` is faulty and none before it is.
pub open spec fn is_first_fault(records: Seq<Value>, i: int) -> bool {
    &&& 0 <= i < records.len()
    &&& record_fault(records, i) is Some
    &&& forall|j: int| 0 <= j < i ==> record_fault(records, j) is None
}

/// No record is faulty.
pub open spec fn sound(records: Seq<Value>) -> bool {
    forall|j: int| 0 <= j < records.len() ==> record_fault(records, j) is None
}

/// The invariant of a dataset: every record is an object with the shared
/// key set, and the hash is that of the content, 64 lowercase hexadecimal
/// digits.
pub open spec fn valid(d: DatasetView) -> bool {
    &&& sound(d.records)
    &&& d.keys == inferred_keys(d.records)
    &&& d.hash == content_hash(d.records)
    &&& is_hash_text(d.hash)
}

/// What loading the given records under the given hash yields: the first
/// faulty record refuses them; if none is faulty, a hash other than that
/// of their content does, and so every text that is no hash.
pub open spec fn load_outcome(
    created: u64,
    dataset_id: Seq<char>,
    hash: Seq<char>,
    records: Seq<Value>,
) -> Result<DatasetView, Fault> {
    if exists|i: int| is_first_fault(records, i) {
        let i = choose|i: int| is_first_fault(records, i);
        Err(Fault::Record { line: i, fault: record_fault(records, i)->0 })
    } else if content_hash(records) != hash {
        Err(Fault::HashMismatch { computed: content_hash(records) })
    } else {
        Ok(DatasetView { created, dataset_id, hash, keys: inferred_keys(records), records })
    }
}

/// The values that the lines denote, line by line.
pub open spec fn parsed_lines(lines: Seq<Seq<char>>) -> Seq<Value> {
    Seq::new(lines.len(), |i: int| json_parsed(lines[i])->0)
}

/// What is wrong with line `i`, if anything.
pub open spec fn line_fault(lines: Seq<Seq<char>>, i: int) -> Option<RecordFault> {
    if json_parsed(lines[i]) is None {
        Some(RecordFault::InvalidJson)
    } else {
        record_fault(parsed_lines(lines), i)
    }
}

/// Line `i` is faulty and none before it is.
pub open spec fn is_first_faulty_line(lines: Seq<Seq<char>>, i: int) -> bool {
    &&& 0 <= i < lines.len()
    &&& line_fault(lines, i) is Some
    &&& forall|j: int| 0 <= j < i ==> line_fault(lines, j) is None
}

/// What reading the given lines yields: the first faulty line refuses
/// them; if none is faulty, the dataset holds the value of each line, in
/// order, under the hash of their content.
pub open spec fn ingest_outcome(
    created: u64,
    dataset_id: Seq<char>,
    lines: Seq<Seq<char>>,
) -> Result<DatasetView, Fault> {
    if exists|i: int| is_first_faulty_line(lines, i) {
        let i = choose|i: int| is_first_faulty_line(lines, i);
        Err(Fault::Record { line: i, fault: line_fault(lines, i)->0 })
    } else {
        let records = parsed_lines(lines);
        Ok(
            DatasetView {
                created,
                dataset_id,
                hash: content_hash(records),
                keys: inferred_keys(records),
                records,
            },
        )
    }
}

/// Two first faults of one sequence are the same record.
pub proof fn lemma_first_fault_unique(records: Seq<Value>, i: int, k: int)
    requires
        is_first_fault(records, i),
        is_first_fault(records, k),
    ensures
        i == k,
{
    if i < k {
        assert(record_fault(records, i) is None);
    } else if k < i {
        assert(record_fault(records, k) is None);
    }
}

/// Two first faulty lines of one text are the same line.
pub proof fn lemma_first_faulty_line_unique(lines: Seq<Seq<char>>, i: int, k: int)
    requires
        is_first_faulty_line(lines, i),
        is_first_faulty_line(lines, k),
    ensures
        i == k,
{
    if i < k {
        assert(line_fault(lines, i) is None);
    } else if k < i {
        assert(line_fault(lines, k) is None);
    }
}

/// Records that were added one at a time: the content of the longer
/// sequence is that of the shorter one followed by the new record's bytes.
pub proof fn lemma_content_bytes_push(records: Seq<Value>, record: Value)
    ensures
        content_bytes(records.push(record)) == content_bytes(records) + text_bytes(record),
{
    assert(records.push(record).drop_last() =~= records);
}

/// What is said of a record fault.
pub open spec fn fault_text(fault: RecordFault) -> Seq<char> {
    match fault {
        RecordFault::InvalidJson => ": Not well-formed JSON."@,
        RecordFault::NotAnObject =>
            ": Not a JSON object. Only JSON Objects are expected at each line of the JSONL file."@,
        RecordFault::KeysDiffer => ": JSON Object has different keys from previous lines."@,
    }
}

/// What is said to the user of a refused dataset: the line and what is
/// wrong with it, or the hash that the records have.
pub open spec fn message_of(fault: Fault) -> Seq<char> {
    match fault {
        Fault::Record { line, fault } => "Line "@ + decimal(line as nat) + fault_text(fault),
        Fault::HashMismatch { computed } => "The records hash to "@ + computed
            + ", not to the hash they were stored under."@,
    }
}

} // verus!
