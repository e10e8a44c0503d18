//! What holds of every dataset, whichever way it was built.

use crate::dataset_model::{
    content_bytes, content_hash, ingest_outcome, is_first_fault, is_first_faulty_line,
    is_hash_text, lemma_content_hash_shape, lemma_first_fault_unique,
    lemma_first_faulty_line_unique, line_fault, load_outcome, message_of, parsed_lines,
    record_fault, record_keys, sound, valid, DatasetView, Fault, RecordFault,
};
use crate::text::decimal;
use crate::json::{json_keys, json_parsed, json_text};
use serde_json::Value;
use vstd::prelude::*;

verus! {

/// A text without a faulty line gives sound records.
pub proof fn lemma_lines_sound(lines: Seq<Seq<char>>)
    requires
        forall|i: int| 0 <= i < lines.len() ==> line_fault(lines, i) is None,
    ensures
        sound(parsed_lines(lines)),
{
    let records = parsed_lines(lines);
    assert forall|j: int| 0 <= j < records.len() implies record_fault(records, j) is None by {
        assert(line_fault(lines, j) is None);
    }
}

/// A text is accepted if and only if none of its lines is faulty.
pub proof fn lemma_ingest_accepts(created: u64, dataset_id: Seq<char>, lines: Seq<Seq<char>>)
    ensures
        ingest_outcome(created, dataset_id, lines) is Ok <==> forall|i: int|
            0 <= i < lines.len() ==> line_fault(lines, i) is None,
{
    if exists|i: int| 0 <= i < lines.len() && line_fault(lines, i) is Some {
        let i = choose|i: int| 0 <= i < lines.len() && line_fault(lines, i) is Some;
        lemma_least_faulty_line(lines, i);
    } else {
        assert(forall|k: int| !is_first_faulty_line(lines, k));
    }
}

/// Before any faulty line there is a first one.
pub proof fn lemma_least_faulty_line(lines: Seq<Seq<char>>, i: int)
    requires
        0 <= i < lines.len(),
        line_fault(lines, i) is Some,
    ensures
        exists|k: int| 0 <= k <= i && is_first_faulty_line(lines, k),
    decreases i,
{
    if exists|j: int| 0 <= j < i && line_fault(lines, j) is Some {
        let j = choose|j: int| 0 <= j < i && line_fault(lines, j) is Some;
        lemma_least_faulty_line(lines, j);
    } else {
        assert(is_first_faulty_line(lines, i));
    }
}

/// Every dataset that was read from a text is valid: each record is an
/// object with the keys of the first one, and the hash is that of the
/// content.
pub proof fn lemma_ingest_valid(created: u64, dataset_id: Seq<char>, lines: Seq<Seq<char>>)
    requires
        ingest_outcome(created, dataset_id, lines) is Ok,
    ensures
        valid(ingest_outcome(created, dataset_id, lines)->Ok_0),
{
    lemma_ingest_accepts(created, dataset_id, lines);
    lemma_lines_sound(lines);
}

/// Every dataset that was loaded is valid, and carries the hash that was
/// asked for.
pub proof fn lemma_load_valid(
    created: u64,
    dataset_id: Seq<char>,
    hash: Seq<char>,
    records: Seq<Value>,
)
    requires
        load_outcome(created, dataset_id, hash, records) is Ok,
    ensures
        valid(load_outcome(created, dataset_id, hash, records)->Ok_0),
        load_outcome(created, dataset_id, hash, records)->Ok_0.hash == hash,
        load_outcome(created, dataset_id, hash, records)->Ok_0.records == records,
{
    assert forall|j: int| 0 <= j < records.len() implies record_fault(records, j) is None by {
        if record_fault(records, j) is Some {
            lemma_least_fault(records, j);
        }
    }
}

/// Before any faulty record there is a first one.
pub proof fn lemma_least_fault(records: Seq<Value>, i: int)
    requires
        0 <= i < records.len(),
        record_fault(records, i) is Some,
    ensures
        exists|k: int| 0 <= k <= i && is_first_fault(records, k),
    decreases i,
{
    if exists|j: int| 0 <= j < i && record_fault(records, j) is Some {
        let j = choose|j: int| 0 <= j < i && record_fault(records, j) is Some;
        lemma_least_fault(records, j);
    } else {
        assert(is_first_fault(records, i));
    }
}

/// Determinism of the hash: it depends on the lines alone, not on the
/// name or the time under which they were read, and hashing the records
/// of the dataset again gives the hash that the dataset carries.
pub proof fn lemma_hash_deterministic(
    created: u64,
    dataset_id: Seq<char>,
    lines: Seq<Seq<char>>,
    other_created: u64,
    other_id: Seq<char>,
)
    requires
        ingest_outcome(created, dataset_id, lines) is Ok,
    ensures
        ingest_outcome(other_created, other_id, lines) is Ok,
        ingest_outcome(other_created, other_id, lines)->Ok_0.hash == ingest_outcome(
            created,
            dataset_id,
            lines,
        )->Ok_0.hash,
        content_hash(ingest_outcome(created, dataset_id, lines)->Ok_0.records) == ingest_outcome(
            created,
            dataset_id,
            lines,
        )->Ok_0.hash,
{
}

/// Round trip: the records of a valid dataset, loaded under its hash, give
/// the dataset back, with the same records, key set and hash.
pub proof fn lemma_round_trip(d: DatasetView, created: u64)
    requires
        valid(d),
    ensures
        load_outcome(created, d.dataset_id, d.hash, d.records) == Ok::<DatasetView, Fault>(
            DatasetView { created, ..d },
        ),
{
    assert(forall|k: int| !is_first_fault(d.records, k));
}

/// A dataset that was read from a text can be stored and loaded again.
pub proof fn lemma_ingest_then_load(
    created: u64,
    dataset_id: Seq<char>,
    lines: Seq<Seq<char>>,
    loaded: u64,
)
    requires
        ingest_outcome(created, dataset_id, lines) is Ok,
    ensures
        ({
            let d = ingest_outcome(created, dataset_id, lines)->Ok_0;
            load_outcome(loaded, d.dataset_id, d.hash, d.records) == Ok::<DatasetView, Fault>(
                DatasetView { created: loaded, ..d },
            )
        }),
{
    lemma_ingest_valid(created, dataset_id, lines);
    lemma_round_trip(ingest_outcome(created, dataset_id, lines)->Ok_0, loaded);
}

/// Integrity: sound records whose content does not hash to the hash that
/// was asked for are refused, and the error names the hash they do have.
pub proof fn lemma_wrong_hash_refused(
    created: u64,
    dataset_id: Seq<char>,
    hash: Seq<char>,
    records: Seq<Value>,
)
    requires
        sound(records),
        content_hash(records) != hash,
    ensures
        load_outcome(created, dataset_id, hash, records) == Err::<DatasetView, Fault>(
            Fault::HashMismatch { computed: content_hash(records) },
        ),
{
    assert(forall|k: int| !is_first_fault(records, k));
}

/// The lines before `k` are all objects with the keys of the first.
pub open spec fn uniform_before(lines: Seq<Seq<char>>, k: int) -> bool {
    forall|j: int|
        0 <= j < k ==> {
            &&& json_parsed(#[trigger] lines[j]) is Some
            &&& json_keys(json_parsed(lines[j])->0) is Some
            &&& record_keys(json_parsed(lines[j])->0) == record_keys(json_parsed(lines[0])->0)
        }
}

/// Lines that are all objects with the same keys have no fault.
pub proof fn lemma_uniform_has_no_fault(lines: Seq<Seq<char>>, k: int)
    requires
        0 <= k <= lines.len(),
        uniform_before(lines, k),
    ensures
        forall|j: int| 0 <= j < k ==> line_fault(lines, j) is None,
{
    assert forall|j: int| 0 <= j < k implies line_fault(lines, j) is None by {
        assert(json_parsed(lines[j]) is Some);
        if k > 0 {
            assert(json_parsed(lines[0]) is Some);
        }
    }
}

/// Determinism: a text whose lines are all objects with the same keys is
/// accepted whenever and under whatever name it is read, and two readings
/// give the same hash, the same records in the same order and the same
/// key set. Only the time and the name can differ.
pub proof fn lemma_uniform_text_accepted(
    lines: Seq<Seq<char>>,
    created: u64,
    dataset_id: Seq<char>,
    other_created: u64,
    other_id: Seq<char>,
)
    requires
        uniform_before(lines, lines.len() as int),
    ensures
        ingest_outcome(created, dataset_id, lines) is Ok,
        ingest_outcome(other_created, other_id, lines) is Ok,
        ({
            let d = ingest_outcome(created, dataset_id, lines)->Ok_0;
            let e = ingest_outcome(other_created, other_id, lines)->Ok_0;
            &&& d.hash == e.hash
            &&& d.records == e.records
            &&& d.keys == e.keys
            &&& d.records.len() == lines.len()
            &&& is_hash_text(d.hash)
            &&& d.created == created
            &&& e.created == other_created
        }),
{
    lemma_uniform_has_no_fault(lines, lines.len() as int);
    lemma_ingest_accepts(created, dataset_id, lines);
    lemma_ingest_accepts(other_created, other_id, lines);
    lemma_content_hash_shape(parsed_lines(lines));
}

/// Schema: after lines that are all objects with the keys of the first, a
/// line that is an object with other keys refuses the text, whatever
/// follows it. The error names that line, and so does its message.
pub proof fn lemma_other_keys_refused(
    created: u64,
    dataset_id: Seq<char>,
    lines: Seq<Seq<char>>,
    k: int,
)
    requires
        0 < k < lines.len(),
        uniform_before(lines, k),
        json_parsed(lines[k]) is Some,
        json_keys(json_parsed(lines[k])->0) is Some,
        record_keys(json_parsed(lines[k])->0) != record_keys(json_parsed(lines[0])->0),
    ensures
        ingest_outcome(created, dataset_id, lines) == Err::<DatasetView, Fault>(
            Fault::Record { line: k, fault: RecordFault::KeysDiffer },
        ),
        message_of(ingest_outcome(created, dataset_id, lines)->Err_0) == "Line "@ + decimal(
            k as nat,
        ) + ": JSON Object has different keys from previous lines."@,
{
    lemma_uniform_has_no_fault(lines, k);
    assert(line_fault(lines, k) == Some(RecordFault::KeysDiffer));
    assert(is_first_faulty_line(lines, k));
    let i = choose|i: int| is_first_faulty_line(lines, i);
    lemma_first_faulty_line_unique(lines, i, k);
}

/// Schema: putting such a line into an accepted text, anywhere but before
/// its first line, makes the text refused at the place of the new line.
pub proof fn lemma_insert_other_keys(
    created: u64,
    dataset_id: Seq<char>,
    lines: Seq<Seq<char>>,
    k: int,
    line: Seq<char>,
)
    requires
        ingest_outcome(created, dataset_id, lines) is Ok,
        0 < k <= lines.len(),
        json_parsed(line) is Some,
        json_keys(json_parsed(line)->0) is Some,
        record_keys(json_parsed(line)->0) != record_keys(json_parsed(lines[0])->0),
    ensures
        ingest_outcome(created, dataset_id, lines.insert(k, line)) == Err::<DatasetView, Fault>(
            Fault::Record { line: k, fault: RecordFault::KeysDiffer },
        ),
{
    let longer = lines.insert(k, line);
    lemma_ingest_accepts(created, dataset_id, lines);
    assert(longer[0] == lines[0]);
    assert(line_fault(lines, 0) is None);
    assert forall|j: int| 0 <= j < k implies {
        &&& json_parsed(#[trigger] longer[j]) is Some
        &&& json_keys(json_parsed(longer[j])->0) is Some
        &&& record_keys(json_parsed(longer[j])->0) == record_keys(json_parsed(longer[0])->0)
    } by {
        assert(longer[j] == lines[j]);
        assert(line_fault(lines, j) is None);
    }
    assert(longer[k] == line);
    lemma_other_keys_refused(created, dataset_id, longer, k);
}

/// A text without lines gives a dataset without records and without an
/// inferred key set.
pub proof fn lemma_empty_source(created: u64, dataset_id: Seq<char>)
    ensures
        ingest_outcome(created, dataset_id, Seq::<Seq<char>>::empty()) is Ok,
        ingest_outcome(created, dataset_id, Seq::<Seq<char>>::empty())->Ok_0.records.len() == 0,
        ingest_outcome(created, dataset_id, Seq::<Seq<char>>::empty())->Ok_0.keys is None,
{
    assert(forall|k: int| !is_first_faulty_line(Seq::<Seq<char>>::empty(), k));
}

/// Schema, on loading: a stored record that is an object with other keys
/// than the first record, after records that are all sound, refuses the
/// records whatever hash is asked for, and the error names that record.
pub proof fn lemma_stored_other_keys_refused(
    created: u64,
    dataset_id: Seq<char>,
    hash: Seq<char>,
    records: Seq<Value>,
    k: int,
)
    requires
        0 < k < records.len(),
        forall|j: int| 0 <= j < k ==> record_fault(records, j) is None,
        json_keys(records[k]) is Some,
        record_keys(records[k]) != record_keys(records[0]),
    ensures
        load_outcome(created, dataset_id, hash, records) == Err::<DatasetView, Fault>(
            Fault::Record { line: k, fault: RecordFault::KeysDiffer },
        ),
{
    assert(is_first_fault(records, k));
    let i = choose|i: int| is_first_fault(records, i);
    lemma_first_fault_unique(records, i, k);
}

/// The content of a dataset depends on the texts of its records alone.
pub proof fn lemma_same_texts_same_content(records: Seq<Value>, others: Seq<Value>)
    requires
        records.len() == others.len(),
        forall|i: int|
            0 <= i < records.len() ==> json_text(#[trigger] records[i]) == json_text(others[i]),
    ensures
        content_bytes(records) == content_bytes(others),
    decreases records.len(),
{
    if records.len() > 0 {
        assert(json_text(records[records.len() - 1]) == json_text(others[records.len() - 1]));
        assert forall|i: int| 0 <= i < records.drop_last().len() implies json_text(
            #[trigger] records.drop_last()[i],
        ) == json_text(others.drop_last()[i]) by {
            assert(json_text(records[i]) == json_text(others[i]));
        }
        lemma_same_texts_same_content(records.drop_last(), others.drop_last());
    }
}

/// No drift: records that are written the same have the same hash,
/// however they came to be.
pub proof fn lemma_same_texts_same_hash(records: Seq<Value>, others: Seq<Value>)
    requires
        records.len() == others.len(),
        forall|i: int|
            0 <= i < records.len() ==> json_text(#[trigger] records[i]) == json_text(others[i]),
    ensures
        content_hash(records) == content_hash(others),
{
    lemma_same_texts_same_content(records, others);
}

/// Integrity: a text that is no hash loads nothing. Sound records asked for
/// under the empty text, or under any text that is not 64 lowercase
/// hexadecimal digits, are refused.
pub proof fn lemma_no_hash_refused(
    created: u64,
    dataset_id: Seq<char>,
    hash: Seq<char>,
    records: Seq<Value>,
)
    requires
        !is_hash_text(hash),
    ensures
        load_outcome(created, dataset_id, hash, records) is Err,
        sound(records) ==> load_outcome(created, dataset_id, hash, records) == Err::<
            DatasetView,
            Fault,
        >(Fault::HashMismatch { computed: content_hash(records) }),
{
    lemma_content_hash_shape(records);
    if sound(records) {
        assert(forall|k: int| !is_first_fault(records, k));
    }
}

} // verus!
