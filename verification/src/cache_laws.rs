//! What holds of every cache key.

use crate::app::BlockType;
use crate::cache::{cache_key_of, frame, frames, key_material, texts_of, variant_code, KEY_TAG};
use crate::digest::blake3_digest;
use crate::hex::{is_lower_hex, lemma_hex_lower_shape};
use crate::json::{json_text, text_bytes};
use serde_json::Value;
use vstd::bytes::{lemma_auto_spec_u64_to_from_le_bytes, spec_u64_to_le_bytes};
use vstd::prelude::*;

verus! {

/// Idempotence of keys: two invocations of blocks of one kind whose
/// configurations have the same text, and whose inputs have the same
/// texts in the same order, have the same key.
pub proof fn lemma_same_texts_same_key(
    variant: BlockType,
    config: Value,
    inputs: Seq<Value>,
    other_config: Value,
    other_inputs: Seq<Value>,
)
    requires
        json_text(config) == json_text(other_config),
        inputs.len() == other_inputs.len(),
        forall|i: int|
            0 <= i < inputs.len() ==> json_text(#[trigger] inputs[i]) == json_text(
                other_inputs[i],
            ),
    ensures
        cache_key_of(variant, config, inputs) == cache_key_of(variant, other_config, other_inputs),
{
    assert(texts_of(inputs) =~= texts_of(other_inputs));
}

/// Every key is 64 lowercase hexadecimal digits.
pub proof fn lemma_key_shape(variant: BlockType, config: Value, inputs: Seq<Value>)
    ensures
        cache_key_of(variant, config, inputs).len() == 64,
        is_lower_hex(cache_key_of(variant, config, inputs)),
{
    broadcast use vstd::array::array_len_matches_n;

    lemma_hex_lower_shape(
        blake3_digest(key_material(variant, text_bytes(config), texts_of(inputs)))@,
    );
}

/// Every key is taken over material that begins with the tag of keys.
pub proof fn lemma_material_is_tagged(variant: BlockType, config: Seq<u8>, inputs: Seq<Seq<u8>>)
    ensures
        key_material(variant, config, inputs).len() >= 2,
        key_material(variant, config, inputs)[0] == KEY_TAG,
        key_material(variant, config, inputs)[1] == variant_code(variant),
{
}

/// The kinds of block have different codes.
pub proof fn lemma_codes_differ(a: BlockType, b: BlockType)
    requires
        variant_code(a) == variant_code(b),
    ensures
        a == b,
{
}

/// A frame can be read back from the front of what it stands before.
pub proof fn lemma_frame_reads_back(a: Seq<u8>, rest: Seq<u8>, b: Seq<u8>, other_rest: Seq<u8>)
    requires
        a.len() <= u64::MAX,
        b.len() <= u64::MAX,
        frame(a) + rest == frame(b) + other_rest,
    ensures
        a == b,
        rest == other_rest,
{
    lemma_auto_spec_u64_to_from_le_bytes();
    let left = frame(a) + rest;
    let right = frame(b) + other_rest;
    let la = spec_u64_to_le_bytes(a.len() as u64);
    let lb = spec_u64_to_le_bytes(b.len() as u64);
    assert(left.subrange(0, 8) =~= la);
    assert(right.subrange(0, 8) =~= lb);
    assert(a.len() == b.len());
    assert(left.subrange(8, 8 + a.len() as int) =~= a);
    assert(right.subrange(8, 8 + b.len() as int) =~= b);
    assert(left.subrange(8 + a.len() as int, left.len() as int) =~= rest);
    assert(right.subrange(8 + b.len() as int, right.len() as int) =~= other_rest);
}

/// The frames of a list are the frame of its first part and the frames of
/// the parts behind it.
pub proof fn lemma_frames_from_the_front(parts: Seq<Seq<u8>>)
    requires
        parts.len() > 0,
    ensures
        frames(parts) == frame(parts[0]) + frames(parts.drop_first()),
    decreases parts.len(),
{
    if parts.len() == 1 {
        assert(parts.drop_last() =~= Seq::<Seq<u8>>::empty());
        assert(parts.drop_first() =~= Seq::<Seq<u8>>::empty());
        assert(frames(parts) =~= frame(parts[0]) + frames(parts.drop_first()));
    } else {
        lemma_frames_from_the_front(parts.drop_last());
        assert(parts.drop_last().drop_first() =~= parts.drop_first().drop_last());
        assert(parts.drop_first().last() == parts.last());
        assert(frames(parts) =~= frame(parts[0]) + frames(parts.drop_first()));
    }
}

/// The frames of a list are at least as long as eight bytes for each
/// part.
pub proof fn lemma_frames_length(parts: Seq<Seq<u8>>)
    ensures
        frames(parts).len() >= 8 * parts.len(),
    decreases parts.len(),
{
    lemma_auto_spec_u64_to_from_le_bytes();
    if parts.len() > 0 {
        lemma_frames_length(parts.drop_last());
    }
}

/// Lists with the same frames are the same list.
pub proof fn lemma_frames_read_back(parts: Seq<Seq<u8>>, others: Seq<Seq<u8>>)
    requires
        forall|i: int| 0 <= i < parts.len() ==> (#[trigger] parts[i]).len() <= u64::MAX,
        forall|i: int| 0 <= i < others.len() ==> (#[trigger] others[i]).len() <= u64::MAX,
        frames(parts) == frames(others),
    ensures
        parts == others,
    decreases parts.len(),
{
    lemma_frames_length(parts);
    lemma_frames_length(others);
    if parts.len() == 0 || others.len() == 0 {
        assert(parts =~= others);
    } else {
        lemma_frames_from_the_front(parts);
        lemma_frames_from_the_front(others);
        lemma_frame_reads_back(
            parts[0],
            frames(parts.drop_first()),
            others[0],
            frames(others.drop_first()),
        );
        assert forall|i: int| 0 <= i < parts.drop_first().len() implies (
        #[trigger] parts.drop_first()[i]).len() <= u64::MAX by {
            assert(parts.drop_first()[i] == parts[i + 1]);
        }
        assert forall|i: int| 0 <= i < others.drop_first().len() implies (
        #[trigger] others.drop_first()[i]).len() <= u64::MAX by {
            assert(others.drop_first()[i] == others[i + 1]);
        }
        lemma_frames_read_back(parts.drop_first(), others.drop_first());
        assert(parts =~= seq![parts[0]] + parts.drop_first());
        assert(others =~= seq![others[0]] + others.drop_first());
    }
}

/// Nothing is lost in the material of a key: two invocations with the
/// same material are of the same kind and have the same configuration and
/// the same inputs, byte for byte. Keys can then agree for different
/// invocations only where the hash function does.
pub proof fn lemma_material_reads_back(
    variant: BlockType,
    config: Seq<u8>,
    inputs: Seq<Seq<u8>>,
    other_variant: BlockType,
    other_config: Seq<u8>,
    other_inputs: Seq<Seq<u8>>,
)
    requires
        config.len() <= u64::MAX,
        other_config.len() <= u64::MAX,
        forall|i: int| 0 <= i < inputs.len() ==> (#[trigger] inputs[i]).len() <= u64::MAX,
        forall|i: int|
            0 <= i < other_inputs.len() ==> (#[trigger] other_inputs[i]).len() <= u64::MAX,
        key_material(variant, config, inputs) == key_material(
            other_variant,
            other_config,
            other_inputs,
        ),
    ensures
        variant == other_variant,
        config == other_config,
        inputs == other_inputs,
{
    let left = key_material(variant, config, inputs);
    let right = key_material(other_variant, other_config, other_inputs);
    assert(left[1] == variant_code(variant));
    assert(right[1] == variant_code(other_variant));
    lemma_codes_differ(variant, other_variant);
    assert(left.subrange(2, left.len() as int) =~= frame(config) + frames(inputs));
    assert(right.subrange(2, right.len() as int) =~= frame(other_config) + frames(other_inputs));
    lemma_frame_reads_back(config, frames(inputs), other_config, frames(other_inputs));
    lemma_frames_read_back(inputs, other_inputs);
}

} // verus!
