//! Cache keys: the name under which the result of one block invocation is
//! kept, derived from what the invocation depends on and from nothing
//! else.

use crate::app::BlockType;
use crate::digest::{blake3_digest, hasher_finalize, hasher_input, hasher_new, hasher_update};
use crate::hex::{hex_lower, to_hex};
use crate::json::{text_bytes, text_of};
use serde_json::Value;
use vstd::bytes::{spec_u64_to_le_bytes, u64_to_le_bytes};
use vstd::prelude::*;

verus! {

/// The first byte of every key's material. The content of a dataset is
/// hashed without it, so the two kinds of hash are taken over different
/// kinds of input.
pub const KEY_TAG: u8 = 0x01;

/// The byte that stands for a kind of block in a key's material.
pub open spec fn variant_code(variant: BlockType) -> u8 {
    match variant {
        BlockType::Input => 0,
        BlockType::Data => 1,
        BlockType::Code => 2,
        BlockType::LLM => 3,
        BlockType::MapEach => 4,
        BlockType::Reduce => 5,
        BlockType::Search => 6,
        BlockType::Curl => 7,
        BlockType::Browser => 8,
    }
}

/// A byte string behind its length: eight bytes, the low one first.
pub open spec fn frame(bytes: Seq<u8>) -> Seq<u8> {
    spec_u64_to_le_bytes(bytes.len() as u64) + bytes
}

/// The frames of the given byte strings, one after the other.
pub open spec fn frames(parts: Seq<Seq<u8>>) -> Seq<u8>
    decreases parts.len(),
{
    if parts.len() == 0 {
        Seq::<u8>::empty()
    } else {
        frames(parts.drop_last()) + frame(parts.last())
    }
}

/// What is hashed for a key: the tag, the kind of block, the frame of the
/// configuration and the frames of the inputs.
pub open spec fn key_material(variant: BlockType, config: Seq<u8>, inputs: Seq<Seq<u8>>) -> Seq<
    u8,
> {
    seq![KEY_TAG, variant_code(variant)] + frame(config) + frames(inputs)
}

/// The bytes of each value's text.
pub open spec fn texts_of(values: Seq<Value>) -> Seq<Seq<u8>> {
    Seq::new(values.len(), |i: int| text_bytes(values[i]))
}

/// The key of an invocation of a block of the given kind with the given
/// configuration on the given inputs, in the order of its dependencies:
/// 64 lowercase hexadecimal digits.
pub open spec fn cache_key_of(variant: BlockType, config: Value, inputs: Seq<Value>) -> Seq<char> {
    hex_lower(blake3_digest(key_material(variant, text_bytes(config), texts_of(inputs)))@)
}

fn code_of(variant: BlockType) -> (code: u8)
    ensures
        code == variant_code(variant),
{
    match variant {
        BlockType::Input => 0,
        BlockType::Data => 1,
        BlockType::Code => 2,
        BlockType::LLM => 3,
        BlockType::MapEach => 4,
        BlockType::Reduce => 5,
        BlockType::Search => 6,
        BlockType::Curl => 7,
        BlockType::Browser => 8,
    }
}

/// Feeds the frame of a value's text to the hash state.
fn absorb_framed(state: &mut blake3::Hasher, value: &Value)
    ensures
        hasher_input(*final(state)) == hasher_input(*old(state)) + frame(text_bytes(*value)),
{
    let text = text_of(value);
    let bytes = text.as_str().as_bytes();
    let length = u64_to_le_bytes(bytes.len() as u64);
    hasher_update(state, length.as_slice());
    hasher_update(state, bytes);
    proof {
        assert(hasher_input(*state) =~= hasher_input(*old(state)) + frame(text_bytes(*value)));
    }
}

/// Derives the key of one invocation. Equal kinds, configurations and
/// inputs give equal keys, in every process.
pub fn cache_key(variant: BlockType, config: &Value, inputs: &Vec<Value>) -> (key: String)
    ensures
        key@ == cache_key_of(variant, *config, inputs@),
{
    let mut state = hasher_new();
    let mut head: Vec<u8> = Vec::new();
    head.push(KEY_TAG);
    head.push(code_of(variant));
    hasher_update(&mut state, head.as_slice());
    assert(head@ =~= seq![KEY_TAG, variant_code(variant)]);
    absorb_framed(&mut state, config);
    let ghost prefix = seq![KEY_TAG, variant_code(variant)] + frame(text_bytes(*config));
    assert(hasher_input(state) =~= prefix);
    let mut i: usize = 0;
    while i < inputs.len()
        invariant
            i <= inputs.len(),
            hasher_input(state) == prefix + frames(texts_of(inputs@.take(i as int))),
        decreases inputs.len() - i,
    {
        absorb_framed(&mut state, &inputs[i]);
        proof {
            let before = inputs@.take(i as int);
            let after = inputs@.take(i + 1);
            assert(after =~= before.push(inputs@[i as int]));
            assert(texts_of(after).drop_last() =~= texts_of(before));
            assert(texts_of(after).last() == text_bytes(inputs@[i as int]));
            assert(hasher_input(state) =~= prefix + frames(texts_of(after)));
        }
        i += 1;
    }
    assert(inputs@.take(i as int) =~= inputs@);
    to_hex(hasher_finalize(&state).as_slice())
}

} // verus!
