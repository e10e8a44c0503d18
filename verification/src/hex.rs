//! Lowercase hexadecimal text of a byte string.

use vstd::prelude::*;
use vstd::string::*;

verus! {

/// The sixteen digits, in order of their value.
pub open spec fn digits() -> Seq<char> {
    seq!['0', '1', '2', '3', '4', '5', '6', '7', '8', '9', 'a', 'b', 'c', 'd', 'e', 'f']
}

/// The text of `bytes`: two digits for each byte, the high half first.
pub open spec fn hex_lower(bytes: Seq<u8>) -> Seq<char> {
    Seq::new(
        2 * bytes.len(),
        |i: int| if i % 2 == 0 {
            digits()[bytes[i / 2] as int / 16]
        } else {
            digits()[bytes[i / 2] as int % 16]
        },
    )
}

/// Every character of the text is one of the sixteen digits.
pub open spec fn is_lower_hex(text: Seq<char>) -> bool {
    forall|i: int| 0 <= i < text.len() ==> digits().contains(#[trigger] text[i])
}

/// The text of a byte string has two characters for each byte, and every
/// one of them is a digit.
pub proof fn lemma_hex_lower_shape(bytes: Seq<u8>)
    ensures
        hex_lower(bytes).len() == 2 * bytes.len(),
        is_lower_hex(hex_lower(bytes)),
{
    assert forall|i: int| 0 <= i < hex_lower(bytes).len() implies digits().contains(
        #[trigger] hex_lower(bytes)[i],
    ) by {
        let b = bytes[i / 2] as int;
        if i % 2 == 0 {
            assert(digits()[b / 16] == hex_lower(bytes)[i]);
        } else {
            assert(digits()[b % 16] == hex_lower(bytes)[i]);
        }
    }
}

/// Writes `bytes` as lowercase hexadecimal text.
pub fn to_hex(bytes: &[u8]) -> (text: String)
    ensures
        text@ == hex_lower(bytes@),
{
    let table = "0123456789abcdef";
    proof {
        reveal_strlit("0123456789abcdef");
        assert(table@ =~= digits());
    }
    let mut text = String::new();
    let mut i: usize = 0;
    while i < bytes.len()
        invariant
            i <= bytes.len(),
            table@ == digits(),
            table.is_ascii(),
            text@ == hex_lower(bytes@.take(i as int)),
        decreases bytes.len() - i,
    {
        let high: usize = (bytes[i] / 16) as usize;
        let low: usize = (bytes[i] % 16) as usize;
        text.append(table.substring_ascii(high, high + 1));
        text.append(table.substring_ascii(low, low + 1));
        proof {
            let before = bytes@.take(i as int);
            let after = bytes@.take(i + 1);
            assert(after.len() == before.len() + 1);
            assert(forall|k: int| 0 <= k < before.len() ==> after[k] == before[k]);
            assert(after[i as int] == bytes@[i as int]);
            assert(text@ =~= hex_lower(after));
        }
        i += 1;
    }
    proof {
        assert(bytes@.take(i as int) =~= bytes@);
    }
    text
}

} // verus!
