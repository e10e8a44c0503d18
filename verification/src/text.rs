//! Numbers as decimal text.

use vstd::prelude::*;
use vstd::string::*;

verus! {

/// The ten digits, in order of their value.
pub open spec fn decimal_digits() -> Seq<char> {
    seq!['0', '1', '2', '3', '4', '5', '6', '7', '8', '9']
}

/// The decimal text of a number, without leading zeros.
pub open spec fn decimal(n: nat) -> Seq<char>
    decreases n,
{
    if n < 10 {
        seq![decimal_digits()[n as int]]
    } else {
        decimal(n / 10).push(decimal_digits()[(n % 10) as int])
    }
}

/// Writes a number as decimal text.
pub fn decimal_text(n: usize) -> (text: String)
    ensures
        text@ == decimal(n as nat),
    decreases n,
{
    let table = "0123456789";
    proof {
        reveal_strlit("0123456789");
        assert(table@ =~= decimal_digits());
    }
    let last = n % 10;
    let digit = table.substring_ascii(last, last + 1);
    assert(digit@ =~= seq![decimal_digits()[last as int]]);
    if n < 10 {
        String::from_str(digit)
    } else {
        let mut text = decimal_text(n / 10);
        text.append(digit);
        assert(text@ =~= decimal(n as nat));
        text
    }
}

} // verus!
