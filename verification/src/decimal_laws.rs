//! What holds of the decimal notation of numbers.
use vstd::prelude::*;

use crate::decimal::decimal_text;

verus! {

/// The decimal notation of a number consists of decimal digits, reads back as the number, and
/// starts with zero only for zero itself.
pub proof fn law_decimal_text_reads_back(number: nat)
    ensures
        decimal_text(number).len() > 0,
        forall|i: int|
            0 <= i < decimal_text(number).len() ==> '0' as u32 <= (#[trigger] decimal_text(
                number,
            )[i]) as u32 <= '9' as u32,
        decimal_text(number).fold_left(
            0int,
            |value: int, digit: char| 10 * value + (digit as u32 - '0' as u32),
        ) == number,
        decimal_text(number)[0] == '0' <==> number == 0,
        number == 0 ==> decimal_text(number).len() == 1,
    decreases number,
{
    let read = |value: int, digit: char| 10 * value + (digit as u32 - '0' as u32);
    let text = decimal_text(number);
    if number < 10 {
        assert(text.drop_last().len() == 0);
        reveal_with_fuel(Seq::fold_left, 2);
        assert(text.fold_left(0int, read) == number);
    } else {
        law_decimal_text_reads_back(number / 10);
        assert(text.drop_last() =~= decimal_text(number / 10));
        assert(text[0] == decimal_text(number / 10)[0]);
        assert(text.fold_left(0int, read) == number);
    }
}

} // verus!
