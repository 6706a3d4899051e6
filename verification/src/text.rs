//! Writing numbers into sentences.

use vstd::prelude::*;
use vstd::string::*;

verus! {

/// The character that stands for one decimal digit.
pub open spec fn digit(value: nat) -> char {
    ('0' as nat + value) as char
}

/// A number as it is written in decimal, with no leading zeros.
pub open spec fn decimal(number: nat) -> Seq<char>
    decreases number,
{
    if number < 10 {
        seq![digit(number)]
    } else {
        decimal(number / 10).push(digit(number % 10))
    }
}

/// One decimal digit as text.
fn digit_text(value: u64) -> (text: &'static str)
    requires
        value < 10,
    ensures
        text@ == seq![digit(value as nat)],
{
    proof {
        reveal_strlit("0");
        reveal_strlit("1");
        reveal_strlit("2");
        reveal_strlit("3");
        reveal_strlit("4");
        reveal_strlit("5");
        reveal_strlit("6");
        reveal_strlit("7");
        reveal_strlit("8");
        reveal_strlit("9");
    }
    let text: &'static str = match value {
        0 => "0",
        1 => "1",
        2 => "2",
        3 => "3",
        4 => "4",
        5 => "5",
        6 => "6",
        7 => "7",
        8 => "8",
        _ => "9",
    };
    assert(text@ =~= seq![digit(value as nat)]);
    text
}

/// Writes `number` in decimal at the end of `text`.
pub fn append_number(text: &mut String, number: u64)
    ensures
        final(text)@ == old(text)@ + decimal(number as nat),
    decreases number,
{
    if number >= 10 {
        append_number(text, number / 10);
    }
    text.append(digit_text(number % 10));
    assert(text@ =~= old(text)@ + decimal(number as nat));
}

/// The number a run of digits is read as.
pub open spec fn read_as(digits: Seq<char>) -> int
    decreases digits.len(),
{
    if digits.len() == 0 {
        0
    } else {
        read_as(digits.drop_last()) * 10 + (digits.last() as int - '0' as int)
    }
}

/// Whether every character of a run is a digit.
pub open spec fn all_digits(digits: Seq<char>) -> bool {
    forall|i: int| 0 <= i < digits.len() ==> '0' <= #[trigger] digits[i] && digits[i] <= '9'
}

proof fn a_decimal_reads_back(number: nat)
    ensures
        decimal(number).len() > 0,
        all_digits(decimal(number)),
        read_as(decimal(number)) == number,
        number > 0 ==> decimal(number)[0] != '0',
    decreases number,
{
    if number < 10 {
        let one = decimal(number);
        assert(one.drop_last() =~= Seq::<char>::empty());
        assert(read_as(one.drop_last()) == 0);
        assert(one.last() as int == '0' as int + number);
    } else {
        a_decimal_reads_back(number / 10);
        let digits = decimal(number);
        assert(digits.drop_last() =~= decimal(number / 10));
        assert(digits.last() as int == '0' as int + number % 10);
        assert forall|i: int| 0 <= i < digits.len() implies '0' <= #[trigger] digits[i] && digits[i]
            <= '9' by {
            if i < decimal(number / 10).len() {
                assert(digits[i] == decimal(number / 10)[i]);
            }
        }
        assert(digits[0] == decimal(number / 10)[0]);
    }
}

/// A number is written after what is there, in digits that read back as it,
/// with none to spare in front.
pub proof fn a_number_written_reads_back(text: &mut String, number: u64, digits: Seq<char>)
    requires
        call_ensures(append_number, (text, number), ()),
        digits == final(text)@.skip(old(text)@.len() as int),
    ensures
        final(text)@.take(old(text)@.len() as int) == old(text)@,
        digits.len() > 0,
        all_digits(digits),
        read_as(digits) == number,
        number > 0 ==> digits[0] != '0',
        number == 0 ==> digits.len() == 1,
{
    a_decimal_reads_back(number as nat);
    assert(digits =~= decimal(number as nat));
    assert(final(text)@.take(old(text)@.len() as int) =~= old(text)@);
}

} // verus!
