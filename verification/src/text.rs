//! Decimal and hexadecimal text of numbers, as evidence and revisions print them.
use vstd::prelude::*;
use vstd::string::StringExecFns;

verus! {

/// The lower-case hexadecimal digit of a value below sixteen.
pub open spec fn digit_text(digit: nat) -> Seq<char> {
    if digit == 0 {
        "0"@
    } else if digit == 1 {
        "1"@
    } else if digit == 2 {
        "2"@
    } else if digit == 3 {
        "3"@
    } else if digit == 4 {
        "4"@
    } else if digit == 5 {
        "5"@
    } else if digit == 6 {
        "6"@
    } else if digit == 7 {
        "7"@
    } else if digit == 8 {
        "8"@
    } else if digit == 9 {
        "9"@
    } else if digit == 10 {
        "a"@
    } else if digit == 11 {
        "b"@
    } else if digit == 12 {
        "c"@
    } else if digit == 13 {
        "d"@
    } else if digit == 14 {
        "e"@
    } else {
        "f"@
    }
}

/// The decimal text of a number, without leading zeros.
pub open spec fn decimal_text(value: nat) -> Seq<char>
    decreases value,
{
    if value < 10 {
        digit_text(value)
    } else {
        decimal_text(value / 10) + digit_text(value % 10)
    }
}

/// The hexadecimal digit of `value` at position `index`, most significant first, of
/// 32 digits.
pub open spec fn hex_digit(value: u128, index: nat) -> nat {
    ((value >> ((4 * (31 - index)) as u32)) & 0xf) as nat
}

/// The first `count` of the 32 zero-padded lower-case hexadecimal digits of `value`.
pub open spec fn hex_text(value: u128, count: nat) -> Seq<char>
    decreases count,
{
    if count == 0 {
        Seq::empty()
    } else {
        hex_text(value, (count - 1) as nat) + digit_text(hex_digit(value, (count - 1) as nat))
    }
}

/// The text of one hexadecimal digit.
pub fn digit_str(digit: u8) -> (text: &'static str)
    requires
        digit < 16,
    ensures
        text@ == digit_text(digit as nat),
{
    match digit {
        0 => "0",
        1 => "1",
        2 => "2",
        3 => "3",
        4 => "4",
        5 => "5",
        6 => "6",
        7 => "7",
        8 => "8",
        9 => "9",
        10 => "a",
        11 => "b",
        12 => "c",
        13 => "d",
        14 => "e",
        _ => "f",
    }
}

/// Appends the decimal text of `value`.
pub fn push_decimal(text: &mut String, value: u16)
    ensures
        final(text)@ == old(text)@ + decimal_text(value as nat),
    decreases value,
{
    if value >= 10 {
        push_decimal(text, value / 10);
    }
    text.append(digit_str((value % 10) as u8));
    proof {
        if value >= 10 {
            assert(final(text)@ =~= old(text)@ + decimal_text(value as nat));
        }
    }
}

/// Appends the 32 zero-padded lower-case hexadecimal digits of `value`.
pub fn push_hex128(text: &mut String, value: u128)
    ensures
        final(text)@ == old(text)@ + hex_text(value, 32),
{
    let ghost start = text@;
    let mut index: u32 = 0;
    while index < 32
        invariant
            index <= 32,
            text@ == start + hex_text(value, index as nat),
        decreases 32 - index,
    {
        let shift: u32 = 4 * (31 - index);
        let masked: u128 = (value >> shift) & 0xf;
        assert(masked < 16) by (bit_vector)
            requires
                masked == (value >> shift) & 0xf,
        ;
        let digit: u8 = masked as u8;
        text.append(digit_str(digit));
        proof {
            assert(hex_digit(value, index as nat) == digit as nat);
            assert(text@ =~= start + hex_text(value, (index + 1) as nat));
        }
        index = index + 1;
    }
}

/// Every hexadecimal digit is one character.
pub proof fn lemma_digit_text_length(digit: nat)
    ensures
        digit_text(digit).len() == 1,
{
    reveal_strlit("0");
    reveal_strlit("1");
    reveal_strlit("2");
    reveal_strlit("3");
    reveal_strlit("4");
    reveal_strlit("5");
    reveal_strlit("6");
    reveal_strlit("7");
    reveal_strlit("8");
    reveal_strlit("9");
    reveal_strlit("a");
    reveal_strlit("b");
    reveal_strlit("c");
    reveal_strlit("d");
    reveal_strlit("e");
    reveal_strlit("f");
}

/// The number of decimal digits of a number.
pub open spec fn digit_count(value: nat) -> nat
    decreases value,
{
    if value < 10 {
        1
    } else {
        1 + digit_count(value / 10)
    }
}

/// The decimal text of a number has one character per digit.
pub proof fn lemma_decimal_text_length(value: nat)
    ensures
        decimal_text(value).len() == digit_count(value),
    decreases value,
{
    lemma_digit_text_length(value % 10);
    if value >= 10 {
        lemma_decimal_text_length(value / 10);
    }
}

/// A `u16` has at most five decimal digits.
pub proof fn lemma_u16_digit_count(value: nat)
    requires
        value < 65_536,
    ensures
        digit_count(value) <= 5,
{
    let v1 = value / 10;
    let v2 = v1 / 10;
    let v3 = v2 / 10;
    let v4 = v3 / 10;
    assert(v4 < 10);
    assert(digit_count(v4) == 1);
    assert(digit_count(v3) <= 2);
    assert(digit_count(v2) <= 3);
    assert(digit_count(v1) <= 4);
}

/// The first `count` hexadecimal digits are `count` characters.
pub proof fn lemma_hex_text_length(value: u128, count: nat)
    ensures
        hex_text(value, count).len() == count,
    decreases count,
{
    if count > 0 {
        lemma_hex_text_length(value, (count - 1) as nat);
        lemma_digit_text_length(hex_digit(value, (count - 1) as nat));
    }
}

} // verus!
