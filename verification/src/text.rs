//! Numbers in text.
use vstd::prelude::*;
use vstd::string::*;

verus! {

/// The character of a decimal digit.
pub open spec fn digit(d: nat) -> char {
    (48 + d) as char
}

/// A number in decimal, without leading zeros.
pub open spec fn decimal(n: nat) -> Seq<char>
    decreases n,
{
    if n < 10 {
        seq![digit(n)]
    } else {
        decimal(n / 10).push(digit(n % 10))
    }
}

fn push_digit(text: &mut String, d: u64)
    requires
        d < 10,
    ensures
        final(text)@ =~= old(text)@.push(digit(d as nat)),
{
    proof {
        reveal_strlit("0");
        reveal_strlit("1");
        reveal_strlit("2");
        reveal_strlit("3");
        reveal_strlit("4");
        reveal_strlit("5");
        reveal_strlit("6");
        reveal_strlit("7");
        reveal_strlit("8");
        reveal_strlit("9");
    }
    match d {
        0 => text.append("0"),
        1 => text.append("1"),
        2 => text.append("2"),
        3 => text.append("3"),
        4 => text.append("4"),
        5 => text.append("5"),
        6 => text.append("6"),
        7 => text.append("7"),
        8 => text.append("8"),
        _ => text.append("9"),
    }
}

/// Writes a number in decimal at the end of a text.
pub fn push_decimal(text: &mut String, n: u64)
    ensures
        final(text)@ =~= old(text)@ + decimal(n as nat),
    decreases n,
{
    if n >= 10 {
        push_decimal(text, n / 10);
    }
    push_digit(text, n % 10);
}

/// The byte of a decimal digit.
pub open spec fn digit_byte(d: nat) -> u8 {
    (48 + d) as u8
}

/// A number in decimal, without leading zeros, as bytes.
pub open spec fn decimal_bytes(n: nat) -> Seq<u8>
    decreases n,
{
    if n < 10 {
        seq![digit_byte(n)]
    } else {
        decimal_bytes(n / 10).push(digit_byte(n % 10))
    }
}

/// Writes a number in decimal at the end of bytes.
pub fn push_decimal_bytes(bytes: &mut Vec<u8>, n: u32)
    ensures
        final(bytes)@ =~= old(bytes)@ + decimal_bytes(n as nat),
    decreases n,
{
    if n >= 10 {
        push_decimal_bytes(bytes, n / 10);
    }
    bytes.push(48 + (n % 10) as u8);
}

/// A text that ends with a number.
pub fn numbered(prefix: &str, n: u32) -> (text: String)
    ensures
        text@ =~= prefix@ + decimal(n as nat),
{
    let mut text: String = String::from_str(prefix);
    push_decimal(&mut text, n as u64);
    text
}

/// The bytes of a number are digits, and there is at least one.
pub proof fn lemma_decimal_bytes_are_digits(n: nat)
    ensures
        decimal_bytes(n).len() >= 1,
        forall|i: int| 0 <= i < decimal_bytes(n).len() ==> 48 <= #[trigger] decimal_bytes(n)[i] <= 57,
    decreases n,
{
    if n >= 10 {
        lemma_decimal_bytes_are_digits(n / 10);
    }
}

/// Different numbers have different bytes.
pub proof fn lemma_decimal_bytes_injective(a: nat, b: nat)
    requires
        decimal_bytes(a) == decimal_bytes(b),
    ensures
        a == b,
    decreases a,
{
    let s = decimal_bytes(a);
    lemma_decimal_bytes_are_digits(a / 10);
    lemma_decimal_bytes_are_digits(b / 10);
    if a < 10 {
        assert(s.len() == 1);
        if b >= 10 {
            assert(decimal_bytes(b).len() >= 2);
        }
        assert(s[0] == digit_byte(a));
        assert(decimal_bytes(b)[0] == digit_byte(b));
    } else {
        assert(s.len() >= 2);
        if b < 10 {
            assert(decimal_bytes(b).len() == 1);
        }
        assert(s.last() == digit_byte(a % 10));
        assert(decimal_bytes(b).last() == digit_byte(b % 10));
        assert(a % 10 == b % 10);
        assert(s.drop_last() =~= decimal_bytes(a / 10));
        assert(decimal_bytes(b).drop_last() =~= decimal_bytes(b / 10));
        lemma_decimal_bytes_injective(a / 10, b / 10);
    }
}

/// The number that decimal digits spell.
pub open spec fn spelled(digits: Seq<u8>) -> int
    decreases digits.len(),
{
    if digits.len() == 0 {
        0
    } else {
        spelled(digits.drop_last()) * 10 + (digits.last() - 48)
    }
}

/// A number in decimal spells the number, with digits only and without leading
/// zeros; as text it has the same digits.
pub proof fn law_decimals_spell_their_number(n: nat)
    ensures
        spelled(decimal_bytes(n)) == n,
        decimal_bytes(n).len() > 0,
        n > 0 ==> decimal_bytes(n)[0] != 48,
        forall|i: int|
            0 <= i < decimal_bytes(n).len() ==> 48 <= #[trigger] decimal_bytes(n)[i] <= 57,
        decimal(n).len() == decimal_bytes(n).len(),
        forall|i: int|
            0 <= i < decimal(n).len() ==> (#[trigger] decimal(n)[i]) as int
                == decimal_bytes(n)[i] as int,
    decreases n,
{
    reveal_with_fuel(spelled, 2);
    if n >= 10 {
        law_decimals_spell_their_number(n / 10);
        let rest = decimal_bytes(n / 10);
        assert(decimal_bytes(n).drop_last() =~= rest);
        assert(decimal(n).drop_last() =~= decimal(n / 10));
        assert forall|i: int| 0 <= i < decimal(n).len() implies (#[trigger] decimal(n)[i]) as int
            == decimal_bytes(n)[i] as int by {
            if i < rest.len() {
                assert(decimal(n / 10)[i] as int == rest[i] as int);
            }
        }
    } else {
        assert(decimal_bytes(n).drop_last() =~= Seq::empty());
    }
}

} // verus!
