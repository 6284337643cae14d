//! Numbers as text.
use vstd::prelude::*;
use vstd::string::*;

verus! {

/// The character of a digit; the digits from ten on are the letters from `a` on.
pub open spec fn digit_char(d: nat) -> char {
    if d < 10 {
        ('0' as u32 + d) as char
    } else {
        ('a' as u32 + d - 10) as char
    }
}

/// A number in decimal digits, without leading zeros.
pub open spec fn decimal(n: nat) -> Seq<char>
    decreases n,
{
    if n < 10 {
        seq![digit_char(n)]
    } else {
        decimal(n / 10).push(digit_char(n % 10))
    }
}

/// A number in hexadecimal digits, in lower case and without leading zeros.
pub open spec fn hexadecimal(n: nat) -> Seq<char>
    decreases n,
{
    if n < 16 {
        seq![digit_char(n)]
    } else {
        hexadecimal(n / 16).push(digit_char(n % 16))
    }
}

/// A digit as text.
pub fn digit_text(d: u32) -> (r: &'static str)
    requires
        d < 16,
    ensures
        r@ == seq![digit_char(d as nat)],
{
    proof {
        reveal_strlit("0");
        reveal_strlit("1");
        reveal_strlit("2");
        reveal_strlit("3");
        reveal_strlit("4");
        reveal_strlit("5");
        reveal_strlit("6");
        reveal_strlit("7");
        reveal_strlit("8");
        reveal_strlit("9");
        reveal_strlit("a");
        reveal_strlit("b");
        reveal_strlit("c");
        reveal_strlit("d");
        reveal_strlit("e");
        reveal_strlit("f");
    }
    let r = match d {
        0 => "0",
        1 => "1",
        2 => "2",
        3 => "3",
        4 => "4",
        5 => "5",
        6 => "6",
        7 => "7",
        8 => "8",
        9 => "9",
        10 => "a",
        11 => "b",
        12 => "c",
        13 => "d",
        14 => "e",
        _ => "f",
    };
    proof {
        assert(r@ =~= seq![digit_char(d as nat)]);
    }
    r
}

/// Appends a number in decimal digits.
pub fn append_decimal(output: &mut String, n: u32)
    ensures
        final(output)@ == old(output)@ + decimal(n as nat),
    decreases n,
{
    if n < 10 {
        output.append(digit_text(n));
    } else {
        append_decimal(output, n / 10);
        let ghost high = output@;
        output.append(digit_text(n % 10));
        proof {
            assert(output@ =~= old(output)@ + decimal(n as nat));
        }
    }
}

/// Appends a number in hexadecimal digits.
pub fn append_hexadecimal(output: &mut String, n: u32)
    ensures
        final(output)@ == old(output)@ + hexadecimal(n as nat),
    decreases n,
{
    if n < 16 {
        output.append(digit_text(n));
    } else {
        append_hexadecimal(output, n / 16);
        output.append(digit_text(n % 16));
        proof {
            assert(output@ =~= old(output)@ + hexadecimal(n as nat));
        }
    }
}

} // verus!
