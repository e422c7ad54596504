//! Decimal and hexadecimal renderings of integers, for identifiers and program text.
use vstd::prelude::*;
use vstd::string::*;

verus! {

/// The digit characters, in order of value.
pub open spec fn digit_chars() -> Seq<char> {
    seq!['0', '1', '2', '3', '4', '5', '6', '7', '8', '9', 'a', 'b', 'c', 'd', 'e', 'f']
}

/// Digits of `n` in base `base` (2..=16), most significant first, without leading zeros.
pub open spec fn digits(n: nat, base: nat) -> Seq<char>
    recommends
        2 <= base <= 16,
    decreases n,
{
    if n < base || base < 2 {
        seq![digit_chars()[n as int]]
    } else {
        proof {
            assert(n / base < n) by (nonlinear_arith)
                requires
                    n >= base,
                    base >= 2,
            ;
        }
        digits(n / base, base) + seq![digit_chars()[(n % base) as int]]
    }
}

/// Decimal rendering of `n`.
pub open spec fn decimal(n: nat) -> Seq<char> {
    digits(n, 10)
}

/// Lower-case hexadecimal rendering of `n`.
pub open spec fn hex(n: nat) -> Seq<char> {
    digits(n, 16)
}

/// The one-character string of digit `d`.
fn digit_str(d: u8) -> (r: &'static str)
    requires
        d < 16,
    ensures
        r@ == seq![digit_chars()[d as int]],
{
    proof {
        reveal_strlit("0");
        reveal_strlit("1");
        reveal_strlit("2");
        reveal_strlit("3");
        reveal_strlit("4");
        reveal_strlit("5");
        reveal_strlit("6");
        reveal_strlit("7");
        reveal_strlit("8");
        reveal_strlit("9");
        reveal_strlit("a");
        reveal_strlit("b");
        reveal_strlit("c");
        reveal_strlit("d");
        reveal_strlit("e");
        reveal_strlit("f");
    }
    match d {
        0 => "0",
        1 => "1",
        2 => "2",
        3 => "3",
        4 => "4",
        5 => "5",
        6 => "6",
        7 => "7",
        8 => "8",
        9 => "9",
        10 => "a",
        11 => "b",
        12 => "c",
        13 => "d",
        14 => "e",
        _ => "f",
    }
}

/// Renders `n` in base `base`.
pub fn to_base_string(n: u128, base: u128) -> (r: String)
    requires
        2 <= base <= 16,
    ensures
        r@ == digits(n as nat, base as nat),
    decreases n,
{
    if n < base {
        String::from_str(digit_str(n as u8))
    } else {
        assert(n / base < n) by (nonlinear_arith)
            requires
                n >= base,
                base >= 2,
        ;
        let mut s = to_base_string(n / base, base);
        s.append(digit_str((n % base) as u8));
        s
    }
}

/// Renders `n` in decimal.
pub fn decimal_string(n: u128) -> (r: String)
    ensures
        r@ == decimal(n as nat),
{
    to_base_string(n, 10)
}

/// Renders `n` in lower-case hexadecimal.
pub fn hex_string(n: u128) -> (r: String)
    ensures
        r@ == hex(n as nat),
{
    to_base_string(n, 16)
}

/// The upper-case hexadecimal digit characters, in order of value.
pub open spec fn upper_hex_chars() -> Seq<char> {
    seq!['0', '1', '2', '3', '4', '5', '6', '7', '8', '9', 'A', 'B', 'C', 'D', 'E', 'F']
}

/// Upper-case hexadecimal rendering of `n`, most significant digit first.
pub open spec fn upper_hex(n: nat) -> Seq<char>
    decreases n,
{
    if n < 16 {
        seq![upper_hex_chars()[n as int]]
    } else {
        upper_hex(n / 16) + seq![upper_hex_chars()[(n % 16) as int]]
    }
}

/// The one-character string of upper-case hexadecimal digit `d`.
fn upper_digit_str(d: u8) -> (r: &'static str)
    requires
        d < 16,
    ensures
        r@ == seq![upper_hex_chars()[d as int]],
{
    proof {
        reveal_strlit("0");
        reveal_strlit("1");
        reveal_strlit("2");
        reveal_strlit("3");
        reveal_strlit("4");
        reveal_strlit("5");
        reveal_strlit("6");
        reveal_strlit("7");
        reveal_strlit("8");
        reveal_strlit("9");
        reveal_strlit("A");
        reveal_strlit("B");
        reveal_strlit("C");
        reveal_strlit("D");
        reveal_strlit("E");
        reveal_strlit("F");
    }
    match d {
        0 => "0",
        1 => "1",
        2 => "2",
        3 => "3",
        4 => "4",
        5 => "5",
        6 => "6",
        7 => "7",
        8 => "8",
        9 => "9",
        10 => "A",
        11 => "B",
        12 => "C",
        13 => "D",
        14 => "E",
        _ => "F",
    }
}

/// Renders `n` in upper-case hexadecimal.
pub fn upper_hex_string(n: u128) -> (r: String)
    ensures
        r@ == upper_hex(n as nat),
    decreases n,
{
    if n < 16 {
        String::from_str(upper_digit_str(n as u8))
    } else {
        let mut s = upper_hex_string(n / 16);
        s.append(upper_digit_str((n % 16) as u8));
        s
    }
}

/// Renders `n` in upper-case hexadecimal, left-padded with zeros to `width` digits.
pub fn upper_hex_string_padded(n: u128, width: usize) -> (r: String)
    ensures
        r@ == zero_padded(upper_hex(n as nat), width as nat),
    decreases width,
{
    let s = upper_hex_string(n);
    if s.unicode_len() >= width {
        s
    } else {
        let rest = upper_hex_string_padded(n, width - 1);
        proof {
            reveal_strlit("0");
        }
        concat("0", rest.as_str())
    }
}

/// Concatenates two strings.
pub fn concat(a: &str, b: &str) -> (r: String)
    ensures
        r@ == a@ + b@,
{
    let mut s = String::from_str(a);
    s.append(b);
    s
}

/// `s` left-padded with '0' up to `width` characters.
pub open spec fn zero_padded(s: Seq<char>, width: nat) -> Seq<char>
    decreases width,
{
    if s.len() >= width {
        s
    } else {
        seq!['0'] + zero_padded(s, (width - 1) as nat)
    }
}

/// Renders `n` in lower-case hexadecimal, left-padded with zeros to `width` digits.
pub fn hex_string_padded(n: u128, width: usize) -> (r: String)
    ensures
        r@ == zero_padded(hex(n as nat), width as nat),
    decreases width,
{
    let s = hex_string(n);
    if s.unicode_len() >= width {
        s
    } else {
        let rest = hex_string_padded(n, width - 1);
        proof {
            reveal_strlit("0");
        }
        concat("0", rest.as_str())
    }
}

/// Renders `n` in binary, left-padded with zeros to `width` digits.
pub fn binary_string_padded(n: u128, width: usize) -> (r: String)
    ensures
        r@ == zero_padded(digits(n as nat, 2), width as nat),
    decreases width,
{
    let s = to_base_string(n, 2);
    if s.unicode_len() >= width {
        s
    } else {
        let rest = binary_string_padded(n, width - 1);
        proof {
            reveal_strlit("0");
        }
        concat("0", rest.as_str())
    }
}

/// `n` copies of '0'.
pub open spec fn zeros(n: nat) -> Seq<char> {
    Seq::new(n, |i: int| '0')
}

/// A string of `n` zeros.
pub fn zeros_string(n: usize) -> (r: String)
    ensures
        r@ == zeros(n as nat),
{
    let mut s = String::new();
    let mut i: usize = 0;
    assert(s@ =~= zeros(0));
    while i < n
        invariant
            i <= n,
            s@ == zeros(i as nat),
        decreases n - i,
    {
        proof {
            reveal_strlit("0");
        }
        s.append("0");
        i = i + 1;
        assert(s@ =~= zeros(i as nat));
    }
    s
}

} // verus!
