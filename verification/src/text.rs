//! Small verified text utilities: concatenation and decimal/hex rendering of
//! numbers.

use vstd::prelude::*;
use vstd::string::*;

use crate::std_calls::string_push;

verus! {

/// Concatenate two string slices.
pub fn concat2(a: &str, b: &str) -> (r: String)
    ensures
        r@ == a@ + b@,
{
    let mut s = a.to_owned();
    s.append(b);
    s
}

/// Concatenate three string slices.
pub fn concat3(a: &str, b: &str, c: &str) -> (r: String)
    ensures
        r@ == a@ + b@ + c@,
{
    let mut s = a.to_owned();
    s.append(b);
    s.append(c);
    s
}

/// The decimal digit for a value below ten.
pub open spec fn digit_char(d: nat) -> char {
    if d == 0 { '0' } else if d == 1 { '1' } else if d == 2 { '2' } else if d == 3 { '3' }
    else if d == 4 { '4' } else if d == 5 { '5' } else if d == 6 { '6' } else if d == 7 { '7' }
    else if d == 8 { '8' } else { '9' }
}

/// The decimal representation of a natural number, without leading zeros
/// (`"0"` for zero), as `Display` for unsigned integers writes it.
pub open spec fn decimal(n: nat) -> Seq<char>
    decreases n,
{
    if n < 10 {
        seq![digit_char(n)]
    } else {
        decimal(n / 10).push(digit_char(n % 10))
    }
}

/// The hexadecimal digit (upper case) for a value below sixteen.
pub open spec fn hex_digit_char(d: nat) -> char {
    if d < 10 { digit_char(d) } else if d == 10 { 'A' } else if d == 11 { 'B' } else if d == 12 { 'C' }
    else if d == 13 { 'D' } else if d == 14 { 'E' } else { 'F' }
}

/// Upper-case hexadecimal representation without leading zeros.
pub open spec fn hex_upper(n: nat) -> Seq<char>
    decreases n,
{
    if n < 16 {
        seq![hex_digit_char(n)]
    } else {
        hex_upper(n / 16).push(hex_digit_char(n % 16))
    }
}

/// Upper-case hexadecimal, left-padded with zeros to at least `width` digits
/// (as `{:0width$X}` writes it).
pub open spec fn hex_upper_padded(n: nat, width: nat) -> Seq<char> {
    let h = hex_upper(n);
    if h.len() >= width {
        h
    } else {
        Seq::new((width - h.len()) as nat, |i: int| '0') + h
    }
}

fn digit(d: u64) -> (c: char)
    requires
        d < 16,
    ensures
        c == hex_digit_char(d as nat),
{
    if d == 0 { '0' } else if d == 1 { '1' } else if d == 2 { '2' } else if d == 3 { '3' }
    else if d == 4 { '4' } else if d == 5 { '5' } else if d == 6 { '6' } else if d == 7 { '7' }
    else if d == 8 { '8' } else if d == 9 { '9' } else if d == 10 { 'A' } else if d == 11 { 'B' }
    else if d == 12 { 'C' } else if d == 13 { 'D' } else if d == 14 { 'E' } else { 'F' }
}

/// Representation of `n` in base `base` (10 or 16), most significant digit first.
pub open spec fn in_base(n: nat, base: nat) -> Seq<char> {
    if base == 16 { hex_upper(n) } else { decimal(n) }
}

fn write_in_base(out: &mut String, n: u64, base: u64)
    requires
        base == 10 || base == 16,
    ensures
        final(out)@ == old(out)@ + in_base(n as nat, base as nat),
    decreases n,
{
    if n >= base {
        write_in_base(out, n / base, base);
        proof {
            assert(hex_digit_char((n % base) as nat) == digit_char((n % base) as nat) || base == 16);
        }
        string_push(out, digit(n % base));
    } else {
        string_push(out, digit(n));
    }
    proof {
        if base == 10 {
            assert(hex_digit_char((n % base) as nat) == digit_char((n % base) as nat));
            assert(hex_digit_char(n as nat) == digit_char(n as nat) || n >= base);
        }
    }
}

/// Append the decimal representation of `n`.
pub fn push_decimal(out: &mut String, n: u64)
    ensures
        final(out)@ == old(out)@ + decimal(n as nat),
{
    write_in_base(out, n, 10);
}

/// The decimal representation of `n`.
pub fn usize_to_decimal(n: usize) -> (r: String)
    ensures
        r@ == decimal(n as nat),
{
    let mut s = String::new();
    push_decimal(&mut s, n as u64);
    proof {
        assert(s@ =~= Seq::<char>::empty() + decimal(n as nat));
    }
    s
}

/// Append the upper-case hexadecimal representation of `n`, left-padded with
/// zeros to at least `width` digits.
pub fn push_hex_padded(out: &mut String, n: u32, width: usize)
    ensures
        final(out)@ == old(out)@ + hex_upper_padded(n as nat, width as nat),
{
    let mut digits = String::new();
    write_in_base(&mut digits, n as u64, 16);
    let len = digits.as_str().unicode_len();
    let ghost h = hex_upper(n as nat);
    assert(digits@ =~= h);
    let ghost start = out@;
    if len < width {
        let mut k: usize = 0;
        while k < width - len
            invariant
                k <= width - len,
                len < width,
                out@ == start + Seq::new(k as nat, |i: int| '0'),
            decreases width - len - k,
        {
            string_push(out, '0');
            k = k + 1;
            proof {
                assert(out@ =~= start + Seq::new(k as nat, |i: int| '0'));
            }
        }
    }
    out.append(digits.as_str());
    proof {
        if len >= width {
            assert(out@ =~= start + h);
        } else {
            assert(out@ =~= start + (Seq::new((width - h.len()) as nat, |i: int| '0') + h));
        }
    }
}

/// Whether two strings hold the same characters.
pub fn str_eq(a: &str, b: &str) -> (r: bool)
    ensures
        r == (a@ == b@),
{
    let n = a.unicode_len();
    if n != b.unicode_len() {
        return false;
    }
    let mut i: usize = 0;
    while i < n
        invariant
            n == a@.len(),
            n == b@.len(),
            i <= n,
            forall|k: int| 0 <= k < i ==> a@[k] == b@[k],
        decreases n - i,
    {
        if a.get_char(i) != b.get_char(i) {
            return false;
        }
        i = i + 1;
    }
    proof {
        assert(a@ =~= b@);
    }
    true
}

} // verus!
