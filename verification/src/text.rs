//! Text building blocks shared by the library: string edits through std,
//! and the decimal / hexadecimal renderings used in keys, frames and hashes.

use vstd::prelude::*;

verus! {

/// Appends one character (std `String::push`).
#[verifier::external_body]
pub(crate) fn push_char(s: &mut String, c: char)
    ensures
        final(s)@ == old(s)@.push(c),
{
    s.push(c);
}

/// Appends a string slice (std `String::push_str`).
#[verifier::external_body]
pub(crate) fn push_str(s: &mut String, t: &str)
    ensures
        final(s)@ == old(s)@ + t@,
{
    s.push_str(t);
}

/// Content equality of two string slices (std `<str as PartialEq>::eq`).
#[verifier::external_body]
pub(crate) fn str_eq(a: &str, b: &str) -> (equal: bool)
    ensures
        equal == (a@ == b@),
{
    a == b
}

/// A fresh `String` holding a copy of `s`.
pub(crate) fn to_owned_string(s: &str) -> (owned: String)
    ensures
        owned@ == s@,
{
    s.to_owned()
}

/// The character with digit value `d` in base 16 (lower case).
pub open spec fn hex_char(d: int) -> char {
    if d == 0 { '0' } else if d == 1 { '1' } else if d == 2 { '2' } else if d == 3 { '3' }
    else if d == 4 { '4' } else if d == 5 { '5' } else if d == 6 { '6' } else if d == 7 { '7' }
    else if d == 8 { '8' } else if d == 9 { '9' } else if d == 10 { 'a' } else if d == 11 { 'b' }
    else if d == 12 { 'c' } else if d == 13 { 'd' } else if d == 14 { 'e' } else { 'f' }
}

/// Base-16 digits of `n`, most significant first, without leading zeros ("0" for zero).
pub open spec fn hex_digits(n: nat) -> Seq<char>
    decreases n,
{
    if n < 16 {
        seq![hex_char(n as int)]
    } else {
        hex_digits(n / 16).push(hex_char((n % 16) as int))
    }
}

/// Base-10 digits of `n`, most significant first ("0" for zero).
pub open spec fn decimal_digits(n: nat) -> Seq<char>
    decreases n,
{
    if n < 10 {
        seq![hex_char(n as int)]
    } else {
        decimal_digits(n / 10).push(hex_char((n % 10) as int))
    }
}

/// `s` left-padded with `'0'` to at least `width` characters.
pub open spec fn zero_pad(s: Seq<char>, width: nat) -> Seq<char> {
    if s.len() >= width {
        s
    } else {
        Seq::new((width - s.len()) as nat, |i: int| '0') + s
    }
}

fn digit_char(d: u64) -> (c: char)
    requires
        d < 16,
    ensures
        c == hex_char(d as int),
{
    if d == 0 { '0' } else if d == 1 { '1' } else if d == 2 { '2' } else if d == 3 { '3' }
    else if d == 4 { '4' } else if d == 5 { '5' } else if d == 6 { '6' } else if d == 7 { '7' }
    else if d == 8 { '8' } else if d == 9 { '9' } else if d == 10 { 'a' } else if d == 11 { 'b' }
    else if d == 12 { 'c' } else if d == 13 { 'd' } else if d == 14 { 'e' } else { 'f' }
}

fn push_digits(out: &mut String, n: u64, base: u64)
    requires
        base == 10 || base == 16,
    ensures
        final(out)@ == old(out)@ + (if base == 10 { decimal_digits(n as nat) } else { hex_digits(n as nat) }),
    decreases n,
{
    if n < base {
        push_char(out, digit_char(n));
    } else {
        let ghost before = out@;
        push_digits(out, n / base, base);
        push_char(out, digit_char(n % base));
        assert(out@ =~= before + (if base == 10 { decimal_digits(n as nat) } else { hex_digits(n as nat) }));
    }
}

fn digit_count(n: u64, base: u64) -> (count: usize)
    requires
        base == 10 || base == 16,
    ensures
        count == (if base == 10 { decimal_digits(n as nat) } else { hex_digits(n as nat) }).len(),
        count <= 20,
    decreases n,
{
    if n < base {
        1
    } else {
        let inner = digit_count(n / base, base);
        proof {
            lemma_digits_len_bound(n as nat, base as nat);
        }
        inner + 1
    }
}

proof fn lemma_digits_len_bound(n: nat, base: nat)
    requires
        base == 10 || base == 16,
        n < 0x1_0000_0000_0000_0000,
    ensures
        (if base == 10 { decimal_digits(n) } else { hex_digits(n) }).len() <= 20,
{
    reveal_with_fuel(pow_nat, 21);
    assert(pow_nat(base, 20) >= 0x1_0000_0000_0000_0000);
    lemma_digits_len_log(n, base, 0x1_0000_0000_0000_0000, 20);
}

pub(crate) proof fn lemma_digits_len_log(n: nat, base: nat, bound: nat, k: nat)
    requires
        base == 10 || base == 16,
        n < bound,
        bound <= pow_nat(base, k),
        k >= 1,
    ensures
        (if base == 10 { decimal_digits(n) } else { hex_digits(n) }).len() <= k,
    decreases k,
{
    if n >= base {
        assert(pow_nat(base, k) == base * pow_nat(base, (k - 1) as nat));
        assert(n / base < pow_nat(base, (k - 1) as nat)) by (nonlinear_arith)
            requires
                n < base * pow_nat(base, (k - 1) as nat),
                base > 0,
        ;
        if k == 1 {
            assert(pow_nat(base, 0) == 1);
            assert(false) by (nonlinear_arith)
                requires n >= base, n < base * 1, base > 0;
        } else {
            lemma_digits_len_log(n / base, base, pow_nat(base, (k - 1) as nat), (k - 1) as nat);
        }
    }
}

/// `base` raised to `k`.
pub open spec fn pow_nat(base: nat, k: nat) -> nat
    decreases k,
{
    if k == 0 { 1 } else { base * pow_nat(base, (k - 1) as nat) }
}

/// Appends `n` in lower-case hexadecimal, zero-padded to `width` digits
/// (the rendering of `{:0width$x}`).
pub fn push_hex(out: &mut String, n: u64, width: usize)
    ensures
        final(out)@ == old(out)@ + zero_pad(hex_digits(n as nat), width as nat),
{
    let count = digit_count(n, 16);
    let ghost before = out@;
    let mut padded: usize = count;
    while padded < width
        invariant
            count <= padded,
            padded == count || padded <= width,
            out@ == before + Seq::new((padded - count) as nat, |i: int| '0'),
        decreases width - padded,
    {
        push_char(out, '0');
        padded = padded + 1;
        assert(out@ =~= before + Seq::new((padded - count) as nat, |i: int| '0'));
    }
    let ghost middle = out@;
    push_digits(out, n, 16);
    assert(out@ =~= before + zero_pad(hex_digits(n as nat), width as nat));
}

/// Appends `n` in decimal (the rendering of `{}` for unsigned integers).
pub fn push_decimal(out: &mut String, n: u64)
    ensures
        final(out)@ == old(out)@ + decimal_digits(n as nat),
{
    push_digits(out, n, 10);
}

} // verus!
