//! Rendering of unsigned integers as text in a given radix, and appending text to strings.
use vstd::prelude::*;

verus! {

/// The character that stands for digit `d` (0-9 then upper-case A-F).
pub open spec fn digit_char(d: nat) -> char {
    if d < 10 {
        (48 + d) as char
    } else {
        (55 + d) as char
    }
}

/// The digits of `v` in radix `base`, most significant first, without leading zeros
/// (zero is the single digit `0`).
pub open spec fn radix_digits(v: nat, base: nat) -> Seq<char>
    decreases v,
{
    if base < 2 || v < base {
        seq![digit_char(v)]
    } else {
        proof {
            lemma_div_shrinks(v, base);
        }
        radix_digits(v / base, base).push(digit_char(v % base))
    }
}

/// `s`, preceded by as many `0` characters as it takes to reach `width`.
pub open spec fn zero_pad(s: Seq<char>, width: nat) -> Seq<char> {
    if s.len() >= width {
        s
    } else {
        Seq::new((width - s.len()) as nat, |i: int| '0') + s
    }
}

/// `v` written in radix `base`, zero-padded on the left to at least `width` characters.
pub open spec fn radix_text(v: nat, base: nat, width: nat) -> Seq<char> {
    zero_pad(radix_digits(v, base), width)
}

/// `v` in decimal.
pub open spec fn dec(v: nat) -> Seq<char> {
    radix_text(v, 10, 0)
}

pub proof fn lemma_div_shrinks(v: nat, base: nat)
    requires
        base >= 2,
        v >= base,
    ensures
        v / base < v,
{
    assert(v / base < v) by (nonlinear_arith)
        requires
            base >= 2,
            v >= base,
    ;
}

/// Appends one character to a string by calling the standard library's `String::push`,
/// which is trusted to leave the string as before with `c` added at its end.
#[verifier::external_body]
pub fn push_char(out: &mut String, c: char)
    ensures
        final(out)@ == old(out)@.push(c),
{
    out.push(c);
}

fn digit_to_char(d: u64) -> (c: char)
    requires
        d < 16,
    ensures
        c == digit_char(d as nat),
{
    if d < 10 {
        let b: u8 = 48u8 + (d as u8);
        b as char
    } else {
        let b: u8 = 55u8 + (d as u8);
        b as char
    }
}

/// Appends `v` written in radix `base`, zero-padded to at least `width` characters.
pub fn push_radix(out: &mut String, v: u64, base: u64, width: usize)
    requires
        2 <= base <= 16,
    ensures
        final(out)@ == old(out)@ + radix_text(v as nat, base as nat, width as nat),
{
    let mut digits: Vec<char> = Vec::new();
    let mut cur: u64 = v;
    loop
        invariant_except_break
            2 <= base <= 16,
            radix_digits(cur as nat, base as nat) + digits@ == radix_digits(v as nat, base as nat),
        ensures
            digits@ == radix_digits(v as nat, base as nat),
        decreases cur,
    {
        if cur < base {
            let c = digit_to_char(cur);
            let ghost before = digits@;
            digits.insert(0, c);
            assert(digits@ =~= seq![c] + before);
            break;
        }
        let c = digit_to_char(cur % base);
        let ghost before = digits@;
        digits.insert(0, c);
        proof {
            lemma_div_shrinks(cur as nat, base as nat);
            assert(radix_digits(cur as nat, base as nat) == radix_digits(
                (cur / base) as nat,
                base as nat,
            ).push(digit_char((cur % base) as nat)));
            assert(radix_digits((cur / base) as nat, base as nat) + digits@ =~= radix_digits(
                cur as nat,
                base as nat,
            ) + before);
        }
        cur = cur / base;
    }
    let ghost start = out@;
    let n = digits.len();
    let mut pad: usize = 0;
    if n < width {
        pad = width - n;
    }
    let mut i: usize = 0;
    while i < pad
        invariant
            i <= pad,
            out@ == start + Seq::new(i as nat, |k: int| '0'),
        decreases pad - i,
    {
        let ghost before = out@;
        push_char(out, '0');
        i = i + 1;
        assert(out@ =~= start + Seq::new(i as nat, |k: int| '0'));
    }
    let ghost padded = out@;
    let mut j: usize = 0;
    while j < n
        invariant
            j <= n,
            n == digits@.len(),
            out@ == padded + digits@.take(j as int),
        decreases n - j,
    {
        push_char(out, digits[j]);
        j = j + 1;
        assert(out@ =~= padded + digits@.take(j as int));
    }
    assert(digits@.take(n as int) =~= digits@);
    assert(out@ =~= start + radix_text(v as nat, base as nat, width as nat));
}

/// Appends `v` in decimal.
pub fn push_dec(out: &mut String, v: u64)
    ensures
        final(out)@ == old(out)@ + dec(v as nat),
{
    push_radix(out, v, 10, 0);
}

} // verus!
