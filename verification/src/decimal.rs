//! Decimal rendering of unsigned integers.

use vstd::prelude::*;
use vstd::arithmetic::div_mod::lemma_fundamental_div_mod;

verus! {

/// The ASCII digit characters of `n` in base ten, most significant first.
pub open spec fn decimal_digits(n: nat) -> Seq<u8>
    decreases n,
{
    if n < 10 {
        seq![(0x30 + n) as u8]
    } else {
        decimal_digits(n / 10).push((0x30 + n % 10) as u8)
    }
}

/// Every byte of `s` is an ASCII digit character.
pub open spec fn all_ascii_digits(s: Seq<u8>) -> bool {
    forall|i: int| 0 <= i < s.len() ==> 0x30 <= #[trigger] s[i] <= 0x39
}

/// The number denoted by a string of ASCII digit characters,
/// most significant first.
pub open spec fn digits_value(s: Seq<u8>) -> int
    decreases s.len(),
{
    if s.len() == 0 {
        0
    } else {
        10 * digits_value(s.drop_last()) + (s.last() - 0x30)
    }
}

/// `decimal_digits(n)` is exactly the decimal representation of `n`:
/// a nonempty string of ASCII digits denoting `n`, without a leading
/// zero unless `n` itself is zero.
pub proof fn lemma_decimal_digits_correct(n: nat)
    ensures
        decimal_digits(n).len() >= 1,
        all_ascii_digits(decimal_digits(n)),
        digits_value(decimal_digits(n)) == n,
        n > 0 ==> decimal_digits(n)[0] != 0x30,
        n == 0 ==> decimal_digits(n) =~= seq![0x30u8],
    decreases n,
{
    if n < 10 {
        let s = decimal_digits(n);
        assert(s.drop_last() =~= Seq::<u8>::empty());
        assert(digits_value(s.drop_last()) == 0);
        assert(digits_value(s) == s.last() - 0x30);
    } else {
        lemma_decimal_digits_correct(n / 10);
        lemma_fundamental_div_mod(n as int, 10);
        let s = decimal_digits(n / 10);
        let t = decimal_digits(n);
        assert(t == s.push((0x30 + n % 10) as u8));
        assert(t.drop_last() =~= s);
        assert(t.last() == (0x30 + n % 10) as u8);
        assert(digits_value(t) == 10 * digits_value(s) + n % 10);
        assert(t[0] == s[0]);
    }
}

/// Appends the decimal digits of `n` to `out`.
fn push_decimal_digits(n: usize, out: &mut Vec<u8>)
    ensures
        final(out)@ == old(out)@ + decimal_digits(n as nat),
    decreases n,
{
    let ghost prefix = out@;
    if n >= 10 {
        push_decimal_digits(n / 10, out);
    }
    let d: u8 = 0x30 + (n % 10) as u8;
    out.push(d);
    proof {
        if n < 10 {
            assert(decimal_digits(n as nat) =~= seq![d]);
            assert(out@ =~= prefix + decimal_digits(n as nat));
        } else {
            assert(decimal_digits(n as nat) == decimal_digits(
                n as nat / 10,
            ).push((0x30 + n as nat % 10) as u8));
            assert(out@ =~= prefix + decimal_digits(n as nat));
        }
    }
}

/// The bytes emitted by the integer-line operation:
/// the decimal digits of `n` followed by one newline, and nothing else.
pub open spec fn int_line_output(n: nat) -> Seq<u8> {
    decimal_digits(n).push(crate::NEWLINE)
}

/// Renders the integer-line operation: the decimal digits of `n`
/// followed by one newline.
pub fn render_int_line(n: usize) -> (out: Vec<u8>)
    ensures
        out@ == int_line_output(n as nat),
{
    let mut out: Vec<u8> = Vec::new();
    push_decimal_digits(n, &mut out);
    out.push(crate::NEWLINE);
    proof {
        assert(out@ =~= int_line_output(n as nat));
    }
    out
}

} // verus!
