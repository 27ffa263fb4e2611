//! Fixed-width decimal number fields of the persisted configuration
//! encoding: every number is written as exactly `DEC_WIDTH` zero-padded
//! digits, so a reader finds every field at a computable offset.

use vstd::prelude::*;

use vstd::arithmetic::div_mod::lemma_fundamental_div_mod;
use vstd::arithmetic::div_mod::lemma_mod_bound;

verus! {

/// Width, in digits, of every number field of the encoding: enough for any
/// `u64` value.
pub const DEC_WIDTH: usize = 20;

/// Whether a byte is an ASCII decimal digit.
pub open spec fn is_dec_digit(b: u8) -> bool {
    48 <= b && b <= 57
}

/// The value of one digit byte.
pub open spec fn digit_val(b: u8) -> nat
    recommends
        is_dec_digit(b),
{
    (b - 48) as nat
}

/// Whether every byte of a string is a decimal digit.
pub open spec fn all_dec_digits(s: Seq<u8>) -> bool {
    forall|i: int| 0 <= i < s.len() ==> is_dec_digit(#[trigger] s[i])
}

/// The number a digit string denotes, most significant digit first.
pub open spec fn dec_val(s: Seq<u8>) -> nat
    decreases s.len(),
{
    if s.len() == 0 {
        0
    } else {
        dec_val(s.drop_last()) * 10 + digit_val(s.last())
    }
}

/// `n` written as exactly `w` decimal digits, zero-padded. Digits beyond the
/// width are cut off, so the encoding is faithful only below `pow10(w)`.
pub open spec fn spec_padded(n: nat, w: nat) -> Seq<u8>
    decreases w,
{
    if w == 0 {
        Seq::empty()
    } else {
        spec_padded(n / 10, (w - 1) as nat).push(((n % 10) + 48) as u8)
    }
}

/// Ten to the `w`.
pub open spec fn pow10(w: nat) -> nat
    decreases w,
{
    if w == 0 {
        1
    } else {
        10 * pow10((w - 1) as nat)
    }
}

/// A padded field is as wide as asked and all digits.
pub proof fn lemma_padded_shape(n: nat, w: nat)
    ensures
        spec_padded(n, w).len() == w,
        all_dec_digits(spec_padded(n, w)),
    decreases w,
{
    if w > 0 {
        lemma_padded_shape(n / 10, (w - 1) as nat);
        let s = spec_padded(n / 10, (w - 1) as nat);
        lemma_mod_bound(n as int, 10);
        assert forall|i: int| 0 <= i < w implies is_dec_digit(#[trigger] spec_padded(n, w)[i]) by {
            if i < w - 1 {
                assert(spec_padded(n, w)[i] == s[i]);
            }
        }
    }
}

/// A number below `pow10(w)` survives the `w`-wide padding: the padded field
/// denotes the number again.
pub proof fn lemma_padded_val(n: nat, w: nat)
    requires
        n < pow10(w),
    ensures
        dec_val(spec_padded(n, w)) == n,
    decreases w,
{
    if w == 0 {
        assert(n == 0);
    } else {
        lemma_fundamental_div_mod(n as int, 10);
        lemma_mod_bound(n as int, 10);
        assert(n / 10 < pow10((w - 1) as nat)) by {
            if n / 10 >= pow10((w - 1) as nat) {
                assert(10 * (n / 10) >= 10 * pow10((w - 1) as nat));
            }
        }
        lemma_padded_val(n / 10, (w - 1) as nat);
        let s = spec_padded(n / 10, (w - 1) as nat);
        lemma_padded_shape(n / 10, (w - 1) as nat);
        assert(spec_padded(n, w).drop_last() =~= s);
        assert(digit_val(spec_padded(n, w).last()) == n % 10);
    }
}

/// Every `u64` value fits a `DEC_WIDTH`-wide field.
pub proof fn lemma_u64_fits_width()
    ensures
        (u64::MAX as nat) < pow10(DEC_WIDTH as nat),
{
    assert(pow10(0) == 1);
    assert(pow10(1) == 10);
    assert(pow10(2) == 100);
    assert(pow10(3) == 1000);
    assert(pow10(4) == 10000);
    assert(pow10(5) == 100000);
    assert(pow10(6) == 1000000);
    assert(pow10(7) == 10000000);
    assert(pow10(8) == 100000000);
    assert(pow10(9) == 1000000000);
    assert(pow10(10) == 10000000000);
    assert(pow10(11) == 100000000000);
    assert(pow10(12) == 1000000000000);
    assert(pow10(13) == 10000000000000);
    assert(pow10(14) == 100000000000000);
    assert(pow10(15) == 1000000000000000);
    assert(pow10(16) == 10000000000000000);
    assert(pow10(17) == 100000000000000000);
    assert(pow10(18) == 1000000000000000000);
    assert(pow10(19) == 10000000000000000000);
    assert(pow10(20) == 100000000000000000000);
}

/// Reading a longer digit string never denotes less: the prefix's value only
/// grows as digits follow it.
pub proof fn lemma_dec_val_take_le(s: Seq<u8>, j: int)
    requires
        0 <= j <= s.len(),
    ensures
        dec_val(s.take(j)) <= dec_val(s),
    decreases s.len(),
{
    if j == s.len() {
        assert(s.take(j) =~= s);
    } else {
        let shorter = s.drop_last();
        assert(shorter.take(j) =~= s.take(j));
        lemma_dec_val_take_le(shorter, j);
    }
}

/// Appends `n` as exactly `w` zero-padded decimal digits.
fn push_padded_rec(out: &mut Vec<u8>, n: u64, w: usize)
    ensures
        final(out)@ == old(out)@ + spec_padded(n as nat, w as nat),
    decreases w,
{
    if w == 0 {
        proof {
            assert(out@ + spec_padded(n as nat, 0) =~= out@);
        }
    } else {
        push_padded_rec(out, n / 10, w - 1);
        let ghost mid = out@;
        out.push((n % 10) as u8 + 48);
        proof {
            lemma_mod_bound(n as int, 10);
            assert((n % 10) as u8 + 48 == ((n as nat % 10) + 48) as u8);
            assert((n / 10) as nat == n as nat / 10);
            assert(out@ =~= old(out)@ + spec_padded(n as nat, w as nat));
        }
    }
}

/// Appends `n` as one `DEC_WIDTH`-digit field.
pub fn push_padded_u64(out: &mut Vec<u8>, n: u64)
    ensures
        final(out)@ == old(out)@ + spec_padded(n as nat, DEC_WIDTH as nat),
{
    push_padded_rec(out, n, DEC_WIDTH);
}

/// Reads the `DEC_WIDTH`-digit field at `start`: the number it denotes, or
/// `None` when a byte of the field is no digit or the value exceeds `u64`.
pub fn read_padded_u64(bytes: &Vec<u8>, start: usize) -> (r: Option<u64>)
    requires
        start + DEC_WIDTH <= bytes@.len(),
    ensures
        ({
            let w = bytes@.subrange(start as int, start as int + DEC_WIDTH as int);
            &&& (r matches Some(v) ==> all_dec_digits(w) && dec_val(w) <= u64::MAX && v as nat
                == dec_val(w))
            &&& ((all_dec_digits(w) && dec_val(w) <= u64::MAX) ==> r is Some)
        }),
{
    let ghost w = bytes@.subrange(start as int, start as int + DEC_WIDTH as int);
    let blen = bytes.len();
    let mut acc: u64 = 0;
    let mut i: usize = 0;
    while i < DEC_WIDTH
        invariant
            start + DEC_WIDTH <= bytes@.len(),
            bytes@.len() == blen,
            i <= DEC_WIDTH,
            w == bytes@.subrange(start as int, start as int + DEC_WIDTH as int),
            all_dec_digits(w.take(i as int)),
            acc as nat == dec_val(w.take(i as int)),
        decreases DEC_WIDTH - i,
    {
        let b = bytes[start + i];
        proof {
            assert(w[i as int] == bytes@[start as int + i as int]);
        }
        if b < 48 || b > 57 {
            proof {
                assert(!is_dec_digit(w[i as int]));
            }
            return None;
        }
        let d = b - 48;
        proof {
            assert(w.take(i as int + 1).drop_last() =~= w.take(i as int));
            assert(w.take(i as int + 1).last() == w[i as int]);
            assert(dec_val(w.take(i as int + 1)) == (acc as nat) * 10 + digit_val(w[i as int]));
        }
        let limit = (u64::MAX - d as u64) / 10;
        if acc > limit {
            proof {
                let rest = (u64::MAX - d) as int;
                lemma_fundamental_div_mod(rest, 10);
                lemma_mod_bound(rest, 10);
                assert(10 * (acc as int) >= 10 * (limit as int + 1));
                assert((acc as nat) * 10 + digit_val(w[i as int]) > u64::MAX);
                lemma_dec_val_take_le(w, i as int + 1);
                assert(dec_val(w) > u64::MAX);
            }
            return None;
        }
        proof {
            let rest = (u64::MAX - d) as int;
            lemma_fundamental_div_mod(rest, 10);
            lemma_mod_bound(rest, 10);
            assert(10 * (acc as int) <= 10 * (limit as int));
            assert((acc as nat) * 10 + (d as nat) <= u64::MAX);
        }
        acc = acc * 10 + d as u64;
        i += 1;
    }
    proof {
        assert(w.take(DEC_WIDTH as int) =~= w);
    }
    Some(acc)
}

} // verus!
