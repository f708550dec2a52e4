//! Decimal ASCII rendering of integers, used both in storage keys
//! (`thread_<id>`) and in the JSON record bodies.

use vstd::prelude::*;

verus! {

/// True of the ASCII bytes `'0'..='9'`.
pub open spec fn is_digit(b: u8) -> bool {
    48 <= b <= 57
}

/// Decimal digits of a non-negative integer, most significant first.
pub open spec fn dec_digits(n: nat) -> Seq<u8>
    decreases n,
{
    if n < 10 {
        seq![(48 + n) as u8]
    } else {
        dec_digits(n / 10).push((48 + n % 10) as u8)
    }
}

/// Decimal rendering of a signed integer: a leading `'-'` for negatives.
pub open spec fn dec_int(n: int) -> Seq<u8> {
    if n < 0 {
        seq![45u8] + dec_digits((-n) as nat)
    } else {
        dec_digits(n as nat)
    }
}

/// Numeric value of a digit run, most significant first.
pub open spec fn digits_val(s: Seq<u8>) -> int
    decreases s.len(),
{
    if s.len() == 0 {
        0
    } else {
        digits_val(s.drop_last()) * 10 + (s.last() - 48)
    }
}

/// True when every byte of `s` is a decimal digit.
pub open spec fn all_digits(s: Seq<u8>) -> bool {
    forall|i: int| 0 <= i < s.len() ==> is_digit(#[trigger] s[i])
}

/// The digits of `n` form a non-empty, all-digit run whose value is `n`.
pub proof fn lemma_dec_digits_val(n: nat)
    ensures
        dec_digits(n).len() >= 1,
        all_digits(dec_digits(n)),
        digits_val(dec_digits(n)) == n,
    decreases n,
{
    if n < 10 {
        let s = dec_digits(n);
        assert(s.drop_last() =~= Seq::<u8>::empty());
        assert(digits_val(Seq::<u8>::empty()) == 0);
        assert(digits_val(s) == n);
    } else {
        lemma_dec_digits_val(n / 10);
        let s = dec_digits(n);
        let p = dec_digits(n / 10);
        assert(s.drop_last() =~= p);
        assert(digits_val(s) == digits_val(p) * 10 + n % 10);
        assert(forall|i: int|
            0 <= i < s.len() ==> is_digit(#[trigger] s[i]) == if i < p.len() {
                is_digit(p[i])
            } else {
                is_digit((48 + n % 10) as u8)
            });
    }
}

/// Decimal rendering is injective on non-negative integers.
pub proof fn lemma_dec_digits_injective(a: nat, b: nat)
    requires
        dec_digits(a) == dec_digits(b),
    ensures
        a == b,
{
    lemma_dec_digits_val(a);
    lemma_dec_digits_val(b);
}

/// Shape of a signed decimal rendering: non-empty; every byte is a digit
/// or a leading `'-'`; the first byte is `'-'` exactly for negatives.
pub proof fn lemma_dec_int_bytes(n: int)
    ensures
        dec_int(n).len() >= 1,
        forall|i: int|
            0 <= i < dec_int(n).len() ==> (is_digit(#[trigger] dec_int(n)[i]) || dec_int(n)[i]
                == 45),
        (dec_int(n)[0] == 45) <==> n < 0,
        n >= 0 ==> all_digits(dec_int(n)),
{
    if n >= 0 {
        lemma_dec_digits_val(n as nat);
        assert(is_digit(dec_int(n)[0]));
    } else {
        lemma_dec_digits_val((-n) as nat);
        let s = dec_int(n);
        let d = dec_digits((-n) as nat);
        assert(forall|i: int| 0 <= i < s.len() ==> s[i] == if i == 0 {
            45u8
        } else {
            d[i - 1]
        });
    }
}

/// Signed decimal rendering is injective.
pub proof fn lemma_dec_int_injective(a: int, b: int)
    requires
        dec_int(a) == dec_int(b),
    ensures
        a == b,
{
    lemma_dec_int_bytes(a);
    lemma_dec_int_bytes(b);
    if a >= 0 && b >= 0 {
        lemma_dec_digits_injective(a as nat, b as nat);
    } else if a < 0 && b < 0 {
        let da = dec_digits((-a) as nat);
        let db = dec_digits((-b) as nat);
        assert(da =~= dec_int(a).subrange(1, dec_int(a).len() as int));
        assert(db =~= dec_int(b).subrange(1, dec_int(b).len() as int));
        lemma_dec_digits_injective((-a) as nat, (-b) as nat);
    }
}

/// Appends the decimal digits of `n` to `out`.
pub fn push_digits(out: &mut Vec<u8>, n: u64)
    ensures
        final(out)@ == old(out)@ + dec_digits(n as nat),
    decreases n,
{
    if n < 10 {
        out.push(48 + (n as u8));
        assert(out@ =~= old(out)@ + dec_digits(n as nat));
    } else {
        push_digits(out, n / 10);
        out.push(48 + ((n % 10) as u8));
        assert(out@ =~= old(out)@ + dec_digits(n as nat));
    }
}

/// Appends the decimal rendering of `n` (with sign) to `out`.
pub fn push_decimal_i64(out: &mut Vec<u8>, n: i64)
    ensures
        final(out)@ == old(out)@ + dec_int(n as int),
{
    if n < 0 {
        out.push(45);
        let mag: u64 = if n == i64::MIN {
            9223372036854775808u64
        } else {
            (-n) as u64
        };
        assert(mag as nat == (-(n as int)) as nat);
        push_digits(out, mag);
        assert(out@ =~= old(out)@ + dec_int(n as int));
    } else {
        push_digits(out, n as u64);
    }
}

} // verus!
