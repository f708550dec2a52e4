//! Byte-level JSON primitives for the record codec: string escaping, and
//! strict parsers for the integer and string-literal tokens of the
//! canonical record form. The inverse lemmas here carry the lossless
//! round-trip property of persisted records.

use vstd::prelude::*;

use crate::decimal::dec_digits;
use crate::decimal::dec_int;
use crate::decimal::digits_val;
use crate::decimal::is_digit;
use crate::decimal::lemma_dec_digits_val;
use crate::decimal::lemma_dec_int_bytes;

verus! {

/// Lowercase hex digit of a nibble.
pub open spec fn hex_digit(d: int) -> u8 {
    if d < 10 {
        (48 + d) as u8
    } else {
        (87 + d) as u8
    }
}

/// Value of a hex digit byte, if it is one (either case accepted).
pub open spec fn hex_val(b: u8) -> Option<int> {
    if 48 <= b <= 57 {
        Option::Some(b - 48)
    } else if 97 <= b <= 102 {
        Option::Some(b - 87)
    } else if 65 <= b <= 70 {
        Option::Some(b - 55)
    } else {
        Option::None
    }
}

/// JSON escape of a single content byte. Quote and backslash get their
/// two-byte escapes, the common control characters their short forms, the
/// remaining control characters a `\u00XX` form; everything else stands
/// for itself (multi-byte UTF-8 passes through unescaped).
pub open spec fn esc_byte(b: u8) -> Seq<u8> {
    if b == 34 {
        seq![92u8, 34u8]
    } else if b == 92 {
        seq![92u8, 92u8]
    } else if b == 10 {
        seq![92u8, 110u8]
    } else if b == 13 {
        seq![92u8, 114u8]
    } else if b == 9 {
        seq![92u8, 116u8]
    } else if b < 32 {
        seq![92u8, 117u8, 48u8, 48u8, hex_digit(b as int / 16), hex_digit(b as int % 16)]
    } else {
        seq![b]
    }
}

/// JSON escape of a byte string.
pub open spec fn esc_bytes(s: Seq<u8>) -> Seq<u8>
    decreases s.len(),
{
    if s.len() == 0 {
        Seq::empty()
    } else {
        esc_bytes(s.drop_last()) + esc_byte(s.last())
    }
}

/// A JSON string literal holding the escaped content bytes.
pub open spec fn json_str(s: Seq<u8>) -> Seq<u8> {
    seq![34u8] + esc_bytes(s) + seq![34u8]
}

/// The escape of a byte string, unfolded at the head.
pub proof fn lemma_esc_bytes_head(s: Seq<u8>)
    requires
        s.len() > 0,
    ensures
        esc_bytes(s) == esc_byte(s[0]) + esc_bytes(s.drop_first()),
    decreases s.len(),
{
    if s.len() == 1 {
        assert(s.drop_last() =~= Seq::<u8>::empty());
        assert(s.drop_first() =~= Seq::<u8>::empty());
        assert(esc_bytes(s) =~= esc_byte(s[0]) + esc_bytes(s.drop_first()));
    } else {
        lemma_esc_bytes_head(s.drop_last());
        assert(s.drop_last()[0] == s[0]);
        assert(s.drop_first().drop_last() =~= s.drop_last().drop_first());
        assert(s.drop_first().last() == s.last());
        assert(esc_bytes(s.drop_first()) == esc_bytes(s.drop_first().drop_last()) + esc_byte(
            s.drop_first().last(),
        ));
        assert(esc_bytes(s) =~= esc_byte(s[0]) + esc_bytes(s.drop_first()));
    }
}

/// First position at or after `i` that does not hold a digit.
pub open spec fn digits_end(b: Seq<u8>, i: int) -> int
    decreases b.len() - i,
{
    if i < 0 || i >= b.len() || !is_digit(b[i]) {
        i
    } else {
        digits_end(b, i + 1)
    }
}

/// `digits_end` recognizes exactly a run of digits closed by a non-digit
/// (or the end of the input).
pub proof fn lemma_digits_end_run(b: Seq<u8>, p: int, e: int)
    requires
        0 <= p <= e <= b.len(),
        forall|j: int| p <= j < e ==> is_digit(#[trigger] b[j]),
        e == b.len() || !is_digit(b[e]),
    ensures
        digits_end(b, p) == e,
    decreases e - p,
{
    if p < e {
        lemma_digits_end_run(b, p + 1, e);
    }
}

/// Strict parse of a JSON integer token at position `i`: an optional
/// leading minus sign, then a run of digits ending before the first
/// non-digit. Returns the value and the position after the run.
pub open spec fn spec_parse_int(b: Seq<u8>, i: int) -> Option<(int, int)> {
    if i < 0 || i >= b.len() {
        Option::None
    } else if b[i] == 45 {
        if i + 1 < b.len() && is_digit(b[i + 1]) {
            let e = digits_end(b, i + 1);
            Option::Some((-digits_val(b.subrange(i + 1, e)), e))
        } else {
            Option::None
        }
    } else if is_digit(b[i]) {
        let e = digits_end(b, i);
        Option::Some((digits_val(b.subrange(i, e)), e))
    } else {
        Option::None
    }
}

/// Parsing inverts decimal rendering: where the bytes `[p, e)` hold
/// `dec_int(n)` and a non-numeric byte follows, the integer parser yields
/// exactly `n` and stops at `e`.
pub proof fn lemma_parse_int_of_dec(b: Seq<u8>, p: int, e: int, n: int)
    requires
        0 <= p <= e <= b.len(),
        b.subrange(p, e) == dec_int(n),
        e < b.len(),
        !is_digit(b[e]),
    ensures
        spec_parse_int(b, p) == Option::Some((n, e)),
{
    lemma_dec_int_bytes(n);
    let s = b.subrange(p, e);
    if n >= 0 {
        lemma_dec_digits_val(n as nat);
        assert(is_digit(b[p])) by {
            assert(b[p] == s[0]);
        }
        assert(b[p] != 45);
        assert(forall|j: int| p <= j < e ==> is_digit(#[trigger] b[j])) by {
            assert(forall|j: int| p <= j < e ==> b[j] == s[j - p]);
        }
        lemma_digits_end_run(b, p, e);
        assert(digits_val(b.subrange(p, e)) == n);
    } else {
        lemma_dec_digits_val((-n) as nat);
        let d = dec_digits((-n) as nat);
        assert(b[p] == 45) by {
            assert(b[p] == s[0]);
        }
        assert(forall|j: int| p + 1 <= j < e ==> b[j] == d[j - (p + 1)]) by {
            assert(forall|j: int| p + 1 <= j < e ==> b[j] == s[j - p]);
        }
        assert(is_digit(b[p + 1]));
        assert(forall|j: int| p + 1 <= j < e ==> is_digit(#[trigger] b[j]));
        lemma_digits_end_run(b, p + 1, e);
        assert(b.subrange(p + 1, e) =~= d);
        assert(digits_val(b.subrange(p + 1, e)) == -n);
    }
}

/// Unescaped byte of a two-character escape, if the second character is
/// one of the short escapes.
pub open spec fn unesc_short(c: u8) -> Option<u8> {
    if c == 34 {
        Option::Some(34u8)
    } else if c == 92 {
        Option::Some(92u8)
    } else if c == 47 {
        Option::Some(47u8)
    } else if c == 110 {
        Option::Some(10u8)
    } else if c == 114 {
        Option::Some(13u8)
    } else if c == 116 {
        Option::Some(9u8)
    } else if c == 98 {
        Option::Some(8u8)
    } else if c == 102 {
        Option::Some(12u8)
    } else {
        Option::None
    }
}

/// Strict parse of a JSON string literal body starting just after the
/// opening quote: content bytes up to the closing quote, unescaping as it
/// goes. `\u` escapes are accepted for control characters only, which is
/// all the canonical encoder ever emits. Returns the content and the
/// position after the closing quote.
pub open spec fn spec_parse_str_body(b: Seq<u8>, i: int) -> Option<(Seq<u8>, int)>
    decreases b.len() - i,
{
    if i < 0 || i >= b.len() {
        Option::None
    } else if b[i] == 34 {
        Option::Some((Seq::empty(), i + 1))
    } else if b[i] == 92 {
        if i + 1 >= b.len() {
            Option::None
        } else if b[i + 1] == 117 {
            if i + 5 < b.len() {
                match (hex_val(b[i + 2]), hex_val(b[i + 3]), hex_val(b[i + 4]), hex_val(b[i + 5])) {
                    (
                        Option::Some(d1),
                        Option::Some(d2),
                        Option::Some(d3),
                        Option::Some(d4),
                    ) => {
                        let v = ((d1 * 16 + d2) * 16 + d3) * 16 + d4;
                        if v < 32 {
                            match spec_parse_str_body(b, i + 6) {
                                Option::Some((s, e)) => Option::Some((seq![v as u8] + s, e)),
                                Option::None => Option::None,
                            }
                        } else {
                            Option::None
                        }
                    },
                    _ => Option::None,
                }
            } else {
                Option::None
            }
        } else {
            match unesc_short(b[i + 1]) {
                Option::Some(u) => match spec_parse_str_body(b, i + 2) {
                    Option::Some((s, e)) => Option::Some((seq![u] + s, e)),
                    Option::None => Option::None,
                },
                Option::None => Option::None,
            }
        }
    } else if b[i] < 32 {
        Option::None
    } else {
        match spec_parse_str_body(b, i + 1) {
            Option::Some((s, e)) => Option::Some((seq![b[i]] + s, e)),
            Option::None => Option::None,
        }
    }
}

/// A hex digit rendered by the encoder parses back to its value.
proof fn lemma_hex_digit_val(d: int)
    requires
        0 <= d < 16,
    ensures
        hex_val(hex_digit(d)) == Option::Some(d),
{
}

/// String parsing inverts escaping: where the bytes `[p, e)` hold
/// `esc_bytes(s)` and a quote stands at `e`, the string parser yields
/// exactly `s` and stops just after that quote.
pub proof fn lemma_parse_str_of_esc(b: Seq<u8>, p: int, e: int, s: Seq<u8>)
    requires
        0 <= p <= e < b.len(),
        b.subrange(p, e) == esc_bytes(s),
        b[e] == 34,
    ensures
        spec_parse_str_body(b, p) == Option::Some((s, e + 1)),
    decreases s.len(),
{
    if s.len() == 0 {
        assert(esc_bytes(s).len() == 0);
        assert(p == e);
    } else {
        lemma_esc_bytes_head(s);
        let eb = esc_byte(s[0]);
        let rest = esc_bytes(s.drop_first());
        assert(b.subrange(p, e) == eb + rest);
        assert(e - p == eb.len() + rest.len());
        assert forall|j: int| 0 <= j < eb.len() implies b[p + j] == eb[j] by {
            assert(b[p + j] == b.subrange(p, e)[j]);
            assert((eb + rest)[j] == eb[j]);
        }
        let p2 = p + eb.len() as int;
        assert(b.subrange(p2, e) =~= rest) by {
            assert forall|j: int| 0 <= j < rest.len() implies b.subrange(p2, e)[j] == rest[j] by {
                assert(b.subrange(p2, e)[j] == b[p2 + j]);
                assert(b[p2 + j] == b.subrange(p, e)[eb.len() + j]);
                assert((eb + rest)[eb.len() + j] == rest[j]);
            }
        }
        lemma_parse_str_of_esc(b, p2, e, s.drop_first());
        let c = s[0];
        if c == 34 || c == 92 || c == 10 || c == 13 || c == 9 {
            assert(b[p] == 92);
            assert(spec_parse_str_body(b, p) == Option::Some((seq![c] + s.drop_first(), e + 1)));
            assert(seq![c] + s.drop_first() =~= s);
        } else if c < 32 {
            assert(b[p] == 92 && b[p + 1] == 117 && b[p + 2] == 48 && b[p + 3] == 48);
            lemma_hex_digit_val(c as int / 16);
            lemma_hex_digit_val(c as int % 16);
            assert(hex_val(b[p + 4]) == Option::Some(c as int / 16));
            assert(hex_val(b[p + 5]) == Option::Some(c as int % 16));
            assert(((0 * 16 + 0) * 16 + c as int / 16) * 16 + c as int % 16 == c as int);
            assert(spec_parse_str_body(b, p) == Option::Some((seq![c] + s.drop_first(), e + 1)));
            assert(seq![c] + s.drop_first() =~= s);
        } else {
            assert(b[p + 0] == eb[0]);
            assert(b[p] == c);
            assert(c != 34 && c != 92 && !(c < 32));
            assert(spec_parse_str_body(b, p) == Option::Some((seq![c] + s.drop_first(), e + 1)));
            assert(seq![c] + s.drop_first() =~= s);
        }
    }
}

/// True when the bytes of `lit` stand at position `i` of `b`.
pub open spec fn match_lit(b: Seq<u8>, i: int, lit: Seq<u8>) -> bool {
    0 <= i && i + lit.len() <= b.len() && b.subrange(i, i + lit.len() as int) == lit
}

/// Checks whether the bytes of `lit` stand at position `i` of `b`.
pub fn match_lit_exec(b: &Vec<u8>, i: usize, lit: &Vec<u8>) -> (r: bool)
    ensures
        r == match_lit(b@, i as int, lit@),
{
    if i > b.len() || lit.len() > b.len() - i {
        return false;
    }
    let mut j: usize = 0;
    while j < lit.len()
        invariant
            j <= lit.len(),
            i + lit.len() <= b.len(),
            forall|k: int| 0 <= k < j ==> b@[i + k] == lit@[k],
        decreases lit.len() - j,
    {
        if b[i + j] != lit[j] {
            proof {
                assert(b@.subrange(i as int, i + lit@.len() as int)[j as int] != lit@[j as int]);
            }
            return false;
        }
        j += 1;
    }
    proof {
        assert(b@.subrange(i as int, i + lit@.len() as int) =~= lit@);
    }
    true
}

/// Appends the JSON escape of one content byte to `out`.
fn push_esc_byte(out: &mut Vec<u8>, c: u8)
    ensures
        final(out)@ == old(out)@ + esc_byte(c),
{
    if c == 34 {
        out.push(92);
        out.push(34);
    } else if c == 92 {
        out.push(92);
        out.push(92);
    } else if c == 10 {
        out.push(92);
        out.push(110);
    } else if c == 13 {
        out.push(92);
        out.push(114);
    } else if c == 9 {
        out.push(92);
        out.push(116);
    } else if c < 32 {
        out.push(92);
        out.push(117);
        out.push(48);
        out.push(48);
        out.push(48 + c / 16);
        let lo = c % 16;
        if lo < 10 {
            out.push(48 + lo);
        } else {
            out.push(87 + lo);
        }
    } else {
        out.push(c);
    }
    assert(out@ =~= old(out)@ + esc_byte(c));
}

/// Appends the JSON string literal for the content bytes `bs` to `out`.
pub fn push_json_str_bytes(out: &mut Vec<u8>, bs: &Vec<u8>)
    ensures
        final(out)@ == old(out)@ + json_str(bs@),
{
    out.push(34);
    let mut i: usize = 0;
    while i < bs.len()
        invariant
            i <= bs.len(),
            out@ == old(out)@ + seq![34u8] + esc_bytes(bs@.subrange(0, i as int)),
        decreases bs.len() - i,
    {
        let ghost pre = bs@.subrange(0, i as int);
        push_esc_byte(out, bs[i]);
        proof {
            assert(bs@.subrange(0, i + 1).drop_last() =~= pre);
            assert(bs@.subrange(0, i + 1).last() == bs@[i as int]);
            assert(esc_bytes(bs@.subrange(0, i + 1)) == esc_bytes(pre) + esc_byte(bs@[i as int]));
        }
        assert(out@ =~= old(out)@ + seq![34u8] + esc_bytes(bs@.subrange(0, i + 1)));
        i += 1;
    }
    out.push(34);
    proof {
        assert(bs@.subrange(0, bs@.len() as int) =~= bs@);
        assert(out@ =~= old(out)@ + json_str(bs@));
    }
}

/// Parses a JSON integer token at `i`, rejecting values outside the
/// signed 64-bit range.
pub fn parse_int_exec(b: &Vec<u8>, i: usize) -> (r: Option<(i64, usize)>)
    ensures
        match spec_parse_int(b@, i as int) {
            Option::None => r.is_none(),
            Option::Some((v, e)) => 0 <= e <= b@.len() && (if i64::MIN <= v <= i64::MAX {
                r matches Option::Some(p) && p.0 == v && p.1 == e
            } else {
                r.is_none()
            }),
        },
{
    let n = b.len();
    if i >= n {
        return Option::None;
    }
    let neg = b[i] == 45;
    let start = if neg {
        i + 1
    } else {
        i
    };
    if start >= n || !(48 <= b[start] && b[start] <= 57) {
        return Option::None;
    }
    let mut j = start;
    let mut acc: u64 = 0;
    let mut big = false;
    while j < n && 48 <= b[j] && b[j] <= 57
        invariant
            start <= j <= n,
            n == b@.len(),
            forall|k: int| start <= k < j ==> is_digit(#[trigger] b@[k]),
            !big ==> acc as int == digits_val(b@.subrange(start as int, j as int)),
            big ==> digits_val(b@.subrange(start as int, j as int)) > 0x8000000000000000,
        decreases n - j,
    {
        let d = b[j] - 48;
        proof {
            assert(b@.subrange(start as int, j + 1).drop_last() =~= b@.subrange(
                start as int,
                j as int,
            ));
            assert(b@.subrange(start as int, j + 1).last() == b@[j as int]);
        }
        if !big {
            if acc > 1844674407370955160u64 {
                big = true;
            } else {
                acc = acc * 10 + (d as u64);
            }
        }
        j += 1;
    }
    proof {
        lemma_digits_end_run(b@, start as int, j as int);
    }
    if big {
        return Option::None;
    }
    if neg {
        if acc <= 9223372036854775807u64 {
            Option::Some((-(acc as i64), j))
        } else if acc == 9223372036854775808u64 {
            Option::Some((i64::MIN, j))
        } else {
            Option::None
        }
    } else {
        if acc <= 9223372036854775807u64 {
            Option::Some((acc as i64, j))
        } else {
            Option::None
        }
    }
}

/// Value of one hex digit byte, if it is one.
fn hex_val_exec(c: u8) -> (r: Option<u8>)
    ensures
        match hex_val(c) {
            Option::None => r.is_none(),
            Option::Some(v) => r == Option::Some(v as u8),
        },
{
    if 48 <= c && c <= 57 {
        Option::Some(c - 48)
    } else if 97 <= c && c <= 102 {
        Option::Some(c - 87)
    } else if 65 <= c && c <= 70 {
        Option::Some(c - 55)
    } else {
        Option::None
    }
}

/// Lifts a parsed tail onto already-unescaped content.
pub open spec fn psb_prepend(acc: Seq<u8>, r: Option<(Seq<u8>, int)>) -> Option<(Seq<u8>, int)> {
    match r {
        Option::None => Option::None,
        Option::Some((s, e)) => Option::Some((acc + s, e)),
    }
}

/// Parses a JSON string literal body starting just after the opening
/// quote; returns the unescaped content and the position after the
/// closing quote.
#[verifier::rlimit(80)]
pub fn parse_str_exec(b: &Vec<u8>, i: usize) -> (r: Option<(Vec<u8>, usize)>)
    ensures
        r.is_none() <==> spec_parse_str_body(b@, i as int).is_none(),
        r matches Option::Some(p) ==> spec_parse_str_body(b@, i as int) == Option::Some(
            (p.0@, p.1 as int),
        ),
{
    if i >= b.len() {
        return Option::None;
    }
    let mut cur = i;
    let mut out: Vec<u8> = Vec::new();
    proof {
        if let Option::Some((s, e)) = spec_parse_str_body(b@, i as int) {
            assert(Seq::<u8>::empty() + s =~= s);
        }
    }
    loop
        invariant
            cur <= b@.len(),
            psb_prepend(out@, spec_parse_str_body(b@, cur as int)) == spec_parse_str_body(
                b@,
                i as int,
            ),
        decreases b@.len() - cur,
    {
        if cur >= b.len() {
            return Option::None;
        }
        let c = b[cur];
        if c == 34 {
            proof {
                assert(out@ + Seq::<u8>::empty() =~= out@);
            }
            return Option::Some((out, cur + 1));
        } else if c == 92 {
            if cur + 1 >= b.len() {
                return Option::None;
            }
            let c2 = b[cur + 1];
            if c2 == 117 {
                if b.len() - cur < 6 {
                    return Option::None;
                }
                let h1 = hex_val_exec(b[cur + 2]);
                let h2 = hex_val_exec(b[cur + 3]);
                let h3 = hex_val_exec(b[cur + 4]);
                let h4 = hex_val_exec(b[cur + 5]);
                match (h1, h2, h3, h4) {
                    (
                        Option::Some(d1),
                        Option::Some(d2),
                        Option::Some(d3),
                        Option::Some(d4),
                    ) => {
                        let v: u32 = ((d1 as u32 * 16 + d2 as u32) * 16 + d3 as u32) * 16
                            + d4 as u32;
                        if v < 32 {
                            let ghost out0 = out@;
                            out.push(v as u8);
                            proof {
                                if let Option::Some((s, e)) = spec_parse_str_body(b@, cur + 6) {
                                    assert(out0 + (seq![v as u8] + s) =~= out@ + s);
                                }
                            }
                            cur = cur + 6;
                        } else {
                            return Option::None;
                        }
                    },
                    _ => {
                        return Option::None;
                    },
                }
            } else {
                let u: u8;
                if c2 == 34 {
                    u = 34;
                } else if c2 == 92 {
                    u = 92;
                } else if c2 == 47 {
                    u = 47;
                } else if c2 == 110 {
                    u = 10;
                } else if c2 == 114 {
                    u = 13;
                } else if c2 == 116 {
                    u = 9;
                } else if c2 == 98 {
                    u = 8;
                } else if c2 == 102 {
                    u = 12;
                } else {
                    return Option::None;
                }
                let ghost out0 = out@;
                out.push(u);
                proof {
                    if let Option::Some((s, e)) = spec_parse_str_body(b@, cur + 2) {
                        assert(out0 + (seq![u] + s) =~= out@ + s);
                    }
                }
                cur = cur + 2;
            }
        } else if c < 32 {
            return Option::None;
        } else {
            let ghost out0 = out@;
            out.push(c);
            proof {
                if let Option::Some((s, e)) = spec_parse_str_body(b@, cur + 1) {
                    assert(out0 + (seq![c] + s) =~= out@ + s);
                }
            }
            cur = cur + 1;
        }
    }
}

} // verus!
