use vstd::prelude::*;

use crate::text::{
    is_digit,
    digits_end,
    dec_value,
    lemma_digits_end,
    scan_digits,
    dec_value_upto3,
    lemma_digits_end_is,
    lemma_dec_value_shift,
};
use vstd::arithmetic::div_mod::{
    lemma_fundamental_div_mod,
    lemma_mod_division_less_than_divisor,
    lemma_div_denominator,
};

verus! {

/// One textual octet `s[i..j]`: one to three digits, below 256; the strict
/// form also refuses a leading zero on a multi-digit octet.
pub open spec fn octet_ok(s: Seq<u8>, i: int, j: int, lenient: bool) -> bool {
    &&& i < j
    &&& j - i <= 3
    &&& (forall|k: int| i <= k < j ==> is_digit(s[k]))
    &&& (lenient || s[i] != 0x30 || j == i + 1)
    &&& dec_value(s, i, j) < 256
}

/// The address value from four octet values.
pub open spec fn v4_from(a: nat, b: nat, c: nat, d: nat) -> u32 {
    (a * 0x1000000 + b * 0x10000 + c * 0x100 + d) as u32
}

/// Dotted-quad parse of the whole of `s`: four octets joined by dots.
/// The lenient form is the one a network specification's address part uses
/// (leading zeros allowed); the strict form is the plain-address grammar.
pub open spec fn parse_v4(s: Seq<u8>, lenient: bool) -> Option<u32> {
    let j1 = digits_end(s, 0);
    if !(j1 < s.len() && s[j1] == 0x2e) {
        None
    } else {
        let j2 = digits_end(s, j1 + 1);
        if !(j2 < s.len() && s[j2] == 0x2e) {
            None
        } else {
            let j3 = digits_end(s, j2 + 1);
            if !(j3 < s.len() && s[j3] == 0x2e) {
                None
            } else {
                let j4 = digits_end(s, j3 + 1);
                if j4 == s.len() && octet_ok(s, 0, j1, lenient) && octet_ok(s, j1 + 1, j2, lenient)
                    && octet_ok(s, j2 + 1, j3, lenient) && octet_ok(s, j3 + 1, j4, lenient) {
                    Some(
                        v4_from(
                            dec_value(s, 0, j1),
                            dec_value(s, j1 + 1, j2),
                            dec_value(s, j2 + 1, j3),
                            dec_value(s, j3 + 1, j4),
                        ),
                    )
                } else {
                    None
                }
            }
        }
    }
}

/// Check one already-scanned octet `s[i..j]` and hand back its value.
fn check_octet(s: &[u8], i: usize, j: usize, lenient: bool) -> (r: Option<u32>)
    requires
        i <= j <= s@.len(),
        forall|k: int| i <= k < j ==> is_digit(s@[k]),
    ensures
        r is Some <==> octet_ok(s@, i as int, j as int, lenient),
        r is Some ==> r->Some_0 == dec_value(s@, i as int, j as int) && r->Some_0 < 256,
{
    if i == j || j - i > 3 {
        return None;
    }
    if !lenient && s[i] == 0x30 && j != i + 1 {
        return None;
    }
    let v = dec_value_upto3(s, i, j);
    if v < 256 {
        Some(v)
    } else {
        None
    }
}

/// Parse the whole of `s` as a dotted-quad address.
pub fn parse_v4_exec(s: &[u8], lenient: bool) -> (r: Option<u32>)
    ensures
        r == parse_v4(s@, lenient),
{
    proof {
        lemma_digits_end(s@, 0);
    }
    let j1 = scan_digits(s, 0);
    if !(j1 < s.len() && s[j1] == 0x2e) {
        return None;
    }
    let j2 = scan_digits(s, j1 + 1);
    if !(j2 < s.len() && s[j2] == 0x2e) {
        return None;
    }
    let j3 = scan_digits(s, j2 + 1);
    if !(j3 < s.len() && s[j3] == 0x2e) {
        return None;
    }
    let j4 = scan_digits(s, j3 + 1);
    if j4 != s.len() {
        return None;
    }
    let a = match check_octet(s, 0, j1, lenient) {
        Some(v) => v,
        None => {
            return None;
        },
    };
    let b = match check_octet(s, j1 + 1, j2, lenient) {
        Some(v) => v,
        None => {
            return None;
        },
    };
    let c = match check_octet(s, j2 + 1, j3, lenient) {
        Some(v) => v,
        None => {
            return None;
        },
    };
    let d = match check_octet(s, j3 + 1, j4, lenient) {
        Some(v) => v,
        None => {
            return None;
        },
    };
    Some(a * 0x1000000 + b * 0x10000 + c * 0x100 + d)
}

/// The four octet values of an address, most significant first.
pub open spec fn oct0(v: u32) -> nat {
    (v / 0x1000000) as nat
}

pub open spec fn oct1(v: u32) -> nat {
    ((v / 0x10000) % 0x100) as nat
}

pub open spec fn oct2(v: u32) -> nat {
    ((v / 0x100) % 0x100) as nat
}

pub open spec fn oct3(v: u32) -> nat {
    (v % 0x100) as nat
}

/// Decimal text of `n`, most significant digit first, no leading zeros.
pub open spec fn dec_text(n: nat) -> Seq<u8>
    decreases n,
{
    if n < 10 {
        seq![(0x30 + n) as u8]
    } else {
        dec_text(n / 10) + seq![(0x30 + n % 10) as u8]
    }
}

/// Dotted-quad text of an address value.
pub open spec fn v4_text(v: u32) -> Seq<u8> {
    dec_text(oct0(v)) + seq![0x2eu8] + dec_text(oct1(v)) + seq![0x2eu8] + dec_text(oct2(v))
        + seq![0x2eu8] + dec_text(oct3(v))
}

/// Append the decimal text of `n` to `out`.
fn push_dec(out: &mut Vec<u8>, n: u32)
    ensures
        final(out)@ == old(out)@ + dec_text(n as nat),
    decreases n,
{
    if n < 10 {
        out.push(0x30 + n as u8);
        assert(out@ =~= old(out)@ + dec_text(n as nat));
    } else {
        push_dec(out, n / 10);
        out.push(0x30 + (n % 10) as u8);
        assert(out@ =~= old(out)@ + dec_text(n as nat));
    }
}

/// Decimal text is one to three digits for values below 1000, has no
/// leading zero, and reads back to the value it was made from.
pub proof fn lemma_dec_text_props(n: nat)
    ensures
        1 <= dec_text(n).len(),
        forall|k: int| 0 <= k < dec_text(n).len() ==> is_digit(#[trigger] dec_text(n)[k]),
        dec_text(n)[0] != 0x30 || n == 0,
        n == 0 ==> dec_text(n).len() == 1,
        n < 10 ==> dec_text(n).len() == 1,
        n < 100 ==> dec_text(n).len() <= 2,
        n < 1000 ==> dec_text(n).len() <= 3,
        dec_value(dec_text(n), 0, dec_text(n).len() as int) == n,
    decreases n,
{
    if n < 10 {
        let s = dec_text(n);
        assert(dec_value(s, 0, 1) == dec_value(s, 0, 0) * 10 + (s[0] - 0x30) as nat);
        assert(dec_value(s, 0, 0) == 0);
    } else {
        lemma_dec_text_props(n / 10);
        let prefix = dec_text(n / 10);
        let s = dec_text(n);
        assert(s == prefix + seq![(0x30 + n % 10) as u8]);
        assert forall|k: int| 0 <= k < s.len() implies is_digit(#[trigger] s[k]) by {
            if k < prefix.len() {
                assert(s[k] == prefix[k]);
            }
        }
        assert forall|k: int| 0 <= k < prefix.len() implies s[k] == prefix[k] by {}
        lemma_dec_value_shift(s, prefix, 0, 0, prefix.len() as int);
        assert(dec_value(s, 0, s.len() - 1) == n / 10);
        assert((s[s.len() - 1] - 0x30) as nat == n % 10);
        assert(dec_value(s, 0, s.len() as int) == dec_value(s, 0, s.len() - 1) * 10 + (s[s.len()
            - 1] - 0x30) as nat);
        lemma_fundamental_div_mod(n as int, 10);
    }
}

/// Law: the dotted-quad text of an address parses back, in the strict and
/// in the lenient grammar alike, to exactly that address: the rendered
/// targets are canonical.
pub proof fn lemma_v4_text_roundtrip(v: u32)
    ensures
        parse_v4(v4_text(v), false) == Some(v),
        parse_v4(v4_text(v), true) == Some(v),
{
    let a = oct0(v);
    let b = oct1(v);
    let c = oct2(v);
    let d = oct3(v);
    let ta = dec_text(a);
    let tb = dec_text(b);
    let tc = dec_text(c);
    let td = dec_text(d);
    let la = ta.len() as int;
    let lb = tb.len() as int;
    let lc = tc.len() as int;
    let ld = td.len() as int;
    lemma_mod_division_less_than_divisor(v as int, 0x100);
    lemma_mod_division_less_than_divisor((v as int) / 0x10000, 0x100);
    lemma_mod_division_less_than_divisor((v as int) / 0x100, 0x100);
    assert(a <= 255 && b <= 255 && c <= 255 && d <= 255);
    lemma_dec_text_props(a);
    lemma_dec_text_props(b);
    lemma_dec_text_props(c);
    lemma_dec_text_props(d);
    let s = v4_text(v);
    let p1 = la;
    let p2 = la + 1 + lb;
    let p3 = la + 1 + lb + 1 + lc;
    let p4 = la + 1 + lb + 1 + lc + 1 + ld;
    assert(s.len() == p4);
    assert forall|k: int| 0 <= k < la implies s[k] == ta[k] by {}
    assert(s[p1] == 0x2e);
    assert forall|k: int| 0 <= k < lb implies s[p1 + 1 + k] == tb[k] by {}
    assert(s[p2] == 0x2e);
    assert forall|k: int| 0 <= k < lc implies s[p2 + 1 + k] == tc[k] by {}
    assert(s[p3] == 0x2e);
    assert forall|k: int| 0 <= k < ld implies s[p3 + 1 + k] == td[k] by {}
    lemma_digits_end_is(s, 0, p1);
    lemma_digits_end_is(s, p1 + 1, p2);
    lemma_digits_end_is(s, p2 + 1, p3);
    lemma_digits_end_is(s, p3 + 1, p4);
    lemma_dec_value_shift(s, ta, 0, 0, la);
    lemma_dec_value_shift(s, tb, p1 + 1, 0, lb);
    lemma_dec_value_shift(s, tc, p2 + 1, 0, lc);
    lemma_dec_value_shift(s, td, p3 + 1, 0, ld);
    assert(octet_ok(s, 0, p1, false));
    assert(octet_ok(s, p1 + 1, p2, false));
    assert(octet_ok(s, p2 + 1, p3, false));
    assert(octet_ok(s, p3 + 1, p4, false));
    lemma_fundamental_div_mod(v as int, 0x100);
    lemma_fundamental_div_mod((v as int) / 0x100, 0x100);
    lemma_fundamental_div_mod((v as int) / 0x10000, 0x100);
    lemma_div_denominator(v as int, 0x100, 0x100);
    lemma_div_denominator(v as int, 0x10000, 0x100);
    assert((v as int) / 0x10000 == ((v as int) / 0x100) / 0x100);
    assert((v as int) / 0x1000000 == ((v as int) / 0x10000) / 0x100);
    assert(a * 0x1000000 + b * 0x10000 + c * 0x100 + d == v);
    assert(v4_from(a, b, c, d) == v);
}

/// Law: dotted-quad text is injective — distinct addresses render to
/// distinct texts.
pub proof fn lemma_v4_text_injective(x: u32, y: u32)
    ensures
        v4_text(x) == v4_text(y) ==> x == y,
{
    if v4_text(x) == v4_text(y) {
        lemma_v4_text_roundtrip(x);
        lemma_v4_text_roundtrip(y);
    }
}

/// The dotted-quad text of `v`.
pub fn format_v4(v: u32) -> (r: Vec<u8>)
    ensures
        r@ == v4_text(v),
{
    let mut out: Vec<u8> = Vec::new();
    push_dec(&mut out, v / 0x1000000);
    out.push(0x2e);
    push_dec(&mut out, (v / 0x10000) % 0x100);
    out.push(0x2e);
    push_dec(&mut out, (v / 0x100) % 0x100);
    out.push(0x2e);
    push_dec(&mut out, v % 0x100);
    assert(out@ =~= v4_text(v));
    out
}

} // verus!
