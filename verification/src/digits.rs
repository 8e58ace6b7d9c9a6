//! Decimal digit runs: their numeric value, canonical rendering, and the
//! proofs that the two are inverse to each other.
//!
//! The wire grammar writes every number, length and count as a run of ASCII
//! digits.  `digits_val` reads such a run; `dec_u` renders a number as its
//! canonical run (no leading zero).  Parsing accepts non-canonical runs, so
//! the round-trip argument rests on `lemma_dec_u_digits_val`: rendering the
//! value of a canonical run gives the run back.

use vstd::prelude::*;

verus! {

/// ASCII `0` through `9`.
pub open spec fn is_digit(b: u8) -> bool {
    0x30 <= b <= 0x39
}

pub open spec fn all_digits(s: Seq<u8>) -> bool {
    forall|i: int| 0 <= i < s.len() ==> is_digit(#[trigger] s[i])
}

/// The number a digit run denotes, most significant digit first.
pub open spec fn digits_val(s: Seq<u8>) -> nat
    decreases s.len(),
{
    if s.len() == 0 {
        0
    } else {
        10 * digits_val(s.drop_last()) + (if is_digit(s.last()) {
            (s.last() - 0x30) as nat
        } else {
            0
        })
    }
}

/// The canonical digit run of a number: nonempty, and no leading zero
/// except for the single digit `0` itself.
pub open spec fn dec_u(n: nat) -> Seq<u8>
    decreases n,
{
    if n < 10 {
        seq![(0x30 + n) as u8]
    } else {
        dec_u(n / 10).push((0x30 + n % 10) as u8)
    }
}

/// A signed decimal literal: a minus sign for negative numbers, then the
/// canonical run of the magnitude.
pub open spec fn dec_i(n: int) -> Seq<u8> {
    if n < 0 {
        seq![0x2Du8].add(dec_u((-n) as nat))
    } else {
        dec_u(n as nat)
    }
}

/// A digit run is canonical when it is nonempty and carries no leading zero.
pub open spec fn canonical_digits(s: Seq<u8>) -> bool {
    &&& s.len() >= 1
    &&& all_digits(s)
    &&& (s[0] == 0x30 ==> s.len() == 1)
}

/// Reading one more digit multiplies the value by ten.
pub proof fn lemma_digits_val_push(s: Seq<u8>, d: u8)
    requires
        is_digit(d),
    ensures
        digits_val(s.push(d)) == 10 * digits_val(s) + (d - 0x30),
{
    assert(s.push(d).drop_last() =~= s);
    assert(s.push(d).last() == d);
}

/// The canonical run of `n` is made of digits, is nonempty, and reads back
/// as `n`; it starts with `0` only for `n == 0` itself.
pub proof fn lemma_dec_u_props(n: nat)
    ensures
        dec_u(n).len() >= 1,
        all_digits(dec_u(n)),
        digits_val(dec_u(n)) == n,
        dec_u(n)[0] == 0x30 ==> n == 0,
        canonical_digits(dec_u(n)),
    decreases n,
{
    if n < 10 {
        assert(dec_u(n).last() == (0x30 + n) as u8);
        assert(dec_u(n).drop_last() =~= Seq::<u8>::empty());
        assert(digits_val(Seq::<u8>::empty()) == 0);
        assert(digits_val(dec_u(n)) == n);
    } else {
        lemma_dec_u_props(n / 10);
        let d: u8 = (0x30 + n % 10) as u8;
        lemma_digits_val_push(dec_u(n / 10), d);
        assert(10 * (n / 10) + n % 10 == n) by (nonlinear_arith);
        assert(dec_u(n)[0] == dec_u(n / 10)[0]);
        assert(n / 10 > 0) by (nonlinear_arith)
            requires n >= 10,
        ;
    }
}

/// A digit run that does not start with `0` denotes a positive number.
pub proof fn lemma_digits_val_pos(s: Seq<u8>)
    requires
        all_digits(s),
        s.len() >= 1,
        s[0] != 0x30,
    ensures
        digits_val(s) >= 1,
    decreases s.len(),
{
    if s.len() == 1 {
    } else {
        assert(s.drop_last()[0] == s[0]);
        lemma_digits_val_pos(s.drop_last());
    }
}

/// Rendering the value of a canonical run yields the run itself.
pub proof fn lemma_dec_u_digits_val(s: Seq<u8>)
    requires
        canonical_digits(s),
    ensures
        dec_u(digits_val(s)) == s,
    decreases s.len(),
{
    if s.len() == 1 {
        assert(s.drop_last() =~= Seq::<u8>::empty());
        assert(digits_val(Seq::<u8>::empty()) == 0);
        assert(s.last() == s[0]);
        assert(digits_val(s) == s[0] - 0x30);
        assert(dec_u(digits_val(s)) =~= s);
    } else {
        let s0 = s.drop_last();
        let d = s.last();
        assert(s0[0] == s[0]);
        assert(all_digits(s0));
        lemma_digits_val_pos(s0);
        lemma_dec_u_digits_val(s0);
        let v0 = digits_val(s0);
        let v = digits_val(s);
        assert(v == 10 * v0 + (d - 0x30));
        assert(v >= 10) by (nonlinear_arith)
            requires v == 10 * v0 + (d - 0x30), v0 >= 1, d >= 0x30,
        ;
        assert(v / 10 == v0 && v % 10 == d - 0x30) by (nonlinear_arith)
            requires v == 10 * v0 + (d - 0x30), 0 <= d - 0x30 < 10,
        ;
        assert(dec_u(v) == dec_u(v0).push((0x30 + (d - 0x30)) as u8));
        assert(dec_u(v) =~= s);
    }
}

/// The run with its leading zeros removed; a run of zeros becomes `0`.
pub open spec fn strip_zeros(s: Seq<u8>) -> Seq<u8>
    decreases s.len(),
{
    if s.len() > 1 && s[0] == 0x30 {
        strip_zeros(s.drop_first())
    } else {
        s
    }
}

/// Stripping leading zeros from a digit run gives the canonical run of the
/// same value.
pub proof fn lemma_strip_zeros(s: Seq<u8>)
    requires
        s.len() >= 1,
        all_digits(s),
    ensures
        canonical_digits(strip_zeros(s)),
        digits_val(strip_zeros(s)) == digits_val(s),
        strip_zeros(s).len() <= s.len(),
    decreases s.len(),
{
    if s.len() > 1 && s[0] == 0x30 {
        assert(all_digits(s.drop_first()));
        lemma_strip_zeros(s.drop_first());
        lemma_digits_val_drop_leading_zero(s);
    }
}

/// A leading zero does not change the value of a run.
proof fn lemma_digits_val_drop_leading_zero(s: Seq<u8>)
    requires
        s.len() >= 1,
        s[0] == 0x30,
    ensures
        digits_val(s.drop_first()) == digits_val(s),
    decreases s.len(),
{
    if s.len() == 1 {
        assert(s.drop_last() =~= Seq::<u8>::empty());
        assert(digits_val(Seq::<u8>::empty()) == 0);
        assert(s.drop_first() =~= Seq::<u8>::empty());
    } else {
        assert(s.drop_last()[0] == s[0]);
        lemma_digits_val_drop_leading_zero(s.drop_last());
        assert(s.drop_last().drop_first() =~= s.drop_first().drop_last());
        assert(s.drop_first().last() == s.last());
    }
}

/// Renders `n` as its canonical decimal digit run.
pub fn fmt_u64(n: u64) -> (r: Vec<u8>)
    ensures
        r@ == dec_u(n as nat),
    decreases n,
{
    if n < 10 {
        let mut v: Vec<u8> = Vec::new();
        v.push(0x30 + n as u8);
        assert(v@ =~= dec_u(n as nat));
        v
    } else {
        let mut v = fmt_u64(n / 10);
        v.push(0x30 + (n % 10) as u8);
        v
    }
}

/// Renders a signed 64-bit integer as its decimal literal.
pub fn fmt_i64(n: i64) -> (r: Vec<u8>)
    ensures
        r@ == dec_i(n as int),
{
    if n >= 0 {
        fmt_u64(n as u64)
    } else {
        let mag: u64 = if n == i64::MIN {
            0x8000_0000_0000_0000
        } else {
            (-n) as u64
        };
        assert(mag as int == -(n as int));
        let digits = fmt_u64(mag);
        let mut v: Vec<u8> = Vec::new();
        v.push(0x2Du8);
        let mut i: usize = 0;
        while i < digits.len()
            invariant
                0 <= i <= digits.len(),
                v@ =~= seq![0x2Du8].add(digits@.take(i as int)),
            decreases digits.len() - i,
        {
            v.push(digits[i]);
            assert(digits@.take(i + 1) =~= digits@.take(i as int).push(digits@[i as int]));
            i = i + 1;
        }
        assert(digits@.take(digits@.len() as int) =~= digits@);
        v
    }
}

} // verus!
