//! The combinational gate library: single-bit gates built from NAND, their
//! 16-wide vector forms, the half/full/ripple-carry adders, and the
//! multiplexer/demultiplexer family.
//!
//! This module also holds the specification model shared by the whole crate:
//! what it means for a `u8` to carry a bit, and the numeric value of a bit
//! vector read most-significant bit first.

use vstd::arithmetic::div_mod::{lemma_fundamental_div_mod, lemma_fundamental_div_mod_converse};
use vstd::prelude::*;

verus! {

/// A single wire. Only the values 0 and 1 are meaningful.
pub type Bit = u8;

/// A 4-wide bundle of wires.
pub type Bit4 = [Bit; 4];

/// An 8-wide bundle of wires.
pub type Bit8 = [Bit; 8];

/// A machine word: 16 wires, most significant bit at index 0.
pub type Bit16 = [Bit; 16];

/// A `u8` carries a bit when it is 0 or 1.
pub open spec fn is_bit(b: u8) -> bool {
    b == 0 || b == 1
}

/// Every element of the vector carries a bit.
pub open spec fn all_bits(s: Seq<u8>) -> bool {
    forall|i: int| 0 <= i < s.len() ==> is_bit(s[i])
}

/// A well-formed machine word: exactly 16 wires, each carrying a bit.
pub open spec fn is_word(s: Seq<u8>) -> bool {
    s.len() == 16 && all_bits(s)
}

/// The all-zero machine word.
pub open spec fn zero_word() -> Seq<u8> {
    Seq::new(16, |i: int| 0u8)
}

/// The unsigned value of a bit vector, most significant bit first.
pub open spec fn word_val(s: Seq<u8>) -> int
    decreases s.len(),
{
    if s.len() == 0 {
        0
    } else {
        2 * word_val(s.drop_last()) + s.last()
    }
}

/// 2 to the power `n`.
pub open spec fn pow2(n: nat) -> int
    decreases n,
{
    if n == 0 {
        1
    } else {
        2 * pow2((n - 1) as nat)
    }
}

/// The signed, two's-complement reading of a bit vector: the unsigned
/// value, less two to the width when the most significant bit is set.
pub open spec fn signed_val(s: Seq<u8>) -> int {
    if s.len() > 0 && s[0] == 1 {
        word_val(s) - pow2(s.len())
    } else {
        word_val(s)
    }
}

/// The complement of a single bit.
pub open spec fn bit_not(a: u8) -> u8 {
    if a == 0 {
        1
    } else {
        0
    }
}

/// The conjunction of two bits.
pub open spec fn bit_and(a: u8, b: u8) -> u8 {
    if a == 1 && b == 1 {
        1
    } else {
        0
    }
}

/// The disjunction of two bits.
pub open spec fn bit_or(a: u8, b: u8) -> u8 {
    if a == 1 || b == 1 {
        1
    } else {
        0
    }
}

/// The exclusive or of two bits.
pub open spec fn bit_xor(a: u8, b: u8) -> u8 {
    if a == b {
        0
    } else {
        1
    }
}

/// Pointwise complement of a bit vector.
pub open spec fn not_word(s: Seq<u8>) -> Seq<u8> {
    Seq::new(s.len(), |i: int| bit_not(s[i]))
}

/// Pointwise conjunction of two bit vectors of equal width.
pub open spec fn and_word(a: Seq<u8>, b: Seq<u8>) -> Seq<u8> {
    Seq::new(a.len(), |i: int| bit_and(a[i], b[i]))
}

/// Pointwise disjunction of two bit vectors of equal width.
pub open spec fn or_word(a: Seq<u8>, b: Seq<u8>) -> Seq<u8> {
    Seq::new(a.len(), |i: int| bit_or(a[i], b[i]))
}

/// The bit vector produced by adding `a` and `b` position by position from
/// the least significant end, with `c` carried into the last position.
/// This is the ripple-carry adder read as a function on bit vectors.
pub open spec fn add_bits(a: Seq<u8>, b: Seq<u8>, c: int) -> Seq<u8>
    decreases a.len(),
{
    if a.len() == 0 {
        Seq::empty()
    } else {
        let t = a.last() + b.last() + c;
        add_bits(a.drop_last(), b.drop_last(), t / 2).push((t % 2) as u8)
    }
}

/// The sum of two machine words, wrapping around on overflow.
pub open spec fn sum_word(a: Seq<u8>, b: Seq<u8>) -> Seq<u8> {
    add_bits(a, b, 0)
}

/// Powers of two are positive.
pub proof fn lemma_pow2_pos(n: nat)
    ensures
        pow2(n) >= 1,
    decreases n,
{
    if n > 0 {
        lemma_pow2_pos((n - 1) as nat);
    }
}

/// The sixteenth power of two, spelled out.
pub proof fn lemma_pow2_16()
    ensures
        pow2(16) == 65536,
{
    reveal_with_fuel(pow2, 17);
}

/// Appending a bit doubles the value and adds the bit.
pub proof fn lemma_val_push(s: Seq<u8>, b: u8)
    ensures
        word_val(s.push(b)) == 2 * word_val(s) + b,
{
    assert(s.push(b).drop_last() =~= s);
}

/// The value of a concatenation: the left part is shifted past the right part.
pub proof fn lemma_val_concat(u: Seq<u8>, v: Seq<u8>)
    ensures
        word_val(u + v) == word_val(u) * pow2(v.len()) + word_val(v),
    decreases v.len(),
{
    if v.len() == 0 {
        assert(u + v =~= u);
        assert(word_val(u) * 1 == word_val(u)) by (nonlinear_arith);
    } else {
        let v0 = v.drop_last();
        assert((u + v).drop_last() =~= u + v0);
        lemma_val_concat(u, v0);
        assert(2 * (word_val(u) * pow2(v0.len())) == word_val(u) * (2 * pow2(v0.len())))
            by (nonlinear_arith);
    }
}

/// A vector of bits has a value below two to its width.
pub proof fn lemma_val_bound(s: Seq<u8>)
    requires
        all_bits(s),
    ensures
        0 <= word_val(s) < pow2(s.len()),
    decreases s.len(),
{
    if s.len() > 0 {
        assert(all_bits(s.drop_last()));
        lemma_val_bound(s.drop_last());
        assert(is_bit(s.last()));
    }
}

/// Dropping the first `pos` positions, the value splits into the bit at
/// `pos` weighted by its position and the value of the rest.
pub proof fn lemma_val_skip(s: Seq<u8>, pos: int)
    requires
        0 <= pos < s.len(),
    ensures
        word_val(s.skip(pos)) == s[pos] * pow2((s.len() - pos - 1) as nat) + word_val(
            s.skip(pos + 1),
        ),
{
    let rest = s.skip(pos + 1);
    assert(s.skip(pos) =~= seq![s[pos]] + rest);
    assert(seq![s[pos]].drop_last() =~= Seq::<u8>::empty());
    assert(word_val(Seq::<u8>::empty()) == 0);
    assert(word_val(seq![s[pos]]) == s[pos]);
    lemma_val_concat(seq![s[pos]], rest);
}

/// A vector of zero bits has value zero.
pub proof fn lemma_val_all_zero(s: Seq<u8>)
    requires
        forall|i: int| 0 <= i < s.len() ==> s[i] == 0,
    ensures
        word_val(s) == 0,
    decreases s.len(),
{
    if s.len() > 0 {
        lemma_val_all_zero(s.drop_last());
    }
}

/// Complementing every bit reflects the value within the width.
pub proof fn lemma_val_not(s: Seq<u8>)
    requires
        all_bits(s),
    ensures
        word_val(not_word(s)) == pow2(s.len()) - 1 - word_val(s),
    decreases s.len(),
{
    if s.len() == 0 {
        assert(not_word(s) =~= Seq::<u8>::empty());
    } else {
        assert(not_word(s).drop_last() =~= not_word(s.drop_last()));
        assert(all_bits(s.drop_last()));
        lemma_val_not(s.drop_last());
        assert(is_bit(s.last()));
        assert(not_word(s).last() == bit_not(s.last()));
    }
}

/// Two bit vectors of the same width and the same value are the same vector.
pub proof fn lemma_val_injective(s: Seq<u8>, t: Seq<u8>)
    requires
        s.len() == t.len(),
        all_bits(s),
        all_bits(t),
        word_val(s) == word_val(t),
    ensures
        s == t,
    decreases s.len(),
{
    if s.len() == 0 {
        assert(s =~= t);
    } else {
        assert(is_bit(s.last()) && is_bit(t.last()));
        assert(all_bits(s.drop_last()) && all_bits(t.drop_last()));
        lemma_val_injective(s.drop_last(), t.drop_last());
        assert(s =~= s.drop_last().push(s.last()));
        assert(t =~= t.drop_last().push(t.last()));
    }
}

/// The ripple-carry sum computes addition modulo two to the width.
pub proof fn lemma_add_bits_val(a: Seq<u8>, b: Seq<u8>, c: int)
    requires
        a.len() == b.len(),
        all_bits(a),
        all_bits(b),
        0 <= c <= 1,
    ensures
        add_bits(a, b, c).len() == a.len(),
        all_bits(add_bits(a, b, c)),
        word_val(add_bits(a, b, c)) == (word_val(a) + word_val(b) + c) % pow2(a.len()),
    decreases a.len(),
{
    if a.len() == 0 {
        assert((0int) % 1 == 0);
    } else {
        let t = a.last() + b.last() + c;
        assert(is_bit(a.last()) && is_bit(b.last()));
        let a0 = a.drop_last();
        let b0 = b.drop_last();
        assert(all_bits(a0) && all_bits(b0));
        lemma_add_bits_val(a0, b0, t / 2);
        let inner = add_bits(a0, b0, t / 2);
        let m = pow2(a0.len());
        lemma_pow2_pos(a0.len());
        let x = word_val(a0) + word_val(b0) + t / 2;
        lemma_fundamental_div_mod(x, m);
        let q = x / m;
        assert(x == q * m + word_val(inner));
        lemma_val_push(inner, (t % 2) as u8);
        lemma_val_bound(inner);
        // The whole sum, regrouped around the doubled modulus.
        assert(word_val(a) + word_val(b) + c == 2 * x + t % 2);
        assert(2 * (q * m) == q * (2 * m)) by (nonlinear_arith);
        assert(word_val(a) + word_val(b) + c == q * (2 * m) + (2 * word_val(inner) + t % 2));
        lemma_fundamental_div_mod_converse(
            word_val(a) + word_val(b) + c,
            2 * m,
            q,
            2 * word_val(inner) + t % 2,
        );
    }
}

// NAND GATE (BASE)
// a  | b  | ->
// ---+----+----
//  0 |  0 |  1
//  0 |  1 |  1
//  1 |  0 |  1
//  1 |  1 |  0
pub fn nand(a: Bit, b: Bit) -> (r: Bit)
    requires
        is_bit(a),
        is_bit(b),
    ensures
        r == bit_not(bit_and(a, b)),
{
    proof {
        assert((!(a & b)) & 1 == (if a == 1 && b == 1 { 0u8 } else { 1u8 })) by (bit_vector)
            requires
                a == 0 || a == 1,
                b == 0 || b == 1,
        ;
    }
    !(a & b) & 1
}

// NOT GATE
// a  | ->
// ---+----
//  0 |  1
//  1 |  0
pub fn not(a: Bit) -> (r: Bit)
    requires
        is_bit(a),
    ensures
        r == bit_not(a),
{
    nand(a, 1)
}

// AND GATE
// a  | b  | ->
// ---+----+----
//  0 |  0 |  0
//  0 |  1 |  0
//  1 |  0 |  0
//  1 |  1 |  1
pub fn and(a: Bit, b: Bit) -> (r: Bit)
    requires
        is_bit(a),
        is_bit(b),
    ensures
        r == bit_and(a, b),
{
    not(nand(a, b))
}

// OR GATE
// a  | b  | ->
// ---+----+----
//  0 |  0 |  0
//  0 |  1 |  1
//  1 |  0 |  1
//  1 |  1 |  1
pub fn or(a: Bit, b: Bit) -> (r: Bit)
    requires
        is_bit(a),
        is_bit(b),
    ensures
        r == bit_or(a, b),
{
    nand(not(a), not(b))
}

// XOR GATE
// a  | b  | ->
// ---+----+----
//  0 |  0 |  0
//  0 |  1 |  1
//  1 |  0 |  1
//  1 |  1 |  0
pub fn xor(a: Bit, b: Bit) -> (r: Bit)
    requires
        is_bit(a),
        is_bit(b),
    ensures
        r == bit_xor(a, b),
{
    nand(nand(a, nand(a, b)), nand(b, nand(a, b)))
}

// 16-bit NOT
// a  = 1 | 0 | 1 | 0 | 1 | ....
// -> = 0 | 1 | 0 | 1 | 0 | ....
//
pub fn not_16(a: Bit16) -> (r: Bit16)
    requires
        all_bits(a@),
    ensures
        r@ == not_word(a@),
{
    let mut out: Bit16 = [0; 16];
    for i in 0..16
        invariant
            all_bits(a@),
            forall|j: int| 0 <= j < i ==> out@[j] == bit_not(a@[j]),
    {
        out[i] = not(a[i]);
    }
    proof {
        assert(out@ =~= not_word(a@));
    }
    out
}

// 16-bit AND
// a  = 1 | 0 | 1 | 0 | 1 | ....
// b  = 0 | 1 | 1 | 0 | 0 | ....
//     ---+---+---+---+---+
// -> = 0 | 0 | 1 | 0 | 0 | ....
//
pub fn and_16(a: Bit16, b: Bit16) -> (r: Bit16)
    requires
        all_bits(a@),
        all_bits(b@),
    ensures
        r@ == and_word(a@, b@),
{
    let mut out: Bit16 = [0; 16];
    for i in 0..16
        invariant
            all_bits(a@),
            all_bits(b@),
            forall|j: int| 0 <= j < i ==> out@[j] == bit_and(a@[j], b@[j]),
    {
        out[i] = and(a[i], b[i]);
    }
    proof {
        assert(out@ =~= and_word(a@, b@));
    }
    out
}

// 16-bit OR
// a  = 1 | 0 | 1 | 0 | 1 | ....
// b  = 0 | 1 | 1 | 0 | 0 | ....
//    ----+---+---+---+---+
// -> = 1 | 1 | 1 | 1 | 1 | ....
//
pub fn or_16(a: Bit16, b: Bit16) -> (r: Bit16)
    requires
        all_bits(a@),
        all_bits(b@),
    ensures
        r@ == or_word(a@, b@),
{
    let mut out: Bit16 = [0; 16];
    for i in 0..16
        invariant
            all_bits(a@),
            all_bits(b@),
            forall|j: int| 0 <= j < i ==> out@[j] == bit_or(a@[j], b@[j]),
    {
        out[i] = or(a[i], b[i]);
    }
    proof {
        assert(out@ =~= or_word(a@, b@));
    }
    out
}

/// Each position is OR-ed with a fresh zero wire, so the bundle passes
/// through unchanged.
pub fn or_8_way(n: Bit8) -> (r: Bit8)
    requires
        all_bits(n@),
    ensures
        r@ == n@,
{
    let mut out: Bit8 = [0; 8];
    for i in 0..8
        invariant
            all_bits(n@),
            forall|j: int| 0 <= j < i ==> out@[j] == n@[j],
            forall|j: int| i <= j < 8 ==> out@[j] == 0,
    {
        out[i] = or(n[i], out[i]);
    }
    proof {
        assert(out@ =~= n@);
    }
    out
}

/*
 | a  | b  |  sum  | carry
 +----+----+-------+-------
 |  0 |  0 |   0   |  0  |
 |  0 |  1 |   1   |  0  |
 |  1 |  0 |   1   |  0  |
 |  1 |  1 |   0   |  1  |
*/
pub fn half_adder(a: Bit, b: Bit) -> (r: (Bit, Bit))
    requires
        is_bit(a),
        is_bit(b),
    ensures
        r.0 == bit_xor(a, b),
        r.1 == bit_and(a, b),
        a + b == 2 * r.1 + r.0,
{
    let sum = xor(a, b);
    let carry = and(a, b);
    (sum, carry)
}

/*
 | a  | b  | c |  sum | carry
 +----+----+---+------+-------
 |  0 |  0 | 0 |   0  |  0  |
 |  0 |  1 | 0 |   1  |  0  |
 |  1 |  1 | 1 |   1  |  1  |
*/
pub fn full_adder(a: Bit, b: Bit, c: Bit) -> (r: (Bit, Bit))
    requires
        is_bit(a),
        is_bit(b),
        is_bit(c),
    ensures
        is_bit(r.0),
        is_bit(r.1),
        a + b + c == 2 * r.1 + r.0,
{
    let (sum_one, carry_one) = half_adder(a, b);
    let (sum_two, carry_two) = half_adder(sum_one, c);
    (sum_two, or(carry_one, carry_two))
}

pub fn add_16(a: Bit16, b: Bit16) -> (r: Bit16)
    requires
        all_bits(a@),
        all_bits(b@),
    ensures
        r@ == sum_word(a@, b@),
        all_bits(r@),
        word_val(r@) == (word_val(a@) + word_val(b@)) % 65536,
{
    let mut out: Bit16 = [0; 16];
    let mut carry: Bit = 0;
    let mut pos: usize = 16;
    while pos > 0
        invariant
            all_bits(a@),
            all_bits(b@),
            is_bit(carry),
            pos <= 16,
            forall|j: int| pos <= j < 16 ==> is_bit(out@[j]),
            word_val(a@.skip(pos as int)) + word_val(b@.skip(pos as int)) == carry * pow2(
                (16 - pos) as nat,
            ) + word_val(out@.skip(pos as int)),
        decreases pos,
    {
        pos = pos - 1;
        let ghost out0 = out@;
        let ghost carry0 = carry;
        let (sum, new_carry) = full_adder(a[pos], b[pos], carry);
        out[pos] = sum;
        carry = new_carry;
        proof {
            let p = pos as int;
            let ghost w = pow2((15 - p) as nat);
            lemma_val_skip(a@, p);
            lemma_val_skip(b@, p);
            lemma_val_skip(out@, p);
            assert(out@.skip(p + 1) =~= out0.skip(p + 1));
            assert(pow2((16 - p) as nat) == 2 * w);
            assert((a@[p] + b@[p] + carry0) * w == (2 * new_carry + sum) * w);
            assert((a@[p] + b@[p] + carry0) * w == a@[p] * w + b@[p] * w + carry0 * w)
                by (nonlinear_arith);
            assert((2 * new_carry + sum) * w == new_carry * (2 * w) + sum * w)
                by (nonlinear_arith);
        }
    }
    proof {
        assert(a@.skip(0) =~= a@);
        assert(b@.skip(0) =~= b@);
        assert(out@.skip(0) =~= out@);
        lemma_pow2_16();
        lemma_val_bound(out@);
        lemma_fundamental_div_mod_converse(
            word_val(a@) + word_val(b@),
            65536,
            carry as int,
            word_val(out@),
        );
        lemma_add_bits_val(a@, b@, 0);
        lemma_val_injective(out@, sum_word(a@, b@));
    }
    out
}

pub fn inc_16(a: Bit16) -> (r: Bit16)
    requires
        all_bits(a@),
    ensures
        all_bits(r@),
        word_val(r@) == (word_val(a@) + 1) % 65536,
{
    let mut out: Bit16 = [0; 16];
    let mut carry: Bit = 1;
    let mut pos: usize = 16;
    while pos > 0
        invariant
            all_bits(a@),
            is_bit(carry),
            pos <= 16,
            forall|j: int| pos <= j < 16 ==> is_bit(out@[j]),
            word_val(a@.skip(pos as int)) + 1 == carry * pow2((16 - pos) as nat) + word_val(
                out@.skip(pos as int),
            ),
        decreases pos,
    {
        pos = pos - 1;
        let ghost out0 = out@;
        let ghost carry0 = carry;
        let (sum, new_carry) = full_adder(a[pos], 0, carry);
        out[pos] = sum;
        carry = new_carry;
        proof {
            let p = pos as int;
            let ghost w = pow2((15 - p) as nat);
            lemma_val_skip(a@, p);
            lemma_val_skip(out@, p);
            assert(out@.skip(p + 1) =~= out0.skip(p + 1));
            assert(pow2((16 - p) as nat) == 2 * w);
            assert((a@[p] + carry0) * w == (2 * new_carry + sum) * w);
            assert((a@[p] + carry0) * w == a@[p] * w + carry0 * w) by (nonlinear_arith);
            assert((2 * new_carry + sum) * w == new_carry * (2 * w) + sum * w)
                by (nonlinear_arith);
        }
    }
    proof {
        assert(a@.skip(0) =~= a@);
        assert(out@.skip(0) =~= out@);
        lemma_pow2_16();
        lemma_val_bound(out@);
        lemma_fundamental_div_mod_converse(
            word_val(a@) + 1,
            65536,
            carry as int,
            word_val(out@),
        );
    }
    out
}

/// A 2-wide selector bundle.
pub type Bit2 = [Bit; 2];

/// A 3-wide selector bundle.
pub type Bit3 = [Bit; 3];

/// The child index named by a 2-wide selector. The first wire is the low
/// bit and the second the high bit, as the 4-way gates read it.
pub open spec fn sel2_index(s: Seq<u8>) -> int {
    s[0] + 2 * s[1]
}

/// The value of a 3-wide vector, spelled out.
pub proof fn lemma_val3(s: Seq<u8>)
    requires
        s.len() == 3,
    ensures
        word_val(s) == 4 * s[0] + 2 * s[1] + s[2],
{
    reveal_with_fuel(word_val, 4);
    assert(s.drop_last().drop_last().drop_last() =~= Seq::<u8>::empty());
}

#[allow(dead_code)]
fn eq_bit(a: Bit, b: Bit) -> (r: Bit)
    requires
        is_bit(a),
        is_bit(b),
    ensures
        r == (if a == b { 1u8 } else { 0u8 }),
{
    not(xor(a, b))
}

// MULTIPLEXER GATE
//
// sel | ->
// ----+---
//  0  | a
//  1  | b
pub fn mux(a: Bit, b: Bit, sel: Bit) -> (r: Bit)
    requires
        is_bit(a),
        is_bit(b),
        is_bit(sel),
    ensures
        r == (if sel == 0 { a } else { b }),
{
    return if sel == 0 { a } else { b };
}

// DEMULTIPLEXER GATE
//
// sel | a |  b
// ----+---+---
//  0  | n |  0
//  1  | 0 |  n
//
pub fn dmux(n: Bit, sel: Bit) -> (r: (Bit, Bit))
    requires
        is_bit(n),
        is_bit(sel),
    ensures
        r == (if sel == 0 { (n, 0u8) } else { (0u8, n) }),
{
    if sel == 0 {
        return (n, 0);
    }
    return (0, n);
}

// 16-bit MUX
//
// a    = 1 | 0 | 1 | 0 | 1 | ....
// b    = 0 | 1 | 1 | 0 | 0 | ....
// sel = 0: every position comes from a; sel = 1: from b.
pub fn mux16(a: Bit16, b: Bit16, sel: Bit) -> (r: Bit16)
    requires
        all_bits(a@),
        all_bits(b@),
        is_bit(sel),
    ensures
        r@ == (if sel == 0 { a@ } else { b@ }),
{
    let mut out: Bit16 = [0; 16];
    for i in 0..16
        invariant
            all_bits(a@),
            all_bits(b@),
            is_bit(sel),
            forall|j: int| 0 <= j < i ==> out@[j] == (if sel == 0 { a@[j] } else { b@[j] }),
    {
        out[i] = mux(a[i], b[i], sel);
    }
    proof {
        if sel == 0 {
            assert(out@ =~= a@);
        } else {
            assert(out@ =~= b@);
        }
    }
    out
}

// 4-way MUX
//
// sel0 | sel1 | ->
// -----+------+---
//   0  |   0  |  a
//   1  |   0  |  b
//   0  |   1  |  c
//   1  |   1  |  d
pub fn mux4way16(a: Bit16, b: Bit16, c: Bit16, d: Bit16, sel: Bit2) -> (r: Bit16)
    requires
        all_bits(sel@),
    ensures
        sel2_index(sel@) == 0 ==> r == a,
        sel2_index(sel@) == 1 ==> r == b,
        sel2_index(sel@) == 2 ==> r == c,
        sel2_index(sel@) == 3 ==> r == d,
{
    if sel[0] == 0 && sel[1] == 0 {
        a
    } else if sel[0] == 1 && sel[1] == 0 {
        b
    } else if sel[0] == 0 {
        c
    } else {
        d
    }
}

pub fn mux8way16(
    a: Bit16,
    b: Bit16,
    c: Bit16,
    d: Bit16,
    e: Bit16,
    f: Bit16,
    g: Bit16,
    h: Bit16,
    sel: Bit3,
) -> (r: Bit16)
    requires
        all_bits(sel@),
    ensures
        word_val(sel@) == 0 ==> r == a,
        word_val(sel@) == 1 ==> r == b,
        word_val(sel@) == 2 ==> r == c,
        word_val(sel@) == 3 ==> r == d,
        word_val(sel@) == 4 ==> r == e,
        word_val(sel@) == 5 ==> r == f,
        word_val(sel@) == 6 ==> r == g,
        word_val(sel@) == 7 ==> r == h,
{
    proof {
        lemma_val3(sel@);
    }
    if sel[0] == 0 {
        if sel[1] == 0 {
            if sel[2] == 0 { a } else { b }
        } else {
            if sel[2] == 0 { c } else { d }
        }
    } else {
        if sel[1] == 0 {
            if sel[2] == 0 { e } else { f }
        } else {
            if sel[2] == 0 { g } else { h }
        }
    }
}

pub fn dmux4way(n: Bit, sel: Bit2) -> (r: (Bit, Bit, Bit, Bit))
    requires
        is_bit(n),
        all_bits(sel@),
    ensures
        r.0 == (if sel2_index(sel@) == 0 { n } else { 0u8 }),
        r.1 == (if sel2_index(sel@) == 1 { n } else { 0u8 }),
        r.2 == (if sel2_index(sel@) == 2 { n } else { 0u8 }),
        r.3 == (if sel2_index(sel@) == 3 { n } else { 0u8 }),
{
    if sel[0] == 0 && sel[1] == 0 {
        (n, 0, 0, 0)
    } else if sel[0] == 1 && sel[1] == 0 {
        (0, n, 0, 0)
    } else if sel[0] == 0 {
        (0, 0, n, 0)
    } else {
        (0, 0, 0, n)
    }
}

pub fn dmux8way(n: Bit, sel: Bit3) -> (r: (Bit, Bit, Bit, Bit, Bit, Bit, Bit, Bit))
    requires
        is_bit(n),
        all_bits(sel@),
    ensures
        r.0 == (if word_val(sel@) == 0 { n } else { 0u8 }),
        r.1 == (if word_val(sel@) == 1 { n } else { 0u8 }),
        r.2 == (if word_val(sel@) == 2 { n } else { 0u8 }),
        r.3 == (if word_val(sel@) == 3 { n } else { 0u8 }),
        r.4 == (if word_val(sel@) == 4 { n } else { 0u8 }),
        r.5 == (if word_val(sel@) == 5 { n } else { 0u8 }),
        r.6 == (if word_val(sel@) == 6 { n } else { 0u8 }),
        r.7 == (if word_val(sel@) == 7 { n } else { 0u8 }),
{
    proof {
        lemma_val3(sel@);
    }
    if sel[0] == 0 {
        if sel[1] == 0 {
            if sel[2] == 0 {
                (n, 0, 0, 0, 0, 0, 0, 0)
            } else {
                (0, n, 0, 0, 0, 0, 0, 0)
            }
        } else {
            if sel[2] == 0 {
                (0, 0, n, 0, 0, 0, 0, 0)
            } else {
                (0, 0, 0, n, 0, 0, 0, 0)
            }
        }
    } else {
        if sel[1] == 0 {
            if sel[2] == 0 {
                (0, 0, 0, 0, n, 0, 0, 0)
            } else {
                (0, 0, 0, 0, 0, n, 0, 0)
            }
        } else {
            if sel[2] == 0 {
                (0, 0, 0, 0, 0, 0, n, 0)
            } else {
                (0, 0, 0, 0, 0, 0, 0, n)
            }
        }
    }
}

} // verus!
