//! The arithmetic-logic unit: a pure combinational function of two machine
//! words and six control bits, computed in a fixed pipeline of stages.

use crate::gates;
use crate::gates::{Bit, Bit16};
use vstd::prelude::*;

verus! {

use crate::gates::{
    all_bits, and_word, bit_and, bit_not, bit_or, is_bit, is_word, lemma_add_bits_val,
    lemma_pow2_16, lemma_val_all_zero, lemma_val_bound, lemma_val_injective, lemma_val_not,
    not_word, or_word, signed_val, sum_word, word_val, zero_word,
};
use vstd::arithmetic::div_mod::lemma_fundamental_div_mod_converse;

/*
+ ---------------------------------- +
| zx | nx | zy | ny | f | no |  out  |
+ ---------------------------------- +
|  1 |  0 |  1 |  0 |  1 |  0 |   0  |
|  1 |  1 |  1 |  1 |  1 |  1 |   1  |
|  1 |  1 |  1 |  0 |  1 |  0 |  -1  |
|  0 |  0 |  1 |  1 |  0 |  0 |   x  |
|  1 |  1 |  0 |  0 |  0 |  0 |   y  |
|  0 |  0 |  1 |  1 |  0 |  1 |  !x  |
|  1 |  1 |  0 |  0 |  0 |  1 |  !y  |
|  0 |  0 |  1 |  1 |  1 |  1 |  -x  |
|  1 |  1 |  0 |  0 |  1 |  1 |  -y  |
|  0 |  1 |  1 |  1 |  1 |  1 |  x+1 |
|  1 |  1 |  0 |  1 |  1 |  1 |  y+1 |
|  0 |  0 |  1 |  1 |  1 |  0 |  x-1 |
|  1 |  1 |  0 |  0 |  1 |  0 |  y-1 |
|  0 |  0 |  0 |  0 |  1 |  0 |  x+y |
|  0 |  1 |  0 |  0 |  1 |  1 |  x-y |
|  0 |  0 |  0 |  1 |  1 |  1 |  y-x |
|  0 |  0 |  0 |  0 |  0 |  0 |  x&y |
|  0 |  1 |  0 |  1 |  0 |  1 |  x|y |
+ ---------------------------------- +
Key:
  zx: Zero the X input
  nx: Negate the X input
  zy: Zero the Y input
  ny: Negate the Y input
  f:  Select between ADD (x+y) or AND (x&y)
  no: Negate the Output

  zr: if out == 0 then zr = 1 else zr = 0
  ng: if out < 0 then ng = 1 else ng = 0
*/

/// The whole state of the unit, as the contracts see it.
pub struct AluView {
    pub x: Seq<u8>,
    pub y: Seq<u8>,
    pub out: Seq<u8>,
    pub zr: u8,
    pub ng: u8,
    pub zx: u8,
    pub nx: u8,
    pub zy: u8,
    pub ny: u8,
    pub f: u8,
    pub no: u8,
}

/// One operand after its zero and negate stages: zeroed first if `z` is
/// set, then complemented if `n` is set.
pub open spec fn alu_stage(v: Seq<u8>, z: u8, n: u8) -> Seq<u8> {
    let zeroed = if z == 1 {
        zero_word()
    } else {
        v
    };
    if n == 1 {
        not_word(zeroed)
    } else {
        zeroed
    }
}

/// The word the unit outputs: both operands staged, then summed or
/// conjoined as `f` selects, then complemented if `no` is set.
pub open spec fn alu_out_spec(
    x: Seq<u8>,
    y: Seq<u8>,
    zx: u8,
    nx: u8,
    zy: u8,
    ny: u8,
    f: u8,
    no: u8,
) -> Seq<u8> {
    let xs = alu_stage(x, zx, nx);
    let ys = alu_stage(y, zy, ny);
    let o = if f == 1 {
        sum_word(xs, ys)
    } else {
        and_word(xs, ys)
    };
    if no == 1 {
        not_word(o)
    } else {
        o
    }
}

pub struct ALU {
    // input
    x: Bit16,
    y: Bit16,
    // output
    out: Bit16,
    zr: Bit,  // if out == 0, zr = 1 else zr = 0 (zero flag)
    ng: Bit,  // if out < 0, ng = 1 else ng = 0 (negative flag)
    // control bits
    zx: Bit,  // if zx == 1 then x = 0
    nx: Bit,  // if nx == 1 then x = !x
    zy: Bit,  // zero the y input
    ny: Bit,  // negate the y input
    f: Bit,  // f == 1, out=add(x,y), else out=and(x,y)
    no: Bit,  // negate the out
}

impl View for ALU {
    type V = AluView;

    closed spec fn view(&self) -> AluView {
        AluView {
            x: self.x@,
            y: self.y@,
            out: self.out@,
            zr: self.zr,
            ng: self.ng,
            zx: self.zx,
            nx: self.nx,
            zy: self.zy,
            ny: self.ny,
            f: self.f,
            no: self.no,
        }
    }
}

impl Default for ALU {
    /// A fresh unit over two all-zero operands.
    fn default() -> (r: Self)
        ensures
            r@.x == zero_word(),
            r@.y == zero_word(),
            r@.out == zero_word(),
            r@.zr == 0 && r@.ng == 0,
            r@.zx == 0 && r@.nx == 0 && r@.zy == 0 && r@.ny == 0 && r@.f == 0 && r@.no == 0,
            r.wf(),
    {
        let x = [0; 16];
        let y = [0; 16];
        proof {
            assert(x@ =~= zero_word());
        }
        Self::new(x, y)
    }
}

impl ALU {
    /// Operands and output are machine words, flags and controls bits.
    pub open spec fn wf(&self) -> bool {
        &&& is_word(self@.x)
        &&& is_word(self@.y)
        &&& is_word(self@.out)
        &&& is_bit(self@.zr)
        &&& is_bit(self@.ng)
        &&& is_bit(self@.zx)
        &&& is_bit(self@.nx)
        &&& is_bit(self@.zy)
        &&& is_bit(self@.ny)
        &&& is_bit(self@.f)
        &&& is_bit(self@.no)
    }

    pub fn new(x: Bit16, y: Bit16) -> (r: Self)
        requires
            is_word(x@),
            is_word(y@),
        ensures
            r@.x == x@,
            r@.y == y@,
            r@.out == zero_word(),
            r@.zr == 0 && r@.ng == 0,
            r@.zx == 0 && r@.nx == 0 && r@.zy == 0 && r@.ny == 0 && r@.f == 0 && r@.no == 0,
            r.wf(),
    {
        let r = Self {
            x,
            y,
            out: [0; 16],
            zr: 0,
            ng: 0,
            zx: 0,
            nx: 0,
            zy: 0,
            ny: 0,
            f: 0,
            no: 0,
        };
        proof {
            assert(r@.out =~= zero_word());
        }
        r
    }

    // setters control bits
    pub fn set_zx(&mut self, bit: Bit)
        requires
            is_bit(bit),
        ensures
            final(self)@ == (AluView { zx: bit, ..old(self)@ }),
    {
        self.zx = bit;
    }

    pub fn set_nx(&mut self, bit: Bit)
        requires
            is_bit(bit),
        ensures
            final(self)@ == (AluView { nx: bit, ..old(self)@ }),
    {
        self.nx = bit;
    }

    pub fn set_zy(&mut self, bit: Bit)
        requires
            is_bit(bit),
        ensures
            final(self)@ == (AluView { zy: bit, ..old(self)@ }),
    {
        self.zy = bit;
    }

    pub fn set_ny(&mut self, bit: Bit)
        requires
            is_bit(bit),
        ensures
            final(self)@ == (AluView { ny: bit, ..old(self)@ }),
    {
        self.ny = bit;
    }

    pub fn set_f(&mut self, bit: Bit)
        requires
            is_bit(bit),
        ensures
            final(self)@ == (AluView { f: bit, ..old(self)@ }),
    {
        self.f = bit;
    }

    pub fn set_no(&mut self, bit: Bit)
        requires
            is_bit(bit),
        ensures
            final(self)@ == (AluView { no: bit, ..old(self)@ }),
    {
        self.no = bit;
    }

    pub fn set_controls(&mut self, bits: [Bit; 6])
        requires
            forall|i: int| 0 <= i < 6 ==> is_bit(#[trigger] bits@[i]),
        ensures
            final(self)@ == (AluView {
                zx: bits@[0],
                nx: bits@[1],
                zy: bits@[2],
                ny: bits@[3],
                f: bits@[4],
                no: bits@[5],
                ..old(self)@
            }),
    {
        self.set_zx(bits[0]);
        self.set_nx(bits[1]);
        self.set_zy(bits[2]);
        self.set_ny(bits[3]);
        self.set_f(bits[4]);
        self.set_no(bits[5]);
    }

    // operators: the staging steps pass the operand along as a value, so
    // running the pipeline never disturbs the operands the unit holds.
    fn zero_x(&self, v: Bit16) -> (r: Bit16)
        requires
            self.wf(),
            is_word(v@),
        ensures
            r@ == (if self@.zx == 1 {
                zero_word()
            } else {
                v@
            }),
            is_word(r@),
    {
        if self.zx == 1 {
            // set as 0000000000000000
            let zeroed: Bit16 = [0; 16];
            proof {
                assert(zeroed@ =~= zero_word());
            }
            zeroed
        } else {
            v
        }
    }

    fn negate_x(&self, v: Bit16) -> (r: Bit16)
        requires
            self.wf(),
            is_word(v@),
        ensures
            r@ == (if self@.nx == 1 {
                not_word(v@)
            } else {
                v@
            }),
            is_word(r@),
    {
        if self.nx == 1 {
            // bit-wise not
            gates::not_16(v)
        } else {
            v
        }
    }

    fn zero_y(&self, v: Bit16) -> (r: Bit16)
        requires
            self.wf(),
            is_word(v@),
        ensures
            r@ == (if self@.zy == 1 {
                zero_word()
            } else {
                v@
            }),
            is_word(r@),
    {
        if self.zy == 1 {
            // set as 0000000000000000
            let zeroed: Bit16 = [0; 16];
            proof {
                assert(zeroed@ =~= zero_word());
            }
            zeroed
        } else {
            v
        }
    }

    fn negate_y(&self, v: Bit16) -> (r: Bit16)
        requires
            self.wf(),
            is_word(v@),
        ensures
            r@ == (if self@.ny == 1 {
                not_word(v@)
            } else {
                v@
            }),
            is_word(r@),
    {
        if self.ny == 1 {
            // bit-wise not
            gates::not_16(v)
        } else {
            v
        }
    }

    fn fn_out(&mut self, x: Bit16, y: Bit16)
        requires
            old(self).wf(),
            is_word(x@),
            is_word(y@),
        ensures
            final(self).wf(),
            final(self)@ == (AluView {
                out: if old(self)@.f == 1 {
                    sum_word(x@, y@)
                } else {
                    and_word(x@, y@)
                },
                ..old(self)@
            }),
    {
        if self.f == 1 {
            self.out = gates::add_16(x, y);
        } else {
            self.out = gates::and_16(x, y);
        }
    }

    fn negate_out(&mut self)
        requires
            old(self).wf(),
        ensures
            final(self).wf(),
            final(self)@ == (AluView {
                out: if old(self)@.no == 1 {
                    not_word(old(self)@.out)
                } else {
                    old(self)@.out
                },
                ..old(self)@
            }),
    {
        if self.no == 1 {
            self.out = gates::not_16(self.out)
        }
    }

    // output control
    fn zero_flag(&mut self)
        requires
            old(self).wf(),
        ensures
            final(self).wf(),
            final(self)@ == (AluView {
                zr: if old(self)@.out == zero_word() {
                    1u8
                } else {
                    0u8
                },
                ..old(self)@
            }),
    {
        let mut all_zero = true;
        for i in 0..16
            invariant
                is_word(self@.out),
                all_zero <==> (forall|j: int| 0 <= j < i ==> self@.out[j] == 0),
        {
            if self.out[i] != 0 {
                all_zero = false;
            }
        }
        proof {
            if all_zero {
                assert(self@.out =~= zero_word());
            } else {
                assert(self@.out != zero_word());
            }
        }
        self.zr = if all_zero {
            1
        } else {
            0
        };
    }

    fn negate_flag(&mut self)
        requires
            old(self).wf(),
        ensures
            final(self).wf(),
            final(self)@ == (AluView { ng: old(self)@.out[0], ..old(self)@ }),
    {
        self.ng = self.out[0];
    }

    /// Run the pipeline once: stage both operands, combine, optionally
    /// complement, and derive the two flags. The staging happens on copies,
    /// so the unit's operands and controls are exactly as before the call
    /// and a second run returns the same (out, zr, ng).
    pub fn exc(&mut self) -> (r: (Bit16, Bit, Bit))
        requires
            old(self).wf(),
        ensures
            final(self).wf(),
            final(self)@.x == old(self)@.x,
            final(self)@.y == old(self)@.y,
            final(self)@.out == alu_out_spec(
                old(self)@.x,
                old(self)@.y,
                old(self)@.zx,
                old(self)@.nx,
                old(self)@.zy,
                old(self)@.ny,
                old(self)@.f,
                old(self)@.no,
            ),
            final(self)@.zr == (if final(self)@.out == zero_word() {
                1u8
            } else {
                0u8
            }),
            final(self)@.ng == final(self)@.out[0],
            final(self)@.zx == old(self)@.zx,
            final(self)@.nx == old(self)@.nx,
            final(self)@.zy == old(self)@.zy,
            final(self)@.ny == old(self)@.ny,
            final(self)@.f == old(self)@.f,
            final(self)@.no == old(self)@.no,
            r.0@ == final(self)@.out,
            is_word(r.0@),
            r.1 == final(self)@.zr,
            r.2 == final(self)@.ng,
    {
        // 1.
        let xs = self.negate_x(self.zero_x(self.x));
        // 2.
        let ys = self.negate_y(self.zero_y(self.y));
        // 3.
        self.fn_out(xs, ys);
        // 4.
        self.negate_out();
        // 5.
        self.zero_flag();
        self.negate_flag();
        return (self.out, self.zr, self.ng);
    }
}

/// What the two flags mean for any output word: the zero flag tests the
/// value, and the most significant bit is set exactly when the word reads
/// negative in two's complement.
pub proof fn lemma_flag_semantics(s: Seq<u8>)
    requires
        is_word(s),
    ensures
        s == zero_word() <==> word_val(s) == 0,
        s[0] == 1 <==> signed_val(s) < 0,
{
    lemma_val_bound(s);
    lemma_pow2_16();
    lemma_val_all_zero(zero_word());
    if word_val(s) == 0 {
        assert(all_bits(zero_word()));
        lemma_val_injective(s, zero_word());
    }
    if s == zero_word() {
        lemma_val_all_zero(s);
    }
}

/// A value below the modulus is its own remainder.
proof fn lemma_mod_low(v: int)
    requires
        0 <= v < 65536,
    ensures
        v % 65536 == v,
{
    lemma_fundamental_div_mod_converse(v, 65536, 0, v);
}

/// A value one wrap above the modulus loses exactly one modulus.
proof fn lemma_mod_high(v: int)
    requires
        65536 <= v < 131072,
    ensures
        v % 65536 == v - 65536,
{
    lemma_fundamental_div_mod_converse(v, 65536, 1, v - 65536);
}

/// Complementing keeps a vector made of bits.
proof fn lemma_not_bits(s: Seq<u8>)
    ensures
        not_word(s).len() == s.len(),
        all_bits(not_word(s)),
{
    assert forall|i: int| 0 <= i < s.len() implies is_bit(#[trigger] not_word(s)[i]) by {}
}

/// The all-ones word: the complement of the all-zero word, of value 65535.
proof fn lemma_ones_word()
    ensures
        not_word(zero_word()).len() == 16,
        all_bits(not_word(zero_word())),
        word_val(not_word(zero_word())) == 65535,
{
    assert(all_bits(zero_word()));
    lemma_not_bits(zero_word());
    lemma_val_all_zero(zero_word());
    lemma_val_not(zero_word());
    lemma_pow2_16();
}

/// Conjoining with the all-ones word passes a machine word through.
proof fn lemma_and_ones(v: Seq<u8>)
    requires
        is_word(v),
    ensures
        and_word(v, not_word(zero_word())) == v,
        and_word(not_word(zero_word()), v) == v,
{
    let ones = not_word(zero_word());
    assert forall|i: int| 0 <= i < 16 implies ones[i] == 1 by {}
    assert(and_word(v, ones) =~= v);
    assert(and_word(ones, v) =~= v);
}

/// Rows of the control table that produce a constant: 0, 1 and -1 (65535
/// as an unsigned 16-bit value), whatever the operands hold.
pub proof fn lemma_alu_table_constants(x: Seq<u8>, y: Seq<u8>)
    requires
        is_word(x),
        is_word(y),
    ensures
        word_val(alu_out_spec(x, y, 1, 0, 1, 0, 1, 0)) == 0,
        word_val(alu_out_spec(x, y, 1, 1, 1, 1, 1, 1)) == 1,
        word_val(alu_out_spec(x, y, 1, 1, 1, 0, 1, 0)) == 65535,
{
    let zero = zero_word();
    let ones = not_word(zero);
    assert(all_bits(zero));
    lemma_val_all_zero(zero);
    lemma_ones_word();
    lemma_pow2_16();
    // out = 0 + 0
    lemma_add_bits_val(zero, zero, 0);
    lemma_mod_low(0);
    // out = !(ones + ones)
    lemma_add_bits_val(ones, ones, 0);
    lemma_mod_high(131070);
    lemma_val_not(sum_word(ones, ones));
    // out = ones + 0
    lemma_add_bits_val(ones, zero, 0);
    lemma_mod_low(65535);
}

/// Rows of the control table that route or complement the operands
/// bitwise: x, y, !x, !y, x & y and x | y.
pub proof fn lemma_alu_table_logic(x: Seq<u8>, y: Seq<u8>)
    requires
        is_word(x),
        is_word(y),
    ensures
        alu_out_spec(x, y, 0, 0, 1, 1, 0, 0) == x,
        alu_out_spec(x, y, 1, 1, 0, 0, 0, 0) == y,
        alu_out_spec(x, y, 0, 0, 1, 1, 0, 1) == not_word(x),
        alu_out_spec(x, y, 1, 1, 0, 0, 0, 1) == not_word(y),
        alu_out_spec(x, y, 0, 0, 0, 0, 0, 0) == and_word(x, y),
        alu_out_spec(x, y, 0, 1, 0, 1, 0, 1) == or_word(x, y),
{
    lemma_and_ones(x);
    lemma_and_ones(y);
    // De Morgan: complementing the conjunction of complements disjoins.
    assert(not_word(and_word(not_word(x), not_word(y))) =~= or_word(x, y));
}

/// Rows of the control table that compute arithmetic, read as unsigned
/// values modulo 2^16: the negations, increments and decrements of the
/// operands, their sum, and both differences.
pub proof fn lemma_alu_table_arith(x: Seq<u8>, y: Seq<u8>)
    requires
        is_word(x),
        is_word(y),
    ensures
        word_val(alu_out_spec(x, y, 0, 0, 1, 1, 1, 1)) == (65536 - word_val(x)) % 65536,
        word_val(alu_out_spec(x, y, 1, 1, 0, 0, 1, 1)) == (65536 - word_val(y)) % 65536,
        word_val(alu_out_spec(x, y, 0, 1, 1, 1, 1, 1)) == (word_val(x) + 1) % 65536,
        word_val(alu_out_spec(x, y, 1, 1, 0, 1, 1, 1)) == (word_val(y) + 1) % 65536,
        word_val(alu_out_spec(x, y, 0, 0, 1, 1, 1, 0)) == (word_val(x) + 65535) % 65536,
        word_val(alu_out_spec(x, y, 1, 1, 0, 0, 1, 0)) == (word_val(y) + 65535) % 65536,
        word_val(alu_out_spec(x, y, 0, 0, 0, 0, 1, 0)) == (word_val(x) + word_val(y)) % 65536,
        word_val(alu_out_spec(x, y, 0, 1, 0, 0, 1, 1)) == (word_val(x) + 65536 - word_val(y))
            % 65536,
        word_val(alu_out_spec(x, y, 0, 0, 0, 1, 1, 1)) == (word_val(y) + 65536 - word_val(x))
            % 65536,
{
    let zero = zero_word();
    let ones = not_word(zero);
    let vx = word_val(x);
    let vy = word_val(y);
    assert(all_bits(zero));
    lemma_val_all_zero(zero);
    lemma_ones_word();
    lemma_pow2_16();
    lemma_val_bound(x);
    lemma_val_bound(y);
    lemma_not_bits(x);
    lemma_not_bits(y);
    lemma_val_not(x);
    lemma_val_not(y);
    // -x = !(x + ones)
    lemma_add_bits_val(x, ones, 0);
    lemma_val_not(sum_word(x, ones));
    if vx == 0 {
        lemma_mod_low(vx + 65535);
        lemma_mod_high(65536 - vx);
    } else {
        lemma_mod_high(vx + 65535);
        lemma_mod_low(65536 - vx);
    }
    // -y = !(ones + y)
    lemma_add_bits_val(ones, y, 0);
    lemma_val_not(sum_word(ones, y));
    if vy == 0 {
        lemma_mod_low(vy + 65535);
        lemma_mod_high(65536 - vy);
    } else {
        lemma_mod_high(vy + 65535);
        lemma_mod_low(65536 - vy);
    }
    // x+1 = !(!x + ones)
    lemma_add_bits_val(not_word(x), ones, 0);
    lemma_val_not(sum_word(not_word(x), ones));
    if vx == 65535 {
        lemma_mod_low(131070 - vx);
        lemma_mod_high(vx + 1);
    } else {
        lemma_mod_high(131070 - vx);
        lemma_mod_low(vx + 1);
    }
    // y+1 = !(ones + !y)
    lemma_add_bits_val(ones, not_word(y), 0);
    lemma_val_not(sum_word(ones, not_word(y)));
    if vy == 65535 {
        lemma_mod_low(131070 - vy);
        lemma_mod_high(vy + 1);
    } else {
        lemma_mod_high(131070 - vy);
        lemma_mod_low(vy + 1);
    }
    // x+y
    lemma_add_bits_val(x, y, 0);
    // x-y = !(!x + y)
    lemma_add_bits_val(not_word(x), y, 0);
    lemma_val_not(sum_word(not_word(x), y));
    if vy <= vx {
        lemma_mod_low(65535 - vx + vy);
        lemma_mod_high(vx + 65536 - vy);
    } else {
        lemma_mod_high(65535 - vx + vy);
        lemma_mod_low(vx + 65536 - vy);
    }
    // y-x = !(x + !y)
    lemma_add_bits_val(x, not_word(y), 0);
    lemma_val_not(sum_word(x, not_word(y)));
    if vx <= vy {
        lemma_mod_low(65535 - vy + vx);
        lemma_mod_high(vy + 65536 - vx);
    } else {
        lemma_mod_high(65535 - vy + vx);
        lemma_mod_low(vy + 65536 - vx);
    }
}

} // verus!
