//! Eight RAM8 banks behind a one-hot load demultiplexer: 64 words. The
//! leading three address wires pick the bank, the trailing three address
//! within it.

use super::ram8::RAM8;
use crate::gates;
use crate::gates::Bit16;
use vstd::arithmetic::div_mod::{lemma_fundamental_div_mod, lemma_fundamental_div_mod_converse};
use vstd::prelude::*;

verus! {

use crate::gates::{
    all_bits, is_bit, is_word, lemma_val3, lemma_val_concat, pow2, word_val, zero_word,
};

broadcast use super::ram8::ram8_view_len;

#[derive(Clone, Copy)]
pub struct RAM64 {
    ram8s: [RAM8; 8],
}

/// A RAM64 always abstracts to exactly 64 words.
pub broadcast proof fn ram64_view_len(m: RAM64)
    ensures
        (#[trigger] m@.len()) == 64,
{
}

impl View for RAM64 {
    type V = Seq<Seq<u8>>;

    closed spec fn view(&self) -> Seq<Seq<u8>> {
        Seq::new(64, |i: int| self.ram8s@[i / 8]@[i % 8])
    }
}

impl Default for RAM64 {
    /// A fresh RAM64 holds the all-zero word in every slot.
    fn default() -> (r: Self)
        ensures
            r.wf(),
            forall|i: int| 0 <= i < 64 ==> r@[i] == zero_word(),
    {
        Self::zeroed()
    }
}

impl RAM64 {
    /// Sixty-four slots, each holding a well-formed machine word.
    pub open spec fn wf(&self) -> bool {
        self@.len() == 64 && forall|i: int| 0 <= i < 64 ==> is_word(#[trigger] self@[i])
    }

    /// A RAM64 with the all-zero word in every slot.
    fn zeroed() -> (r: Self)
        ensures
            r.wf(),
            forall|i: int| 0 <= i < 64 ==> r@[i] == zero_word(),
    {
        let mut banks = [RAM8::default(); 8];
        for i in 0..8
            invariant
                forall|j: int|
                    0 <= j < i ==> (#[trigger] banks@[j]).wf() && forall|k: int|
                        0 <= k < 8 ==> banks@[j]@[k] == zero_word(),
        {
            banks[i] = RAM8::default();
        }
        let r = Self::new(banks);
        proof {
            assert forall|i: int| 0 <= i < 64 implies r@[i] == zero_word() by {
                lemma_fundamental_div_mod(i, 8);
                assert(r@[i] == banks@[i / 8]@[i % 8]);
            }
        }
        r
    }

    pub fn new(ram8s: [RAM8; 8]) -> (r: Self)
        requires
            forall|i: int| 0 <= i < 8 ==> (#[trigger] ram8s@[i]).wf(),
        ensures
            r.wf(),
            forall|i: int| 0 <= i < 64 ==> r@[i] == ram8s@[i / 8]@[i % 8],
    {
        let r = Self { ram8s };
        proof {
            assert forall|i: int| 0 <= i < 64 implies is_word(#[trigger] r@[i]) by {
                lemma_fundamental_div_mod(i, 8);
                assert(r@[i] == ram8s@[i / 8]@[i % 8]);
            }
        }
        r
    }

    /// One clock step: the six address wires name one of the 64 slots; with
    /// the load wire high that slot takes `input`, with it low nothing
    /// changes. Every bank ticks — only the addressed one can see a high
    /// load — and the addressed slot's word after the step is muxed out.
    pub fn tick(&mut self, address: [u8; 6], load: u8, input: Bit16) -> (out: Bit16)
        requires
            old(self).wf(),
            all_bits(address@),
            is_bit(load),
            is_word(input@),
        ensures
            final(self).wf(),
            final(self)@ == (if load == 1 {
                old(self)@.update(word_val(address@), input@)
            } else {
                old(self)@
            }),
            out@ == final(self)@[word_val(address@)],
            is_word(out@),
    {
        let upper: [u8; 3] = [address[0], address[1], address[2]];
        let lower: [u8; 3] = [address[3], address[4], address[5]];
        let ghost hi = word_val(upper@);
        let ghost lo = word_val(lower@);
        let ghost idx = word_val(address@);
        proof {
            assert(address@ =~= upper@ + lower@);
            lemma_val_concat(upper@, lower@);
            assert(pow2(3) == 8) by {
                reveal_with_fuel(pow2, 4);
            }
            lemma_val3(upper@);
            lemma_val3(lower@);
            assert(idx == hi * 8 + lo);
            assert(0 <= hi < 8 && 0 <= lo < 8);
            lemma_fundamental_div_mod_converse(idx, 8, hi, lo);
            assert forall|j: int| 0 <= j < 8 implies (#[trigger] old(self).ram8s@[j]).wf() by {
                assert forall|k: int|
                    0 <= k < 8 implies is_word(#[trigger] old(self).ram8s@[j]@[k]) by {
                    lemma_fundamental_div_mod_converse(j * 8 + k, 8, j, k);
                    assert(old(self)@[j * 8 + k] == old(self).ram8s@[j]@[k]);
                }
            }
        }
        let (load0, load1, load2, load3, load4, load5, load6, load7) = gates::dmux8way(
            load,
            upper,
        );
        let mut c0 = self.ram8s[0];
        c0.tick(lower, load0, input);
        self.ram8s[0] = c0;
        let mut c1 = self.ram8s[1];
        c1.tick(lower, load1, input);
        self.ram8s[1] = c1;
        let mut c2 = self.ram8s[2];
        c2.tick(lower, load2, input);
        self.ram8s[2] = c2;
        let mut c3 = self.ram8s[3];
        c3.tick(lower, load3, input);
        self.ram8s[3] = c3;
        let mut c4 = self.ram8s[4];
        c4.tick(lower, load4, input);
        self.ram8s[4] = c4;
        let mut c5 = self.ram8s[5];
        c5.tick(lower, load5, input);
        self.ram8s[5] = c5;
        let mut c6 = self.ram8s[6];
        c6.tick(lower, load6, input);
        self.ram8s[6] = c6;
        let mut c7 = self.ram8s[7];
        c7.tick(lower, load7, input);
        self.ram8s[7] = c7;

        let mut r0 = self.ram8s[0];
        let o0 = r0.tick(lower, 0, input);
        self.ram8s[0] = r0;
        let mut r1 = self.ram8s[1];
        let o1 = r1.tick(lower, 0, input);
        self.ram8s[1] = r1;
        let mut r2 = self.ram8s[2];
        let o2 = r2.tick(lower, 0, input);
        self.ram8s[2] = r2;
        let mut r3 = self.ram8s[3];
        let o3 = r3.tick(lower, 0, input);
        self.ram8s[3] = r3;
        let mut r4 = self.ram8s[4];
        let o4 = r4.tick(lower, 0, input);
        self.ram8s[4] = r4;
        let mut r5 = self.ram8s[5];
        let o5 = r5.tick(lower, 0, input);
        self.ram8s[5] = r5;
        let mut r6 = self.ram8s[6];
        let o6 = r6.tick(lower, 0, input);
        self.ram8s[6] = r6;
        let mut r7 = self.ram8s[7];
        let o7 = r7.tick(lower, 0, input);
        self.ram8s[7] = r7;
        let out = gates::mux8way16(o0, o1, o2, o3, o4, o5, o6, o7, upper);
        proof {
            assert forall|j: int|
                0 <= j < 8 implies #[trigger] self.ram8s@[j]@ == (if load == 1 && j == hi {
                old(self).ram8s@[j]@.update(lo, input@)
            } else {
                old(self).ram8s@[j]@
            }) by {}
            if load == 1 {
                assert forall|i: int|
                    0 <= i < 64 implies self@[i] == old(self)@.update(idx, input@)[i] by {
                    lemma_fundamental_div_mod(i, 8);
                    assert(self@[i] == self.ram8s@[i / 8]@[i % 8]);
                    assert(old(self)@[i] == old(self).ram8s@[i / 8]@[i % 8]);
                }
                assert(self@ =~= old(self)@.update(idx, input@));
            } else {
                assert forall|i: int| 0 <= i < 64 implies self@[i] == old(self)@[i] by {
                    lemma_fundamental_div_mod(i, 8);
                    assert(self@[i] == self.ram8s@[i / 8]@[i % 8]);
                    assert(old(self)@[i] == old(self).ram8s@[i / 8]@[i % 8]);
                }
                assert(self@ =~= old(self)@);
            }
            assert(self@[idx] == self.ram8s@[hi]@[lo]);
            assert(out@ == self@[idx]);
            assert forall|i: int| 0 <= i < 64 implies is_word(#[trigger] self@[i]) by {
                lemma_fundamental_div_mod(i, 8);
            }
        }
        out
    }
}

} // verus!
