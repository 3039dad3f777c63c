//! Four RAM4K banks behind a one-hot load demultiplexer: 16384 words, the
//! top of the hierarchy. The two leading address wires pick the bank — read
//! the way the 4-way routing gates read their selector, first wire as the
//! low bit — and the remaining twelve address within it.

use super::ram4k::RAM4K;
use crate::gates;
use crate::gates::Bit16;
use vstd::arithmetic::div_mod::{lemma_fundamental_div_mod, lemma_fundamental_div_mod_converse};
use vstd::prelude::*;

verus! {

use crate::gates::{
    all_bits, is_bit, is_word, lemma_val_bound, pow2, sel2_index, word_val, zero_word,
};

broadcast use super::ram4k::ram4k_view_len;

/// The slot named by a 14-wire address: the bank picked by the two leading
/// wires, then the word the trailing twelve wires select within it.
pub open spec fn ram16k_index(addr: Seq<u8>) -> int {
    sel2_index(addr.subrange(0, 2)) * 4096 + word_val(addr.subrange(2, 14))
}

#[derive(Clone, Copy)]
pub struct RAM16K {
    ram4ks: [RAM4K; 4],
}

/// A RAM16K always abstracts to exactly 16384 words.
pub broadcast proof fn ram16k_view_len(m: RAM16K)
    ensures
        (#[trigger] m@.len()) == 16384,
{
}

impl View for RAM16K {
    type V = Seq<Seq<u8>>;

    closed spec fn view(&self) -> Seq<Seq<u8>> {
        Seq::new(16384, |i: int| self.ram4ks@[i / 4096]@[i % 4096])
    }
}

impl Default for RAM16K {
    /// A fresh RAM16K holds the all-zero word in every slot.
    fn default() -> (r: Self)
        ensures
            r.wf(),
            forall|i: int| 0 <= i < 16384 ==> r@[i] == zero_word(),
    {
        Self::zeroed()
    }
}

impl RAM16K {
    /// Sixteen thousand slots, each holding a well-formed machine word.
    pub open spec fn wf(&self) -> bool {
        self@.len() == 16384 && forall|i: int| 0 <= i < 16384 ==> is_word(#[trigger] self@[i])
    }

    /// A RAM16K with the all-zero word in every slot.
    fn zeroed() -> (r: Self)
        ensures
            r.wf(),
            forall|i: int| 0 <= i < 16384 ==> r@[i] == zero_word(),
    {
        let mut banks = [RAM4K::default(); 4];
        for i in 0..4
            invariant
                forall|j: int|
                    0 <= j < i ==> (#[trigger] banks@[j]).wf() && forall|k: int|
                        0 <= k < 4096 ==> banks@[j]@[k] == zero_word(),
        {
            banks[i] = RAM4K::default();
        }
        let r = Self::new(banks);
        proof {
            assert forall|i: int| 0 <= i < 16384 implies r@[i] == zero_word() by {
                lemma_fundamental_div_mod(i, 4096);
                assert(r@[i] == banks@[i / 4096]@[i % 4096]);
            }
        }
        r
    }

    pub fn new(ram4ks: [RAM4K; 4]) -> (r: Self)
        requires
            forall|i: int| 0 <= i < 4 ==> (#[trigger] ram4ks@[i]).wf(),
        ensures
            r.wf(),
            forall|i: int| 0 <= i < 16384 ==> r@[i] == ram4ks@[i / 4096]@[i % 4096],
    {
        let r = Self { ram4ks };
        proof {
            assert forall|i: int| 0 <= i < 16384 implies is_word(#[trigger] r@[i]) by {
                lemma_fundamental_div_mod(i, 4096);
                assert(r@[i] == ram4ks@[i / 4096]@[i % 4096]);
            }
        }
        r
    }

    /// One clock step: the fourteen address wires name one of the 16384
    /// slots; with the load wire high that slot takes `input`, with it low
    /// nothing changes. All four banks tick — only the addressed one can see
    /// a high load — and the addressed slot's word after the step is muxed
    /// out.
    pub fn tick(&mut self, address: [u8; 14], load: u8, input: Bit16) -> (out: Bit16)
        requires
            old(self).wf(),
            all_bits(address@),
            is_bit(load),
            is_word(input@),
        ensures
            final(self).wf(),
            final(self)@ == (if load == 1 {
                old(self)@.update(ram16k_index(address@), input@)
            } else {
                old(self)@
            }),
            out@ == final(self)@[ram16k_index(address@)],
            is_word(out@),
    {
        let upper: [u8; 2] = [address[0], address[1]];
        let lower: [u8; 12] = [
            address[2],
            address[3],
            address[4],
            address[5],
            address[6],
            address[7],
            address[8],
            address[9],
            address[10],
            address[11],
            address[12],
            address[13],
        ];
        let ghost hi = sel2_index(upper@);
        let ghost lo = word_val(lower@);
        let ghost idx = ram16k_index(address@);
        proof {
            assert(upper@ =~= address@.subrange(0, 2));
            assert(lower@ =~= address@.subrange(2, 14));
            assert(pow2(12) == 4096) by {
                reveal_with_fuel(pow2, 13);
            }
            assert(all_bits(lower@));
            lemma_val_bound(lower@);
            assert(idx == hi * 4096 + lo);
            assert(0 <= hi < 4 && 0 <= lo < 4096);
            lemma_fundamental_div_mod_converse(idx, 4096, hi, lo);
            assert forall|j: int| 0 <= j < 4 implies (#[trigger] old(self).ram4ks@[j]).wf() by {
                assert forall|k: int|
                    0 <= k < 4096 implies is_word(#[trigger] old(self).ram4ks@[j]@[k]) by {
                    lemma_fundamental_div_mod_converse(j * 4096 + k, 4096, j, k);
                    assert(old(self)@[j * 4096 + k] == old(self).ram4ks@[j]@[k]);
                }
            }
        }
        let (load0, load1, load2, load3) = gates::dmux4way(load, upper);
        let mut c0 = self.ram4ks[0];
        c0.tick(lower, load0, input);
        self.ram4ks[0] = c0;
        let mut c1 = self.ram4ks[1];
        c1.tick(lower, load1, input);
        self.ram4ks[1] = c1;
        let mut c2 = self.ram4ks[2];
        c2.tick(lower, load2, input);
        self.ram4ks[2] = c2;
        let mut c3 = self.ram4ks[3];
        c3.tick(lower, load3, input);
        self.ram4ks[3] = c3;

        let mut r0 = self.ram4ks[0];
        let o0 = r0.tick(lower, 0, input);
        self.ram4ks[0] = r0;
        let mut r1 = self.ram4ks[1];
        let o1 = r1.tick(lower, 0, input);
        self.ram4ks[1] = r1;
        let mut r2 = self.ram4ks[2];
        let o2 = r2.tick(lower, 0, input);
        self.ram4ks[2] = r2;
        let mut r3 = self.ram4ks[3];
        let o3 = r3.tick(lower, 0, input);
        self.ram4ks[3] = r3;
        let out = gates::mux4way16(o0, o1, o2, o3, upper);
        proof {
            assert forall|j: int|
                0 <= j < 4 implies #[trigger] self.ram4ks@[j]@ == (if load == 1 && j == hi {
                old(self).ram4ks@[j]@.update(lo, input@)
            } else {
                old(self).ram4ks@[j]@
            }) by {}
            if load == 1 {
                assert forall|i: int|
                    0 <= i < 16384 implies self@[i] == old(self)@.update(idx, input@)[i] by {
                    lemma_fundamental_div_mod(i, 4096);
                    assert(self@[i] == self.ram4ks@[i / 4096]@[i % 4096]);
                    assert(old(self)@[i] == old(self).ram4ks@[i / 4096]@[i % 4096]);
                }
                assert(self@ =~= old(self)@.update(idx, input@));
            } else {
                assert forall|i: int| 0 <= i < 16384 implies self@[i] == old(self)@[i] by {
                    lemma_fundamental_div_mod(i, 4096);
                    assert(self@[i] == self.ram4ks@[i / 4096]@[i % 4096]);
                    assert(old(self)@[i] == old(self).ram4ks@[i / 4096]@[i % 4096]);
                }
                assert(self@ =~= old(self)@);
            }
            assert(self@[idx] == self.ram4ks@[hi]@[lo]);
            assert(out@ == self@[idx]);
            assert forall|i: int| 0 <= i < 16384 implies is_word(#[trigger] self@[i]) by {
                lemma_fundamental_div_mod(i, 4096);
            }
        }
        out
    }
}

} // verus!
