//! Eight registers behind a one-hot load demultiplexer and an 8-way output
//! multiplexer: the smallest addressable RAM in the hierarchy.

use super::register::Register;
use crate::gates;
use crate::gates::Bit16;
use vstd::prelude::*;

verus! {

use crate::gates::{all_bits, is_bit, is_word, lemma_val3, word_val, zero_word};

#[derive(Clone, Copy)]
pub struct RAM8 {
    regs: [Register; 8],
}

/// A RAM8 always abstracts to exactly eight words.
pub broadcast proof fn ram8_view_len(m: RAM8)
    ensures
        (#[trigger] m@.len()) == 8,
{
}

impl View for RAM8 {
    type V = Seq<Seq<u8>>;

    closed spec fn view(&self) -> Seq<Seq<u8>> {
        Seq::new(8, |i: int| self.regs@[i]@)
    }
}

impl Default for RAM8 {
    /// A fresh RAM8 holds the all-zero word in every slot.
    fn default() -> (r: Self)
        ensures
            r.wf(),
            forall|i: int| 0 <= i < 8 ==> r@[i] == zero_word(),
    {
        Self::zeroed()
    }
}

impl RAM8 {
    /// Eight slots, each holding a well-formed machine word.
    pub open spec fn wf(&self) -> bool {
        self@.len() == 8 && forall|i: int| 0 <= i < 8 ==> is_word(#[trigger] self@[i])
    }

    /// A RAM8 with the all-zero word in every slot.
    fn zeroed() -> (r: Self)
        ensures
            r.wf(),
            forall|i: int| 0 <= i < 8 ==> r@[i] == zero_word(),
    {
        let mut regs = [Register::new(); 8];
        for i in 0..8
            invariant
                forall|j: int|
                    0 <= j < i ==> (#[trigger] regs@[j]).wf() && regs@[j]@ == zero_word(),
        {
            regs[i] = Register::new();
        }
        let r = Self::new(regs);
        proof {
            assert forall|i: int| 0 <= i < 8 implies r@[i] == zero_word() by {
                assert(r@[i] == regs@[i]@);
            }
        }
        r
    }

    pub fn new(regs: [Register; 8]) -> (r: Self)
        requires
            forall|i: int| 0 <= i < 8 ==> (#[trigger] regs@[i]).wf(),
        ensures
            r.wf(),
            forall|i: int| 0 <= i < 8 ==> r@[i] == (#[trigger] regs@[i])@,
    {
        Self { regs }
    }

    /// One clock step. The three address wires name one slot; with the load
    /// wire high that slot takes `input`, with it low nothing changes. All
    /// eight registers are ticked either way — the demultiplexer feeds the
    /// load wire to the addressed one and 0 to the rest — and the addressed
    /// slot's word after the step is muxed back out.
    pub fn tick(&mut self, address: [u8; 3], load: u8, input: Bit16) -> (out: Bit16)
        requires
            old(self).wf(),
            all_bits(address@),
            is_bit(load),
            is_word(input@),
        ensures
            final(self).wf(),
            final(self)@ == (if load == 1 {
                old(self)@.update(word_val(address@), input@)
            } else {
                old(self)@
            }),
            out@ == final(self)@[word_val(address@)],
            is_word(out@),
    {
        proof {
            lemma_val3(address@);
            assert forall|k: int| 0 <= k < 8 implies is_word((#[trigger] self.regs@[k])@) by {
                assert(self@[k] == self.regs@[k]@);
            }
        }
        let (load0, load1, load2, load3, load4, load5, load6, load7) = gates::dmux8way(
            load,
            address,
        );
        let mut r0 = self.regs[0];
        r0.tick(input, load0);
        self.regs[0] = r0;
        let mut r1 = self.regs[1];
        r1.tick(input, load1);
        self.regs[1] = r1;
        let mut r2 = self.regs[2];
        r2.tick(input, load2);
        self.regs[2] = r2;
        let mut r3 = self.regs[3];
        r3.tick(input, load3);
        self.regs[3] = r3;
        let mut r4 = self.regs[4];
        r4.tick(input, load4);
        self.regs[4] = r4;
        let mut r5 = self.regs[5];
        r5.tick(input, load5);
        self.regs[5] = r5;
        let mut r6 = self.regs[6];
        r6.tick(input, load6);
        self.regs[6] = r6;
        let mut r7 = self.regs[7];
        r7.tick(input, load7);
        self.regs[7] = r7;

        proof {
            if load == 1 {
                assert(self@ =~= old(self)@.update(word_val(address@), input@));
            } else {
                assert(self@ =~= old(self)@);
            }
        }
        let o0 = self.regs[0].output();
        let o1 = self.regs[1].output();
        let o2 = self.regs[2].output();
        let o3 = self.regs[3].output();
        let o4 = self.regs[4].output();
        let o5 = self.regs[5].output();
        let o6 = self.regs[6].output();
        let o7 = self.regs[7].output();
        gates::mux8way16(o0, o1, o2, o3, o4, o5, o6, o7, address)
    }
}

} // verus!
