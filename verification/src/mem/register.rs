//! The storage leaf of the memory tree: a clocked flip-flop, the load-gated
//! one-bit cell built on it, and the 16-bit register made of 16 such cells.

use crate::gates;
use crate::gates::Bit16;
use vstd::prelude::*;

verus! {

use crate::gates::{is_bit, is_word, zero_word};

/// The clocked primitive: remembers whatever it was last ticked with.
#[derive(Clone, Copy)]
pub struct DFF {
    state: u8,
}

impl View for DFF {
    type V = u8;

    closed spec fn view(&self) -> u8 {
        self.state
    }
}

impl Default for DFF {
    /// A fresh flip-flop holds 0.
    fn default() -> (r: Self)
        ensures
            r@ == 0,
    {
        Self::new(0)
    }
}

impl DFF {
    pub fn new(state: u8) -> (r: Self)
        requires
            is_bit(state),
        ensures
            r@ == state,
    {
        Self { state }
    }

    pub fn tick(&mut self, input: u8)
        requires
            is_bit(input),
        ensures
            final(self)@ == input,
    {
        self.state = input;
    }

    pub fn output(&self) -> (r: u8)
        ensures
            r == self@,
    {
        self.state
    }
}

// BIT
/// A one-bit cell: the flip-flop behind a load-controlled multiplexer, so a
/// tick with the load wire low keeps the stored bit.
#[derive(Clone, Copy)]
pub struct Bit {
    dff: DFF,
}

impl View for Bit {
    type V = u8;

    closed spec fn view(&self) -> u8 {
        self.dff@
    }
}

impl Default for Bit {
    /// A fresh cell holds 0.
    fn default() -> (r: Self)
        ensures
            r@ == 0,
    {
        Self::new(DFF::default())
    }
}

impl Bit {
    pub fn new(dff: DFF) -> (r: Self)
        requires
            is_bit(dff@),
        ensures
            r@ == dff@,
    {
        Self { dff }
    }

    pub fn tick(&mut self, input: u8, load: u8)
        requires
            is_bit(old(self)@),
            is_bit(input),
            is_bit(load),
        ensures
            final(self)@ == (if load == 0 {
                old(self)@
            } else {
                input
            }),
    {
        let next_state = gates::mux(self.dff.output(), input, load);
        self.dff.tick(next_state);
    }

    pub fn output(&self) -> (r: u8)
        ensures
            r == self@,
    {
        self.dff.output()
    }
}

/// A machine-word register: 16 one-bit cells sharing one load wire, so the
/// word can only ever be replaced whole.
#[derive(Clone, Copy)]
pub struct Register {
    bits: [Bit; 16],
}

impl View for Register {
    type V = Seq<u8>;

    closed spec fn view(&self) -> Seq<u8> {
        Seq::new(16, |i: int| self.bits@[i]@)
    }
}

impl Register {
    /// All sixteen cells hold bits.
    pub open spec fn wf(&self) -> bool {
        is_word(self@)
    }

    pub fn new() -> (r: Self)
        ensures
            r@ == zero_word(),
            r.wf(),
    {
        let mut bits = [Bit::default(); 16];
        for i in 0..16
            invariant
                forall|j: int| 0 <= j < i ==> (#[trigger] bits@[j])@ == 0,
        {
            bits[i] = Bit::default();
        }
        let r = Self { bits };
        proof {
            assert(r@ =~= zero_word());
        }
        r
    }

    /// One clock step: with the load wire high the register takes `input`,
    /// with it low the stored word is untouched, whatever `input` carries.
    pub fn tick(&mut self, input: Bit16, load: u8)
        requires
            old(self).wf(),
            is_word(input@),
            is_bit(load),
        ensures
            final(self).wf(),
            final(self)@ == (if load == 0 {
                old(self)@
            } else {
                input@
            }),
    {
        let ghost prev = self@;
        let mut bs = self.bits;
        for i in 0..16
            invariant
                is_word(input@),
                is_bit(load),
                prev.len() == 16,
                forall|j: int| 0 <= j < 16 ==> is_bit(#[trigger] prev[j]),
                forall|j: int| i <= j < 16 ==> (#[trigger] bs@[j])@ == prev[j],
                forall|j: int|
                    0 <= j < i ==> (#[trigger] bs@[j])@ == (if load == 0 {
                        prev[j]
                    } else {
                        input@[j]
                    }),
        {
            let mut cell = bs[i];
            cell.tick(input[i], load);
            bs[i] = cell;
        }
        self.bits = bs;
        proof {
            if load == 0 {
                assert(self@ =~= prev);
            } else {
                assert(self@ =~= input@);
            }
        }
    }

    pub fn output(&self) -> (r: Bit16)
        ensures
            r@ == self@,
    {
        let mut out: Bit16 = [0; 16];
        for i in 0..16
            invariant
                forall|j: int| 0 <= j < i ==> out@[j] == self@[j],
        {
            out[i] = self.bits[i].output();
        }
        proof {
            assert(out@ =~= self@);
        }
        out
    }
}

} // verus!
