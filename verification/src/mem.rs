//! The sequential side of the machine: the clocked storage cell, the 16-bit
//! register, and the RAM hierarchy, each level an 8-way (or, at the top,
//! 4-way) composition of the level below.
//!
//! Every level abstracts to a flat sequence of machine words. A tick with
//! the load wire high replaces the addressed word; a tick with the load wire
//! low leaves the sequence untouched; either way the addressed word after
//! the tick is returned.

pub mod ram16k;
pub mod ram4k;
pub mod ram512;
pub mod ram64;
pub mod ram8;
pub mod register;

pub use ram16k::RAM16K;
pub use ram4k::RAM4K;
pub use ram512::RAM512;
pub use ram64::RAM64;
pub use ram8::RAM8;
pub use register::Bit;
pub use register::DFF;
pub use register::Register;

use vstd::prelude::*;

verus! {

/// Writing one slot never disturbs another: after storing `w1` at `a1` and
/// then `w2` at a different slot `a2`, the word at `a1` is still `w1`.
/// Every RAM level abstracts its tick to exactly these sequence updates.
pub proof fn lemma_ram_write_isolation(
    mem: Seq<Seq<u8>>,
    a1: int,
    a2: int,
    w1: Seq<u8>,
    w2: Seq<u8>,
)
    requires
        0 <= a1 < mem.len(),
        0 <= a2 < mem.len(),
        a1 != a2,
    ensures
        mem.update(a1, w1).update(a2, w2)[a1] == w1,
{
}

/// Writing the same slot twice keeps only the second word: storing `w1` and
/// then `w2` at `a` leaves the memory exactly as a single store of `w2`.
pub proof fn lemma_ram_overwrite(mem: Seq<Seq<u8>>, a: int, w1: Seq<u8>, w2: Seq<u8>)
    requires
        0 <= a < mem.len(),
    ensures
        mem.update(a, w1).update(a, w2) == mem.update(a, w2),
{
    assert(mem.update(a, w1).update(a, w2) =~= mem.update(a, w2));
}

} // verus!
