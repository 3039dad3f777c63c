//! Spelled-out names for the multiplexer/demultiplexer family. Each routing
//! gate here is the one from `gates`, kept under the name the wider module
//! tree uses.

use crate::gates;
use crate::gates::{Bit, Bit16, Bit2, Bit3};
use vstd::prelude::*;

verus! {

use crate::gates::{all_bits, is_bit, sel2_index, word_val};

// MULTIPLEXER GATE
//
// sel | ->
// ----+---
//  0  | a
//  1  | b
pub fn mux(a: Bit, b: Bit, sel: Bit) -> (r: Bit)
    requires
        is_bit(a),
        is_bit(b),
        is_bit(sel),
    ensures
        r == (if sel == 0 { a } else { b }),
{
    gates::mux(a, b, sel)
}

// DEMULTIPLEXER GATE
//
// sel | a |  b
// ----+---+---
//  0  | n |  0
//  1  | 0 |  n
//
pub fn dmux(n: Bit, sel: Bit) -> (r: (Bit, Bit))
    requires
        is_bit(n),
        is_bit(sel),
    ensures
        r == (if sel == 0 { (n, 0u8) } else { (0u8, n) }),
{
    gates::dmux(n, sel)
}

// 16-bit MUX: sel = 0 passes a through, sel = 1 passes b through.
pub fn mux_16(a: Bit16, b: Bit16, sel: Bit) -> (r: Bit16)
    requires
        all_bits(a@),
        all_bits(b@),
        is_bit(sel),
    ensures
        r@ == (if sel == 0 { a@ } else { b@ }),
{
    gates::mux16(a, b, sel)
}

// 4-way MUX
//
// sel0 | sel1 | ->
// -----+------+---
//   0  |   0  |  a
//   1  |   0  |  b
//   0  |   1  |  c
//   1  |   1  |  d
pub fn mux_4_way_16(a: Bit16, b: Bit16, c: Bit16, d: Bit16, sel: Bit2) -> (r: Bit16)
    requires
        all_bits(sel@),
    ensures
        sel2_index(sel@) == 0 ==> r == a,
        sel2_index(sel@) == 1 ==> r == b,
        sel2_index(sel@) == 2 ==> r == c,
        sel2_index(sel@) == 3 ==> r == d,
{
    gates::mux4way16(a, b, c, d, sel)
}

pub fn mux_8_way_16(
    a: Bit16,
    b: Bit16,
    c: Bit16,
    d: Bit16,
    e: Bit16,
    f: Bit16,
    g: Bit16,
    h: Bit16,
    sel: Bit3,
) -> (r: Bit16)
    requires
        all_bits(sel@),
    ensures
        word_val(sel@) == 0 ==> r == a,
        word_val(sel@) == 1 ==> r == b,
        word_val(sel@) == 2 ==> r == c,
        word_val(sel@) == 3 ==> r == d,
        word_val(sel@) == 4 ==> r == e,
        word_val(sel@) == 5 ==> r == f,
        word_val(sel@) == 6 ==> r == g,
        word_val(sel@) == 7 ==> r == h,
{
    gates::mux8way16(a, b, c, d, e, f, g, h, sel)
}

pub fn dmux_4_way(n: Bit, sel: Bit2) -> (r: (Bit, Bit, Bit, Bit))
    requires
        is_bit(n),
        all_bits(sel@),
    ensures
        r.0 == (if sel2_index(sel@) == 0 { n } else { 0u8 }),
        r.1 == (if sel2_index(sel@) == 1 { n } else { 0u8 }),
        r.2 == (if sel2_index(sel@) == 2 { n } else { 0u8 }),
        r.3 == (if sel2_index(sel@) == 3 { n } else { 0u8 }),
{
    gates::dmux4way(n, sel)
}

pub fn dmux_8_way(n: Bit, sel: Bit3) -> (r: (Bit, Bit, Bit, Bit, Bit, Bit, Bit, Bit))
    requires
        is_bit(n),
        all_bits(sel@),
    ensures
        r.0 == (if word_val(sel@) == 0 { n } else { 0u8 }),
        r.1 == (if word_val(sel@) == 1 { n } else { 0u8 }),
        r.2 == (if word_val(sel@) == 2 { n } else { 0u8 }),
        r.3 == (if word_val(sel@) == 3 { n } else { 0u8 }),
        r.4 == (if word_val(sel@) == 4 { n } else { 0u8 }),
        r.5 == (if word_val(sel@) == 5 { n } else { 0u8 }),
        r.6 == (if word_val(sel@) == 6 { n } else { 0u8 }),
        r.7 == (if word_val(sel@) == 7 { n } else { 0u8 }),
{
    gates::dmux8way(n, sel)
}

} // verus!
