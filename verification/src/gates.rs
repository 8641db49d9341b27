//! Combinational gates, built from a single `nand` primitive.
//!
//! Scalar gates compose `nand` exactly as their circuit diagrams do;
//! word-wide variants apply a scalar gate to each bit position; the
//! multiplexers and demultiplexers route words and enable signals by
//! selector bits, most-significant selector bit first. Every contract
//! states the boolean function computed, so callers never depend on the
//! gate-level construction.

use crate::model::{sel2_index, sel3_index};
use vstd::prelude::*;

verus! {

pub fn nand(val1: bool, val2: bool) -> (r: bool)
    ensures
        r == !(val1 && val2),
{
    !(val1 && val2)
}

pub fn not(val: bool) -> (r: bool)
    ensures
        r == !val,
{
    nand(val, val)
}

pub fn not16(val: &[bool; 16]) -> (r: [bool; 16])
    ensures
        forall|i: int| 0 <= i < 16 ==> r@[i] == !val@[i],
{
    let mut res = [false; 16];
    let mut i: usize = 0;
    while i < 16
        invariant
            0 <= i <= 16,
            forall|j: int| 0 <= j < i ==> res@[j] == !val@[j],
        decreases 16 - i,
    {
        res[i] = not(val[i]);
        i += 1;
    }
    res
}

pub fn not32(val: &[bool; 32]) -> (r: [bool; 32])
    ensures
        forall|i: int| 0 <= i < 32 ==> r@[i] == !val@[i],
{
    let mut res = [false; 32];
    let mut i: usize = 0;
    while i < 32
        invariant
            0 <= i <= 32,
            forall|j: int| 0 <= j < i ==> res@[j] == !val@[j],
        decreases 32 - i,
    {
        res[i] = not(val[i]);
        i += 1;
    }
    res
}

pub fn and(val1: bool, val2: bool) -> (r: bool)
    ensures
        r == (val1 && val2),
{
    not(nand(val1, val2))
}

pub fn and16(val1: &[bool; 16], val2: &[bool; 16]) -> (r: [bool; 16])
    ensures
        forall|i: int| 0 <= i < 16 ==> r@[i] == (val1@[i] && val2@[i]),
{
    let mut res = [false; 16];
    let mut i: usize = 0;
    while i < 16
        invariant
            0 <= i <= 16,
            forall|j: int| 0 <= j < i ==> res@[j] == (val1@[j] && val2@[j]),
        decreases 16 - i,
    {
        res[i] = and(val1[i], val2[i]);
        i += 1;
    }
    res
}

pub fn and32(val1: &[bool; 32], val2: &[bool; 32]) -> (r: [bool; 32])
    ensures
        forall|i: int| 0 <= i < 32 ==> r@[i] == (val1@[i] && val2@[i]),
{
    let mut res = [false; 32];
    let mut i: usize = 0;
    while i < 32
        invariant
            0 <= i <= 32,
            forall|j: int| 0 <= j < i ==> res@[j] == (val1@[j] && val2@[j]),
        decreases 32 - i,
    {
        res[i] = and(val1[i], val2[i]);
        i += 1;
    }
    res
}

pub fn or(val1: bool, val2: bool) -> (r: bool)
    ensures
        r == (val1 || val2),
{
    nand(not(val1), not(val2))
}

pub fn or16(val1: &[bool; 16], val2: &[bool; 16]) -> (r: [bool; 16])
    ensures
        forall|i: int| 0 <= i < 16 ==> r@[i] == (val1@[i] || val2@[i]),
{
    let mut res = [false; 16];
    let mut i: usize = 0;
    while i < 16
        invariant
            0 <= i <= 16,
            forall|j: int| 0 <= j < i ==> res@[j] == (val1@[j] || val2@[j]),
        decreases 16 - i,
    {
        res[i] = or(val1[i], val2[i]);
        i += 1;
    }
    res
}

pub fn or32(val1: &[bool; 32], val2: &[bool; 32]) -> (r: [bool; 32])
    ensures
        forall|i: int| 0 <= i < 32 ==> r@[i] == (val1@[i] || val2@[i]),
{
    let mut res = [false; 32];
    let mut i: usize = 0;
    while i < 32
        invariant
            0 <= i <= 32,
            forall|j: int| 0 <= j < i ==> res@[j] == (val1@[j] || val2@[j]),
        decreases 32 - i,
    {
        res[i] = or(val1[i], val2[i]);
        i += 1;
    }
    res
}

pub fn or8way(
    val1: bool,
    val2: bool,
    val3: bool,
    val4: bool,
    val5: bool,
    val6: bool,
    val7: bool,
    val8: bool,
) -> (r: bool)
    ensures
        r == (val1 || val2 || val3 || val4 || val5 || val6 || val7 || val8),
{
    or(or(or(val1, val2), or(val3, val4)), or(or(val5, val6), or(val7, val8)))
}

pub fn nor(val1: bool, val2: bool) -> (r: bool)
    ensures
        r == !(val1 || val2),
{
    not(or(val1, val2))
}

pub fn xor(val1: bool, val2: bool) -> (r: bool)
    ensures
        r == (val1 != val2),
{
    and(or(val1, val2), nand(val1, val2))
}

pub fn xor16(val1: &[bool; 16], val2: &[bool; 16]) -> (r: [bool; 16])
    ensures
        forall|i: int| 0 <= i < 16 ==> r@[i] == (val1@[i] != val2@[i]),
{
    let mut res = [false; 16];
    let mut i: usize = 0;
    while i < 16
        invariant
            0 <= i <= 16,
            forall|j: int| 0 <= j < i ==> res@[j] == (val1@[j] != val2@[j]),
        decreases 16 - i,
    {
        res[i] = xor(val1[i], val2[i]);
        i += 1;
    }
    res
}

pub fn xor32(val1: &[bool; 32], val2: &[bool; 32]) -> (r: [bool; 32])
    ensures
        forall|i: int| 0 <= i < 32 ==> r@[i] == (val1@[i] != val2@[i]),
{
    let mut res = [false; 32];
    let mut i: usize = 0;
    while i < 32
        invariant
            0 <= i <= 32,
            forall|j: int| 0 <= j < i ==> res@[j] == (val1@[j] != val2@[j]),
        decreases 32 - i,
    {
        res[i] = xor(val1[i], val2[i]);
        i += 1;
    }
    res
}

/// Binary selection: the first input when the selector is clear, the
/// second when it is set.
pub fn mux(val1: bool, val2: bool, sel: bool) -> (r: bool)
    ensures
        r == (if sel {
            val2
        } else {
            val1
        }),
{
    or(and(val1, not(sel)), and(val2, sel))
}

pub fn mux16(val1: &[bool; 16], val2: &[bool; 16], sel: bool) -> (r: [bool; 16])
    ensures
        r@ == (if sel {
            val2@
        } else {
            val1@
        }),
{
    let mut res = [false; 16];
    let mut i: usize = 0;
    while i < 16
        invariant
            0 <= i <= 16,
            forall|j: int| 0 <= j < i ==> res@[j] == (if sel {
                val2@[j]
            } else {
                val1@[j]
            }),
        decreases 16 - i,
    {
        res[i] = mux(val1[i], val2[i], sel);
        i += 1;
    }
    proof {
        if sel {
            assert(res@ =~= val2@);
        } else {
            assert(res@ =~= val1@);
        }
    }
    res
}

pub fn mux4way16(vals: &[[bool; 16]; 4], sel: (bool, bool)) -> (r: [bool; 16])
    ensures
        r@ == vals@[sel2_index(sel.0, sel.1) as int]@,
{
    mux16(&mux16(&vals[0], &vals[1], sel.1), &mux16(&vals[2], &vals[3], sel.1), sel.0)
}

pub fn mux8way16(vals: &[[bool; 16]; 8], sel: (bool, bool, bool)) -> (r: [bool; 16])
    ensures
        r@ == vals@[sel3_index(sel.0, sel.1, sel.2) as int]@,
{
    mux16(
        &mux4way16(&[vals[0], vals[1], vals[2], vals[3]], (sel.1, sel.2)),
        &mux4way16(&[vals[4], vals[5], vals[6], vals[7]], (sel.1, sel.2)),
        sel.0,
    )
}

pub fn mux32(val1: &[bool; 32], val2: &[bool; 32], sel: bool) -> (r: [bool; 32])
    ensures
        r@ == (if sel {
            val2@
        } else {
            val1@
        }),
{
    let mut res = [false; 32];
    let mut i: usize = 0;
    while i < 32
        invariant
            0 <= i <= 32,
            forall|j: int| 0 <= j < i ==> res@[j] == (if sel {
                val2@[j]
            } else {
                val1@[j]
            }),
        decreases 32 - i,
    {
        res[i] = mux(val1[i], val2[i], sel);
        i += 1;
    }
    proof {
        if sel {
            assert(res@ =~= val2@);
        } else {
            assert(res@ =~= val1@);
        }
    }
    res
}

pub fn mux4way32(vals: &[[bool; 32]; 4], sel: (bool, bool)) -> (r: [bool; 32])
    ensures
        r@ == vals@[sel2_index(sel.0, sel.1) as int]@,
{
    mux32(&mux32(&vals[0], &vals[1], sel.1), &mux32(&vals[2], &vals[3], sel.1), sel.0)
}

pub fn mux8way32(vals: &[[bool; 32]; 8], sel: (bool, bool, bool)) -> (r: [bool; 32])
    ensures
        r@ == vals@[sel3_index(sel.0, sel.1, sel.2) as int]@,
{
    mux32(
        &mux4way32(&[vals[0], vals[1], vals[2], vals[3]], (sel.1, sel.2)),
        &mux4way32(&[vals[4], vals[5], vals[6], vals[7]], (sel.1, sel.2)),
        sel.0,
    )
}

/// Routes `val` to one of two outputs: the first when the selector is
/// clear, the second when it is set; the other output stays clear.
pub fn dmux(val: bool, sel: bool) -> (r: (bool, bool))
    ensures
        r.0 == (val && !sel),
        r.1 == (val && sel),
{
    (and(val, not(sel)), and(val, sel))
}

/// Routes `val` to the one of four outputs the two selector bits pick;
/// every other output stays clear.
pub fn dmux4way(val: bool, sel1: bool, sel2: bool) -> (r: [bool; 4])
    ensures
        forall|i: int| 0 <= i < 4 ==> r@[i] == (val && sel2_index(sel1, sel2) == i),
{
    [
        and(val, and(not(sel1), not(sel2))),
        and(val, and(not(sel1), sel2)),
        and(val, and(sel1, not(sel2))),
        and(val, and(sel1, sel2)),
    ]
}

/// Routes `val` to the one of eight outputs the three selector bits pick;
/// every other output stays clear.
pub fn dmux8way(val: bool, sel1: bool, sel2: bool, sel3: bool) -> (r: [bool; 8])
    ensures
        forall|i: int| 0 <= i < 8 ==> r@[i] == (val && sel3_index(sel1, sel2, sel3) == i),
{
    [
        and(val, and(and(not(sel1), not(sel2)), not(sel3))),
        and(val, and(and(not(sel1), not(sel2)), sel3)),
        and(val, and(and(not(sel1), sel2), not(sel3))),
        and(val, and(and(not(sel1), sel2), sel3)),
        and(val, and(and(sel1, not(sel2)), not(sel3))),
        and(val, and(and(sel1, not(sel2)), sel3)),
        and(val, and(and(sel1, sel2), not(sel3))),
        and(val, and(and(sel1, sel2), sel3)),
    ]
}

} // verus!
