//! The combinational arithmetic layer: half and full adders, the 16-bit
//! ripple-carry adder and incrementer, and the two ALU cores built on
//! them.
//!
//! Words are arrays of booleans, least-significant bit at index 0, read
//! as unsigned values; addition is two's-complement, so results are taken
//! modulo `0x10000` and overflow is neither detected nor handled.

use crate::gates;
use crate::model::{
    and_bits, bits_val, bool_val, lemma_bits_val_bound, lemma_bits_val_eq_prefix,
    lemma_bits_val_inverse, lemma_bits_val_not, lemma_nat_bit_one, lemma_nat_bit_zero,
    lemma_nat_to_bits_val, nat_to_bits, not_bits, or_bits, xor_bits, zero_word,
};
use crate::utils;
use vstd::arithmetic::div_mod::lemma_fundamental_div_mod_converse;
use vstd::arithmetic::power2::{lemma2_to64, lemma_pow2_unfold, pow2};
use vstd::prelude::*;

verus! {

/// The control word of the Hack-style ALU: zero or negate each input,
/// pick addition or conjunction, and optionally negate the output.
pub struct HackCtrl {
    pub zx: bool,
    pub nx: bool,
    pub zy: bool,
    pub ny: bool,
    pub f: bool,
    pub no: bool,
}

impl HackCtrl {
    pub fn new(zx: bool, nx: bool, zy: bool, ny: bool, f: bool, no: bool) -> (r: HackCtrl)
        ensures
            r == (HackCtrl { zx, nx, zy, ny, f, no }),
    {
        HackCtrl { zx, nx, zy, ny, f, no }
    }
}

/// The control word of the RISC-style ALU core: instruction type, the
/// arithmetic/logic switch, two function bits and the negate-second-input
/// flag.
pub struct RISCvCtrl {
    pub ir: bool,
    pub al: bool,
    pub c: bool,
    pub d: bool,
    pub pn: bool,
}

impl RISCvCtrl {
    pub fn new(ir: bool, al: bool, c: bool, d: bool, pn: bool) -> (r: RISCvCtrl)
        ensures
            r == (RISCvCtrl { ir, al, c, d, pn }),
    {
        RISCvCtrl { ir, al, c, d, pn }
    }
}

/// What the Hack-style ALU reports: the 16-bit result, a zero flag and a
/// negative flag.
pub struct HackOut {
    pub out: [bool; 16],
    pub zr: bool,
    pub ng: bool,
}

impl HackOut {
    pub fn new(out: [bool; 16], zr: bool, ng: bool) -> (r: HackOut)
        ensures
            r == (HackOut { out, zr, ng }),
    {
        HackOut { out, zr, ng }
    }
}

/// Add two bits: the pair (sum, carry) carries their total.
pub fn half_adder(bit1: bool, bit2: bool) -> (r: (bool, bool))
    ensures
        r.0 == (bit1 != bit2),
        r.1 == (bit1 && bit2),
        bool_val(r.0) + 2 * bool_val(r.1) == bool_val(bit1) + bool_val(bit2),
{
    (gates::xor(bit1, bit2), gates::and(bit1, bit2))
}

/// Add two bits and a carry input: the pair (sum, carry out) carries
/// their total.
pub fn full_adder(bit1: bool, bit2: bool, carry: bool) -> (r: (bool, bool))
    ensures
        bool_val(r.0) + 2 * bool_val(r.1) == bool_val(bit1) + bool_val(bit2) + bool_val(carry),
{
    let (half_sum, half_carr_y) = half_adder(bit1, bit2);
    let (full_sum, half_carry) = half_adder(half_sum, carry);
    (full_sum, gates::xor(half_carr_y, half_carry))
}

/// Ripple-carry addition of two 16-bit words: the result is their sum
/// modulo `0x10000`, as both a value and the exact bit pattern.
pub fn add16(val1: &[bool; 16], val2: &[bool; 16]) -> (res: [bool; 16])
    ensures
        bits_val(res@, 16) == (bits_val(val1@, 16) + bits_val(val2@, 16)) % 0x10000,
        res@ == nat_to_bits((bits_val(val1@, 16) + bits_val(val2@, 16)) % 0x10000, 16),
{
    let mut res: [bool; 16] = [false; 16];
    let mut carry_bus: [bool; 17] = [false; 17];
    let mut i: usize = 0;
    while i < 16
        invariant
            0 <= i <= 16,
            bits_val(res@, i as nat) + bool_val(carry_bus@[i as int]) * pow2(i as nat) == bits_val(
                val1@,
                i as nat,
            ) + bits_val(val2@, i as nat),
        decreases 16 - i,
    {
        let ghost res_old = res@;
        let ghost c_old = bool_val(carry_bus@[i as int]) as int;
        let (s, c) = full_adder(val1[i], val2[i], carry_bus[i]);
        res[i] = s;
        carry_bus[i + 1] = c;
        i += 1;
        proof {
            let k = (i - 1) as nat;
            let p = pow2(k) as int;
            lemma_pow2_unfold(i as nat);
            lemma_bits_val_eq_prefix(res@, res_old, k);
            let sv = bool_val(res@[k as int]) as int;
            let cv = bool_val(carry_bus@[i as int]) as int;
            let a1 = bool_val(val1@[k as int]) as int;
            let a2 = bool_val(val2@[k as int]) as int;
            assert(bits_val(res@, i as nat) + cv * (2 * p) == bits_val(val1@, i as nat)
                + bits_val(val2@, i as nat)) by (nonlinear_arith)
                requires
                    bits_val(res@, i as nat) == bits_val(res@, k) + sv * p,
                    bits_val(val1@, i as nat) == bits_val(val1@, k) + a1 * p,
                    bits_val(val2@, i as nat) == bits_val(val2@, k) + a2 * p,
                    bits_val(res@, k) + c_old * p == bits_val(val1@, k) + bits_val(val2@, k),
                    sv + 2 * cv == a1 + a2 + c_old,
            ;
        }
    }
    proof {
        lemma2_to64();
        lemma_bits_val_bound(res@, 16);
        let q = bool_val(carry_bus@[16]) as int;
        lemma_fundamental_div_mod_converse(
            (bits_val(val1@, 16) + bits_val(val2@, 16)) as int,
            0x10000,
            q,
            bits_val(res@, 16) as int,
        );
        lemma_bits_val_inverse(res@, 16);
        assert(res@.take(16) =~= res@);
    }
    res
}

/// Increment a 16-bit word by one, modulo `0x10000`.
pub fn inc16(val: &[bool; 16]) -> (res: [bool; 16])
    ensures
        bits_val(res@, 16) == (bits_val(val@, 16) + 1) % 0x10000,
        res@ == nat_to_bits((bits_val(val@, 16) + 1) % 0x10000, 16),
{
    let one = utils::bytes_to_boollist(&[0, 1]);
    proof {
        assert forall|p: int| 0 <= p < 16 implies one@[p] == nat_to_bits(1, 16)[p] by {
            lemma_nat_bit_one(p as nat);
            if p >= 8 {
                assert((15 - p) / 8 == 0);
                lemma_nat_bit_zero((p % 8) as nat);
            } else {
                assert((15 - p) / 8 == 1);
            }
        }
        lemma2_to64();
        lemma_nat_to_bits_val(1, 16);
        lemma_bits_val_eq_prefix(one@, nat_to_bits(1, 16), 16);
        assert(bits_val(one@, 16) == 1);
    }
    add16(val, &one)
}

/// The RISC-style ALU core: with the negate flag the second input is
/// replaced by its two's complement; the function bits then pick
/// exclusive-or, disjunction, conjunction or zero, and the
/// arithmetic/logic switch chooses between that and the 16-bit sum.
pub fn riscv_alu(val1: &[bool; 16], val2: &[bool; 16], ctrl: &RISCvCtrl) -> (res: [bool; 16])
    ensures
        ({
            let bb = if ctrl.pn {
                nat_to_bits((((0x10000 - bits_val(val2@, 16)) % 0x10000) as nat), 16)
            } else {
                val2@
            };
            let logic = if !ctrl.c && !ctrl.d {
                xor_bits(val1@, bb)
            } else if ctrl.c && !ctrl.d {
                or_bits(val1@, bb)
            } else if ctrl.c && ctrl.d {
                and_bits(val1@, bb)
            } else {
                zero_word()
            };
            res@ == (if ctrl.al {
                logic
            } else {
                nat_to_bits((bits_val(val1@, 16) + bits_val(bb, 16)) % 0x10000, 16)
            })
        }),
{
    let rs1: [bool; 16] = *val1;
    let mut rs2: [bool; 16] = *val2;
    if ctrl.pn {
        let negated = gates::not16(&rs2);
        proof {
            assert(negated@ =~= not_bits(val2@));
            lemma_bits_val_not(val2@, 16);
            lemma_bits_val_bound(val2@, 16);
            lemma2_to64();
        }
        rs2 = inc16(&negated);
    }
    let logic_res = match (ctrl.c, ctrl.d) {
        (false, false) => gates::xor16(&rs1, &rs2),
        (true, false) => gates::or16(&rs1, &rs2),
        (true, true) => gates::and16(&rs1, &rs2),
        _ => [false;16],
    };
    proof {
        if !ctrl.c && !ctrl.d {
            assert(logic_res@ =~= xor_bits(val1@, rs2@));
        } else if ctrl.c && !ctrl.d {
            assert(logic_res@ =~= or_bits(val1@, rs2@));
        } else if ctrl.c && ctrl.d {
            assert(logic_res@ =~= and_bits(val1@, rs2@));
        } else {
            assert(logic_res@ =~= zero_word());
        }
    }
    gates::mux16(&add16(&rs1, &rs2), &logic_res, ctrl.al)
}

/// The Hack-style ALU: each input can be zeroed and negated, the function
/// bit picks 16-bit addition or bitwise conjunction, and the output can
/// be negated; the zero flag reports an all-zero result and the negative
/// flag its sign bit.
pub fn hack_alu(val1: &[bool; 16], val2: &[bool; 16], ctrl: &HackCtrl) -> (r: HackOut)
    ensures
        ({
            let x0 = if ctrl.zx {
                zero_word()
            } else {
                val1@
            };
            let x = if ctrl.nx {
                not_bits(x0)
            } else {
                x0
            };
            let y0 = if ctrl.zy {
                zero_word()
            } else {
                val2@
            };
            let y = if ctrl.ny {
                not_bits(y0)
            } else {
                y0
            };
            let core = if ctrl.f {
                nat_to_bits((bits_val(x, 16) + bits_val(y, 16)) % 0x10000, 16)
            } else {
                and_bits(x, y)
            };
            let outw = if ctrl.no {
                not_bits(core)
            } else {
                core
            };
            &&& r.out@ == outw
            &&& r.zr == (outw == zero_word())
            &&& r.ng == outw[15]
        }),
{
    let zero = utils::bytes_to_boollist(&[0, 0]);
    proof {
        assert forall|p: int| 0 <= p < 16 implies !zero@[p] by {
            lemma_nat_bit_zero((p % 8) as nat);
        }
        assert(zero@ =~= zero_word());
    }
    let x0 = gates::mux16(val1, &zero, ctrl.zx);
    let nx0 = gates::not16(&x0);
    proof {
        assert(nx0@ =~= not_bits(x0@));
    }
    let x = gates::mux16(&x0, &nx0, ctrl.nx);

    let y0 = gates::mux16(val2, &zero, ctrl.zy);
    let ny0 = gates::not16(&y0);
    proof {
        assert(ny0@ =~= not_bits(y0@));
    }
    let y = gates::mux16(&y0, &ny0, ctrl.ny);

    let anded = gates::and16(&x, &y);
    proof {
        assert(anded@ =~= and_bits(x@, y@));
    }
    let out0 = gates::mux16(&anded, &add16(&x, &y), ctrl.f);
    let nout0 = gates::not16(&out0);
    proof {
        assert(nout0@ =~= not_bits(out0@));
    }
    let out = gates::mux16(&out0, &nout0, ctrl.no);

    let zr_1 = gates::or8way(out[0], out[1], out[2], out[3], out[4], out[5], out[6], out[7]);
    let zr_2 = gates::or8way(out[8], out[9], out[10], out[11], out[12], out[13], out[14], out[15]);
    let zr = gates::not(gates::or(zr_1, zr_2));
    proof {
        if zr {
            assert(out@ =~= zero_word());
        } else {
            if out@ == zero_word() {
                assert(!out@[0] && !out@[1] && !out@[2] && !out@[3] && !out@[4] && !out@[5]
                    && !out@[6] && !out@[7] && !out@[8] && !out@[9] && !out@[10] && !out@[11]
                    && !out@[12] && !out@[13] && !out@[14] && !out@[15]);
                assert(false);
            }
        }
    }
    HackOut::new(out, zr, out[15])
}

} // verus!
