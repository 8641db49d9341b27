//! The synchronous memory hierarchy.
//!
//! A `DFF` holds one bit of clocked state; everything above it only
//! composes. A `BitRegister` adds conditional-write semantics through the
//! selection gate, a `Register` clocks 16 such bits under one shared
//! enable, and the RAM blocks compose registers 8-wide (4-wide at the
//! top) behind demultiplex/multiplex pairs keyed on address bits. Every
//! `clk_cycle` call is one clock edge: it returns the addressed content
//! as of the start of the cycle and commits the write, if any, for the
//! next one. Contracts speak over views: a register is the sequence of
//! its 16 bits, least-significant first; a RAM block is the sequence of
//! its leaf words in address order.

use crate::gates;
use crate::model::{
    bits_val, lemma_bits_val_3, lemma_bits_val_bound, lemma_bits_val_split2, lemma_bits_val_split3,
    mem_read, mem_step, sel2_index, sel3_index, zero_mem, zero_word,
};
use vstd::arithmetic::power2::lemma2_to64;
use vstd::prelude::*;

verus! {

/// One D flip-flop: the sole primitive holding sequential state. Reads
/// yield the stored bit; a clock edge stores the input and reports the
/// bit held before.
#[derive(Copy, Clone, Debug)]
pub struct DFF {
    bit: bool,
}

impl View for DFF {
    type V = bool;

    closed spec fn view(&self) -> bool {
        self.bit
    }
}

impl DFF {
    /// A fresh flip-flop holds zero.
    pub fn new() -> (r: DFF)
        ensures
            !r@,
    {
        DFF { bit: false }
    }

    /// Peek at the stored bit without touching it.
    pub fn read(&self) -> (r: bool)
        ensures
            r == self@,
    {
        self.bit
    }

    /// One clock edge: adopt `bit`, report the bit held before.
    pub fn clk_cycle(&mut self, bit: bool) -> (r: bool)
        ensures
            r == old(self)@,
            final(self)@ == bit,
    {
        let res = self.bit;
        self.bit = bit;
        res
    }
}

/// A loadable bit: a flip-flop behind a selection gate. With the load
/// flag clear the cell refreshes itself; with it set the cell adopts the
/// input.
#[derive(Copy, Clone, Debug)]
pub struct BitRegister {
    dff: DFF,
}

impl View for BitRegister {
    type V = bool;

    closed spec fn view(&self) -> bool {
        self.dff@
    }
}

impl BitRegister {
    /// A fresh bit register holds zero.
    pub fn new() -> (r: BitRegister)
        ensures
            !r@,
    {
        BitRegister { dff: DFF::new() }
    }

    /// Peek at the stored bit without touching it.
    pub fn read(&self) -> (r: bool)
        ensures
            r == self@,
    {
        self.dff.read()
    }

    /// One clock edge: adopt `val` when `load` is set, keep the current
    /// bit when it is clear; report the bit held before either way.
    pub fn clk_cycle(&mut self, val: bool, load: bool) -> (r: bool)
        ensures
            r == old(self)@,
            final(self)@ == (if load {
                val
            } else {
                old(self)@
            }),
    {
        self.dff.clk_cycle(gates::mux(self.dff.read(), val, load))
    }
}

/// A 16-bit word register: 16 loadable bits clocked together under one
/// shared load flag, index 0 the least-significant bit.
#[derive(Copy, Clone, Debug)]
pub struct Register {
    bits: [BitRegister; 16],
}

impl View for Register {
    type V = Seq<bool>;

    closed spec fn view(&self) -> Seq<bool> {
        Seq::new(16, |i: int| self.bits@[i]@)
    }
}

impl Register {
    /// A fresh register holds the zero word.
    pub fn new() -> (r: Register)
        ensures
            r@ == zero_word(),
    {
        let reg = Register { bits: [BitRegister::new(); 16] };
        proof {
            assert(reg@ =~= zero_word());
        }
        reg
    }

    /// One clock edge: all 16 bits adopt `val` when `load` is set and
    /// refresh themselves when it is clear; the returned word is the
    /// register's content as of the start of the cycle.
    pub fn clk_cycle(&mut self, val: &[bool], load: bool) -> (res: [bool; 16])
        requires
            val@.len() == 16,
        ensures
            res@ == old(self)@,
            final(self)@ == (if load {
                val@
            } else {
                old(self)@
            }),
    {
        let mut res = [false; 16];
        let mut i: usize = 0;
        while i < 16
            invariant
                0 <= i <= 16,
                forall|j: int| 0 <= j < i ==> res@[j] == old(self)@[j],
                forall|j: int|
                    0 <= j < i ==> (#[trigger] self.bits@[j])@ == (if load {
                        val@[j]
                    } else {
                        old(self)@[j]
                    }),
                forall|j: int| i <= j < 16 ==> self.bits@[j] == old(self).bits@[j],
            decreases 16 - i,
        {
            let mut b = self.bits[i];
            let o = b.clk_cycle(val[i], load);
            self.bits[i] = b;
            res[i] = o;
            i += 1;
        }
        proof {
            assert(res@ =~= old(self)@);
            if load {
                assert(self@ =~= val@);
            } else {
                assert(self@ =~= old(self)@);
            }
        }
        res
    }
}

/// A 32-bit word register, the double-width sibling of `Register`.
#[derive(Copy, Clone, Debug)]
pub struct Register32 {
    bits: [BitRegister; 32],
}

impl View for Register32 {
    type V = Seq<bool>;

    closed spec fn view(&self) -> Seq<bool> {
        Seq::new(32, |i: int| self.bits@[i]@)
    }
}

impl Register32 {
    /// A fresh register holds 32 zero bits.
    pub fn new() -> (r: Register32)
        ensures
            r@ == Seq::new(32, |i: int| false),
    {
        let reg = Register32 { bits: [BitRegister::new(); 32] };
        proof {
            assert(reg@ =~= Seq::new(32, |i: int| false));
        }
        reg
    }

    /// One clock edge over all 32 bits, as `Register::clk_cycle`.
    pub fn clk_cycle(&mut self, val: &[bool], load: bool) -> (res: [bool; 32])
        requires
            val@.len() == 32,
        ensures
            res@ == old(self)@,
            final(self)@ == (if load {
                val@
            } else {
                old(self)@
            }),
    {
        let mut res = [false; 32];
        let mut i: usize = 0;
        while i < 32
            invariant
                0 <= i <= 32,
                forall|j: int| 0 <= j < i ==> res@[j] == old(self)@[j],
                forall|j: int|
                    0 <= j < i ==> (#[trigger] self.bits@[j])@ == (if load {
                        val@[j]
                    } else {
                        old(self)@[j]
                    }),
                forall|j: int| i <= j < 32 ==> self.bits@[j] == old(self).bits@[j],
            decreases 32 - i,
        {
            let mut b = self.bits[i];
            let o = b.clk_cycle(val[i], load);
            self.bits[i] = b;
            res[i] = o;
            i += 1;
        }
        proof {
            assert(res@ =~= old(self)@);
            if load {
                assert(self@ =~= val@);
            } else {
                assert(self@ =~= old(self)@);
            }
        }
        res
    }
}

/// An 8-word RAM block: 8 word registers behind a demultiplex/multiplex
/// pair keyed on the low 3 address bits, `addr[0]` the least significant.
#[derive(Copy, Clone, Debug)]
pub struct RAM8 {
    words: [Register; 8],
}

impl View for RAM8 {
    type V = Seq<Seq<bool>>;

    closed spec fn view(&self) -> Seq<Seq<bool>> {
        Seq::new(8, |i: int| self.words@[i]@)
    }
}

impl RAM8 {
    /// A fresh block holds 8 zero words.
    pub fn new() -> (r: RAM8)
        ensures
            r@ == zero_mem(8),
    {
        let ram = RAM8 { words: [Register::new(); 8] };
        proof {
            assert(ram@ =~= zero_mem(8));
        }
        ram
    }

    /// One clock edge: report the word addressed by the low 3 bits of
    /// `addr` as of the start of the cycle, and commit `val` there when
    /// `load` is set. Exactly one register sees an asserted load; every
    /// other word is refreshed unchanged.
    pub fn clk_cycle(&mut self, val: &[bool], addr: &[bool], load: bool) -> (out: [bool; 16])
        requires
            val@.len() == 16,
            addr@.len() >= 3,
        ensures
            out@ == mem_read(old(self)@, bits_val(addr@, 3)),
            final(self)@ == mem_step(old(self)@, val@, bits_val(addr@, 3), load),
    {
        let ghost a = bits_val(addr@, 3);
        proof {
            lemma_bits_val_3(addr@);
            assert(a < 8);
        }
        let load_bits = gates::dmux8way(load, addr[2], addr[1], addr[0]);
        let mut res: [[bool; 16]; 8] = [[false; 16]; 8];
        let mut i: usize = 0;
        while i < 8
            invariant
                0 <= i <= 8,
                forall|j: int| 0 <= j < i ==> (#[trigger] res@[j])@ == old(self)@[j],
                forall|j: int|
                    0 <= j < i ==> (#[trigger] self.words@[j])@ == (if load && a == j {
                        val@
                    } else {
                        old(self)@[j]
                    }),
                forall|j: int| i <= j < 8 ==> self.words@[j] == old(self).words@[j],
            decreases 8 - i,
        {
            let mut w = self.words[i];
            let o = w.clk_cycle(val, load_bits[i]);
            self.words[i] = w;
            res[i] = o;
            i += 1;
        }
        let out = gates::mux8way16(&res, (addr[2], addr[1], addr[0]));
        proof {
            assert(out@ == mem_read(old(self)@, a));
            assert(self@ =~= mem_step(old(self)@, val@, a, load));
        }
        out
    }
}

/// A 64-word RAM block: 8 8-word blocks selected by address bits 3..6,
/// most significant first; the whole address is passed to every child,
/// which reads only the bits below its own tier.
#[derive(Copy, Clone, Debug)]
pub struct RAM64 {
    blocks: [RAM8; 8],
}

impl View for RAM64 {
    type V = Seq<Seq<bool>>;

    closed spec fn view(&self) -> Seq<Seq<bool>> {
        Seq::new(64, |x: int| self.blocks@[x / 8]@[x % 8])
    }
}

impl RAM64 {
    /// A fresh block holds 64 zero words.
    pub fn new() -> (r: RAM64)
        ensures
            r@ == zero_mem(64),
    {
        let ram = RAM64 { blocks: [RAM8::new(); 8] };
        proof {
            assert(ram@ =~= zero_mem(64));
        }
        ram
    }

    /// One clock edge: report the word addressed by the low 6 bits of
    /// `addr` as of the start of the cycle, and commit `val` there when
    /// `load` is set. Exactly one child sees an asserted load; every
    /// other leaf word is refreshed unchanged.
    pub fn clk_cycle(&mut self, val: &[bool], addr: &[bool], load: bool) -> (out: [bool; 16])
        requires
            val@.len() == 16,
            addr@.len() >= 6,
        ensures
            out@ == mem_read(old(self)@, bits_val(addr@, 6)),
            final(self)@ == mem_step(old(self)@, val@, bits_val(addr@, 6), load),
    {
        let ghost a = bits_val(addr@, 6);
        let ghost hi = sel3_index(addr@[5], addr@[4], addr@[3]);
        let ghost lo = bits_val(addr@, 3);
        proof {
            lemma_bits_val_split3(addr@, 6);
            lemma_bits_val_bound(addr@, 3);
            lemma2_to64();
            assert(a == lo + 8 * hi);
            assert(lo < 8 && hi < 8);
        }
        let load_bits = gates::dmux8way(load, addr[5], addr[4], addr[3]);
        let mut res: [[bool; 16]; 8] = [[false; 16]; 8];
        let mut i: usize = 0;
        while i < 8
            invariant
                0 <= i <= 8,
                forall|j: int|
                    0 <= j < i ==> (#[trigger] res@[j])@ == mem_read(old(self).blocks@[j]@, lo),
                forall|j: int|
                    0 <= j < i ==> (#[trigger] self.blocks@[j])@ == mem_step(
                        old(self).blocks@[j]@,
                        val@,
                        lo,
                        load && hi == j,
                    ),
                forall|j: int| i <= j < 8 ==> self.blocks@[j] == old(self).blocks@[j],
            decreases 8 - i,
        {
            let mut blk = self.blocks[i];
            let o = blk.clk_cycle(val, addr, load_bits[i]);
            self.blocks[i] = blk;
            res[i] = o;
            i += 1;
        }
        let out = gates::mux8way16(&res, (addr[5], addr[4], addr[3]));
        proof {
            assert(a / 8 == hi && a % 8 == lo);
            assert(out@ == mem_read(old(self)@, a));
            assert forall|x: int| 0 <= x < 64 implies self@[x] == mem_step(
                old(self)@,
                val@,
                a,
                load,
            )[x] by {
                let c = x / 8;
                let off = x % 8;
                assert(0 <= c < 8 && 0 <= off < 8);
                assert(self@[x] == self.blocks@[c]@[off]);
                assert(self.blocks@[c]@ == mem_step(
                    old(self).blocks@[c]@,
                    val@,
                    lo,
                    load && hi == c,
                ));
                if load && c == hi && off == lo {
                    assert(x == a);
                }
            }
            assert(self@ =~= mem_step(old(self)@, val@, a, load));
        }
        out
    }
}

/// A 512-word RAM block: 8 64-word blocks selected by address bits 6..9.
#[derive(Copy, Clone, Debug)]
pub struct RAM512 {
    blocks: [RAM64; 8],
}

impl View for RAM512 {
    type V = Seq<Seq<bool>>;

    closed spec fn view(&self) -> Seq<Seq<bool>> {
        Seq::new(512, |x: int| self.blocks@[x / 64]@[x % 64])
    }
}

impl RAM512 {
    /// A fresh block holds 512 zero words.
    pub fn new() -> (r: RAM512)
        ensures
            r@ == zero_mem(512),
    {
        let ram = RAM512 { blocks: [RAM64::new(); 8] };
        proof {
            assert(ram@ =~= zero_mem(512));
        }
        ram
    }

    /// One clock edge over 512 words, as `RAM64::clk_cycle` with a 9-bit
    /// address.
    pub fn clk_cycle(&mut self, val: &[bool], addr: &[bool], load: bool) -> (out: [bool; 16])
        requires
            val@.len() == 16,
            addr@.len() >= 9,
        ensures
            out@ == mem_read(old(self)@, bits_val(addr@, 9)),
            final(self)@ == mem_step(old(self)@, val@, bits_val(addr@, 9), load),
    {
        let ghost a = bits_val(addr@, 9);
        let ghost hi = sel3_index(addr@[8], addr@[7], addr@[6]);
        let ghost lo = bits_val(addr@, 6);
        proof {
            lemma_bits_val_split3(addr@, 9);
            lemma_bits_val_bound(addr@, 6);
            lemma2_to64();
            assert(a == lo + 64 * hi);
            assert(lo < 64 && hi < 8);
        }
        let load_bits = gates::dmux8way(load, addr[8], addr[7], addr[6]);
        let mut res: [[bool; 16]; 8] = [[false; 16]; 8];
        let mut i: usize = 0;
        while i < 8
            invariant
                0 <= i <= 8,
                forall|j: int|
                    0 <= j < i ==> (#[trigger] res@[j])@ == mem_read(old(self).blocks@[j]@, lo),
                forall|j: int|
                    0 <= j < i ==> (#[trigger] self.blocks@[j])@ == mem_step(
                        old(self).blocks@[j]@,
                        val@,
                        lo,
                        load && hi == j,
                    ),
                forall|j: int| i <= j < 8 ==> self.blocks@[j] == old(self).blocks@[j],
            decreases 8 - i,
        {
            let mut blk = self.blocks[i];
            let o = blk.clk_cycle(val, addr, load_bits[i]);
            self.blocks[i] = blk;
            res[i] = o;
            i += 1;
        }
        let out = gates::mux8way16(&res, (addr[8], addr[7], addr[6]));
        proof {
            assert(a / 64 == hi && a % 64 == lo);
            assert(out@ == mem_read(old(self)@, a));
            assert forall|x: int| 0 <= x < 512 implies self@[x] == mem_step(
                old(self)@,
                val@,
                a,
                load,
            )[x] by {
                let c = x / 64;
                let off = x % 64;
                assert(0 <= c < 8 && 0 <= off < 64);
                assert(self@[x] == self.blocks@[c]@[off]);
                assert(self.blocks@[c]@ == mem_step(
                    old(self).blocks@[c]@,
                    val@,
                    lo,
                    load && hi == c,
                ));
                if load && c == hi && off == lo {
                    assert(x == a);
                }
            }
            assert(self@ =~= mem_step(old(self)@, val@, a, load));
        }
        out
    }
}

/// A 4096-word RAM block: 8 512-word blocks selected by address bits
/// 9..12.
#[derive(Copy, Clone, Debug)]
pub struct RAM4096 {
    blocks: [RAM512; 8],
}

impl View for RAM4096 {
    type V = Seq<Seq<bool>>;

    closed spec fn view(&self) -> Seq<Seq<bool>> {
        Seq::new(4096, |x: int| self.blocks@[x / 512]@[x % 512])
    }
}

impl RAM4096 {
    /// A fresh block holds 4096 zero words.
    pub fn new() -> (r: RAM4096)
        ensures
            r@ == zero_mem(4096),
    {
        let ram = RAM4096 { blocks: [RAM512::new(); 8] };
        proof {
            assert(ram@ =~= zero_mem(4096));
        }
        ram
    }

    /// One clock edge over 4096 words, as `RAM64::clk_cycle` with a
    /// 12-bit address.
    pub fn clk_cycle(&mut self, val: &[bool], addr: &[bool], load: bool) -> (out: [bool; 16])
        requires
            val@.len() == 16,
            addr@.len() >= 12,
        ensures
            out@ == mem_read(old(self)@, bits_val(addr@, 12)),
            final(self)@ == mem_step(old(self)@, val@, bits_val(addr@, 12), load),
    {
        let ghost a = bits_val(addr@, 12);
        let ghost hi = sel3_index(addr@[11], addr@[10], addr@[9]);
        let ghost lo = bits_val(addr@, 9);
        proof {
            lemma_bits_val_split3(addr@, 12);
            lemma_bits_val_bound(addr@, 9);
            lemma2_to64();
            assert(a == lo + 512 * hi);
            assert(lo < 512 && hi < 8);
        }
        let load_bits = gates::dmux8way(load, addr[11], addr[10], addr[9]);
        let mut res: [[bool; 16]; 8] = [[false; 16]; 8];
        let mut i: usize = 0;
        while i < 8
            invariant
                0 <= i <= 8,
                forall|j: int|
                    0 <= j < i ==> (#[trigger] res@[j])@ == mem_read(old(self).blocks@[j]@, lo),
                forall|j: int|
                    0 <= j < i ==> (#[trigger] self.blocks@[j])@ == mem_step(
                        old(self).blocks@[j]@,
                        val@,
                        lo,
                        load && hi == j,
                    ),
                forall|j: int| i <= j < 8 ==> self.blocks@[j] == old(self).blocks@[j],
            decreases 8 - i,
        {
            let mut blk = self.blocks[i];
            let o = blk.clk_cycle(val, addr, load_bits[i]);
            self.blocks[i] = blk;
            res[i] = o;
            i += 1;
        }
        let out = gates::mux8way16(&res, (addr[11], addr[10], addr[9]));
        proof {
            assert(a / 512 == hi && a % 512 == lo);
            assert(out@ == mem_read(old(self)@, a));
            assert forall|x: int| 0 <= x < 4096 implies self@[x] == mem_step(
                old(self)@,
                val@,
                a,
                load,
            )[x] by {
                let c = x / 512;
                let off = x % 512;
                assert(0 <= c < 8 && 0 <= off < 512);
                assert(self@[x] == self.blocks@[c]@[off]);
                assert(self.blocks@[c]@ == mem_step(
                    old(self).blocks@[c]@,
                    val@,
                    lo,
                    load && hi == c,
                ));
                if load && c == hi && off == lo {
                    assert(x == a);
                }
            }
            assert(self@ =~= mem_step(old(self)@, val@, a, load));
        }
        out
    }
}

/// A 16384-word RAM block, the top tier: 4 4096-word blocks selected by
/// address bits 12..14, so the full address is 14 bits wide.
#[derive(Copy, Clone, Debug)]
pub struct RAM16384 {
    blocks: [RAM4096; 4],
}

impl View for RAM16384 {
    type V = Seq<Seq<bool>>;

    closed spec fn view(&self) -> Seq<Seq<bool>> {
        Seq::new(16384, |x: int| self.blocks@[x / 4096]@[x % 4096])
    }
}

impl RAM16384 {
    /// A fresh block holds 16384 zero words.
    pub fn new() -> (r: RAM16384)
        ensures
            r@ == zero_mem(16384),
    {
        let ram = RAM16384 { blocks: [RAM4096::new(); 4] };
        proof {
            assert(ram@ =~= zero_mem(16384));
        }
        ram
    }

    /// One clock edge over 16384 words, as `RAM64::clk_cycle` with a
    /// 14-bit address; this tier fans out 4-wide on the top 2 bits.
    pub fn clk_cycle(&mut self, val: &[bool], addr: &[bool], load: bool) -> (out: [bool; 16])
        requires
            val@.len() == 16,
            addr@.len() >= 14,
        ensures
            out@ == mem_read(old(self)@, bits_val(addr@, 14)),
            final(self)@ == mem_step(old(self)@, val@, bits_val(addr@, 14), load),
    {
        let ghost a = bits_val(addr@, 14);
        let ghost hi = sel2_index(addr@[13], addr@[12]);
        let ghost lo = bits_val(addr@, 12);
        proof {
            lemma_bits_val_split2(addr@, 14);
            lemma_bits_val_bound(addr@, 12);
            lemma2_to64();
            assert(a == lo + 4096 * hi);
            assert(lo < 4096 && hi < 4);
        }
        let load_bits = gates::dmux4way(load, addr[13], addr[12]);
        let mut res: [[bool; 16]; 4] = [[false; 16]; 4];
        let mut i: usize = 0;
        while i < 4
            invariant
                0 <= i <= 4,
                forall|j: int|
                    0 <= j < i ==> (#[trigger] res@[j])@ == mem_read(old(self).blocks@[j]@, lo),
                forall|j: int|
                    0 <= j < i ==> (#[trigger] self.blocks@[j])@ == mem_step(
                        old(self).blocks@[j]@,
                        val@,
                        lo,
                        load && hi == j,
                    ),
                forall|j: int| i <= j < 4 ==> self.blocks@[j] == old(self).blocks@[j],
            decreases 4 - i,
        {
            let mut blk = self.blocks[i];
            let o = blk.clk_cycle(val, addr, load_bits[i]);
            self.blocks[i] = blk;
            res[i] = o;
            i += 1;
        }
        let out = gates::mux4way16(&res, (addr[13], addr[12]));
        proof {
            assert(a / 4096 == hi && a % 4096 == lo);
            assert(out@ == mem_read(old(self)@, a));
            assert forall|x: int| 0 <= x < 16384 implies self@[x] == mem_step(
                old(self)@,
                val@,
                a,
                load,
            )[x] by {
                let c = x / 4096;
                let off = x % 4096;
                assert(0 <= c < 4 && 0 <= off < 4096);
                assert(self@[x] == self.blocks@[c]@[off]);
                assert(self.blocks@[c]@ == mem_step(
                    old(self).blocks@[c]@,
                    val@,
                    lo,
                    load && hi == c,
                ));
                if load && c == hi && off == lo {
                    assert(x == a);
                }
            }
            assert(self@ =~= mem_step(old(self)@, val@, a, load));
        }
        out
    }
}

} // verus!
