//! Conversions between bytes, bit arrays and integers.
//!
//! Words travel through the simulator as arrays of booleans with index 0
//! the least-significant bit, while callers hand bytes over
//! most-significant byte first. These helpers pack and unpack the two
//! forms and derive address bit arrays from integers.

use crate::model::{
    be_bit, bits_val, lemma_bits_val_bound, lemma_bits_val_eq_prefix, lemma_nat_bit_div,
    lemma_nat_bit_mod, lemma_nat_to_bits_val, nat_bit, nat_to_bits,
};
use vstd::arithmetic::div_mod::lemma_multiply_divide_lt;
use vstd::arithmetic::mul::lemma_mul_basics;
use vstd::arithmetic::power2::{lemma2_to64, lemma_pow2_strictly_increases, pow2};
use vstd::bits::{
    lemma_low_bits_mask_values, lemma_u16_low_bits_mask_is_mod, lemma_u16_shr_is_div,
    lemma_u8_low_bits_mask_is_mod, lemma_u8_shr_is_div,
};
use vstd::prelude::*;

verus! {

/// Extract bit `k` of one byte, bit 0 the least significant.
fn u8_bit(byte: u8, k: u8) -> (b: bool)
    requires
        k < 8,
    ensures
        b == nat_bit(byte as nat, k as nat),
{
    proof {
        lemma_u8_shr_is_div(byte, k);
        lemma_u8_low_bits_mask_is_mod(byte >> k, 1);
        lemma_low_bits_mask_values();
        lemma2_to64();
    }
    ((byte >> k) & 1) == 1
}

/// Unpack up to the first two big-endian bytes into a 16-bit word,
/// least-significant bit at index 0; missing bytes read zero.
pub fn bytes_to_boollist(bytes: &[u8]) -> (r: [bool; 16])
    ensures
        forall|p: int| 0 <= p < 16 ==> r@[p] == be_bit(bytes@, 16, p as nat),
{
    let mut boollist = [false; 16];
    let mut j: usize = 0;
    while j < bytes.len() && j < 2
        invariant
            0 <= j <= 2,
            forall|p: int|
                0 <= p < 16 && (15 - p) / 8 < j ==> boollist@[p] == be_bit(bytes@, 16, p as nat),
            forall|p: int| 0 <= p < 16 && (15 - p) / 8 >= j ==> boollist@[p] == false,
        decreases 2 - j,
    {
        let byte = bytes[j];
        let mut i: usize = 0;
        while i < 8
            invariant
                0 <= i <= 8,
                0 <= j < 2,
                j < bytes@.len(),
                byte == bytes@[j as int],
                forall|p: int|
                    0 <= p < 16 && (15 - p) / 8 < j ==> boollist@[p] == be_bit(
                        bytes@,
                        16,
                        p as nat,
                    ),
                forall|p: int|
                    0 <= p < 16 && (15 - p) / 8 == j && p % 8 >= 8 - i ==> boollist@[p] == be_bit(
                        bytes@,
                        16,
                        p as nat,
                    ),
                forall|p: int|
                    0 <= p < 16 && (15 - p) / 8 == j && p % 8 < 8 - i ==> boollist@[p] == false,
                forall|p: int| 0 <= p < 16 && (15 - p) / 8 > j ==> boollist@[p] == false,
            decreases 8 - i,
        {
            let pos = 15 - (8 * j + i);
            boollist[pos] = u8_bit(byte, (7 - i) as u8);
            i += 1;
        }
        j += 1;
    }
    boollist
}

/// Unpack up to the first four big-endian bytes into a 32-bit word,
/// least-significant bit at index 0; missing bytes read zero.
pub fn bytes_to_boollist32(bytes: &[u8]) -> (r: [bool; 32])
    ensures
        forall|p: int| 0 <= p < 32 ==> r@[p] == be_bit(bytes@, 32, p as nat),
{
    let mut boollist = [false; 32];
    let mut j: usize = 0;
    while j < bytes.len() && j < 4
        invariant
            0 <= j <= 4,
            forall|p: int|
                0 <= p < 32 && (31 - p) / 8 < j ==> boollist@[p] == be_bit(bytes@, 32, p as nat),
            forall|p: int| 0 <= p < 32 && (31 - p) / 8 >= j ==> boollist@[p] == false,
        decreases 4 - j,
    {
        let byte = bytes[j];
        let mut i: usize = 0;
        while i < 8
            invariant
                0 <= i <= 8,
                0 <= j < 4,
                j < bytes@.len(),
                byte == bytes@[j as int],
                forall|p: int|
                    0 <= p < 32 && (31 - p) / 8 < j ==> boollist@[p] == be_bit(
                        bytes@,
                        32,
                        p as nat,
                    ),
                forall|p: int|
                    0 <= p < 32 && (31 - p) / 8 == j && p % 8 >= 8 - i ==> boollist@[p] == be_bit(
                        bytes@,
                        32,
                        p as nat,
                    ),
                forall|p: int|
                    0 <= p < 32 && (31 - p) / 8 == j && p % 8 < 8 - i ==> boollist@[p] == false,
                forall|p: int| 0 <= p < 32 && (31 - p) / 8 > j ==> boollist@[p] == false,
            decreases 8 - i,
        {
            let pos = 31 - (8 * j + i);
            boollist[pos] = u8_bit(byte, (7 - i) as u8);
            i += 1;
        }
        j += 1;
    }
    boollist
}

/// Pack eight bits starting at `start`, least-significant first, into one
/// byte.
fn byte_from_bits(bits: &[bool], start: usize) -> (b: u8)
    requires
        start + 8 <= bits@.len(),
    ensures
        b as nat == bits_val(bits@.subrange(start as int, start as int + 8), 8),
{
    let ghost s = bits@.subrange(start as int, start as int + 8);
    let n: usize = bits.len();
    let mut v: u8 = 0;
    let mut p: u8 = 1;
    let mut i: usize = 0;
    proof {
        lemma2_to64();
    }
    while i < 8
        invariant
            0 <= i <= 8,
            start + 8 <= n == bits@.len(),
            s == bits@.subrange(start as int, start as int + 8),
            i < 8 ==> p as nat == pow2(i as nat),
            v as nat == bits_val(s, i as nat),
        decreases 8 - i,
    {
        proof {
            lemma2_to64();
            lemma_bits_val_bound(s, i as nat);
            if i < 7 {
                lemma_pow2_strictly_increases(i as nat, 7);
            }
            lemma_mul_basics(pow2(i as nat) as int);
        }
        if bits[start + i] {
            v = v + p;
        }
        if i < 7 {
            p = p * 2;
        }
        i += 1;
    }
    v
}

/// Pack the first 16 bits into two bytes, most-significant byte first.
pub fn boollist_to_bytes(boollist: &[bool]) -> (r: [u8; 2])
    requires
        boollist@.len() >= 16,
    ensures
        r@[0] as nat == bits_val(boollist@.subrange(8, 16), 8),
        r@[1] as nat == bits_val(boollist@, 8),
{
    let val1 = byte_from_bits(boollist, 0);
    let val2 = byte_from_bits(boollist, 8);
    proof {
        lemma_bits_val_eq_prefix(boollist@.subrange(0, 8), boollist@, 8);
    }
    [val2, val1]
}

/// Pack the first 32 bits into four bytes, most-significant byte first.
pub fn boollist_to_bytes32(boollist: &[bool]) -> (r: [u8; 4])
    requires
        boollist@.len() >= 32,
    ensures
        r@[0] as nat == bits_val(boollist@.subrange(24, 32), 8),
        r@[1] as nat == bits_val(boollist@.subrange(16, 24), 8),
        r@[2] as nat == bits_val(boollist@.subrange(8, 16), 8),
        r@[3] as nat == bits_val(boollist@, 8),
{
    let val1 = byte_from_bits(boollist, 0);
    let val2 = byte_from_bits(boollist, 8);
    let val3 = byte_from_bits(boollist, 16);
    let val4 = byte_from_bits(boollist, 24);
    proof {
        lemma_bits_val_eq_prefix(boollist@.subrange(0, 8), boollist@, 8);
    }
    [val4, val3, val2, val1]
}

/// The 16 address bits of a 16-bit integer, least-significant bit at
/// index 0; the bits carry exactly the integer's value.
pub fn gen_memaddr(val: u16) -> (r: [bool; 16])
    ensures
        forall|i: int| 0 <= i < 16 ==> r@[i] == nat_bit(val as nat, i as nat),
        bits_val(r@, 16) == val,
{
    let byte1: u8 = (val & 0xFF) as u8;
    let byte2: u8 = ((val >> 8u16) & 0xFF) as u8;
    let addr_bits = bytes_to_boollist(&[byte2, byte1]);
    proof {
        lemma2_to64();
        lemma_low_bits_mask_values();
        lemma_u16_low_bits_mask_is_mod(val, 8);
        lemma_u16_shr_is_div(val, 8);
        lemma_multiply_divide_lt(val as int, 256, 256);
        lemma_u16_low_bits_mask_is_mod(val >> 8u16, 8);
        vstd::arithmetic::div_mod::lemma_small_mod((val >> 8u16) as nat, 256);
        assert(byte1 as nat == val as nat % 256);
        assert(byte2 as nat == val as nat / 256);
        assert forall|i: int| 0 <= i < 16 implies addr_bits@[i] == nat_bit(
            val as nat,
            i as nat,
        ) by {
            if i >= 8 {
                assert((15 - i) / 8 == 0);
                lemma_nat_bit_div(val as nat, 8, i as nat);
            } else {
                assert((15 - i) / 8 == 1);
                lemma_nat_bit_mod(val as nat, 8, i as nat);
            }
        }
        lemma_nat_to_bits_val(val as nat, 16);
        assert forall|i: int| 0 <= i < 16 implies addr_bits@[i] == nat_to_bits(
            val as nat,
            16,
        )[i] by {}
        lemma_bits_val_eq_prefix(addr_bits@, nat_to_bits(val as nat, 16), 16);
    }
    addr_bits
}

/// Split a 16-bit integer into its two bytes, most-significant first.
pub fn split_u16(input: u16) -> (r: [u8; 2])
    ensures
        r@[0] as nat == input as nat / 256,
        r@[1] as nat == input as nat % 256,
{
    proof {
        lemma2_to64();
        lemma_low_bits_mask_values();
        lemma_u16_low_bits_mask_is_mod(input, 8);
        lemma_u16_shr_is_div(input, 8);
        lemma_multiply_divide_lt(input as int, 256, 256);
    }
    [(input >> 8u16) as u8, (input & 0xFF) as u8]
}

/// Unpack every byte into eight bits, most-significant bit of each byte
/// first, in byte order.
pub fn bytes_to_boolvec(bytes: &[u8]) -> (r: Vec<bool>)
    ensures
        r@.len() == 8 * bytes@.len(),
        forall|q: int|
            0 <= q < r@.len() ==> r@[q] == nat_bit(bytes@[q / 8] as nat, (7 - q % 8) as nat),
{
    let mut boolvec: Vec<bool> = Vec::new();
    let mut j: usize = 0;
    while j < bytes.len()
        invariant
            0 <= j <= bytes@.len(),
            boolvec@.len() == 8 * j,
            forall|q: int|
                0 <= q < 8 * j ==> boolvec@[q] == nat_bit(bytes@[q / 8] as nat, (7 - q % 8) as nat),
        decreases bytes@.len() - j,
    {
        let byte = bytes[j];
        let mut i: usize = 0;
        while i < 8
            invariant
                0 <= i <= 8,
                0 <= j < bytes@.len(),
                byte == bytes@[j as int],
                boolvec@.len() == 8 * j + i,
                forall|q: int|
                    0 <= q < 8 * j + i ==> boolvec@[q] == nat_bit(
                        bytes@[q / 8] as nat,
                        (7 - q % 8) as nat,
                    ),
            decreases 8 - i,
        {
            boolvec.push(u8_bit(byte, (7 - i) as u8));
            i += 1;
        }
        j += 1;
    }
    boolvec
}

} // verus!
