//! The mathematical model behind the simulator's contracts.
//!
//! Words and addresses are sequences of bits with index 0 the
//! least-significant bit; a memory is a sequence of 16-bit words. The spec
//! functions here interpret bit sequences as numbers, describe what one
//! clock edge does to a memory, and run whole scripts of clock edges. The
//! proof functions state the laws the memory hierarchy obeys.

use vstd::arithmetic::div_mod::{
    lemma_basic_div, lemma_fundamental_div_mod, lemma_hoist_over_denominator,
    lemma_mod_division_less_than_divisor, lemma_mod_multiples_vanish, lemma_small_mod,
};
use vstd::arithmetic::mul::{
    lemma_mul_is_associative, lemma_mul_is_commutative, lemma_mul_inequality,
};
use vstd::arithmetic::power2::{lemma2_to64, lemma_pow2_adds, lemma_pow2_pos, lemma_pow2_unfold, pow2};
use vstd::prelude::*;

verus! {

/// The numeric weight of a single bit.
pub open spec fn bool_val(b: bool) -> nat {
    if b {
        1
    } else {
        0
    }
}

/// The unsigned value of the first `k` bits of `s`, least-significant
/// bit at index 0.
pub open spec fn bits_val(s: Seq<bool>, k: nat) -> nat
    recommends
        k <= s.len(),
    decreases k,
{
    if k == 0 {
        0
    } else {
        bits_val(s, (k - 1) as nat) + bool_val(s[k - 1]) * pow2((k - 1) as nat)
    }
}

/// Bit `j` of the natural number `n`.
pub open spec fn nat_bit(n: nat, j: nat) -> bool {
    (n / pow2(j)) % 2 == 1
}

/// The `k`-bit binary decomposition of `n`, least-significant bit first.
pub open spec fn nat_to_bits(n: nat, k: nat) -> Seq<bool> {
    Seq::new(k, |i: int| nat_bit(n, i as nat))
}

/// The index a 3-bit selector picks, most-significant selector bit first.
pub open spec fn sel3_index(s1: bool, s2: bool, s3: bool) -> nat {
    4 * bool_val(s1) + 2 * bool_val(s2) + bool_val(s3)
}

/// The index a 2-bit selector picks, most-significant selector bit first.
pub open spec fn sel2_index(s1: bool, s2: bool) -> nat {
    2 * bool_val(s1) + bool_val(s2)
}

/// Pointwise negation of a bit word.
pub open spec fn not_bits(s: Seq<bool>) -> Seq<bool> {
    Seq::new(s.len(), |i: int| !s[i])
}

/// Pointwise conjunction of two equally long bit words.
pub open spec fn and_bits(a: Seq<bool>, b: Seq<bool>) -> Seq<bool>
    recommends
        a.len() == b.len(),
{
    Seq::new(a.len(), |i: int| a[i] && b[i])
}

/// Pointwise disjunction of two equally long bit words.
pub open spec fn or_bits(a: Seq<bool>, b: Seq<bool>) -> Seq<bool>
    recommends
        a.len() == b.len(),
{
    Seq::new(a.len(), |i: int| a[i] || b[i])
}

/// Pointwise exclusive-or of two equally long bit words.
pub open spec fn xor_bits(a: Seq<bool>, b: Seq<bool>) -> Seq<bool>
    recommends
        a.len() == b.len(),
{
    Seq::new(a.len(), |i: int| a[i] != b[i])
}

/// The all-zero 16-bit word.
pub open spec fn zero_word() -> Seq<bool> {
    Seq::new(16, |i: int| false)
}

/// A memory of `n` words, all zero.
pub open spec fn zero_mem(n: nat) -> Seq<Seq<bool>> {
    Seq::new(n, |i: int| zero_word())
}

/// What one clock edge does to a memory of words: with the enable set,
/// the addressed word adopts `value`; without it, nothing changes.
pub open spec fn mem_step(m: Seq<Seq<bool>>, value: Seq<bool>, a: nat, load: bool) -> Seq<
    Seq<bool>,
>
    recommends
        a < m.len(),
{
    if load {
        m.update(a as int, value)
    } else {
        m
    }
}

/// What one clock edge reports: the word held at `a` before the edge.
pub open spec fn mem_read(m: Seq<Seq<bool>>, a: nat) -> Seq<bool>
    recommends
        a < m.len(),
{
    m[a as int]
}

/// The memory left after running a script of (value, address, enable)
/// triples, one clock edge per triple, in order.
pub open spec fn run_steps(m: Seq<Seq<bool>>, script: Seq<(Seq<bool>, nat, bool)>) -> Seq<
    Seq<bool>,
>
    decreases script.len(),
{
    if script.len() == 0 {
        m
    } else {
        run_steps(mem_step(m, script[0].0, script[0].1, script[0].2), script.drop_first())
    }
}

/// The words the same run reports, one per clock edge.
pub open spec fn run_outputs(m: Seq<Seq<bool>>, script: Seq<(Seq<bool>, nat, bool)>) -> Seq<
    Seq<bool>,
>
    decreases script.len(),
{
    if script.len() == 0 {
        Seq::empty()
    } else {
        seq![mem_read(m, script[0].1)] + run_outputs(
            mem_step(m, script[0].0, script[0].1, script[0].2),
            script.drop_first(),
        )
    }
}

/// One-cycle latency: the word read at an address right after a clock
/// edge is the word that edge committed there — the written value when
/// the enable was set, the previous content when it was not.
pub proof fn lemma_one_cycle_latency(m: Seq<Seq<bool>>, value: Seq<bool>, a: nat, load: bool)
    requires
        a < m.len(),
    ensures
        load ==> mem_read(mem_step(m, value, a, load), a) == value,
        !load ==> mem_read(mem_step(m, value, a, load), a) == mem_read(m, a),
{
}

/// Single-writer selection: a write with the enable set lands at its own
/// address and at no other; every distinct address keeps its content.
pub proof fn lemma_single_writer(m: Seq<Seq<bool>>, value: Seq<bool>, a: nat, b: nat)
    requires
        a < m.len(),
        b < m.len(),
        a != b,
    ensures
        mem_read(mem_step(m, value, a, true), a) == value,
        mem_read(mem_step(m, value, a, true), b) == mem_read(m, b),
{
}

/// No-enable idempotence: a script whose enable is never set leaves every
/// word of the memory exactly as it was, whatever its values and
/// addresses.
pub proof fn lemma_no_enable_preserves(m: Seq<Seq<bool>>, script: Seq<(Seq<bool>, nat, bool)>)
    requires
        forall|i: int| 0 <= i < script.len() ==> !(#[trigger] script[i]).2,
    ensures
        run_steps(m, script) == m,
    decreases script.len(),
{
    if script.len() > 0 {
        assert(!script[0].2);
        lemma_no_enable_preserves(m, script.drop_first());
    }
}

/// Determinism: running one and the same script from one and the same
/// memory yields identical output sequences and identical final
/// memories — a replay cannot diverge.
pub proof fn lemma_replay_deterministic(
    m1: Seq<Seq<bool>>,
    m2: Seq<Seq<bool>>,
    script: Seq<(Seq<bool>, nat, bool)>,
)
    requires
        m1 == m2,
    ensures
        run_outputs(m1, script) == run_outputs(m2, script),
        run_steps(m1, script) == run_steps(m2, script),
{
}

/// The value of `k` bits is below `pow2(k)`.
pub proof fn lemma_bits_val_bound(s: Seq<bool>, k: nat)
    ensures
        bits_val(s, k) < pow2(k),
    decreases k,
{
    if k == 0 {
        lemma_pow2_pos(0);
        lemma2_to64();
    } else {
        lemma_bits_val_bound(s, (k - 1) as nat);
        lemma_pow2_unfold(k);
    }
}

/// Bit `j` of the value of `k` bits is the bit the sequence holds there.
pub proof fn lemma_bits_val_bit(s: Seq<bool>, k: nat, j: nat)
    requires
        j < k,
    ensures
        nat_bit(bits_val(s, k), j) == s[j as int],
    decreases k,
{
    lemma_pow2_pos(j);
    let p = pow2(j) as int;
    if j == k - 1 {
        lemma_bits_val_bound(s, (k - 1) as nat);
        let lo = bits_val(s, (k - 1) as nat) as int;
        let b = bool_val(s[k - 1]) as int;
        assert(bits_val(s, k) == lo + b * p);
        lemma_hoist_over_denominator(lo, b, pow2(j));
        lemma_basic_div(lo, p);
        assert(bits_val(s, k) as int / p == b);
        lemma_small_mod(bool_val(s[k - 1]), 2);
    } else {
        lemma_bits_val_bit(s, (k - 1) as nat, j);
        let lo = bits_val(s, (k - 1) as nat) as int;
        let b = bool_val(s[k - 1]) as int;
        lemma_pow2_adds(j, (k - 1 - j) as nat);
        let q = b * pow2((k - 1 - j) as nat) as int;
        assert(b * pow2((k - 1) as nat) as int == q * p) by {
            lemma_mul_is_associative(b, pow2((k - 1 - j) as nat) as int, p);
        }
        assert(bits_val(s, k) == lo + q * p);
        lemma_hoist_over_denominator(lo, q, pow2(j));
        assert(bits_val(s, k) as int / p == lo / p + q);
        let h = b * pow2((k - 2 - j) as nat) as int;
        assert(q == 2 * h) by {
            lemma_pow2_unfold((k - 1 - j) as nat);
            lemma_mul_is_associative(b, 2, pow2((k - 2 - j) as nat) as int);
            lemma_mul_is_commutative(b, 2);
            lemma_mul_is_associative(2, b, pow2((k - 2 - j) as nat) as int);
        }
        assert((2 * h + lo / p) % 2 == (lo / p) % 2) by {
            lemma_mod_multiples_vanish(h, lo / p, 2);
        }
    }
}

/// A sequence of `k` bits is the decomposition of its own value: the
/// value pins the bits down.
pub proof fn lemma_bits_val_inverse(s: Seq<bool>, k: nat)
    requires
        k <= s.len(),
    ensures
        nat_to_bits(bits_val(s, k), k) == s.take(k as int),
{
    assert forall|i: int| 0 <= i < k implies nat_to_bits(bits_val(s, k), k)[i] == s.take(
        k as int,
    )[i] by {
        lemma_bits_val_bit(s, k, i as nat);
    }
    assert(nat_to_bits(bits_val(s, k), k) =~= s.take(k as int));
}

/// The decomposition of a value below `pow2(k)` has that value back.
pub proof fn lemma_nat_to_bits_val(n: nat, k: nat)
    requires
        n < pow2(k),
    ensures
        bits_val(nat_to_bits(n, k), k) == n,
    decreases k,
{
    let s = nat_to_bits(n, k);
    if k == 0 {
        lemma_pow2_pos(0);
        lemma2_to64();
    } else {
        let j = (k - 1) as nat;
        let p = pow2(j) as int;
        let lo = n % pow2(j);
        let q = n / pow2(j);
        lemma_pow2_pos(j);
        lemma_mod_division_less_than_divisor(n as int, p);
        lemma_nat_to_bits_val(lo, j);
        assert(bits_val(s, j) == lo) by {
            assert forall|i: int| 0 <= i < j implies s[i] == #[trigger] nat_to_bits(lo, j)[i] by {
                lemma_nat_bit_mod(n, j, i as nat);
            }
            lemma_bits_val_eq_prefix(s, nat_to_bits(lo, j), j);
        }
        lemma_fundamental_div_mod(n as int, p);
        assert(q < 2) by {
            lemma_pow2_unfold(k);
            if q >= 2 {
                lemma_mul_inequality(2, q as int, p);
                lemma_mul_is_commutative(q as int, p);
            }
        }
        lemma_small_mod(q, 2);
        assert(bool_val(s[k - 1]) == q);
        assert(bits_val(s, k) == lo + bool_val(s[k - 1]) * pow2(j));
        lemma_mul_is_commutative(q as int, p);
    }
}

/// Bit `p` (least-significant first) of a `w`-bit word packed from
/// big-endian bytes: byte 0 carries the word's top eight bits. Positions
/// whose byte is missing read zero.
pub open spec fn be_bit(bytes: Seq<u8>, w: nat, p: nat) -> bool
    recommends
        p < w,
{
    let j = (w - 1 - p) / 8;
    0 <= j < bytes.len() && nat_bit(bytes[j] as nat, p % 8)
}

/// Zero has no bit set.
pub proof fn lemma_nat_bit_zero(j: nat)
    ensures
        !nat_bit(0, j),
{
    lemma_pow2_pos(j);
    vstd::arithmetic::div_mod::lemma_div_of0(pow2(j) as int);
}

/// One has exactly its lowest bit set.
pub proof fn lemma_nat_bit_one(j: nat)
    ensures
        nat_bit(1, j) == (j == 0),
{
    lemma2_to64();
    if j == 0 {
    } else {
        vstd::arithmetic::power2::lemma_pow2_strictly_increases(0, j);
        lemma_basic_div(1, pow2(j) as int);
    }
}

/// Bits at and above `j` of `n` are the bits of `n / pow2(j)`.
pub proof fn lemma_nat_bit_div(n: nat, j: nat, p: nat)
    requires
        j <= p,
    ensures
        nat_bit(n / pow2(j), (p - j) as nat) == nat_bit(n, p),
{
    lemma_pow2_pos(j);
    lemma_pow2_pos((p - j) as nat);
    lemma_pow2_adds(j, (p - j) as nat);
    vstd::arithmetic::div_mod::lemma_div_denominator(
        n as int,
        pow2(j) as int,
        pow2((p - j) as nat) as int,
    );
}

/// Negating every bit of a `k`-bit word complements its value.
pub proof fn lemma_bits_val_not(s: Seq<bool>, k: nat)
    requires
        k <= s.len(),
    ensures
        bits_val(not_bits(s), k) == pow2(k) - 1 - bits_val(s, k),
    decreases k,
{
    lemma2_to64();
    if k > 0 {
        lemma_bits_val_not(s, (k - 1) as nat);
        lemma_pow2_unfold(k);
        vstd::arithmetic::mul::lemma_mul_basics(pow2((k - 1) as nat) as int);
        if s[k - 1] {
            assert(bool_val(not_bits(s)[k - 1]) == 0);
        } else {
            assert(bool_val(not_bits(s)[k - 1]) == 1);
        }
    }
}

/// Three address bits, most significant first, name the index their
/// selector picks.
pub proof fn lemma_bits_val_3(s: Seq<bool>)
    ensures
        bits_val(s, 3) == sel3_index(s[2], s[1], s[0]),
{
    lemma2_to64();
    assert(bits_val(s, 0) == 0);
    assert(bits_val(s, 1) == bits_val(s, 0) + bool_val(s[0]) * pow2(0));
    assert(bits_val(s, 2) == bits_val(s, 1) + bool_val(s[1]) * pow2(1));
    assert(bits_val(s, 3) == bits_val(s, 2) + bool_val(s[2]) * pow2(2));
}

/// Splitting an address at its top three bits: those bits select a block
/// of `pow2(k - 3)` words, the remaining bits address within it.
pub proof fn lemma_bits_val_split3(s: Seq<bool>, k: nat)
    requires
        k >= 3,
    ensures
        bits_val(s, k) == bits_val(s, (k - 3) as nat) + pow2((k - 3) as nat) * sel3_index(
            s[k - 1],
            s[k - 2],
            s[k - 3],
        ),
{
    lemma2_to64();
    let m = (k - 3) as nat;
    let p = pow2(m) as int;
    assert(pow2((m + 1) as nat) == 2 * p) by {
        lemma_pow2_adds(m, 1);
    }
    assert(pow2((m + 2) as nat) == 4 * p) by {
        lemma_pow2_adds(m, 2);
    }
    let a = bool_val(s[k - 3]) as int;
    let b = bool_val(s[k - 2]) as int;
    let c = bool_val(s[k - 1]) as int;
    let v = bits_val(s, k) as int;
    let lo = bits_val(s, m) as int;
    assert(bits_val(s, (m + 1) as nat) == bits_val(s, m) + bool_val(s[k - 3]) * p);
    assert(bits_val(s, (m + 2) as nat) == bits_val(s, (m + 1) as nat) + bool_val(s[k - 2]) * (
    2 * p));
    assert(bits_val(s, k) == bits_val(s, (m + 2) as nat) + bool_val(s[k - 1]) * (4 * p));
    assert(v == lo + p * (4 * c + 2 * b + a)) by (nonlinear_arith)
        requires
            v == lo + a * p + b * (2 * p) + c * (4 * p),
    ;
}

/// Splitting an address at its top two bits: those bits select a block
/// of `pow2(k - 2)` words, the remaining bits address within it.
pub proof fn lemma_bits_val_split2(s: Seq<bool>, k: nat)
    requires
        k >= 2,
    ensures
        bits_val(s, k) == bits_val(s, (k - 2) as nat) + pow2((k - 2) as nat) * sel2_index(
            s[k - 1],
            s[k - 2],
        ),
{
    lemma2_to64();
    let m = (k - 2) as nat;
    let p = pow2(m) as int;
    assert(pow2((m + 1) as nat) == 2 * p) by {
        lemma_pow2_adds(m, 1);
    }
    let a = bool_val(s[k - 2]) as int;
    let b = bool_val(s[k - 1]) as int;
    let v = bits_val(s, k) as int;
    let lo = bits_val(s, m) as int;
    assert(bits_val(s, (m + 1) as nat) == bits_val(s, m) + bool_val(s[k - 2]) * p);
    assert(bits_val(s, k) == bits_val(s, (m + 1) as nat) + bool_val(s[k - 1]) * (2 * p));
    assert(v == lo + p * (2 * b + a)) by (nonlinear_arith)
        requires
            v == lo + a * p + b * (2 * p),
    ;
}

/// Two sequences equal on their first `k` bits have the same value there.
pub proof fn lemma_bits_val_eq_prefix(s: Seq<bool>, t: Seq<bool>, k: nat)
    requires
        forall|i: int| 0 <= i < k ==> s[i] == t[i],
    ensures
        bits_val(s, k) == bits_val(t, k),
    decreases k,
{
    if k > 0 {
        lemma_bits_val_eq_prefix(s, t, (k - 1) as nat);
    }
}

/// Bits below `j` of `n` agree with the bits of `n % pow2(j)`.
pub proof fn lemma_nat_bit_mod(n: nat, j: nat, i: nat)
    requires
        i < j,
    ensures
        nat_bit(n % pow2(j), i) == nat_bit(n, i),
{
    lemma_pow2_pos(i);
    lemma_pow2_pos(j);
    let p = pow2(i) as int;
    let lo = (n % pow2(j)) as int;
    let q = (n / pow2(j)) as int;
    lemma_fundamental_div_mod(n as int, pow2(j) as int);
    lemma_pow2_adds(i, (j - i) as nat);
    let f = q * pow2((j - i) as nat) as int;
    assert(pow2(j) as int * q == f * p) by {
        lemma_mul_is_commutative(pow2(j) as int, q);
        lemma_mul_is_commutative(p, pow2((j - i) as nat) as int);
        lemma_mul_is_associative(q, pow2((j - i) as nat) as int, p);
    }
    assert(n == lo + f * p);
    lemma_hoist_over_denominator(lo, f, pow2(i));
    assert(n as int / p == lo / p + f);
    let h = q * pow2((j - i - 1) as nat) as int;
    assert(f == 2 * h) by {
        lemma_pow2_unfold((j - i) as nat);
        lemma_mul_is_associative(q, 2, pow2((j - i - 1) as nat) as int);
        lemma_mul_is_commutative(q, 2);
        lemma_mul_is_associative(2, q, pow2((j - i - 1) as nat) as int);
    }
    assert((2 * h + lo / p) % 2 == (lo / p) % 2) by {
        lemma_mod_multiples_vanish(h, lo / p, 2);
    }
}

} // verus!
