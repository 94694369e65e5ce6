//! Basis indices and the binary digits that stand for qubits.
//!
//! A basis state of `n` qubits is a number below `2^n`. Read as an `n`-digit
//! binary numeral, its first (most significant) digit is qubit 0 and its last
//! digit is qubit `n - 1`: qubit `q` has weight `2^(n - 1 - q)`.

use vstd::arithmetic::div_mod::{
    lemma_div_denominator, lemma_div_pos_is_pos, lemma_fundamental_div_mod,
    lemma_fundamental_div_mod_converse, lemma_mod_bound, lemma_mod_multiples_vanish,
};
use vstd::arithmetic::power2::{
    lemma2_to64, lemma_pow2_adds, lemma_pow2_pos, lemma_pow2_strictly_increases,
    lemma_pow2_unfold, pow2,
};
use vstd::prelude::*;

verus! {

/// The binary digit of weight `2^pos` in `i`.
pub open spec fn bit_at(i: nat, pos: nat) -> nat {
    (i / pow2(pos)) % 2
}

/// `i` with the digit of weight `2^pos` inverted.
pub open spec fn flip_bit(i: nat, pos: nat) -> nat {
    if bit_at(i, pos) == 0 {
        i + pow2(pos)
    } else {
        (i - pow2(pos)) as nat
    }
}

/// The position, counted from the least significant digit, of qubit `q` among `n`.
pub open spec fn position_of(n: nat, q: nat) -> nat {
    (n - 1 - q) as nat
}

/// The value, 0 or 1, of qubit `q` in basis state `i` of `n` qubits.
pub open spec fn qubit_value(n: nat, q: nat, i: nat) -> nat {
    bit_at(i, position_of(n, q))
}

/// Basis state `i` of `n` qubits with qubit `q` inverted.
pub open spec fn flip_qubit(n: nat, q: nat, i: nat) -> nat {
    flip_bit(i, position_of(n, q))
}

/// Basis state `i` of `n` qubits with qubit `q` set to 0.
pub open spec fn without_qubit(n: nat, q: nat, i: nat) -> nat {
    (i - qubit_value(n, q, i) * pow2(position_of(n, q))) as nat
}

/// Where a controlled-NOT sends basis state `i`: the target qubit is inverted
/// if and only if the control qubit is 1.
pub open spec fn cnot_image(n: nat, control: nat, target: nat, i: nat) -> nat {
    if qubit_value(n, control, i) == 1 {
        flip_qubit(n, target, i)
    } else {
        i
    }
}

/// Where a swap sends basis state `i`: the values of qubits `q1` and `q2`
/// change places.
pub open spec fn swap_image(n: nat, q1: nat, q2: nat, i: nat) -> nat {
    if qubit_value(n, q1, i) != qubit_value(n, q2, i) {
        flip_qubit(n, q2, flip_qubit(n, q1, i))
    } else {
        i
    }
}

/// A number splits at a digit into what stands above it, the digit, and what
/// stands below it.
pub proof fn lemma_split_at_bit(i: nat, pos: nat)
    ensures
        i == (i / pow2(pos + 1)) * pow2(pos + 1) + bit_at(i, pos) * pow2(pos) + i % pow2(pos),
        bit_at(i, pos) == 0 || bit_at(i, pos) == 1,
        i % pow2(pos) < pow2(pos),
{
    let w = pow2(pos) as int;
    lemma_pow2_pos(pos);
    lemma_pow2_unfold(pos + 1);
    lemma_fundamental_div_mod(i as int, w);
    lemma_mod_bound(i as int, w);
    let upper = i as int / w;
    lemma_fundamental_div_mod(upper, 2);
    lemma_div_denominator(i as int, w, 2);
    assert(w * 2 == pow2(pos + 1));
    let h = upper / 2;
    let d = upper % 2;
    assert(i == h * (w * 2) + d * w + (i as int % w)) by (nonlinear_arith)
        requires
            i == w * upper + (i as int % w),
            upper == 2 * h + d,
    ;
}

/// The converse: from the three parts, the digit and the neighbours can be read
/// off.
pub proof fn lemma_join_at_bit(i: nat, pos: nat, high: nat, digit: nat, low: nat)
    requires
        i == high * pow2(pos + 1) + digit * pow2(pos) + low,
        digit <= 1,
        low < pow2(pos),
    ensures
        i / pow2(pos + 1) == high,
        bit_at(i, pos) == digit,
        i % pow2(pos) == low,
{
    let w = pow2(pos) as int;
    lemma_pow2_pos(pos);
    lemma_pow2_unfold(pos + 1);
    assert(i == (2 * high + digit) * w + low) by (nonlinear_arith)
        requires
            i == high * (2 * w) + digit * w + low,
    ;
    lemma_fundamental_div_mod_converse(i as int, w, (2 * high + digit) as int, low as int);
    lemma_fundamental_div_mod_converse((2 * high + digit) as int, 2, high as int, digit as int);
    lemma_div_denominator(i as int, w, 2);
    assert(w * 2 == pow2(pos + 1));
}

/// Inverting a digit inverts it, and leaves what stands above and below.
pub proof fn lemma_flip_bit_parts(i: nat, pos: nat)
    ensures
        bit_at(flip_bit(i, pos), pos) == 1 - bit_at(i, pos),
        flip_bit(i, pos) / pow2(pos + 1) == i / pow2(pos + 1),
        flip_bit(i, pos) % pow2(pos) == i % pow2(pos),
{
    lemma_split_at_bit(i, pos);
    let high = i / pow2(pos + 1);
    let low = i % pow2(pos);
    let w = pow2(pos);
    if bit_at(i, pos) == 0 {
        assert(flip_bit(i, pos) == high * pow2(pos + 1) + 1 * w + low);
        lemma_join_at_bit(flip_bit(i, pos), pos, high, 1, low);
    } else {
        assert(flip_bit(i, pos) == high * pow2(pos + 1) + 0 * w + low);
        lemma_join_at_bit(flip_bit(i, pos), pos, high, 0, low);
    }
}

/// Inverting a digit twice gives the number back.
pub proof fn lemma_flip_bit_twice(i: nat, pos: nat)
    ensures
        flip_bit(flip_bit(i, pos), pos) == i,
{
    lemma_flip_bit_parts(i, pos);
    lemma_split_at_bit(i, pos);
}

/// Inverting one digit leaves every other digit as it was.
pub proof fn lemma_flip_bit_elsewhere(i: nat, pos: nat, other: nat)
    requires
        other != pos,
    ensures
        bit_at(flip_bit(i, pos), other) == bit_at(i, other),
{
    let j = flip_bit(i, pos);
    lemma_flip_bit_parts(i, pos);
    lemma_pow2_pos(pos);
    lemma_pow2_pos(other);
    if other > pos {
        // The digit lies in the part above `pos`, which is unchanged.
        let gap = (other - pos - 1) as nat;
        lemma_pow2_adds(pos + 1, gap);
        lemma_pow2_pos(gap);
        lemma_pow2_pos(pos + 1);
        lemma_div_denominator(i as int, pow2(pos + 1) as int, pow2(gap) as int);
        lemma_div_denominator(j as int, pow2(pos + 1) as int, pow2(gap) as int);
    } else {
        // The digit lies below `pos`; the change is an even multiple of its weight.
        let gap = (pos - other - 1) as nat;
        let w = pow2(other) as int;
        let m = pow2(gap) as int;
        lemma_pow2_adds(other, gap + 1);
        lemma_pow2_unfold(gap + 1);
        lemma_pow2_pos(gap);
        assert(pow2(pos) == w * (2 * m)) by (nonlinear_arith)
            requires
                pow2(pos) == w * pow2(gap + 1),
                pow2(gap + 1) == 2 * m,
        ;
        lemma_split_at_bit(i, pos);
        lemma_fundamental_div_mod(i as int, w);
        lemma_mod_bound(i as int, w);
        let base = i as int / w;
        let rest = i as int % w;
        if bit_at(i, pos) == 0 {
            assert(j == (base + 2 * m) * w + rest) by (nonlinear_arith)
                requires
                    j == i + w * (2 * m),
                    i == w * base + rest,
            ;
            lemma_fundamental_div_mod_converse(j as int, w, base + 2 * m, rest);
            assert((base + 2 * m) % 2 == base % 2) by {
                lemma_mod_multiples_vanish(m, base, 2);
            }
        } else {
            assert(i >= pow2(pos)) by (nonlinear_arith)
                requires
                    i == (i / pow2(pos + 1)) * pow2(pos + 1) + 1 * pow2(pos) + i % pow2(pos),
            ;
            assert(j == (base - 2 * m) * w + rest) by (nonlinear_arith)
                requires
                    j == i - w * (2 * m),
                    i == w * base + rest,
            ;
            lemma_fundamental_div_mod_converse(j as int, w, base - 2 * m, rest);
            assert((base - 2 * m) % 2 == base % 2) by {
                lemma_mod_multiples_vanish(-m, base, 2);
            }
        }
    }
}

/// Inverting a digit below `2^n` keeps a number below `2^n`.
pub proof fn lemma_flip_bit_bound(i: nat, pos: nat, n: nat)
    requires
        pos < n,
        i < pow2(n),
    ensures
        flip_bit(i, pos) < pow2(n),
{
    let j = flip_bit(i, pos);
    let gap = (n - pos - 1) as nat;
    lemma_pow2_adds(pos + 1, gap);
    lemma_pow2_pos(pos + 1);
    lemma_pow2_pos(pos);
    lemma_pow2_unfold(pos + 1);
    lemma_flip_bit_parts(i, pos);
    lemma_split_at_bit(i, pos);
    lemma_split_at_bit(j, pos);
    let high = i / pow2(pos + 1);
    let block = pow2(pos + 1) as int;
    let count = pow2(gap) as int;
    assert(high < count) by (nonlinear_arith)
        requires
            i >= high * block,
            i < block * count,
            block > 0,
    ;
    assert(j < block * count) by (nonlinear_arith)
        requires
            j < high * block + block,
            high + 1 <= count,
            block > 0,
    ;
}

/// Qubits of an `n`-qubit register stand at distinct positions.
pub proof fn lemma_positions_differ(n: nat, q1: nat, q2: nat)
    requires
        q1 < n,
        q2 < n,
        q1 != q2,
    ensures
        position_of(n, q1) != position_of(n, q2),
        position_of(n, q1) < n,
        position_of(n, q2) < n,
{
}

/// Inverting a qubit keeps a basis state within the register, inverts that
/// qubit and no other, and undoes itself.
pub proof fn lemma_flip_qubit(n: nat, q: nat, i: nat)
    requires
        q < n,
        i < pow2(n),
    ensures
        flip_qubit(n, q, i) < pow2(n),
        qubit_value(n, q, flip_qubit(n, q, i)) == 1 - qubit_value(n, q, i),
        forall|r: nat|
            r < n && r != q ==> qubit_value(n, r, flip_qubit(n, q, i)) == qubit_value(n, r, i),
        flip_qubit(n, q, flip_qubit(n, q, i)) == i,
{
    let pos = position_of(n, q);
    lemma_flip_bit_bound(i, pos, n);
    lemma_flip_bit_parts(i, pos);
    lemma_flip_bit_twice(i, pos);
    assert forall|r: nat| r < n && r != q implies qubit_value(n, r, flip_qubit(n, q, i))
        == qubit_value(n, r, i) by {
        lemma_positions_differ(n, q, r);
        lemma_flip_bit_elsewhere(i, pos, position_of(n, r));
    }
}

/// A controlled-NOT keeps every basis state within the register. It leaves
/// every qubit but the target as it was, and adds the control to the target
/// modulo 2.
pub proof fn lemma_cnot_image(n: nat, control: nat, target: nat, i: nat)
    requires
        control < n,
        target < n,
        control != target,
        i < pow2(n),
    ensures
        cnot_image(n, control, target, i) < pow2(n),
        qubit_value(n, target, cnot_image(n, control, target, i)) == (qubit_value(n, target, i)
            + qubit_value(n, control, i)) % 2,
        forall|r: nat|
            r < n && r != target ==> qubit_value(n, r, cnot_image(n, control, target, i))
                == qubit_value(n, r, i),
{
    lemma_flip_qubit(n, target, i);
    lemma_split_at_bit(i, position_of(n, target));
    lemma_split_at_bit(i, position_of(n, control));
}

/// A controlled-NOT is its own inverse.
pub proof fn lemma_cnot_image_twice(n: nat, control: nat, target: nat, i: nat)
    requires
        control < n,
        target < n,
        control != target,
        i < pow2(n),
    ensures
        cnot_image(n, control, target, cnot_image(n, control, target, i)) == i,
{
    lemma_flip_qubit(n, target, i);
}

/// A swap keeps every basis state within the register. Afterwards each of the
/// two qubits holds what the other held, and every other qubit is as it was.
pub proof fn lemma_swap_image(n: nat, q1: nat, q2: nat, i: nat)
    requires
        q1 < n,
        q2 < n,
        i < pow2(n),
    ensures
        swap_image(n, q1, q2, i) < pow2(n),
        qubit_value(n, q1, swap_image(n, q1, q2, i)) == qubit_value(n, q2, i),
        qubit_value(n, q2, swap_image(n, q1, q2, i)) == qubit_value(n, q1, i),
        forall|r: nat|
            r < n && r != q1 && r != q2 ==> qubit_value(n, r, swap_image(n, q1, q2, i))
                == qubit_value(n, r, i),
{
    if qubit_value(n, q1, i) != qubit_value(n, q2, i) {
        let mid = flip_qubit(n, q1, i);
        lemma_flip_qubit(n, q1, i);
        lemma_flip_qubit(n, q2, mid);
        lemma_split_at_bit(i, position_of(n, q1));
        lemma_split_at_bit(i, position_of(n, q2));
    }
}

/// A swap is its own inverse.
pub proof fn lemma_swap_image_twice(n: nat, q1: nat, q2: nat, i: nat)
    requires
        q1 < n,
        q2 < n,
        i < pow2(n),
    ensures
        swap_image(n, q1, q2, swap_image(n, q1, q2, i)) == i,
{
    if qubit_value(n, q1, i) != qubit_value(n, q2, i) {
        // In the image the two qubits differ again, so both are inverted once
        // more; taken in the other order, the four inversions cancel in pairs.
        let a = flip_qubit(n, q1, i);
        lemma_flip_qubit(n, q1, i);
        lemma_flip_qubit(n, q2, a);
        lemma_flips_commute(n, q1, q2, a);
        lemma_flip_qubit(n, q2, i);
    }
}

/// Inverting two different qubits gives the same state in either order.
pub proof fn lemma_flips_commute(n: nat, q1: nat, q2: nat, i: nat)
    requires
        q1 < n,
        q2 < n,
        q1 != q2,
        i < pow2(n),
    ensures
        flip_qubit(n, q1, flip_qubit(n, q2, i)) == flip_qubit(n, q2, flip_qubit(n, q1, i)),
{
    lemma_flip_qubit(n, q1, i);
    lemma_flip_qubit(n, q2, i);
}

/// The number of basis states of `n_qubits` qubits, `2^n_qubits`, if the
/// machine can count that far.
pub fn dimension(n_qubits: usize) -> (dim: Option<usize>)
    ensures
        dim is Some <==> pow2(n_qubits as nat) <= usize::MAX,
        dim matches Some(d) ==> d == pow2(n_qubits as nat),
{
    let mut d: usize = 1;
    let mut k: usize = 0;
    proof {
        lemma2_to64();
    }
    while k < n_qubits
        invariant
            k <= n_qubits,
            d == pow2(k as nat),
        decreases n_qubits - k,
    {
        proof {
            lemma_pow2_unfold((k + 1) as nat);
        }
        if d > usize::MAX / 2 {
            proof {
                if k + 1 < n_qubits {
                    lemma_pow2_strictly_increases(
                        (k + 1) as nat,
                        n_qubits as nat,
                    );
                }
            }
            return None;
        }
        d = d * 2;
        k = k + 1;
    }
    Some(d)
}

/// The weight `2^(n - 1 - q)` of qubit `q` among `n`.
pub(crate) fn weight_of(n: usize, q: usize) -> (w: usize)
    requires
        q < n,
        pow2(n as nat) <= usize::MAX,
    ensures
        w == pow2(position_of(n as nat, q as nat)),
        w > 0,
{
    proof {
        lemma_pow2_pos(position_of(n as nat, q as nat));
        lemma_pow2_strictly_increases(
            position_of(n as nat, q as nat),
            n as nat,
        );
    }
    dimension(n - 1 - q).unwrap()
}

/// The digit of weight `weight` in `i`.
pub(crate) fn digit(i: usize, weight: usize) -> (d: usize)
    requires
        weight > 0,
    ensures
        d == (i as nat / weight as nat) % 2,
        d <= 1,
{
    (i / weight) % 2
}

/// `i` with the digit of weight `weight == 2^pos` inverted.
pub(crate) fn flipped(i: usize, weight: usize, Ghost(pos): Ghost<nat>, Ghost(n): Ghost<nat>) -> (j:
    usize)
    requires
        weight == pow2(pos),
        pos < n,
        i < pow2(n),
        pow2(n) <= usize::MAX,
    ensures
        j == flip_bit(i as nat, pos),
        j < pow2(n),
{
    proof {
        lemma_pow2_pos(pos);
        lemma_flip_bit_bound(i as nat, pos, n);
        lemma_split_at_bit(i as nat, pos);
        if bit_at(i as nat, pos) == 1 {
            let high = (i as nat / pow2(pos + 1)) as int;
            let block = pow2(pos + 1) as int;
            let low = (i as nat % pow2(pos)) as int;
            lemma_pow2_pos(pos + 1);
            lemma_div_pos_is_pos(i as int, block);
            assert(i >= weight) by (nonlinear_arith)
                requires
                    i == high * block + 1 * weight + low,
                    high >= 0,
                    block >= 0,
                    low >= 0,
            ;
        }
    }
    if digit(i, weight) == 0 {
        i + weight
    } else {
        i - weight
    }
}

/// Dropping the last qubit of a register halves the basis state: every
/// other qubit keeps its value, and the state without that qubit is halved
/// too, up to the value of the last qubit.
pub proof fn lemma_drop_last_qubit(n: nat, q: nat, i: nat)
    requires
        q + 1 < n,
    ensures
        qubit_value(n, q, i) == qubit_value((n - 1) as nat, q, i / 2),
        without_qubit(n, q, i) == 2 * without_qubit((n - 1) as nat, q, i / 2) + i % 2,
{
    let pos = position_of((n - 1) as nat, q);
    assert(position_of(n, q) == pos + 1);
    lemma_pow2_unfold(pos + 1);
    lemma_pow2_pos(pos);
    lemma_div_denominator(i as int, 2, pow2(pos) as int);
    lemma_split_at_bit(i / 2, pos);
    let bit = qubit_value(n, q, i);
    assert(bit * pow2(pos + 1) == 2 * (bit * pow2(pos))) by (nonlinear_arith)
        requires
            pow2(pos + 1) == 2 * pow2(pos),
    ;
    let upper = (i / 2) / pow2(pos + 1);
    let block = pow2(pos + 1) as int;
    let lower = (i / 2) % pow2(pos);
    lemma_div_pos_is_pos((i / 2) as int, block);
    lemma_pow2_pos(pos + 1);
    assert(i / 2 >= bit * pow2(pos)) by (nonlinear_arith)
        requires
            i / 2 == upper * block + bit * pow2(pos) + lower,
            upper >= 0,
            block >= 0,
            lower >= 0,
    ;
}

/// The last qubit of a register is the parity of the basis state.
pub proof fn lemma_last_qubit(n: nat, i: nat)
    requires
        n >= 1,
    ensures
        qubit_value(n, (n - 1) as nat, i) == i % 2,
        without_qubit(n, (n - 1) as nat, i) == 2 * (i / 2),
{
    lemma2_to64();
    assert(position_of(n, (n - 1) as nat) == 0);
}

/// Two basis states are each other's image under the inversion of a qubit
/// exactly when they differ in that qubit and in no other.
pub proof fn lemma_flip_qubit_characterized(n: nat, q: nat, i: nat, j: nat)
    requires
        q < n,
    ensures
        j == flip_qubit(n, q, i) <==> without_qubit(n, q, i) == without_qubit(n, q, j)
            && qubit_value(n, q, i) != qubit_value(n, q, j),
{
    let pos = position_of(n, q);
    lemma_split_at_bit(i, pos);
    lemma_split_at_bit(j, pos);
    lemma_flip_bit_parts(i, pos);
    lemma_split_at_bit(flip_bit(i, pos), pos);
}

/// Setting a qubit to 0 gives a basis state of the register in which that
/// qubit is 0, and from which the state it came from is reached by doing
/// nothing or by inverting the qubit.
pub proof fn lemma_without_qubit(n: nat, q: nat, i: nat)
    requires
        q < n,
        i < pow2(n),
    ensures
        without_qubit(n, q, i) <= i,
        qubit_value(n, q, without_qubit(n, q, i)) == 0,
        without_qubit(n, q, without_qubit(n, q, i)) == without_qubit(n, q, i),
        qubit_value(n, q, i) == 0 ==> i == without_qubit(n, q, i),
        qubit_value(n, q, i) != 0 ==> i == flip_qubit(n, q, without_qubit(n, q, i)),
{
    let pos = position_of(n, q);
    lemma_split_at_bit(i, pos);
    let high = i / pow2(pos + 1);
    let low = i % pow2(pos);
    let base = high * pow2(pos + 1) + 0 * pow2(pos) + low;
    lemma_pow2_pos(pos + 1);
    lemma_div_pos_is_pos(i as int, pow2(pos + 1) as int);
    assert(high * pow2(pos + 1) >= 0) by (nonlinear_arith)
        requires
            high >= 0,
    ;
    lemma_join_at_bit(base as nat, pos, high, 0, low);
}

} // verus!
