//! The mathematics of the two counters that enumerate an input space: bit
//! vectors read as binary numbers, and rows of trits read as ternary numbers.
//! Index 0 is the least significant digit in both.

use crate::digital::AndPseudoMatrixValue;
use vstd::arithmetic::power::{lemma_pow0, pow};
use vstd::prelude::*;

verus! {

/// The number of elements of a binary space of `n` bits.
pub open spec fn binary_cardinality(n: nat) -> int {
    pow(2, n)
}

/// The number of elements of a ternary space of `n` trits.
pub open spec fn ternary_cardinality(n: nat) -> int {
    pow(3, n)
}

/// `pow(b, n + 1)` is `b` times `pow(b, n)`.
pub proof fn lemma_pow_step(b: int, n: nat)
    ensures
        pow(b, n + 1) == b * pow(b, n),
{
    reveal(pow);
}

/// The weight of one bit.
pub open spec fn bit_value(b: bool) -> nat {
    if b {
        1
    } else {
        0
    }
}

/// The number that a bit vector stands for, least significant bit first.
pub open spec fn bits_value(s: Seq<bool>) -> nat
    decreases s.len(),
{
    if s.len() == 0 {
        0
    } else {
        bit_value(s[0]) + 2 * bits_value(s.drop_first())
    }
}

/// The bit vector of length `n` that stands for `k` (for its low `n` bits,
/// where `k` does not fit).
pub open spec fn bits_of(k: nat, n: nat) -> Seq<bool>
    decreases n,
{
    if n == 0 {
        Seq::<bool>::empty()
    } else {
        seq![k % 2 == 1] + bits_of(k / 2, (n - 1) as nat)
    }
}

/// The all-false vector of length `n`.
pub open spec fn null_bits(n: nat) -> Seq<bool> {
    Seq::new(n, |i: int| false)
}

/// What one step of the binary counter makes of `s`: the vector of the same
/// length whose number is one more.
pub open spec fn bits_successor(s: Seq<bool>) -> Seq<bool> {
    bits_of(bits_value(s) + 1, s.len())
}

/// A vector of `n` bits stands for a number below `2^n`.
pub proof fn lemma_bits_value_bound(s: Seq<bool>)
    ensures
        bits_value(s) < binary_cardinality(s.len()),
    decreases s.len(),
{
    if s.len() == 0 {
        lemma_pow0(2);
    } else {
        lemma_bits_value_bound(s.drop_first());
        lemma_pow_step(2, (s.len() - 1) as nat);
    }
}

/// `bits_of` has the length asked for.
pub proof fn lemma_bits_of_len(k: nat, n: nat)
    ensures
        bits_of(k, n).len() == n,
    decreases n,
{
    if n > 0 {
        lemma_bits_of_len(k / 2, (n - 1) as nat);
    }
}

/// Reading back the vector written for `k` gives `k`, where `k` fits.
pub proof fn lemma_bits_value_of(k: nat, n: nat)
    requires
        k < binary_cardinality(n),
    ensures
        bits_of(k, n).len() == n,
        bits_value(bits_of(k, n)) == k,
    decreases n,
{
    lemma_bits_of_len(k, n);
    if n == 0 {
        lemma_pow0(2);
    } else {
        let m = (n - 1) as nat;
        lemma_pow_step(2, m);
        lemma_bits_value_of(k / 2, m);
        let s = bits_of(k, n);
        assert(s.drop_first() =~= bits_of(k / 2, m));
    }
}

/// Writing the number of a vector at the vector's length gives the vector.
pub proof fn lemma_bits_of_value(s: Seq<bool>)
    ensures
        bits_of(bits_value(s), s.len()) == s,
    decreases s.len(),
{
    if s.len() == 0 {
        assert(bits_of(bits_value(s), s.len()) =~= s);
    } else {
        let t = s.drop_first();
        lemma_bits_of_value(t);
        let k = bits_value(s);
        assert(k / 2 == bits_value(t));
        assert((k % 2 == 1) == s[0]);
        assert(bits_of(k, s.len()) =~= s);
    }
}

/// Two vectors of one length that stand for the same number are equal.
pub proof fn lemma_bits_value_injective(a: Seq<bool>, b: Seq<bool>)
    requires
        a.len() == b.len(),
        bits_value(a) == bits_value(b),
    ensures
        a == b,
{
    lemma_bits_of_value(a);
    lemma_bits_of_value(b);
}

/// The all-false vector stands for zero.
pub proof fn lemma_null_bits_value(n: nat)
    ensures
        bits_value(null_bits(n)) == 0,
    decreases n,
{
    if n > 0 {
        lemma_null_bits_value((n - 1) as nat);
        assert(null_bits(n).drop_first() =~= null_bits((n - 1) as nat));
    }
}

/// A vector whose bits are all set stands for the last number of its space.
pub proof fn lemma_full_bits_value(s: Seq<bool>)
    requires
        forall|i: int| 0 <= i < s.len() ==> s[i],
    ensures
        bits_value(s) + 1 == binary_cardinality(s.len()),
    decreases s.len(),
{
    if s.len() == 0 {
        lemma_pow0(2);
    } else {
        let t = s.drop_first();
        assert forall|i: int| 0 <= i < t.len() implies t[i] by {
            assert(t[i] == s[i + 1]);
        }
        lemma_full_bits_value(t);
        lemma_pow_step(2, t.len());
    }
}

/// A vector that does not stand for the last number of its space has a clear
/// bit.
pub proof fn lemma_bits_not_full(s: Seq<bool>)
    requires
        bits_value(s) + 1 < binary_cardinality(s.len()),
    ensures
        exists|i: int| 0 <= i < s.len() && !s[i],
{
    if forall|i: int| 0 <= i < s.len() ==> s[i] {
        lemma_full_bits_value(s);
    }
}

/// The ripple carry: setting the lowest clear bit and clearing every bit below
/// it adds one to the number.
pub proof fn lemma_bits_carry(s: Seq<bool>, t: Seq<bool>, i: int)
    requires
        0 <= i < s.len(),
        t.len() == s.len(),
        !s[i],
        t[i],
        forall|j: int| 0 <= j < i ==> s[j] && !t[j],
        forall|j: int| i < j < s.len() ==> t[j] == s[j],
    ensures
        bits_value(t) == bits_value(s) + 1,
        t == bits_successor(s),
    decreases i,
{
    if i == 0 {
        assert(t.drop_first() =~= s.drop_first());
    } else {
        let s1 = s.drop_first();
        let t1 = t.drop_first();
        assert forall|j: int| 0 <= j < i - 1 implies s1[j] && !t1[j] by {
            assert(s1[j] == s[j + 1] && t1[j] == t[j + 1]);
        }
        lemma_bits_carry(s1, t1, i - 1);
    }
    lemma_bits_of_value(t);
}

/// The weight of one trit: absent is 0, required is 1, complemented is 2.
pub open spec fn trit_value(t: AndPseudoMatrixValue) -> nat {
    match t {
        AndPseudoMatrixValue::NEITHER => 0,
        AndPseudoMatrixValue::REQUIRED => 1,
        AndPseudoMatrixValue::COMPLEMENT => 2,
    }
}

/// The trit of a given weight (of its remainder by three).
pub open spec fn trit_of(d: nat) -> AndPseudoMatrixValue {
    if d % 3 == 0 {
        AndPseudoMatrixValue::NEITHER
    } else if d % 3 == 1 {
        AndPseudoMatrixValue::REQUIRED
    } else {
        AndPseudoMatrixValue::COMPLEMENT
    }
}

/// The number that a row of trits stands for, least significant trit first.
pub open spec fn row_value(s: Seq<AndPseudoMatrixValue>) -> nat
    decreases s.len(),
{
    if s.len() == 0 {
        0
    } else {
        trit_value(s[0]) + 3 * row_value(s.drop_first())
    }
}

/// The row of `n` trits that stands for `k` (for its low `n` trits, where `k`
/// does not fit).
pub open spec fn row_of(k: nat, n: nat) -> Seq<AndPseudoMatrixValue>
    decreases n,
{
    if n == 0 {
        Seq::<AndPseudoMatrixValue>::empty()
    } else {
        seq![trit_of(k)] + row_of(k / 3, (n - 1) as nat)
    }
}

/// The row of `n` absent trits: the vacuous product term.
pub open spec fn null_row(n: nat) -> Seq<AndPseudoMatrixValue> {
    Seq::new(n, |i: int| AndPseudoMatrixValue::NEITHER)
}

/// What one step of the ternary counter makes of `s`: the row of the same
/// length whose number is one more.
pub open spec fn row_successor(s: Seq<AndPseudoMatrixValue>) -> Seq<AndPseudoMatrixValue> {
    row_of(row_value(s) + 1, s.len())
}

/// A row of `n` trits stands for a number below `3^n`.
pub proof fn lemma_row_value_bound(s: Seq<AndPseudoMatrixValue>)
    ensures
        row_value(s) < ternary_cardinality(s.len()),
    decreases s.len(),
{
    if s.len() == 0 {
        lemma_pow0(3);
    } else {
        lemma_row_value_bound(s.drop_first());
        lemma_pow_step(3, (s.len() - 1) as nat);
    }
}

/// `row_of` has the length asked for.
pub proof fn lemma_row_of_len(k: nat, n: nat)
    ensures
        row_of(k, n).len() == n,
    decreases n,
{
    if n > 0 {
        lemma_row_of_len(k / 3, (n - 1) as nat);
    }
}

/// Reading back the row written for `k` gives `k`, where `k` fits.
pub proof fn lemma_row_value_of(k: nat, n: nat)
    requires
        k < ternary_cardinality(n),
    ensures
        row_of(k, n).len() == n,
        row_value(row_of(k, n)) == k,
    decreases n,
{
    lemma_row_of_len(k, n);
    if n == 0 {
        lemma_pow0(3);
    } else {
        let m = (n - 1) as nat;
        lemma_pow_step(3, m);
        lemma_row_value_of(k / 3, m);
        let s = row_of(k, n);
        assert(s.drop_first() =~= row_of(k / 3, m));
    }
}

/// Writing the number of a row at the row's length gives the row.
pub proof fn lemma_row_of_value(s: Seq<AndPseudoMatrixValue>)
    ensures
        row_of(row_value(s), s.len()) == s,
    decreases s.len(),
{
    if s.len() == 0 {
        assert(row_of(row_value(s), s.len()) =~= s);
    } else {
        let t = s.drop_first();
        lemma_row_of_value(t);
        let k = row_value(s);
        assert(k / 3 == row_value(t));
        assert(trit_of(k) == s[0]);
        assert(row_of(k, s.len()) =~= s);
    }
}

/// The vacuous row stands for zero.
pub proof fn lemma_null_row_value(n: nat)
    ensures
        row_value(null_row(n)) == 0,
    decreases n,
{
    if n > 0 {
        lemma_null_row_value((n - 1) as nat);
        assert(null_row(n).drop_first() =~= null_row((n - 1) as nat));
    }
}

/// A row whose trits are all complemented stands for the last number of its
/// space.
pub proof fn lemma_full_row_value(s: Seq<AndPseudoMatrixValue>)
    requires
        forall|i: int| 0 <= i < s.len() ==> s[i] == AndPseudoMatrixValue::COMPLEMENT,
    ensures
        row_value(s) + 1 == ternary_cardinality(s.len()),
    decreases s.len(),
{
    if s.len() == 0 {
        lemma_pow0(3);
    } else {
        let t = s.drop_first();
        assert forall|i: int| 0 <= i < t.len() implies t[i]
            == AndPseudoMatrixValue::COMPLEMENT by {
            assert(t[i] == s[i + 1]);
        }
        lemma_full_row_value(t);
        lemma_pow_step(3, t.len());
    }
}

/// A row that does not stand for the last number of its space has a trit that
/// is not complemented.
pub proof fn lemma_row_not_full(s: Seq<AndPseudoMatrixValue>)
    requires
        row_value(s) + 1 < ternary_cardinality(s.len()),
    ensures
        exists|i: int| 0 <= i < s.len() && s[i] != AndPseudoMatrixValue::COMPLEMENT,
{
    if forall|i: int| 0 <= i < s.len() ==> s[i] == AndPseudoMatrixValue::COMPLEMENT {
        lemma_full_row_value(s);
    }
}

/// The ternary carry: advancing the lowest trit that is not complemented and
/// resetting every trit below it adds one to the number.
pub proof fn lemma_row_carry(s: Seq<AndPseudoMatrixValue>, t: Seq<AndPseudoMatrixValue>, i: int)
    requires
        0 <= i < s.len(),
        t.len() == s.len(),
        s[i] != AndPseudoMatrixValue::COMPLEMENT,
        trit_value(t[i]) == trit_value(s[i]) + 1,
        forall|j: int|
            0 <= j < i ==> s[j] == AndPseudoMatrixValue::COMPLEMENT && t[j]
                == AndPseudoMatrixValue::NEITHER,
        forall|j: int| i < j < s.len() ==> t[j] == s[j],
    ensures
        row_value(t) == row_value(s) + 1,
        t == row_successor(s),
    decreases i,
{
    if i == 0 {
        assert(t.drop_first() =~= s.drop_first());
    } else {
        let s1 = s.drop_first();
        let t1 = t.drop_first();
        assert forall|j: int| 0 <= j < i - 1 implies s1[j] == AndPseudoMatrixValue::COMPLEMENT
            && t1[j] == AndPseudoMatrixValue::NEITHER by {
            assert(s1[j] == s[j + 1] && t1[j] == t[j + 1]);
        }
        lemma_row_carry(s1, t1, i - 1);
    }
    lemma_row_of_value(t);
}

/// A row that stands for a number above zero names at least one input.
pub proof fn lemma_row_not_null(s: Seq<AndPseudoMatrixValue>)
    requires
        row_value(s) > 0,
    ensures
        exists|i: int| 0 <= i < s.len() && s[i] != AndPseudoMatrixValue::NEITHER,
{
    if forall|i: int| 0 <= i < s.len() ==> s[i] == AndPseudoMatrixValue::NEITHER {
        assert(s =~= null_row(s.len()));
        lemma_null_row_value(s.len());
    }
}

/// The binary counter of `n` bits after `k` steps from the all-false vector.
pub open spec fn bits_counted(n: nat, k: nat) -> Seq<bool>
    decreases k,
{
    if k == 0 {
        null_bits(n)
    } else {
        bits_successor(bits_counted(n, (k - 1) as nat))
    }
}

/// The binary counter visits the numbers of its space in ascending order:
/// after `k` steps from the all-false vector of length `n`, with `k` below
/// `2^n`, it holds the vector of length `n` that stands for `k`, and unless
/// `k` is the last number it has a clear bit, so that it can step again.
pub proof fn lemma_binary_counter_enumerates(n: nat, k: nat)
    requires
        k < binary_cardinality(n),
    ensures
        bits_counted(n, k).len() == n,
        bits_value(bits_counted(n, k)) == k,
        bits_counted(n, k) == bits_of(k, n),
        k + 1 < binary_cardinality(n) ==> exists|i: int| 0 <= i < n && !bits_counted(n, k)[i],
    decreases k,
{
    if k == 0 {
        lemma_null_bits_value(n);
    } else {
        lemma_binary_counter_enumerates(n, (k - 1) as nat);
        lemma_bits_value_of(k, n);
    }
    lemma_bits_of_value(bits_counted(n, k));
    if k + 1 < binary_cardinality(n) {
        lemma_bits_not_full(bits_counted(n, k));
    }
}

/// The binary counter never repeats: within its space, different numbers of
/// steps give different vectors.
pub proof fn lemma_binary_counter_distinct(n: nat, j: nat, k: nat)
    requires
        j < k < binary_cardinality(n),
    ensures
        bits_counted(n, j) != bits_counted(n, k),
{
    lemma_binary_counter_enumerates(n, j);
    lemma_binary_counter_enumerates(n, k);
}

/// The binary counter reaches every vector of its space: a vector is what the
/// counter holds after as many steps as the number that the vector stands
/// for, which is below `2^n`.
pub proof fn lemma_binary_counter_visits(s: Seq<bool>)
    ensures
        bits_value(s) < binary_cardinality(s.len()),
        bits_counted(s.len(), bits_value(s)) == s,
{
    lemma_bits_value_bound(s);
    lemma_binary_counter_enumerates(s.len(), bits_value(s));
    lemma_bits_of_value(s);
}

/// The ternary counter of `n` trits after `k` steps from the vacuous row.
pub open spec fn row_counted(n: nat, k: nat) -> Seq<AndPseudoMatrixValue>
    decreases k,
{
    if k == 0 {
        null_row(n)
    } else {
        row_successor(row_counted(n, (k - 1) as nat))
    }
}

/// The ternary counter visits the numbers of its space in ascending order:
/// after `k` steps from the vacuous row of length `n`, with `k` below `3^n`,
/// it holds the row of length `n` that stands for `k`; unless `k` is the last
/// number it has a trit that is not complemented, so that it can step again;
/// and after the first step the row names an input, so that skipping the
/// vacuous row leaves `3^n - 1` product terms.
pub proof fn lemma_ternary_counter_enumerates(n: nat, k: nat)
    requires
        k < ternary_cardinality(n),
    ensures
        row_counted(n, k).len() == n,
        row_value(row_counted(n, k)) == k,
        row_counted(n, k) == row_of(k, n),
        k + 1 < ternary_cardinality(n) ==> exists|i: int|
            0 <= i < n && row_counted(n, k)[i] != AndPseudoMatrixValue::COMPLEMENT,
        k > 0 ==> exists|i: int|
            0 <= i < n && row_counted(n, k)[i] != AndPseudoMatrixValue::NEITHER,
    decreases k,
{
    if k == 0 {
        lemma_null_row_value(n);
    } else {
        lemma_ternary_counter_enumerates(n, (k - 1) as nat);
        lemma_row_value_of(k, n);
    }
    lemma_row_of_value(row_counted(n, k));
    if k + 1 < ternary_cardinality(n) {
        lemma_row_not_full(row_counted(n, k));
    }
    if k > 0 {
        lemma_row_not_null(row_counted(n, k));
    }
}

/// The ternary counter never repeats: within its space, different numbers of
/// steps give different rows.
pub proof fn lemma_ternary_counter_distinct(n: nat, j: nat, k: nat)
    requires
        j < k < ternary_cardinality(n),
    ensures
        row_counted(n, j) != row_counted(n, k),
{
    lemma_ternary_counter_enumerates(n, j);
    lemma_ternary_counter_enumerates(n, k);
}

/// The ternary counter reaches every row of its space: a row is what the
/// counter holds after as many steps as the number that the row stands for,
/// which is below `3^n`.
pub proof fn lemma_ternary_counter_visits(s: Seq<AndPseudoMatrixValue>)
    ensures
        row_value(s) < ternary_cardinality(s.len()),
        row_counted(s.len(), row_value(s)) == s,
{
    lemma_row_value_bound(s);
    lemma_ternary_counter_enumerates(s.len(), row_value(s));
    lemma_row_of_value(s);
}

} // verus!
