use crate::field::{
    lemma_inverse_unique, lemma_mod_q_add, lemma_mod_q_eq, lemma_mod_q_mul, lemma_mod_q_small,
    lemma_mod_q_sub, lemma_mod_q_zero, mod_q, Fe,
};
use crate::symbols::{
    accepted, admissible, balanced, code, codes, depth, increment, is_symbol, lemma_codes, prefix,
};
use crate::trace::{
    accumulation_holds, all_canonical, is_helper, is_witness, lookup_holds, non_negativity_holds,
    prev_balance, residual, row_holds, satisfied, symbol_values, witness_row, Row,
};
use vstd::prelude::*;

verus! {

/// With every code a bracket's, each step is `+1` or `-1`.
proof fn lemma_prefix_bounds(xs: Seq<int>, n: int)
    requires
        forall|i: int| 0 <= i < xs.len() ==> is_symbol(#[trigger] xs[i]),
        0 <= n <= xs.len(),
    ensures
        -n <= prefix(xs, n) <= n,
    decreases n,
{
    if n > 0 {
        lemma_prefix_bounds(xs, n - 1);
        assert(is_symbol(xs[n - 1]));
    }
}

/// Steps never fall by more than one, so a balance that never hits `-1` never goes below zero.
proof fn lemma_no_dip(xs: Seq<int>, n: int)
    requires
        forall|i: int| 0 <= i < xs.len() ==> is_symbol(#[trigger] xs[i]),
        forall|k: int| 1 <= k <= xs.len() ==> #[trigger] prefix(xs, k) != -1,
        0 <= n <= xs.len(),
    ensures
        prefix(xs, n) >= 0,
    decreases n,
{
    if n > 0 {
        lemma_no_dip(xs, n - 1);
        assert(is_symbol(xs[n - 1]));
        assert(prefix(xs, n) != -1);
    }
}

/// For codes of brackets and a length that fits a `usize`, the field's view of the balances
/// (no balance plus one vanishes, the last balance vanishes) is the integers' view.
proof fn lemma_residues_verdict(xs: Seq<int>)
    requires
        forall|i: int| 0 <= i < xs.len() ==> is_symbol(#[trigger] xs[i]),
        0 < xs.len() <= usize::MAX,
    ensures
        accepted(xs) == ((forall|k: int| 1 <= k <= xs.len() ==> #[trigger] mod_q(prefix(xs, k) + 1) != 0)
            && mod_q(prefix(xs, xs.len() as int)) == 0),
{
    let n = xs.len() as int;
    assert forall|k: int| 1 <= k <= n implies (#[trigger] mod_q(prefix(xs, k) + 1) != 0) == (
    prefix(xs, k) != -1) by {
        lemma_prefix_bounds(xs, k);
        lemma_mod_q_zero(prefix(xs, k) + 1);
    }
    lemma_prefix_bounds(xs, n);
    lemma_mod_q_zero(prefix(xs, n));
    if accepted(xs) {
        assert forall|k: int| 1 <= k <= n implies #[trigger] mod_q(prefix(xs, k) + 1) != 0 by {
            assert(prefix(xs, k) >= 0);
        }
    }
    if forall|k: int| 1 <= k <= n ==> #[trigger] mod_q(prefix(xs, k) + 1) != 0 {
        assert forall|k: int| 1 <= k <= n implies #[trigger] prefix(xs, k) != -1 by {
            assert(mod_q(prefix(xs, k) + 1) != 0);
        }
        assert forall|k: int| 1 <= k <= n implies #[trigger] prefix(xs, k) >= 0 by {
            lemma_no_dip(xs, k);
        }
    }
}

/// Where the accumulation gate holds on the first `k` rows, each of their balances is the
/// running sum of the symbols' increments, reduced modulo `q`.
proof fn lemma_balances_track(t: Seq<Row>, k: int)
    requires
        all_canonical(t),
        0 <= k <= t.len(),
        forall|i: int| 0 <= i < k ==> #[trigger] accumulation_holds(t, i),
    ensures
        forall|i: int| 0 <= i < k ==> (#[trigger] t[i]).balance.val() == mod_q(prefix(symbol_values(t), i + 1)),
    decreases k,
{
    if k > 0 {
        lemma_balances_track(t, k - 1);
        let i = k - 1;
        let xs = symbol_values(t);
        let inc = increment(t[i].symbol.val());
        assert(xs[i] == t[i].symbol.val());
        assert(accumulation_holds(t, i));
        assert(t[i].balance.canonical());
        lemma_mod_q_eq(prev_balance(t, i) + inc, t[i].balance.val());
        lemma_mod_q_small(t[i].balance.val());
        if i == 0 {
            lemma_mod_q_small(0);
        } else {
            lemma_mod_q_add(prefix(xs, i), inc);
        }
    }
}

/// The non-negativity gate can only hold where the balance plus one is invertible.
proof fn lemma_gate_needs_inverse(r: Row)
    requires
        mod_q(r.balance.val() + 1) == 0,
    ensures
        mod_q(residual(r)) == 1,
{
    let b1 = r.balance.val() + 1;
    lemma_mod_q_mul(b1, r.inverse.val());
    lemma_mod_q_small(0);
    lemma_mod_q_small(1);
    assert(mod_q(b1) * r.inverse.val() == 0);
    lemma_mod_q_sub(1, b1 * r.inverse.val());
}

/// On a row whose helper cell holds the inverse of the balance plus one (or zero), the
/// non-negativity gate holds exactly when the balance plus one is not zero.
proof fn lemma_gate_with_helper(t: Seq<Row>, i: int)
    requires
        0 <= i < t.len(),
        is_helper(mod_q(t[i].balance.val() + 1), t[i].inverse.val()),
    ensures
        non_negativity_holds(t, i) == (mod_q(t[i].balance.val() + 1) != 0),
{
    let r = t[i];
    let b1 = r.balance.val() + 1;
    if mod_q(b1) == 0 {
        lemma_gate_needs_inverse(r);
    } else {
        lemma_mod_q_mul(b1, r.inverse.val());
        lemma_mod_q_sub(1, b1 * r.inverse.val());
        lemma_mod_q_small(0);
        assert(mod_q(residual(r)) == 0);
        lemma_mod_q_mul(b1, residual(r));
    }
}

/// Soundness: whatever trace satisfies every constraint, its symbol column is a sequence the
/// circuit accepts (table entries only, balance never below zero, ending at zero).
pub proof fn theorem_sound(t: Seq<Row>)
    requires
        all_canonical(t),
        t.len() <= usize::MAX,
        satisfied(t),
    ensures
        accepted(symbol_values(t)),
{
    let xs = symbol_values(t);
    let n = t.len() as int;
    assert forall|i: int| 0 <= i < n implies #[trigger] accumulation_holds(t, i) by {
        assert(row_holds(t, i));
    }
    lemma_balances_track(t, n);
    assert forall|i: int| 0 <= i < n implies is_symbol(#[trigger] xs[i]) by {
        assert(row_holds(t, i));
    }
    assert forall|k: int| 1 <= k <= n implies #[trigger] mod_q(prefix(xs, k) + 1) != 0 by {
        let i = k - 1;
        assert(row_holds(t, i));
        lemma_mod_q_add(prefix(xs, k), 1);
        if mod_q(t[i].balance.val() + 1) == 0 {
            lemma_gate_needs_inverse(t[i]);
        }
    }
    lemma_residues_verdict(xs);
}

/// The trace that witness generation assigns for `s` satisfies every constraint exactly when
/// the circuit accepts the codes of `s`.
pub proof fn theorem_witness_verdict(s: Seq<char>, t: Seq<Row>)
    requires
        is_witness(s, t),
        0 < s.len() <= usize::MAX,
    ensures
        satisfied(t) == accepted(codes(s)),
{
    let xs = codes(s);
    let n = s.len() as int;
    assert forall|i: int| 0 <= i < n implies #[trigger] accumulation_holds(t, i) by {
        assert(witness_row(s, i, t[i]));
        assert(xs[i] == code(s[i]));
        let inc = increment(code(s[i]));
        assert(prefix(xs, i + 1) == prefix(xs, i) + inc);
        assert(t[i].balance.canonical());
        if i == 0 {
            lemma_mod_q_small(0);
        } else {
            assert(witness_row(s, i - 1, t[i - 1]));
        }
        assert(mod_q(prev_balance(t, i)) == mod_q(prefix(xs, i))) by {
            if i > 0 {
                lemma_mod_q_small(prev_balance(t, i));
                lemma_mod_q_add(prefix(xs, i), 0);
            }
        }
        lemma_mod_q_add(prefix(xs, i), inc);
        lemma_mod_q_add(prev_balance(t, i), inc);
        lemma_mod_q_eq(prev_balance(t, i) + inc, t[i].balance.val());
        lemma_mod_q_small(t[i].balance.val());
        assert(mod_q(prev_balance(t, i) + inc) == mod_q(prefix(xs, i) + inc));
    }
    assert forall|i: int| 0 <= i < n implies (#[trigger] non_negativity_holds(t, i)) == (mod_q(
        prefix(xs, i + 1) + 1,
    ) != 0) by {
        assert(witness_row(s, i, t[i]));
        lemma_gate_with_helper(t, i);
        lemma_mod_q_add(prefix(xs, i + 1), 1);
    }
    assert forall|i: int| 0 <= i < n implies (#[trigger] lookup_holds(t, i)) == is_symbol(xs[i]) by {
        assert(witness_row(s, i, t[i]));
    }
    assert(witness_row(s, n - 1, t[n - 1]));
    if forall|i: int| 0 <= i < n ==> is_symbol(#[trigger] xs[i]) {
        lemma_residues_verdict(xs);
        if accepted(xs) {
            assert forall|i: int| 0 <= i < n implies #[trigger] row_holds(t, i) by {
                assert(mod_q(prefix(xs, i + 1) + 1) != 0);
            }
        }
        if satisfied(t) {
            assert forall|k: int| 1 <= k <= n implies #[trigger] mod_q(prefix(xs, k) + 1) != 0 by {
                assert(row_holds(t, k - 1));
            }
        }
    } else {
        let i = choose|i: int| 0 <= i < n && !is_symbol(#[trigger] xs[i]);
        if satisfied(t) {
            assert(row_holds(t, i));
        }
    }
}

/// Over the two brackets, the running balance is opens minus closes.
proof fn lemma_prefix_is_depth(s: Seq<char>, n: int)
    requires
        forall|i: int| 0 <= i < s.len() ==> admissible(#[trigger] s[i]),
        0 <= n <= s.len(),
    ensures
        prefix(codes(s), n) == depth(s, n),
    decreases n,
{
    if n > 0 {
        lemma_prefix_is_depth(s, n - 1);
        lemma_codes(s[n - 1]);
        assert(admissible(s[n - 1]));
        assert(codes(s)[n - 1] == code(s[n - 1]));
    }
}

/// The circuit's acceptance agrees with the stack algorithm on every non-empty input: it
/// accepts exactly the balanced bracket sequences.
pub proof fn theorem_accepted_iff_balanced(s: Seq<char>)
    requires
        s.len() > 0,
    ensures
        accepted(codes(s)) == balanced(s),
{
    let xs = codes(s);
    let n = s.len() as int;
    if forall|i: int| 0 <= i < n ==> admissible(#[trigger] s[i]) {
        assert forall|i: int| 0 <= i < n implies is_symbol(#[trigger] xs[i]) by {
            lemma_codes(s[i]);
            assert(admissible(s[i]));
        }
        assert forall|k: int| 0 <= k <= n implies #[trigger] prefix(xs, k) == depth(s, k) by {
            lemma_prefix_is_depth(s, k);
        }
        if accepted(xs) {
            assert forall|k: int| 0 <= k <= n implies #[trigger] depth(s, k) >= 0 by {
                if k > 0 {
                    assert(prefix(xs, k) >= 0);
                }
            }
        }
        if balanced(s) {
            assert forall|k: int| 1 <= k <= n implies #[trigger] prefix(xs, k) >= 0 by {
                assert(depth(s, k) >= 0);
            }
        }
    } else {
        let i = choose|i: int| 0 <= i < n && !admissible(#[trigger] s[i]);
        lemma_codes(s[i]);
        assert(!is_symbol(xs[i]));
    }
}

/// Every balanced bracket sequence of positive length has a witness, and the witness
/// satisfies every constraint.
pub proof fn theorem_balanced_satisfied(s: Seq<char>, t: Seq<Row>)
    requires
        balanced(s),
        0 < s.len() <= usize::MAX,
        is_witness(s, t),
    ensures
        satisfied(t),
{
    theorem_accepted_iff_balanced(s);
    theorem_witness_verdict(s, t);
}

/// A symbol other than the two brackets, the padding sentinel included, fails the lookup on
/// its row, whatever the rest of the sequence, so no trace that carries it is satisfied.
pub proof fn theorem_foreign_symbol_fails_lookup(s: Seq<char>, t: Seq<Row>, i: int)
    requires
        0 <= i < s.len(),
        !admissible(s[i]),
        symbol_values(t) == codes(s),
    ensures
        !lookup_holds(t, i),
        !satisfied(t),
{
    assert(symbol_values(t).len() == t.len());
    assert(symbol_values(t)[i] == t[i].symbol.val());
    assert(codes(s)[i] == code(s[i]));
    lemma_codes(s[i]);
    if satisfied(t) {
        assert(row_holds(t, i));
    }
}

/// In any trace whose symbol column encodes the brackets `s` and whose accumulation gate
/// holds up to row `k`, where `k` ends the first prefix with more closes than opens, the
/// non-negativity gate fails on row `k`.
pub proof fn theorem_first_excess_fails(s: Seq<char>, t: Seq<Row>, k: int)
    requires
        forall|i: int| 0 <= i < s.len() ==> admissible(#[trigger] s[i]),
        0 <= k < s.len(),
        depth(s, k + 1) < 0,
        forall|j: int| 0 <= j <= k ==> #[trigger] depth(s, j) >= 0,
        all_canonical(t),
        symbol_values(t) == codes(s),
        forall|j: int| 0 <= j <= k ==> #[trigger] accumulation_holds(t, j),
    ensures
        !non_negativity_holds(t, k),
{
    assert(symbol_values(t).len() == t.len());
    lemma_balances_track(t, k + 1);
    lemma_prefix_is_depth(s, k + 1);
    assert(depth(s, k) >= 0);
    assert(prefix(codes(s), k + 1) == -1);
    lemma_mod_q_add(-1, 1);
    lemma_mod_q_small(0);
    lemma_gate_needs_inverse(t[k]);
}

/// On the trace that witness generation assigns, the non-negativity gate holds on every row
/// before the first prefix with more closes than opens, and fails on the row that ends it.
pub proof fn theorem_witness_fails_at_first_excess(s: Seq<char>, t: Seq<Row>, k: int)
    requires
        forall|i: int| 0 <= i < s.len() ==> admissible(#[trigger] s[i]),
        s.len() <= usize::MAX,
        0 <= k < s.len(),
        depth(s, k + 1) < 0,
        forall|j: int| 0 <= j <= k ==> #[trigger] depth(s, j) >= 0,
        is_witness(s, t),
    ensures
        forall|j: int| 0 <= j < k ==> #[trigger] non_negativity_holds(t, j),
        !non_negativity_holds(t, k),
{
    let xs = codes(s);
    assert forall|i: int| 0 <= i < xs.len() implies is_symbol(#[trigger] xs[i]) by {
        lemma_codes(s[i]);
        assert(admissible(s[i]));
    }
    assert forall|j: int| 0 <= j <= k implies (#[trigger] non_negativity_holds(t, j)) == (
    depth(s, j + 1) != -1) by {
        assert(witness_row(s, j, t[j]));
        lemma_gate_with_helper(t, j);
        lemma_mod_q_add(prefix(xs, j + 1), 1);
        lemma_prefix_is_depth(s, j + 1);
        lemma_prefix_bounds(xs, j + 1);
        lemma_mod_q_zero(prefix(xs, j + 1) + 1);
    }
    assert forall|j: int| 0 <= j < k implies #[trigger] non_negativity_holds(t, j) by {
        assert(depth(s, j + 1) >= 0);
    }
    assert(depth(s, k) >= 0);
}

/// Equal numbers of opens and closes are not enough: a sequence with as many closes as opens
/// and a prefix with more closes than opens is rejected, by every trace whose symbol column
/// encodes it.
pub proof fn theorem_order_matters(s: Seq<char>, t: Seq<Row>, k: int)
    requires
        s.len() <= usize::MAX,
        depth(s, s.len() as int) == 0,
        0 <= k <= s.len(),
        depth(s, k) < 0,
        all_canonical(t),
        symbol_values(t) == codes(s),
    ensures
        !satisfied(t),
{
    assert(symbol_values(t).len() == t.len());
    if satisfied(t) {
        theorem_sound(t);
        let xs = codes(s);
        assert forall|i: int| 0 <= i < s.len() implies admissible(#[trigger] s[i]) by {
            assert(is_symbol(xs[i]));
            lemma_codes(s[i]);
        }
        lemma_prefix_is_depth(s, k);
        assert(k > 0);
        assert(prefix(xs, k) >= 0);
    }
}

/// Witness generation is deterministic: two traces it could assign for one input are
/// identical, byte for byte.
pub proof fn theorem_witness_deterministic(s: Seq<char>, t1: Seq<Row>, t2: Seq<Row>)
    requires
        is_witness(s, t1),
        is_witness(s, t2),
    ensures
        t1 == t2,
{
    assert forall|i: int| 0 <= i < t1.len() implies #[trigger] t1[i] == t2[i] by {
        assert(witness_row(s, i, t1[i]));
        assert(witness_row(s, i, t2[i]));
        let (a, b) = (t1[i], t2[i]);
        Fe::lemma_eq(a.symbol, b.symbol);
        Fe::lemma_eq(a.balance, b.balance);
        if mod_q(a.balance.val() + 1) != 0 {
            lemma_inverse_unique(
                mod_q(a.balance.val() + 1),
                a.inverse.val(),
                b.inverse.val(),
            );
        }
        Fe::lemma_eq(a.inverse, b.inverse);
    }
    assert(t1 =~= t2);
}

} // verus!
