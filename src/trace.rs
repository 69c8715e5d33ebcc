use crate::field::{mod_q, Fe};
use crate::symbols::{code, codes, increment, is_symbol, prefix};
use vstd::prelude::*;

verus! {

/// One row of the trace: the encoded symbol, the running balance after it, and the helper
/// cell of the non-negativity argument.
#[derive(Clone, Copy, Debug, PartialEq, Eq)]
pub struct Row {
    pub symbol: Fe,
    pub balance: Fe,
    pub inverse: Fe,
}

/// A full assignment of the circuit's rows.
#[derive(Clone, Debug, PartialEq, Eq)]
pub struct Trace {
    pub rows: Vec<Row>,
}

/// The symbol column, as residues.
pub open spec fn symbol_values(t: Seq<Row>) -> Seq<int> {
    t.map_values(|r: Row| r.symbol.val())
}

/// Every cell holds a canonical encoding.
pub open spec fn all_canonical(t: Seq<Row>) -> bool {
    forall|i: int|
        0 <= i < t.len() ==> {
            &&& (#[trigger] t[i]).symbol.canonical()
            &&& t[i].balance.canonical()
            &&& t[i].inverse.canonical()
        }
}

/// The balance before row `i`: the previous row's, or zero before the first row.
pub open spec fn prev_balance(t: Seq<Row>, i: int) -> int {
    if i == 0 {
        0
    } else {
        t[i - 1].balance.val()
    }
}

/// Accumulation gate: `prev + (ENC_A - ENC_B * symbol) - balance = 0` in the field. It reads
/// the previous row's own balance cell, so the carried balance cannot be replaced.
pub open spec fn accumulation_holds(t: Seq<Row>, i: int) -> bool {
    mod_q(prev_balance(t, i) + increment(t[i].symbol.val()) - t[i].balance.val()) == 0
}

/// `1 - (balance + 1) * inverse`, the term both equations of the non-negativity gate share.
pub open spec fn residual(r: Row) -> int {
    1 - (r.balance.val() + 1) * r.inverse.val()
}

/// Non-negativity gate: `(balance + 1) * residual = 0` and `residual = 0` in the field.
pub open spec fn non_negativity_holds(t: Seq<Row>, i: int) -> bool {
    &&& mod_q((t[i].balance.val() + 1) * residual(t[i])) == 0
    &&& mod_q(residual(t[i])) == 0
}

/// Lookup argument on an active row: `(1, symbol)` is an entry of the alphabet table, so the
/// symbol is a bracket's code.
pub open spec fn lookup_holds(t: Seq<Row>, i: int) -> bool {
    is_symbol(t[i].symbol.val())
}

/// Terminal gate: the last row's balance is zero.
pub open spec fn terminal_holds(t: Seq<Row>) -> bool {
    t.len() > 0 && t[t.len() - 1].balance.val() == 0
}

/// All three per-row constraints hold on row `i`.
pub open spec fn row_holds(t: Seq<Row>, i: int) -> bool {
    &&& accumulation_holds(t, i)
    &&& non_negativity_holds(t, i)
    &&& lookup_holds(t, i)
}

/// Every constraint of the circuit holds.
pub open spec fn satisfied(t: Seq<Row>) -> bool {
    &&& forall|i: int| 0 <= i < t.len() ==> #[trigger] row_holds(t, i)
    &&& terminal_holds(t)
}

/// The helper value for `x`: its inverse, or zero when `x` is zero.
pub open spec fn is_helper(x: int, y: int) -> bool {
    if x == 0 {
        y == 0
    } else {
        mod_q(x * y) == 1
    }
}

/// Row `i` is the one that witness generation assigns for the input `s`.
pub open spec fn witness_row(s: Seq<char>, i: int, r: Row) -> bool {
    &&& r.symbol.canonical() && r.balance.canonical() && r.inverse.canonical()
    &&& r.symbol.val() == code(s[i])
    &&& r.balance.val() == mod_q(prefix(codes(s), i + 1))
    &&& is_helper(mod_q(r.balance.val() + 1), r.inverse.val())
}

/// `t` is the trace that witness generation assigns for the input `s`.
pub open spec fn is_witness(s: Seq<char>, t: Seq<Row>) -> bool {
    &&& t.len() == s.len()
    &&& forall|i: int| 0 <= i < s.len() ==> #[trigger] witness_row(s, i, t[i])
}

} // verus!
