use vstd::prelude::*;

verus! {

/// The opening bracket.
pub const OPEN: char = '(';

/// The closing bracket.
pub const CLOSE: char = ')';

/// The value of the alphabet table's padding entry.
pub const SENTINEL_CODE: u64 = 0;

/// The code of `OPEN`.
pub const OPEN_CODE: u64 = 40;

/// The code of `CLOSE`.
pub const CLOSE_CODE: u64 = 41;

/// Slope of the symbol encoder `f(x) = ENC_A - ENC_B * x`, solved from
/// `f(OPEN_CODE) = 1` and `f(CLOSE_CODE) = -1`: `ENC_B = 2 / (CLOSE_CODE - OPEN_CODE)`.
pub const ENC_B: u64 = 2;

/// Constant term of the symbol encoder: `ENC_A = 1 + ENC_B * OPEN_CODE`.
pub const ENC_A: u64 = 1 + ENC_B * OPEN_CODE;

/// The code a symbol is entered into the circuit with: its scalar value.
pub open spec fn code(c: char) -> int {
    c as u32 as int
}

/// The codes of a sequence of symbols.
pub open spec fn codes(s: Seq<char>) -> Seq<int> {
    s.map_values(|c: char| code(c))
}

/// The signed increment the encoder polynomial gives a code, over the integers.
pub open spec fn increment(x: int) -> int {
    ENC_A - ENC_B * x
}

/// Membership in the alphabet table, whose entries are pairs of a selector tag and a code:
/// `(0, sentinel)` for the padding rows, `(1, OPEN)` and `(1, CLOSE)` for the symbol rows.
pub open spec fn in_table(tag: int, x: int) -> bool {
    ||| tag == 0 && x == SENTINEL_CODE
    ||| tag == 1 && (x == OPEN_CODE || x == CLOSE_CODE)
}

/// What the lookup of an active row admits: a code paired with tag 1 in the table, that is
/// the code of a bracket. The sentinel serves padding rows only.
pub open spec fn is_symbol(x: int) -> bool {
    in_table(1, x)
}

/// The running balance after the first `n` codes, over the integers.
pub open spec fn prefix(xs: Seq<int>, n: int) -> int
    decreases n,
{
    if n <= 0 {
        0
    } else {
        prefix(xs, n - 1) + increment(xs[n - 1])
    }
}

/// The sequences of codes the circuit accepts: at least one, each a bracket's, no running
/// balance below zero, and a final balance of zero.
pub open spec fn accepted(xs: Seq<int>) -> bool {
    &&& xs.len() > 0
    &&& forall|i: int| 0 <= i < xs.len() ==> is_symbol(#[trigger] xs[i])
    &&& forall|n: int| 1 <= n <= xs.len() ==> #[trigger] prefix(xs, n) >= 0
    &&& prefix(xs, xs.len() as int) == 0
}

/// One of the two bracket symbols.
pub open spec fn admissible(c: char) -> bool {
    c == OPEN || c == CLOSE
}

/// Opens minus closes among the first `n` symbols.
pub open spec fn depth(s: Seq<char>, n: int) -> int
    decreases n,
{
    if n <= 0 {
        0
    } else if s[n - 1] == OPEN {
        depth(s, n - 1) + 1
    } else if s[n - 1] == CLOSE {
        depth(s, n - 1) - 1
    } else {
        depth(s, n - 1)
    }
}

/// A balanced bracket sequence: only brackets, no prefix with more closes than opens, and as
/// many closes as opens in all.
pub open spec fn balanced(s: Seq<char>) -> bool {
    &&& forall|i: int| 0 <= i < s.len() ==> admissible(#[trigger] s[i])
    &&& forall|n: int| 0 <= n <= s.len() ==> #[trigger] depth(s, n) >= 0
    &&& depth(s, s.len() as int) == 0
}

/// The codes of the two brackets, which no other symbol has.
pub proof fn lemma_codes(c: char)
    ensures
        code(OPEN) == OPEN_CODE,
        code(CLOSE) == CLOSE_CODE,
        code(c) == OPEN_CODE ==> c == OPEN,
        code(c) == CLOSE_CODE ==> c == CLOSE,
        0 <= code(c) <= 0x10ffff,
{
    vstd::utf8::char_u32_cast(c, c as u32);
    vstd::utf8::char_is_scalar(c);
}

} // verus!
