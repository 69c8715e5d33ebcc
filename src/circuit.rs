use crate::field::{lemma_mod_q_add, lemma_mod_q_small, lemma_mod_q_mul, lemma_mod_q_sub, lemma_mod_q_zero, mod_q, Fe};
use crate::laws::{theorem_accepted_iff_balanced, theorem_witness_verdict};
use crate::symbols::{
    balanced, code, codes, is_symbol, increment, prefix, CLOSE_CODE, ENC_A, ENC_B, OPEN_CODE, SENTINEL_CODE,
};
use crate::trace::{
    accumulation_holds, is_witness, lookup_holds, non_negativity_holds, residual, row_holds,
    satisfied, witness_row, Row, Trace,
};
use vstd::prelude::*;

verus! {

/// Why a circuit could not be configured, assigned or satisfied.
#[derive(Clone, Copy, Debug, PartialEq, Eq)]
pub enum CircuitError {
    /// A circuit needs at least one row: the terminal gate sits on the last one.
    ZeroLength,
    /// The input's length differs from the length the circuit was configured for.
    LengthMismatch,
    /// Some constraint does not hold; which one is deliberately not told.
    Unsatisfied,
}

/// The fixed shape of the circuit for one length: the number of rows, the codes of the
/// alphabet table (entry 0 the padding sentinel, tagged 0; entries 1 and 2 the brackets,
/// tagged 1) and the encoder's constants. Built once, then only read.
#[derive(Clone, Copy, Debug)]
pub struct Config {
    len: usize,
    zero: Fe,
    one: Fe,
    enc_a: Fe,
    enc_b: Fe,
    table: [Fe; 3],
}

impl Config {
    #[verifier::type_invariant]
    closed spec fn consistent(self) -> bool {
        &&& self.len > 0
        &&& self.zero.val() == 0
        &&& self.one.val() == 1
        &&& self.enc_a.val() == ENC_A
        &&& self.enc_b.val() == ENC_B
        &&& self.table[0].val() == SENTINEL_CODE
        &&& self.table[1].val() == OPEN_CODE
        &&& self.table[2].val() == CLOSE_CODE
    }

    /// The number of rows.
    pub closed spec fn rows(self) -> nat {
        self.len as nat
    }

    /// Configures the circuit for inputs of `len` symbols; a length of zero is refused.
    pub fn new(len: usize) -> (r: Result<Config, CircuitError>)
        ensures
            len == 0 ==> r == Err::<Config, CircuitError>(CircuitError::ZeroLength),
            len > 0 ==> (r matches Ok(c) && c.rows() == len),
    {
        if len == 0 {
            return Err(CircuitError::ZeroLength);
        }
        let zero = Fe::from_u64(0);
        Ok(Config {
            len,
            zero,
            one: Fe::from_u64(1),
            enc_a: Fe::from_u64(ENC_A),
            enc_b: Fe::from_u64(ENC_B),
            table: [zero, Fe::from_u64(OPEN_CODE), Fe::from_u64(CLOSE_CODE)],
        })
    }

    /// The number of rows.
    pub fn len(&self) -> (r: usize)
        ensures
            r == self.rows(),
            r > 0,
    {
        proof {
            use_type_invariant(self);
        }
        self.len
    }

    /// The symbol encoder: `ENC_A - ENC_B * x` in the field.
    pub fn signed_increment(&self, x: &Fe) -> (r: Fe)
        ensures
            r.val() == mod_q(increment(x.val())),
    {
        proof {
            use_type_invariant(self);
        }
        let bx = self.enc_b.mul(x);
        let r = self.enc_a.sub(&bx);
        proof {
            lemma_mod_q_sub(ENC_A as int, ENC_B * x.val());
        }
        r
    }

    /// Whether `(1, x)` is an entry of the alphabet table, the lookup an active row makes:
    /// whether `x` is a bracket's code.
    pub fn in_alphabet(&self, x: &Fe) -> (r: bool)
        ensures
            r == is_symbol(x.val()),
    {
        proof {
            use_type_invariant(self);
            use_type_invariant(x);
        }
        let (t1, t2) = (self.table[1], self.table[2]);
        let d1 = x.sub(&t1);
        let d2 = x.sub(&t2);
        proof {
            use_type_invariant(&t1);
            use_type_invariant(&t2);
            lemma_mod_q_zero(x.val() - t1.val());
            lemma_mod_q_zero(x.val() - t2.val());
        }
        d1.is_zero() || d2.is_zero()
    }

    /// Witness generation: one pass over the secret input, filling each row with the encoded
    /// symbol, the running balance after it, and the inverse of that balance plus one (zero
    /// where there is none). Fails only when the input's length is not the configured one.
    pub fn assign(&self, input: &[char]) -> (r: Result<Trace, CircuitError>)
        ensures
            input@.len() != self.rows() ==> r == Err::<Trace, CircuitError>(
                CircuitError::LengthMismatch,
            ),
            input@.len() == self.rows() ==> (r matches Ok(t) && is_witness(input@, t.rows@)),
    {
        proof {
            use_type_invariant(self);
        }
        if input.len() != self.len {
            return Err(CircuitError::LengthMismatch);
        }
        let ghost s = input@;
        proof {
            lemma_mod_q_small(0);
        }
        let mut rows: Vec<Row> = Vec::new();
        let mut prev = self.zero;
        let mut i: usize = 0;
        while i < input.len()
            invariant
                s == input@,
                0 <= i <= s.len(),
                rows@.len() == i,
                forall|j: int| 0 <= j < i ==> #[trigger] witness_row(s, j, rows@[j]),
                prev.val() == mod_q(prefix(codes(s), i as int)),
                self.zero.val() == 0,
                self.one.val() == 1,
            decreases s.len() - i,
        {
            let sym = Fe::from_u64(input[i] as u32 as u64);
            let step = self.signed_increment(&sym);
            let balance = prev.add(&step);
            let x = balance.add(&self.one);
            let inverse = match x.invert() {
                Some(y) => y,
                None => self.zero,
            };
            proof {
                use_type_invariant(&sym);
                use_type_invariant(&balance);
                use_type_invariant(&inverse);
                let p = prefix(codes(s), i as int);
                let inc = increment(code(s[i as int]));
                assert(codes(s)[i as int] == code(s[i as int]));
                assert(prefix(codes(s), i + 1) == p + inc);
                lemma_mod_q_add(p, mod_q(inc));
                lemma_mod_q_add(p, inc);
            }
            rows.push(Row { symbol: sym, balance, inverse });
            prev = balance;
            i = i + 1;
        }
        Ok(Trace { rows })
    }

    /// Whether the accumulation gate holds on row `i`.
    pub fn accumulation_at(&self, t: &Trace, i: usize) -> (r: bool)
        requires
            i < t.rows@.len(),
        ensures
            r == accumulation_holds(t.rows@, i as int),
    {
        proof {
            use_type_invariant(self);
        }
        let prev = if i == 0 {
            self.zero
        } else {
            t.rows[i - 1].balance
        };
        let row = t.rows[i];
        let e = prev.add(&self.signed_increment(&row.symbol)).sub(&row.balance);
        proof {
            let inc = increment(row.symbol.val());
            lemma_mod_q_add(prev.val(), inc);
            lemma_mod_q_sub(prev.val() + inc, row.balance.val());
        }
        e.is_zero()
    }

    /// Whether the non-negativity gate holds on row `i`.
    pub fn non_negativity_at(&self, t: &Trace, i: usize) -> (r: bool)
        requires
            i < t.rows@.len(),
        ensures
            r == non_negativity_holds(t.rows@, i as int),
    {
        proof {
            use_type_invariant(self);
        }
        let row = t.rows[i];
        let x = row.balance.add(&self.one);
        let e = self.one.sub(&x.mul(&row.inverse));
        let g = x.mul(&e);
        proof {
            let b1 = row.balance.val() + 1;
            lemma_mod_q_mul(b1, row.inverse.val());
            lemma_mod_q_sub(1, b1 * row.inverse.val());
            assert(e.val() == mod_q(residual(row)));
            lemma_mod_q_mul(b1, mod_q(residual(row)));
            lemma_mod_q_mul(b1, residual(row));
        }
        g.is_zero() && e.is_zero()
    }

    /// Whether the lookup argument holds on row `i`.
    pub fn lookup_at(&self, t: &Trace, i: usize) -> (r: bool)
        requires
            i < t.rows@.len(),
        ensures
            r == lookup_holds(t.rows@, i as int),
    {
        self.in_alphabet(&t.rows[i].symbol)
    }

    /// Whether `t` has the configured number of rows and satisfies every constraint.
    pub fn verify(&self, t: &Trace) -> (r: bool)
        ensures
            r == (t.rows@.len() == self.rows() && satisfied(t.rows@)),
    {
        proof {
            use_type_invariant(self);
        }
        let n = t.rows.len();
        if n != self.len {
            return false;
        }
        let mut i: usize = 0;
        while i < n
            invariant
                n == t.rows@.len(),
                0 <= i <= n,
                forall|j: int| 0 <= j < i ==> #[trigger] row_holds(t.rows@, j),
            decreases n - i,
        {
            let ok = self.accumulation_at(t, i) && self.non_negativity_at(t, i) && self.lookup_at(t, i);
            if !ok {
                assert(!row_holds(t.rows@, i as int));
                return false;
            }
            i = i + 1;
        }
        t.rows[n - 1].balance.is_zero()
    }
}

/// The circuit for inputs of exactly `L` symbols, holding the secret input.
#[derive(Clone, Copy, Debug)]
pub struct BracketCircuit<const L: usize> {
    input: [char; L],
}

impl<const L: usize> BracketCircuit<L> {
    /// The secret input.
    pub closed spec fn input(self) -> Seq<char> {
        self.input@
    }

    /// The circuit holding `input` as its secret.
    pub fn new(input: [char; L]) -> (r: Self)
        ensures
            r.input() == input@,
    {
        BracketCircuit { input }
    }

    /// The secret input.
    pub fn symbols(&self) -> (r: &[char])
        ensures
            r@ == self.input(),
    {
        &self.input
    }

    /// The configuration for `L` rows.
    pub fn configure() -> (r: Result<Config, CircuitError>)
        ensures
            L == 0 ==> r == Err::<Config, CircuitError>(CircuitError::ZeroLength),
            L > 0 ==> (r matches Ok(c) && c.rows() == L),
    {
        Config::new(L)
    }

    /// The witness for this circuit's input under `config`.
    pub fn synthesize(&self, config: &Config) -> (r: Result<Trace, CircuitError>)
        ensures
            L != config.rows() ==> r == Err::<Trace, CircuitError>(CircuitError::LengthMismatch),
            L == config.rows() ==> (r matches Ok(t) && is_witness(self.input(), t.rows@)),
    {
        config.assign(&self.input)
    }

    /// Configures, assigns the witness and checks every constraint: `Ok` exactly when the
    /// input is a balanced bracket sequence.
    pub fn verify(&self) -> (r: Result<(), CircuitError>)
        ensures
            r == (if L == 0 {
                Err(CircuitError::ZeroLength)
            } else if balanced(self.input()) {
                Ok(())
            } else {
                Err(CircuitError::Unsatisfied)
            }),
    {
        let config = match Self::configure() {
            Ok(c) => c,
            Err(e) => return Err(e),
        };
        let trace = match self.synthesize(&config) {
            Ok(t) => t,
            Err(e) => return Err(e),
        };
        proof {
            theorem_witness_verdict(self.input(), trace.rows@);
            theorem_accepted_iff_balanced(self.input());
        }
        if config.verify(&trace) {
            Ok(())
        } else {
            Err(CircuitError::Unsatisfied)
        }
    }
}

} // verus!
