use halo2_proofs::pasta::group::ff::{Field, PrimeField};
use halo2_proofs::pasta::Fq;
use vstd::prelude::*;

verus! {

/// The characteristic `q` of the Vesta base field, the field every cell of the circuit lives in.
pub open spec fn field_modulus() -> nat {
    0x80000000000000000000000000000000 * 0x80000000000000000000000000000000
        + 0x224698fc0994a8dd8c46eb2100000001
}

/// The residue of an integer modulo the field's characteristic.
pub open spec fn mod_q(x: int) -> int {
    x % (field_modulus() as int)
}

/// The number that a little-endian byte string denotes.
pub open spec fn le_value(s: Seq<u8>) -> nat
    decreases s.len(),
{
    if s.len() == 0 {
        0
    } else {
        s[0] as nat + 256 * le_value(s.drop_first())
    }
}

/// Reducing an operand first does not change a sum's residue.
pub proof fn lemma_mod_q_add(a: int, b: int)
    ensures
        mod_q(mod_q(a) + b) == mod_q(a + b),
        mod_q(a + mod_q(b)) == mod_q(a + b),
{
    vstd::arithmetic::div_mod::lemma_add_mod_noop(a, b, field_modulus() as int);
    vstd::arithmetic::div_mod::lemma_add_mod_noop_right(a, b, field_modulus() as int);
    vstd::arithmetic::div_mod::lemma_add_mod_noop_right(b, a, field_modulus() as int);
}

/// Reducing an operand first does not change a difference's residue.
pub proof fn lemma_mod_q_sub(a: int, b: int)
    ensures
        mod_q(mod_q(a) - b) == mod_q(a - b),
        mod_q(a - mod_q(b)) == mod_q(a - b),
{
    let m = field_modulus() as int;
    vstd::arithmetic::div_mod::lemma_sub_mod_noop_right(a, b, m);
    vstd::arithmetic::div_mod::lemma_add_mod_noop_right(-b, a, m);
}

/// Reducing an operand first does not change a product's residue.
pub proof fn lemma_mod_q_mul(a: int, b: int)
    ensures
        mod_q(mod_q(a) * b) == mod_q(a * b),
        mod_q(a * mod_q(b)) == mod_q(a * b),
{
    vstd::arithmetic::div_mod::lemma_mul_mod_noop_left(a, b, field_modulus() as int);
    vstd::arithmetic::div_mod::lemma_mul_mod_noop_right(a, b, field_modulus() as int);
}

/// A number in `[0, q)` is its own residue.
pub proof fn lemma_mod_q_small(x: int)
    requires
        0 <= x < field_modulus(),
    ensures
        mod_q(x) == x,
{
    vstd::arithmetic::div_mod::lemma_small_mod(x as nat, field_modulus());
}

/// The only multiple of `q` strictly between `-q` and `q` is zero.
pub proof fn lemma_mod_q_zero(x: int)
    requires
        -field_modulus() < x < field_modulus(),
    ensures
        (mod_q(x) == 0) == (x == 0),
{
    let m = field_modulus() as int;
    if x < 0 {
        vstd::arithmetic::div_mod::lemma_mod_add_multiples_vanish(x, m);
        vstd::arithmetic::div_mod::lemma_small_mod((m + x) as nat, m as nat);
    } else {
        vstd::arithmetic::div_mod::lemma_small_mod(x as nat, m as nat);
    }
}

/// Two integers are congruent exactly when their difference vanishes modulo `q`.
pub proof fn lemma_mod_q_eq(a: int, b: int)
    ensures
        (mod_q(a - b) == 0) == (mod_q(a) == mod_q(b)),
{
    lemma_mod_q_sub(a, b);
    lemma_mod_q_sub(mod_q(a), b);
    lemma_mod_q_zero(mod_q(a) - mod_q(b));
}

/// Inverses modulo `q` are unique among residues.
pub proof fn lemma_inverse_unique(x: int, y1: int, y2: int)
    requires
        0 <= y1 < field_modulus(),
        0 <= y2 < field_modulus(),
        mod_q(x * y1) == 1,
        mod_q(x * y2) == 1,
    ensures
        y1 == y2,
{
    lemma_mod_q_small(y1);
    lemma_mod_q_small(y2);
    lemma_mod_q_mul(y1, x * y2);
    lemma_mod_q_mul(x * y1, y2);
    assert(y1 * (x * y2) == (x * y1) * y2) by (nonlinear_arith);
    assert(y1 * 1 == y1 && 1 * y2 == y2);
}

/// An element of the Vesta base field, held as its canonical 32-byte little-endian encoding.
#[derive(Clone, Copy, Debug, PartialEq, Eq)]
pub struct Fe {
    repr: [u8; 32],
}

impl Fe {
    /// The little-endian encoding.
    pub closed spec fn bytes(self) -> Seq<u8> {
        self.repr@
    }

    /// The residue this element stands for.
    pub open spec fn val(self) -> int {
        le_value(self.bytes()) as int
    }

    /// The encoding is canonical: it denotes a number below the modulus.
    #[verifier::type_invariant]
    pub open spec fn canonical(self) -> bool {
        self.val() < field_modulus()
    }

    /// The element `v mod q`, which is `v` itself since every `u64` is below `q`.
    pub fn from_u64(v: u64) -> (r: Fe)
        ensures
            r.val() == v,
    {
        fq_from_u64(v)
    }

    /// The sum in the field.
    pub fn add(&self, other: &Fe) -> (r: Fe)
        ensures
            r.val() == mod_q(self.val() + other.val()),
    {
        proof {
            use_type_invariant(self);
            use_type_invariant(other);
        }
        fq_add(self, other)
    }

    /// The difference in the field.
    pub fn sub(&self, other: &Fe) -> (r: Fe)
        ensures
            r.val() == mod_q(self.val() - other.val()),
    {
        proof {
            use_type_invariant(self);
            use_type_invariant(other);
        }
        fq_sub(self, other)
    }

    /// The product in the field.
    pub fn mul(&self, other: &Fe) -> (r: Fe)
        ensures
            r.val() == mod_q(self.val() * other.val()),
    {
        proof {
            use_type_invariant(self);
            use_type_invariant(other);
        }
        fq_mul(self, other)
    }

    /// The multiplicative inverse, or `None` for zero.
    pub fn invert(&self) -> (r: Option<Fe>)
        ensures
            r.is_some() == (self.val() != 0),
            r matches Some(y) ==> mod_q(self.val() * y.val()) == 1,
    {
        proof {
            use_type_invariant(self);
        }
        fq_invert(self)
    }

    /// The canonical little-endian encoding.
    pub fn to_bytes(&self) -> (r: [u8; 32])
        ensures
            r@ == self.bytes(),
    {
        self.repr
    }

    /// Whether this is the additive identity.
    pub fn is_zero(&self) -> (r: bool)
        ensures
            r == (self.val() == 0),
    {
        let mut i: usize = 0;
        while i < 32
            invariant
                0 <= i <= 32,
                self.repr@.len() == 32,
                forall|j: int| 0 <= j < i ==> self.repr@[j] == 0,
            decreases 32 - i,
        {
            if self.repr[i] != 0 {
                proof {
                    lemma_le_value_zero(self.repr@);
                }
                return false;
            }
            i = i + 1;
        }
        proof {
            lemma_le_value_zero(self.repr@);
        }
        true
    }

    /// Elements with the same residue are the same bytes.
    pub proof fn lemma_eq(a: Fe, b: Fe)
        requires
            a.val() == b.val(),
        ensures
            a == b,
    {
        lemma_le_value_injective(a.repr@, b.repr@);
        assert(a.repr =~= b.repr);
    }
}

/// A byte string denotes zero exactly when every byte is zero.
proof fn lemma_le_value_zero(s: Seq<u8>)
    ensures
        (le_value(s) == 0) <==> (forall|j: int| 0 <= j < s.len() ==> s[j] == 0),
    decreases s.len(),
{
    if s.len() > 0 {
        lemma_le_value_zero(s.drop_first());
        if le_value(s) == 0 {
            assert forall|j: int| 0 <= j < s.len() implies s[j] == 0 by {
                if j > 0 {
                    assert(s[j] == s.drop_first()[j - 1]);
                }
            }
        }
        if forall|j: int| 0 <= j < s.len() ==> s[j] == 0 {
            assert forall|j: int| 0 <= j < s.drop_first().len() implies s.drop_first()[j] == 0 by {
                assert(s.drop_first()[j] == s[j + 1]);
            }
        }
    }
}

/// Two byte strings of one length that denote the same number are the same string.
proof fn lemma_le_value_injective(s: Seq<u8>, t: Seq<u8>)
    requires
        s.len() == t.len(),
        le_value(s) == le_value(t),
    ensures
        s == t,
    decreases s.len(),
{
    if s.len() > 0 {
        let a = le_value(s.drop_first());
        let b = le_value(t.drop_first());
        assert(s[0] == t[0] && a == b) by (nonlinear_arith)
            requires
                s[0] as nat + 256 * a == t[0] as nat + 256 * b,
                s[0] < 256,
                t[0] < 256,
        ;
        lemma_le_value_injective(s.drop_first(), t.drop_first());
        assert(s =~= t) by {
            assert forall|j: int| 0 <= j < s.len() implies s[j] == t[j] by {
                if j > 0 {
                    assert(s[j] == s.drop_first()[j - 1]);
                    assert(t[j] == t.drop_first()[j - 1]);
                }
            }
        }
    }
}

/// Relies on `Fq::from(u64)`, the element `v`, and on `PrimeField::to_repr`, its canonical
/// little-endian encoding.
#[verifier::external_body]
fn fq_from_u64(v: u64) -> (r: Fe)
    ensures
        r.val() == v,
{
    Fe { repr: Fq::from(v).to_repr() }
}

/// Relies on `Fq + Fq`, addition modulo `q`; on `PrimeField::from_repr`, which accepts a
/// canonical encoding; and on `PrimeField::to_repr`, which gives one.
#[verifier::external_body]
fn fq_add(a: &Fe, b: &Fe) -> (r: Fe)
    requires
        a.canonical(),
        b.canonical(),
    ensures
        r.val() == mod_q(a.val() + b.val()),
{
    Fe { repr: (Fq::from_repr(a.repr).unwrap() + Fq::from_repr(b.repr).unwrap()).to_repr() }
}

/// Relies on `Fq - Fq`, subtraction modulo `q`; on `PrimeField::from_repr`, which accepts a
/// canonical encoding; and on `PrimeField::to_repr`, which gives one.
#[verifier::external_body]
fn fq_sub(a: &Fe, b: &Fe) -> (r: Fe)
    requires
        a.canonical(),
        b.canonical(),
    ensures
        r.val() == mod_q(a.val() - b.val()),
{
    Fe { repr: (Fq::from_repr(a.repr).unwrap() - Fq::from_repr(b.repr).unwrap()).to_repr() }
}

/// Relies on `Fq * Fq`, multiplication modulo `q`; on `PrimeField::from_repr`, which accepts a
/// canonical encoding; and on `PrimeField::to_repr`, which gives one.
#[verifier::external_body]
fn fq_mul(a: &Fe, b: &Fe) -> (r: Fe)
    requires
        a.canonical(),
        b.canonical(),
    ensures
        r.val() == mod_q(a.val() * b.val()),
{
    Fe { repr: (Fq::from_repr(a.repr).unwrap() * Fq::from_repr(b.repr).unwrap()).to_repr() }
}

/// Relies on `Field::invert` of `Fq`, the multiplicative inverse and none for zero; on
/// `PrimeField::from_repr`, which accepts a canonical encoding; and on `PrimeField::to_repr`,
/// which gives one.
#[verifier::external_body]
fn fq_invert(a: &Fe) -> (r: Option<Fe>)
    requires
        a.canonical(),
    ensures
        r.is_some() == (a.val() != 0),
        r matches Some(y) ==> y.canonical() && mod_q(a.val() * y.val()) == 1,
{
    Option::<Fq>::from(Fq::from_repr(a.repr).unwrap().invert()).map(|y| Fe { repr: y.to_repr() })
}

} // verus!
