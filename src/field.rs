//! Elements of the two prime fields of the pasta cycle, held as four
//! little-endian 64-bit words.
use halo2curves::ff::PrimeField;
use halo2curves::pasta::Fp;
use vstd::prelude::*;

verus! {

/// The modulus of the native field (the Pallas base field).
pub open spec fn modulus() -> int {
    words_val(0x992d30ed00000001, 0x224698fc094cf91b, 0, 0x4000000000000000)
}

/// The modulus of the support scalar field (the Pallas scalar field, which is
/// also the base field of Vesta).
pub open spec fn support_modulus() -> int {
    words_val(0x8c46eb2100000001, 0x224698fc0994a8dd, 0, 0x4000000000000000)
}

pub open spec fn word() -> int {
    0x1_0000_0000_0000_0000
}

/// The integer that four little-endian words denote.
pub open spec fn words_val(w0: u64, w1: u64, w2: u64, w3: u64) -> int {
    w0 + w1 * word() + w2 * word() * word() + w3 * word() * word() * word()
}

/// An element of the native field.
#[derive(Clone, Copy, Debug, PartialEq, Eq, Structural)]
pub struct Fe {
    pub w0: u64,
    pub w1: u64,
    pub w2: u64,
    pub w3: u64,
}

/// An element of the support scalar field; it is also a coordinate of a
/// point on the native curve.
#[derive(Clone, Copy, Debug, PartialEq, Eq, Structural)]
pub struct SupportScalar {
    pub w0: u64,
    pub w1: u64,
    pub w2: u64,
    pub w3: u64,
}

/// The words of a value below 2^256.
pub open spec fn fe_of(v: int) -> Fe {
    Fe {
        w0: (v % word()) as u64,
        w1: ((v / word()) % word()) as u64,
        w2: ((v / (word() * word())) % word()) as u64,
        w3: ((v / (word() * word() * word())) % word()) as u64,
    }
}

pub open spec fn fe_zero() -> Fe {
    Fe { w0: 0, w1: 0, w2: 0, w3: 0 }
}

pub open spec fn fe_add(a: Fe, b: Fe) -> Fe {
    fe_of((a.val() + b.val()) % modulus())
}

pub open spec fn fe_mul(a: Fe, b: Fe) -> Fe {
    fe_of((a.val() * b.val()) % modulus())
}

/// The degree-five S-box, computed as `(x^2)^2 * x`.
pub open spec fn fe_pow5(x: Fe) -> Fe {
    let x2 = fe_mul(x, x);
    fe_mul(fe_mul(x2, x2), x)
}

impl Fe {
    pub open spec fn val(self) -> int {
        words_val(self.w0, self.w1, self.w2, self.w3)
    }

    /// The value is a canonical residue.
    pub open spec fn wf(self) -> bool {
        self.val() < modulus()
    }

    pub fn zero() -> (r: Fe)
        ensures
            r == fe_zero(),
            r.val() == 0,
    {
        Fe { w0: 0, w1: 0, w2: 0, w3: 0 }
    }

    /// The field element of a small integer.
    pub fn from_u64(x: u64) -> (r: Fe)
        ensures
            r == (Fe { w0: x, w1: 0, w2: 0, w3: 0 }),
            r.val() == x as int,
            r.wf(),
    {
        Fe { w0: x, w1: 0, w2: 0, w3: 0 }
    }
}

impl SupportScalar {
    pub open spec fn val(self) -> int {
        words_val(self.w0, self.w1, self.w2, self.w3)
    }

    pub open spec fn wf(self) -> bool {
        self.val() < support_modulus()
    }
}

/// Relies on `Fp::from_raw`, `Fp + Fp` and `PrimeField::to_repr`: the sum of
/// the residues, as its canonical little-endian words.
#[verifier::external_body]
pub(crate) fn field_add(a: Fe, b: Fe) -> (r: Fe)
    ensures
        r == fe_add(a, b),
{
    let s = Fp::from_raw([a.w0, a.w1, a.w2, a.w3]) + Fp::from_raw([b.w0, b.w1, b.w2, b.w3]);
    let r = s.to_repr();
    let r = r.as_ref();
    Fe {
        w0: u64::from_le_bytes(r[0..8].try_into().unwrap()),
        w1: u64::from_le_bytes(r[8..16].try_into().unwrap()),
        w2: u64::from_le_bytes(r[16..24].try_into().unwrap()),
        w3: u64::from_le_bytes(r[24..32].try_into().unwrap()),
    }
}

/// Relies on `Fp::from_raw`, `Fp * Fp` and `PrimeField::to_repr`: the product
/// of the residues, as its canonical little-endian words.
#[verifier::external_body]
pub(crate) fn field_mul(a: Fe, b: Fe) -> (r: Fe)
    ensures
        r == fe_mul(a, b),
{
    let s = Fp::from_raw([a.w0, a.w1, a.w2, a.w3]) * Fp::from_raw([b.w0, b.w1, b.w2, b.w3]);
    let r = s.to_repr();
    let r = r.as_ref();
    Fe {
        w0: u64::from_le_bytes(r[0..8].try_into().unwrap()),
        w1: u64::from_le_bytes(r[8..16].try_into().unwrap()),
        w2: u64::from_le_bytes(r[16..24].try_into().unwrap()),
        w3: u64::from_le_bytes(r[24..32].try_into().unwrap()),
    }
}

/// Relies on `PrimeField::from_repr` of `Fp`: it accepts the little-endian
/// bytes of a value exactly when the value is below the modulus.
#[verifier::external_body]
fn from_repr(s: SupportScalar) -> (r: Option<Fe>)
    ensures
        r.is_some() == (s.val() < modulus()),
        r.is_some() ==> r.unwrap() == (Fe { w0: s.w0, w1: s.w1, w2: s.w2, w3: s.w3 }),
{
    let mut bytes = <Fp as PrimeField>::Repr::default();
    bytes.as_mut()[0..8].copy_from_slice(&s.w0.to_le_bytes());
    bytes.as_mut()[8..16].copy_from_slice(&s.w1.to_le_bytes());
    bytes.as_mut()[16..24].copy_from_slice(&s.w2.to_le_bytes());
    bytes.as_mut()[24..32].copy_from_slice(&s.w3.to_le_bytes());
    let r: Option<Fp> = Fp::from_repr(bytes).into();
    r.map(|_| Fe { w0: s.w0, w1: s.w1, w2: s.w2, w3: s.w3 })
}

/// The S-box of the permutation.
pub fn pow5(x: Fe) -> (r: Fe)
    ensures
        r == fe_pow5(x),
{
    let x2 = field_mul(x, x);
    field_mul(field_mul(x2, x2), x)
}

/// Carries a support scalar into the native field, keeping its value; the
/// projection is defined on the values below the native modulus.
pub fn project(s: SupportScalar) -> (r: Option<Fe>)
    ensures
        r.is_some() == (s.val() < modulus()),
        r.is_some() ==> r.unwrap() == (Fe { w0: s.w0, w1: s.w1, w2: s.w2, w3: s.w3 }),
        r.is_some() ==> r.unwrap().val() == s.val() && r.unwrap().wf(),
{
    from_repr(s)
}

} // verus!

verus! {

/// The words of a value below 2^256 denote that value.
pub proof fn lemma_fe_of_val(v: int)
    requires
        0 <= v < word() * word() * word() * word(),
    ensures
        fe_of(v).val() == v,
{
    let w = word();
    vstd::arithmetic::div_mod::lemma_fundamental_div_mod(v, w);
    let q1 = v / w;
    let r0 = v % w;
    assert(0 <= q1) by {
        vstd::arithmetic::div_mod::lemma_div_pos_is_pos(v, w);
    }
    vstd::arithmetic::div_mod::lemma_fundamental_div_mod(q1, w);
    let q2 = q1 / w;
    let r1 = q1 % w;
    vstd::arithmetic::div_mod::lemma_div_denominator(v, w, w);
    assert(0 <= q2) by {
        vstd::arithmetic::div_mod::lemma_div_pos_is_pos(q1, w);
    }
    vstd::arithmetic::div_mod::lemma_fundamental_div_mod(q2, w);
    let q3 = q2 / w;
    let r2 = q2 % w;
    vstd::arithmetic::div_mod::lemma_div_denominator(v, w * w, w);
    assert(0 <= q3) by {
        vstd::arithmetic::div_mod::lemma_div_pos_is_pos(q2, w);
    }
    vstd::arithmetic::div_mod::lemma_mod_bound(v, w);
    vstd::arithmetic::div_mod::lemma_mod_bound(q1, w);
    vstd::arithmetic::div_mod::lemma_mod_bound(q2, w);
    assert(v == r0 + w * (r1 + w * (r2 + w * q3))) by (nonlinear_arith)
        requires
            v == w * q1 + r0,
            q1 == w * q2 + r1,
            q2 == w * q3 + r2,
    ;
    assert(q3 < w) by (nonlinear_arith)
        requires
            v == r0 + w * (r1 + w * (r2 + w * q3)),
            0 <= r0 < w,
            0 <= r1 < w,
            0 <= r2 < w,
            0 <= q3,
            v < w * w * w * w,
            w > 0,
    ;
    vstd::arithmetic::div_mod::lemma_small_mod(q3 as nat, w as nat);
    assert(fe_of(v).w0 == r0);
    assert(fe_of(v).w1 == r1);
    assert(fe_of(v).w2 == r2);
    assert(fe_of(v).w3 == q3);
    assert(r0 + r1 * w + r2 * w * w + q3 * w * w * w == r0 + w * (r1 + w * (r2 + w * q3)))
        by (nonlinear_arith);
}

/// An element is given by its value.
pub proof fn lemma_val_determines(a: Fe)
    ensures
        fe_of(a.val()) == a,
        0 <= a.val() < word() * word() * word() * word(),
{
    let w = word();
    let (w0, w1, w2, w3) = (a.w0 as int, a.w1 as int, a.w2 as int, a.w3 as int);
    assert(a.val() == w0 + w * (w1 + w * (w2 + w * w3))) by (nonlinear_arith)
        requires
            a.val() == w0 + w1 * w + w2 * w * w + w3 * w * w * w,
    ;
    let x = a.val();
    assert(0 <= w1 + w * (w2 + w * w3)) by (nonlinear_arith)
        requires
            0 <= w1,
            0 <= w2,
            0 <= w3,
            w > 0,
    ;
    vstd::arithmetic::div_mod::lemma_fundamental_div_mod_converse(x, w, w1 + w * (w2 + w * w3), w0);
    let y = w1 + w * (w2 + w * w3);
    vstd::arithmetic::div_mod::lemma_fundamental_div_mod_converse(y, w, w2 + w * w3, w1);
    let z = w2 + w * w3;
    vstd::arithmetic::div_mod::lemma_fundamental_div_mod_converse(z, w, w3, w2);
    assert(0 <= x) by (nonlinear_arith)
        requires
            x == w0 + w * y,
            0 <= w0,
            0 <= y,
            w > 0,
    ;
    vstd::arithmetic::div_mod::lemma_div_denominator(x, w, w);
    vstd::arithmetic::div_mod::lemma_div_denominator(x, w * w, w);
    vstd::arithmetic::div_mod::lemma_small_mod(w3 as nat, w as nat);
    assert(x < w * w * w * w) by (nonlinear_arith)
        requires
            x == w0 + w * (w1 + w * (w2 + w * w3)),
            0 <= w0 < w,
            0 <= w1 < w,
            0 <= w2 < w,
            0 <= w3 < w,
    ;
}

proof fn lemma_modulus_bound()
    ensures
        modulus() < word() * word() * word() * word(),
        modulus() > 1,
{
    let m = Fe { w0: 0x992d30ed00000001, w1: 0x224698fc094cf91b, w2: 0, w3: 0x4000000000000000 };
    lemma_val_determines(m);
    assert(m.val() == modulus());
    assert(modulus() > 1) by (nonlinear_arith)
        requires
            modulus() == 0x992d30ed00000001 + 0x224698fc094cf91b * word() + 0 * word() * word()
                + 0x4000000000000000 * word() * word() * word(),
            word() == 0x1_0000_0000_0000_0000,
    ;
}

/// The value of a sum of elements.
pub proof fn lemma_add_val(a: Fe, b: Fe)
    ensures
        fe_add(a, b).val() == (a.val() + b.val()) % modulus(),
        fe_add(a, b).wf(),
{
    lemma_val_determines(a);
    lemma_val_determines(b);
    let v = (a.val() + b.val()) % modulus();
    vstd::arithmetic::div_mod::lemma_mod_bound(a.val() + b.val(), modulus());
    lemma_modulus_bound();
    lemma_fe_of_val(v);
}

/// The value of a product of elements.
pub proof fn lemma_mul_val(a: Fe, b: Fe)
    ensures
        fe_mul(a, b).val() == (a.val() * b.val()) % modulus(),
        fe_mul(a, b).wf(),
{
    let v = (a.val() * b.val()) % modulus();
    vstd::arithmetic::div_mod::lemma_mod_bound(a.val() * b.val(), modulus());
    lemma_modulus_bound();
    lemma_fe_of_val(v);
}

} // verus!

verus! {

/// `x^5` over the integers.
pub open spec fn pow5_int(x: int) -> int {
    x * x * x * x * x
}

pub open spec fn fe_minus_one() -> Fe {
    Fe { w0: 0x992d30ed00000000, w1: 0x224698fc094cf91b, w2: 0, w3: 0x4000000000000000 }
}

/// Relies on `Fp::from_raw`, `-Fp` and `PrimeField::to_repr`: the additive
/// inverse of the residue, as its canonical little-endian words.
#[verifier::external_body]
pub(crate) fn field_neg(a: Fe) -> (r: Fe)
    ensures
        r == fe_of((modulus() - a.val() % modulus()) % modulus()),
{
    let r = (-Fp::from_raw([a.w0, a.w1, a.w2, a.w3])).to_repr();
    let r = r.as_ref();
    Fe {
        w0: u64::from_le_bytes(r[0..8].try_into().unwrap()),
        w1: u64::from_le_bytes(r[8..16].try_into().unwrap()),
        w2: u64::from_le_bytes(r[16..24].try_into().unwrap()),
        w3: u64::from_le_bytes(r[24..32].try_into().unwrap()),
    }
}

/// Relies on `Field::invert` of `Fp`: the multiplicative inverse of a
/// non-zero residue, none for zero.
#[verifier::external_body]
pub(crate) fn field_invert(a: Fe) -> (r: Option<Fe>)
    ensures
        r.is_some() == (a.val() % modulus() != 0),
        r.is_some() ==> r.unwrap().wf() && (r.unwrap().val() * a.val()) % modulus() == 1,
{
    let r: Option<Fp> = halo2curves::ff::Field::invert(&Fp::from_raw([a.w0, a.w1, a.w2, a.w3])).into();
    r.map(|x| {
        let b = x.to_repr();
        let b = b.as_ref();
        Fe {
            w0: u64::from_le_bytes(b[0..8].try_into().unwrap()),
            w1: u64::from_le_bytes(b[8..16].try_into().unwrap()),
            w2: u64::from_le_bytes(b[16..24].try_into().unwrap()),
            w3: u64::from_le_bytes(b[24..32].try_into().unwrap()),
        }
    })
}

/// The value of the S-box.
pub proof fn lemma_pow5_val(x: Fe)
    ensures
        fe_pow5(x).val() == pow5_int(x.val()) % modulus(),
{
    let p = modulus();
    lemma_modulus_bound();
    let v = x.val();
    let x2 = fe_mul(x, x);
    lemma_mul_val(x, x);
    let x4 = fe_mul(x2, x2);
    lemma_mul_val(x2, x2);
    lemma_mul_val(x4, x);
    vstd::arithmetic::div_mod::lemma_mul_mod_noop(v * v, v * v, p);
    vstd::arithmetic::div_mod::lemma_mul_mod_noop_left(v * v * (v * v), v, p);
    assert(v * v * (v * v) * v == pow5_int(v)) by (nonlinear_arith);
}

/// `-1` is the canonical form of `p - 1`.
pub proof fn lemma_minus_one()
    ensures
        fe_minus_one().val() == modulus() - 1,
        fe_minus_one().wf(),
        fe_minus_one().val() % modulus() != 0,
{
    lemma_modulus_bound();
    vstd::arithmetic::div_mod::lemma_small_mod((modulus() - 1) as nat, modulus() as nat);
}

} // verus!
