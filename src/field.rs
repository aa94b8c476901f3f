//! The Goldilocks prime field and its quadratic extension `F[u] / (u^2 - 7)`.
//!
//! Every element is modelled by the integers it denotes: a base element by its
//! residue in `[0, p)`, an extension element by the pair of residues of its two
//! coefficients.
use vstd::arithmetic::div_mod::{
    lemma_add_mod_noop, lemma_mod_bound, lemma_mod_twice, lemma_mul_mod_noop,
    lemma_mul_mod_noop_left, lemma_mul_mod_noop_right, lemma_small_mod,
};
use vstd::prelude::*;

verus! {

/// The Goldilocks prime `2^64 - 2^32 + 1`.
pub const MODULUS: u64 = 0xffff_ffff_0000_0001;

/// The square of the extension's generator `u`.
pub const NONRESIDUE: u64 = 7;

pub open spec fn modulus() -> int {
    MODULUS as int
}

/// Addition in the base field, on residues.
pub open spec fn fadd(a: int, b: int) -> int {
    (a + b) % modulus()
}

/// Multiplication in the base field, on residues.
pub open spec fn fmul(a: int, b: int) -> int {
    (a * b) % modulus()
}

/// An extension element `c0 + c1 * u`, as the residues of its coefficients.
pub type ExtV = (int, int);

pub open spec fn is_residue(a: int) -> bool {
    0 <= a < modulus()
}

pub open spec fn ext_wf(a: ExtV) -> bool {
    is_residue(a.0) && is_residue(a.1)
}

pub open spec fn ext_zero() -> ExtV {
    (0, 0)
}

pub open spec fn ext_one() -> ExtV {
    (1, 0)
}

/// The base element `a` seen in the extension.
pub open spec fn ext_of_base(a: int) -> ExtV {
    (a, 0)
}

pub open spec fn ext_add(a: ExtV, b: ExtV) -> ExtV {
    (fadd(a.0, b.0), fadd(a.1, b.1))
}

/// `(a0 + a1 u)(b0 + b1 u) = (a0 b0 + 7 a1 b1) + (a0 b1 + a1 b0) u`.
pub open spec fn ext_mul(a: ExtV, b: ExtV) -> ExtV {
    (
        fadd(fmul(a.0, b.0), fmul(NONRESIDUE as int, fmul(a.1, b.1))),
        fadd(fmul(a.0, b.1), fmul(a.1, b.0)),
    )
}

/// `a^n`, by repeated multiplication.
pub open spec fn ext_pow(a: ExtV, n: nat) -> ExtV
    decreases n,
{
    if n == 0 {
        ext_one()
    } else {
        ext_mul(ext_pow(a, (n - 1) as nat), a)
    }
}

/// An element of the Goldilocks field. Values made by this library are always
/// reduced below the modulus.
#[derive(Clone, Copy, Debug, PartialEq, Eq, Structural)]
pub struct Goldilocks {
    pub value: u64,
}

impl View for Goldilocks {
    type V = int;

    open spec fn view(&self) -> int {
        self.value as int % modulus()
    }
}

/// An element `c0 + c1 * u` of the quadratic extension.
#[derive(Clone, Copy, Debug, PartialEq, Eq, Structural)]
pub struct GoldilocksExt2 {
    pub c0: Goldilocks,
    pub c1: Goldilocks,
}

impl View for GoldilocksExt2 {
    type V = ExtV;

    open spec fn view(&self) -> ExtV {
        (self.c0@, self.c1@)
    }
}

pub proof fn lemma_residue(x: int)
    requires
        x >= 0,
    ensures
        is_residue(x % modulus()),
{
    lemma_mod_bound(x, modulus());
}

/// One is a right identity of extension multiplication.
pub proof fn lemma_ext_mul_one(a: ExtV)
    requires
        ext_wf(a),
    ensures
        ext_mul(a, ext_one()) == a,
{
    lemma_small_mod(a.0 as nat, modulus() as nat);
    lemma_small_mod(a.1 as nat, modulus() as nat);
    lemma_small_mod(0, modulus() as nat);
    assert(fmul(a.0, 1) == a.0);
    assert(fmul(a.1, 0) == 0);
    assert(fmul(NONRESIDUE as int, 0) == 0);
    assert(fmul(a.0, 0) == 0);
    assert(fmul(a.1, 1) == a.1);
}

/// Base-field arithmetic agrees with extension arithmetic on embedded elements.
pub proof fn lemma_base_embedding(x: int, y: int)
    requires
        is_residue(x),
        is_residue(y),
    ensures
        ext_of_base(fadd(x, y)) == ext_add(ext_of_base(x), ext_of_base(y)),
        ext_of_base(fmul(x, y)) == ext_mul(ext_of_base(x), ext_of_base(y)),
{
    lemma_small_mod(0, modulus() as nat);
    assert(fmul(0, 0) == 0);
    assert(fmul(NONRESIDUE as int, 0) == 0);
    assert(fmul(x, 0) == 0);
    assert(fmul(0, y) == 0);
    assert(fadd(0, 0) == 0);
    lemma_residue(x * y);
    lemma_small_mod(fmul(x, y) as nat, modulus() as nat);
    assert(fadd(fmul(x, y), 0) == fmul(x, y));
}

/// Extension multiplication commutes.
pub proof fn lemma_ext_mul_commutes(a: ExtV, b: ExtV)
    ensures
        ext_mul(a, b) == ext_mul(b, a),
{
    assert(a.0 * b.0 == b.0 * a.0) by (nonlinear_arith);
    assert(a.1 * b.1 == b.1 * a.1) by (nonlinear_arith);
    assert(a.0 * b.1 == b.1 * a.0) by (nonlinear_arith);
    assert(a.1 * b.0 == b.0 * a.1) by (nonlinear_arith);
}

proof fn lemma_mod_inner(x: int, u: int, y: int)
    ensures
        (x + u * (y % modulus())) % modulus() == (x + u * y) % modulus(),
{
    let m = modulus();
    lemma_mul_mod_noop_right(u, y, m);
    vstd::arithmetic::div_mod::lemma_add_mod_noop_right(x, u * (y % m), m);
    vstd::arithmetic::div_mod::lemma_add_mod_noop_right(x, u * y, m);
}

/// Extension multiplication in closed form, reduced once.
proof fn lemma_ext_mul_closed(a: ExtV, b: ExtV)
    ensures
        ext_mul(a, b) == (
            (a.0 * b.0 + NONRESIDUE * (a.1 * b.1)) % modulus(),
            (a.0 * b.1 + a.1 * b.0) % modulus(),
        ),
{
    let m = modulus();
    lemma_add_mod_noop(a.0 * b.0, NONRESIDUE * ((a.1 * b.1) % m), m);
    lemma_mod_inner(a.0 * b.0, NONRESIDUE as int, a.1 * b.1);
    lemma_add_mod_noop(a.0 * b.1, a.1 * b.0, m);
}

/// Every product is a well-formed extension element.
pub proof fn lemma_ext_mul_wf(a: ExtV, b: ExtV)
    ensures
        ext_wf(ext_mul(a, b)),
{
    lemma_mod_bound(fmul(a.0, b.0) + fmul(NONRESIDUE as int, fmul(a.1, b.1)), modulus());
    lemma_mod_bound(fmul(a.0, b.1) + fmul(a.1, b.0), modulus());
}

proof fn lemma_expand(x: int, y1: int, y2: int, w: int, z1: int, z2: int)
    ensures
        x * (y1 * y2 + w * (z1 * z2)) == x * y1 * y2 + x * w * z1 * z2,
{
    vstd::arithmetic::mul::lemma_mul_is_distributive_add(x, y1 * y2, w * (z1 * z2));
    vstd::arithmetic::mul::lemma_mul_is_associative(x, y1, y2);
    vstd::arithmetic::mul::lemma_mul_is_associative(x, w, z1 * z2);
    vstd::arithmetic::mul::lemma_mul_is_associative(x * w, z1, z2);
}

proof fn lemma_assoc_identity(a0: int, a1: int, b0: int, b1: int, c0: int, c1: int, w: int)
    ensures
        (w * c1) * (a0 * b1 + a1 * b0) + c0 * (a0 * b0 + w * (a1 * b1)) == (w * a1) * (b0 * c1
            + b1 * c0) + a0 * (b0 * c0 + w * (b1 * c1)),
        c0 * (a0 * b1 + a1 * b0) + c1 * (a0 * b0 + w * (a1 * b1)) == a1 * (b0 * c0 + w * (b1
            * c1)) + a0 * (b0 * c1 + b1 * c0),
{
    assert((w * c1) * (a0 * b1 + a1 * b0) == w * c1 * a0 * b1 + w * c1 * a1 * b0) by (nonlinear_arith);
    lemma_expand(c0, a0, b0, w, a1, b1);
    assert((w * a1) * (b0 * c1 + b1 * c0) == w * a1 * b0 * c1 + w * a1 * b1 * c0) by (nonlinear_arith);
    lemma_expand(a0, b0, c0, w, b1, c1);
    assert(w * c1 * a0 * b1 == a0 * w * b1 * c1) by (nonlinear_arith);
    assert(w * c1 * a1 * b0 == w * a1 * b0 * c1) by (nonlinear_arith);
    assert(c0 * a0 * b0 == a0 * b0 * c0) by (nonlinear_arith);
    assert(c0 * w * a1 * b1 == w * a1 * b1 * c0) by (nonlinear_arith);
    assert(c0 * (a0 * b1 + a1 * b0) == c0 * a0 * b1 + c0 * a1 * b0) by (nonlinear_arith);
    lemma_expand(c1, a0, b0, w, a1, b1);
    lemma_expand(a1, b0, c0, w, b1, c1);
    assert(a0 * (b0 * c1 + b1 * c0) == a0 * b0 * c1 + a0 * b1 * c0) by (nonlinear_arith);
    assert(c0 * a0 * b1 == a0 * b1 * c0) by (nonlinear_arith);
    assert(c0 * a1 * b0 == a1 * b0 * c0) by (nonlinear_arith);
    assert(c1 * a0 * b0 == a0 * b0 * c1) by (nonlinear_arith);
    assert(c1 * w * a1 * b1 == a1 * w * b1 * c1) by (nonlinear_arith);
}

/// Extension multiplication is associative.
pub proof fn lemma_ext_mul_assoc(a: ExtV, b: ExtV, c: ExtV)
    ensures
        ext_mul(ext_mul(a, b), c) == ext_mul(a, ext_mul(b, c)),
{
    let m = modulus();
    let w = NONRESIDUE as int;
    let x = a.0 * b.0 + w * (a.1 * b.1);
    let y = a.0 * b.1 + a.1 * b.0;
    let z = b.0 * c.0 + w * (b.1 * c.1);
    let v = b.0 * c.1 + b.1 * c.0;
    lemma_ext_mul_closed(a, b);
    lemma_ext_mul_closed(b, c);
    lemma_ext_mul_closed((x % m, y % m), c);
    lemma_ext_mul_closed(a, (z % m, v % m));
    // left side, first coefficient
    assert((x % m) * c.0 + w * ((y % m) * c.1) == c.0 * (x % m) + (w * c.1) * (y % m)) by (nonlinear_arith);
    lemma_mod_inner(c.0 * (x % m), w * c.1, y);
    assert(c.0 * (x % m) + (w * c.1) * y == (w * c.1) * y + c.0 * (x % m)) by (nonlinear_arith);
    lemma_mod_inner((w * c.1) * y, c.0, x);
    // right side, first coefficient
    assert(a.0 * (z % m) + w * (a.1 * (v % m)) == a.0 * (z % m) + (w * a.1) * (v % m)) by (nonlinear_arith);
    lemma_mod_inner(a.0 * (z % m), w * a.1, v);
    assert(a.0 * (z % m) + (w * a.1) * v == (w * a.1) * v + a.0 * (z % m)) by (nonlinear_arith);
    lemma_mod_inner((w * a.1) * v, a.0, z);
    lemma_assoc_identity(a.0, a.1, b.0, b.1, c.0, c.1, w);
    // second coefficient
    assert((x % m) * c.1 + (y % m) * c.0 == c.1 * (x % m) + c.0 * (y % m)) by (nonlinear_arith);
    lemma_mod_inner(c.1 * (x % m), c.0, y);
    assert(c.1 * (x % m) + c.0 * y == c.0 * y + c.1 * (x % m)) by (nonlinear_arith);
    lemma_mod_inner(c.0 * y, c.1, x);
    assert(a.0 * (v % m) + a.1 * (z % m) == a.0 * (v % m) + a.1 * (z % m));
    lemma_mod_inner(a.0 * (v % m), a.1, z);
    assert(a.0 * (v % m) + a.1 * z == a.1 * z + a.0 * (v % m)) by (nonlinear_arith);
    lemma_mod_inner(a.1 * z, a.0, v);

}

impl Goldilocks {
    pub open spec fn canonical(&self) -> bool {
        self.value < MODULUS
    }

    /// The residue of `v`.
    pub fn from_u64(v: u64) -> (r: Goldilocks)
        ensures
            r@ == v as int % modulus(),
            r.canonical(),
    {
        let r = Goldilocks { value: v % MODULUS };
        proof {
            lemma_mod_twice(v as int, modulus());
        }
        r
    }

    pub open spec fn zero_spec() -> Goldilocks {
        Goldilocks { value: 0 }
    }

    pub fn zero() -> (r: Goldilocks)
        ensures
            r@ == 0,
            r == Goldilocks::zero_spec(),
            r.canonical(),
    {
        proof {
            lemma_small_mod(0, modulus() as nat);
        }
        Goldilocks { value: 0 }
    }

    pub fn one() -> (r: Goldilocks)
        ensures
            r@ == 1,
            r.canonical(),
    {
        proof {
            lemma_small_mod(1, modulus() as nat);
        }
        Goldilocks { value: 1 }
    }

    /// The residue as an integer in `[0, p)`.
    pub fn to_canonical_u64(&self) -> (r: u64)
        ensures
            r as int == self@,
    {
        self.value % MODULUS
    }

    pub fn add(&self, other: &Goldilocks) -> (r: Goldilocks)
        ensures
            r@ == fadd(self@, other@),
            r.canonical(),
    {
        let s: u128 = (self.value as u128 + other.value as u128) % (MODULUS as u128);
        proof {
            lemma_add_mod_noop(self.value as int, other.value as int, modulus());
            lemma_mod_twice(s as int, modulus());
        }
        Goldilocks { value: s as u64 }
    }

    pub fn mul(&self, other: &Goldilocks) -> (r: Goldilocks)
        ensures
            r@ == fmul(self@, other@),
            r.canonical(),
    {
        let a = self.value as u128;
        let b = other.value as u128;
        assert(a * b <= 0xffff_ffff_ffff_ffffu128 * 0xffff_ffff_ffff_ffffu128) by (nonlinear_arith)
            requires
                a <= 0xffff_ffff_ffff_ffffu128,
                b <= 0xffff_ffff_ffff_ffffu128,
        ;
        let s: u128 = (a * b) % (MODULUS as u128);
        proof {
            lemma_mul_mod_noop(self.value as int, other.value as int, modulus());
            lemma_mod_twice(s as int, modulus());
        }
        Goldilocks { value: s as u64 }
    }
}

impl GoldilocksExt2 {
    pub open spec fn canonical(&self) -> bool {
        self.c0.canonical() && self.c1.canonical()
    }

    pub fn zero() -> (r: GoldilocksExt2)
        ensures
            r@ == ext_zero(),
            r.canonical(),
    {
        GoldilocksExt2 { c0: Goldilocks::zero(), c1: Goldilocks::zero() }
    }

    pub fn one() -> (r: GoldilocksExt2)
        ensures
            r@ == ext_one(),
            r.canonical(),
    {
        GoldilocksExt2 { c0: Goldilocks::one(), c1: Goldilocks::zero() }
    }

    /// The base element `v mod p` seen in the extension.
    pub fn from_u64(v: u64) -> (r: GoldilocksExt2)
        ensures
            r@ == ext_of_base(v as int % modulus()),
            r.canonical(),
    {
        GoldilocksExt2 { c0: Goldilocks::from_u64(v), c1: Goldilocks::zero() }
    }

    pub fn from_base(b: &Goldilocks) -> (r: GoldilocksExt2)
        ensures
            r@ == ext_of_base(b@),
            r.canonical(),
    {
        GoldilocksExt2 { c0: Goldilocks::from_u64(b.value), c1: Goldilocks::zero() }
    }

    pub fn add(&self, other: &GoldilocksExt2) -> (r: GoldilocksExt2)
        ensures
            r@ == ext_add(self@, other@),
            r.canonical(),
    {
        GoldilocksExt2 { c0: self.c0.add(&other.c0), c1: self.c1.add(&other.c1) }
    }

    pub fn mul(&self, other: &GoldilocksExt2) -> (r: GoldilocksExt2)
        ensures
            r@ == ext_mul(self@, other@),
            r.canonical(),
    {
        let w = Goldilocks { value: NONRESIDUE };
        proof {
            lemma_small_mod(NONRESIDUE as nat, modulus() as nat);
        }
        let c0 = self.c0.mul(&other.c0).add(&w.mul(&self.c1.mul(&other.c1)));
        let c1 = self.c0.mul(&other.c1).add(&self.c1.mul(&other.c0));
        GoldilocksExt2 { c0, c1 }
    }

    /// `self^n`.
    pub fn pow(&self, n: u64) -> (r: GoldilocksExt2)
        ensures
            r@ == ext_pow(self@, n as nat),
            r.canonical(),
    {
        let mut acc = GoldilocksExt2::one();
        let mut i: u64 = 0;
        while i < n
            invariant
                i <= n,
                acc@ == ext_pow(self@, i as nat),
                acc.canonical(),
            decreases n - i,
        {
            acc = acc.mul(self);
            i = i + 1;
        }
        acc
    }
}

} // verus!
