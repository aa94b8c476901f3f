//! Arithmetic expression trees over fixed, witness and instance columns,
//! constants and verifier challenges, and their evaluation at a single point.
use crate::column::ext_values;
use crate::field::{ext_add, ext_mul, ext_of_base, ext_pow, ExtV, Goldilocks, GoldilocksExt2};
use vstd::prelude::*;

verus! {

/// An expression over column values at one position.
#[derive(Debug)]
pub enum Expression {
    /// A fixed column, by index.
    Fixed(usize),
    /// A witness column, by index.
    WitIn(u16),
    /// An instance column, by index.
    Instance(usize),
    /// A base-field constant.
    Constant(Goldilocks),
    /// `challenge[id]^pow * scalar + offset`.
    Challenge(u16, usize, GoldilocksExt2, GoldilocksExt2),
    /// `a + b`.
    Sum(Box<Expression>, Box<Expression>),
    /// `a * b`.
    Product(Box<Expression>, Box<Expression>),
    /// `a * x + b`, from `(x, a, b)`.
    ScaledSum(Box<Expression>, Box<Expression>, Box<Expression>),
}

/// Every leaf of `e` refers to an existing fixed, witness, instance column or
/// challenge.
pub open spec fn leaves_in_range(e: Expression, nf: nat, nw: nat, ni: nat, nc: nat) -> bool
    decreases e,
{
    match e {
        Expression::Fixed(i) => i < nf,
        Expression::WitIn(w) => w < nw,
        Expression::Instance(i) => i < ni,
        Expression::Constant(_) => true,
        Expression::Challenge(id, _, _, _) => id < nc,
        Expression::Sum(a, b) => leaves_in_range(*a, nf, nw, ni, nc) && leaves_in_range(
            *b,
            nf,
            nw,
            ni,
            nc,
        ),
        Expression::Product(a, b) => leaves_in_range(*a, nf, nw, ni, nc) && leaves_in_range(
            *b,
            nf,
            nw,
            ni,
            nc,
        ),
        Expression::ScaledSum(x, a, b) => leaves_in_range(*x, nf, nw, ni, nc) && leaves_in_range(
            *a,
            nf,
            nw,
            ni,
            nc,
        ) && leaves_in_range(*b, nf, nw, ni, nc),
    }
}

/// The value of `e` given the values of the fixed, witness and instance
/// columns and of the challenges.
pub open spec fn eval_spec(
    e: Expression,
    fixed: Seq<ExtV>,
    wit: Seq<ExtV>,
    inst: Seq<ExtV>,
    ch: Seq<ExtV>,
) -> ExtV
    decreases e,
{
    match e {
        Expression::Fixed(i) => fixed[i as int],
        Expression::WitIn(w) => wit[w as int],
        Expression::Instance(i) => inst[i as int],
        Expression::Constant(c) => ext_of_base(c@),
        Expression::Challenge(id, pow, scalar, offset) => ext_add(
            ext_mul(ext_pow(ch[id as int], pow as nat), scalar@),
            offset@,
        ),
        Expression::Sum(a, b) => ext_add(
            eval_spec(*a, fixed, wit, inst, ch),
            eval_spec(*b, fixed, wit, inst, ch),
        ),
        Expression::Product(a, b) => ext_mul(
            eval_spec(*a, fixed, wit, inst, ch),
            eval_spec(*b, fixed, wit, inst, ch),
        ),
        Expression::ScaledSum(x, a, b) => ext_add(
            ext_mul(eval_spec(*a, fixed, wit, inst, ch), eval_spec(*x, fixed, wit, inst, ch)),
            eval_spec(*b, fixed, wit, inst, ch),
        ),
    }
}

/// The value of a challenge leaf: `challenge^pow * scalar + offset`.
pub fn challenge_value(
    challenge: &GoldilocksExt2,
    pow: usize,
    scalar: &GoldilocksExt2,
    offset: &GoldilocksExt2,
) -> (r: GoldilocksExt2)
    ensures
        r@ == ext_add(ext_mul(ext_pow(challenge@, pow as nat), scalar@), offset@),
{
    challenge.pow(pow as u64).mul(scalar).add(offset)
}

/// Evaluates `expr` at one point, given the values of the fixed, witness and
/// instance columns there.
pub fn eval_by_expr_with_instance(
    fixed: &[GoldilocksExt2],
    witnesses: &[GoldilocksExt2],
    instance: &[GoldilocksExt2],
    challenges: &[GoldilocksExt2],
    expr: &Expression,
) -> (r: GoldilocksExt2)
    requires
        leaves_in_range(
            *expr,
            fixed@.len(),
            witnesses@.len(),
            instance@.len(),
            challenges@.len(),
        ),
    ensures
        r@ == eval_spec(
            *expr,
            ext_values(fixed@),
            ext_values(witnesses@),
            ext_values(instance@),
            ext_values(challenges@),
        ),
    decreases expr,
{
    match expr {
        Expression::Fixed(i) => fixed[*i],
        Expression::WitIn(w) => witnesses[*w as usize],
        Expression::Instance(i) => instance[*i],
        Expression::Constant(c) => GoldilocksExt2::from_base(c),
        Expression::Challenge(id, pow, scalar, offset) => challenge_value(
            &challenges[*id as usize],
            *pow,
            scalar,
            offset,
        ),
        Expression::Sum(a, b) => {
            let va = eval_by_expr_with_instance(fixed, witnesses, instance, challenges, a);
            let vb = eval_by_expr_with_instance(fixed, witnesses, instance, challenges, b);
            va.add(&vb)
        },
        Expression::Product(a, b) => {
            let va = eval_by_expr_with_instance(fixed, witnesses, instance, challenges, a);
            let vb = eval_by_expr_with_instance(fixed, witnesses, instance, challenges, b);
            va.mul(&vb)
        },
        Expression::ScaledSum(x, a, b) => {
            let vx = eval_by_expr_with_instance(fixed, witnesses, instance, challenges, x);
            let va = eval_by_expr_with_instance(fixed, witnesses, instance, challenges, a);
            let vb = eval_by_expr_with_instance(fixed, witnesses, instance, challenges, b);
            va.mul(&vx).add(&vb)
        },
    }
}

/// Evaluates `expr`, which has no instance leaves, at one point.
pub fn eval_by_expr_with_fixed(
    fixed: &[GoldilocksExt2],
    witnesses: &[GoldilocksExt2],
    challenges: &[GoldilocksExt2],
    expr: &Expression,
) -> (r: GoldilocksExt2)
    requires
        leaves_in_range(*expr, fixed@.len(), witnesses@.len(), 0, challenges@.len()),
    ensures
        r@ == eval_spec(
            *expr,
            ext_values(fixed@),
            ext_values(witnesses@),
            Seq::empty(),
            ext_values(challenges@),
        ),
{
    let no_instance: Vec<GoldilocksExt2> = Vec::new();
    let r = eval_by_expr_with_instance(fixed, witnesses, no_instance.as_slice(), challenges, expr);
    assert(ext_values(no_instance@) =~= Seq::empty());
    r
}

/// Evaluates `expr`, which has only witness and challenge leaves, at one point.
pub fn eval_by_expr(
    witnesses: &[GoldilocksExt2],
    challenges: &[GoldilocksExt2],
    expr: &Expression,
) -> (r: GoldilocksExt2)
    requires
        leaves_in_range(*expr, 0, witnesses@.len(), 0, challenges@.len()),
    ensures
        r@ == eval_spec(
            *expr,
            Seq::empty(),
            ext_values(witnesses@),
            Seq::empty(),
            ext_values(challenges@),
        ),
{
    let no_fixed: Vec<GoldilocksExt2> = Vec::new();
    let r = eval_by_expr_with_fixed(no_fixed.as_slice(), witnesses, challenges, expr);
    assert(ext_values(no_fixed@) =~= Seq::empty());
    r
}

} // verus!
