//! Evaluation of an expression over whole columns, with strided work split
//! across `n_threads` workers and buffers reused through pools.
use crate::column::{base_values, ext_values, filled, Column};
use crate::expression::{challenge_value, eval_spec, leaves_in_range, Expression};
use crate::field::{
    ext_add, ext_mul, ext_of_base, lemma_base_embedding, lemma_residue, ExtV, Goldilocks,
    GoldilocksExt2,
};
use crate::pool::VecPool;
use vstd::arithmetic::div_mod::{lemma_fundamental_div_mod, lemma_mod_add_multiples_vanish, lemma_mod_bound};
use vstd::prelude::*;

verus! {

/// How many buffers of each field the evaluator keeps for reuse.
pub const POOL_CAP: usize = 12;

/// The value of column `c` at position `j`; a column of length one holds the
/// same value at every position.
pub open spec fn col_at(c: Column, j: int) -> ExtV {
    if c.spec_len() == 1 {
        c.values()[0]
    } else {
        c.values()[j]
    }
}

/// The values of `cols` at position `j`.
pub open spec fn rows(cols: Seq<Column>, j: int) -> Seq<ExtV> {
    Seq::new(cols.len(), |i: int| col_at(cols[i], j))
}

/// A column operation: `Add` and `Mul` take `(a, b)`, `ScaledSum` takes `(x, a, b)`
/// and gives `a * x + b`.
pub enum Combine {
    Add,
    Mul,
    ScaledSum,
}

/// The value at `i` of the operation on columns `c0, c1, c2`.
pub open spec fn op_value(kind: Combine, c0: Column, c1: Column, c2: Column, i: int) -> ExtV {
    match kind {
        Combine::Add => ext_add(col_at(c0, i), col_at(c1, i)),
        Combine::Mul => ext_mul(col_at(c0, i), col_at(c1, i)),
        Combine::ScaledSum => ext_add(ext_mul(col_at(c1, i), col_at(c0, i)), col_at(c2, i)),
    }
}

/// Position `i` can be read from `c`, directly or by broadcast.
pub open spec fn readable(c: Column, i: int) -> bool {
    c.spec_len() == 1 || (0 <= i < c.spec_len())
}

pub open spec fn operands_readable(c0: Column, c1: Column, c2: Column, i: int) -> bool {
    readable(c0, i) && readable(c1, i) && readable(c2, i)
}

fn ext_at_broadcast(c: &Column, i: usize) -> (r: GoldilocksExt2)
    requires
        readable(*c, i as int),
    ensures
        r@ == col_at(*c, i as int),
{
    if c.len() == 1 {
        c.ext_at(0)
    } else {
        c.ext_at(i)
    }
}

fn base_at_broadcast(c: &Column, i: usize) -> (r: Goldilocks)
    requires
        !c.is_ext(),
        readable(*c, i as int),
    ensures
        ext_of_base(r@) == col_at(*c, i as int),
        0 <= r@ < crate::field::modulus(),
{
    proof {
        lemma_residue(0);
    }
    match c {
        Column::Base(v) => {
            let k = if v.len() == 1 {
                0
            } else {
                i
            };
            proof {
                lemma_residue(v@[k as int].value as int);
            }
            v[k]
        },
        Column::Ext(_) => vstd::pervasive::unreached(),
    }
}

fn ext_entry(kind: &Combine, c0: &Column, c1: &Column, c2: &Column, i: usize) -> (r: GoldilocksExt2)
    requires
        readable(*c0, i as int),
        readable(*c1, i as int),
        readable(*c2, i as int),
    ensures
        r@ == op_value(*kind, *c0, *c1, *c2, i as int),
{
    match kind {
        Combine::Add => ext_at_broadcast(c0, i).add(&ext_at_broadcast(c1, i)),
        Combine::Mul => ext_at_broadcast(c0, i).mul(&ext_at_broadcast(c1, i)),
        Combine::ScaledSum => ext_at_broadcast(c1, i).mul(&ext_at_broadcast(c0, i)).add(
            &ext_at_broadcast(c2, i),
        ),
    }
}

fn base_entry(kind: &Combine, c0: &Column, c1: &Column, c2: &Column, i: usize) -> (r: Goldilocks)
    requires
        !c0.is_ext(),
        !c1.is_ext(),
        !c2.is_ext(),
        readable(*c0, i as int),
        readable(*c1, i as int),
        readable(*c2, i as int),
    ensures
        ext_of_base(r@) == op_value(*kind, *c0, *c1, *c2, i as int),
{
    let x = base_at_broadcast(c0, i);
    let a = base_at_broadcast(c1, i);
    match kind {
        Combine::Add => {
            proof {
                lemma_base_embedding(x@, a@);
            }
            x.add(&a)
        },
        Combine::Mul => {
            proof {
                lemma_base_embedding(x@, a@);
            }
            x.mul(&a)
        },
        Combine::ScaledSum => {
            let b = base_at_broadcast(c2, i);
            let ax = a.mul(&x);
            proof {
                lemma_base_embedding(a@, x@);
                lemma_residue(a@ * x@);
                lemma_base_embedding(ax@, b@);
            }
            ax.add(&b)
        },
    }
}

/// Indices with the same residue modulo `t` less than `t` apart are equal.
proof fn lemma_stride(idx: int, i: int, t: int)
    requires
        t > 0,
        0 <= i <= idx < i + t,
        idx % t == i % t,
    ensures
        idx == i,
{
    lemma_fundamental_div_mod(idx, t);
    lemma_fundamental_div_mod(i, t);
    let k = idx / t - i / t;
    assert(idx - i == t * k) by (nonlinear_arith)
        requires
            idx == t * (idx / t) + idx % t,
            i == t * (i / t) + i % t,
            idx % t == i % t,
            k == idx / t - i / t,
    ;
    assert(k == 0) by (nonlinear_arith)
        requires
            0 <= t * k < t,
            t > 0,
    ;
}

/// Writes the operation's value at every index of `buf`: worker `t` of
/// `n_threads` takes the indices `i` with `i % n_threads == t`, so each index is
/// written by exactly one worker.
fn fill_ext(
    kind: &Combine,
    c0: &Column,
    c1: &Column,
    c2: &Column,
    n_threads: usize,
    out: Vec<GoldilocksExt2>,
) -> (r: Vec<GoldilocksExt2>)
    requires
        n_threads >= 1,
        forall|i: int|
            0 <= i < out@.len() ==> #[trigger] operands_readable(*c0, *c1, *c2, i),
    ensures
        r@.len() == out@.len(),
        forall|i: int| 0 <= i < r@.len() ==> #[trigger] r@[i]@ == op_value(*kind, *c0, *c1, *c2, i),
{
    let len = out.len();
    let mut buf = out;
    let mut t: usize = 0;
    while t < n_threads
        invariant
            t <= n_threads,
            buf@.len() == len,
            forall|i: int|
                0 <= i < len ==> #[trigger] operands_readable(*c0, *c1, *c2, i),
            forall|idx: int|
                0 <= idx < len && idx % (n_threads as int) < t ==> #[trigger] buf@[idx]@
                    == op_value(*kind, *c0, *c1, *c2, idx),
        decreases n_threads - t,
    {
        let mut i: usize = t;
        proof {
            vstd::arithmetic::div_mod::lemma_small_mod(t as nat, n_threads as nat);
            assert forall|idx: int|
                0 <= idx < len && (idx % (n_threads as int) < t || (idx % (n_threads as int) == t
                    && idx < i)) implies #[trigger] buf@[idx]@ == op_value(*kind, *c0, *c1, *c2, idx) by {
                if idx < t {
                    vstd::arithmetic::div_mod::lemma_small_mod(idx as nat, n_threads as nat);
                }
            }
        }
        while i < len
            invariant
                t < n_threads,
                buf@.len() == len,
                forall|k: int|
                    0 <= k < len ==> #[trigger] operands_readable(*c0, *c1, *c2, k),
                i >= len || i % n_threads == t,
                t <= i,
                forall|idx: int|
                    0 <= idx < len && (idx % (n_threads as int) < t || (idx % (n_threads as int)
                        == t && idx < i)) ==> #[trigger] buf@[idx]@ == op_value(
                        *kind,
                        *c0,
                        *c1,
                        *c2,
                        idx,
                    ),
            decreases len - i,
        {
            assert(operands_readable(*c0, *c1, *c2, i as int));
            let v = ext_entry(kind, c0, c1, c2, i);
            buf.set(i, v);
            let ghost old_i = i as int;
            if len - i <= n_threads {
                i = len;
            } else {
                i = i + n_threads;
                proof {
                    lemma_mod_add_multiples_vanish(old_i, n_threads as int);
                }
            }
            proof {
                assert forall|idx: int|
                    0 <= idx < len && (idx % (n_threads as int) < t || (idx % (n_threads as int)
                        == t && idx < i)) implies #[trigger] buf@[idx]@ == op_value(
                    *kind,
                    *c0,
                    *c1,
                    *c2,
                    idx,
                ) by {
                    if idx % (n_threads as int) == t && idx > old_i {
                        lemma_stride(idx, old_i, n_threads as int);
                    }
                }
            }
        }
        t = t + 1;
    }
    proof {
        assert forall|idx: int| 0 <= idx < len implies #[trigger] buf@[idx]@ == op_value(
            *kind,
            *c0,
            *c1,
            *c2,
            idx,
        ) by {
            lemma_mod_bound(idx, n_threads as int);
        }
    }
    buf
}

/// Writes the operation's value at every index of `buf`: worker `t` of
/// `n_threads` takes the indices `i` with `i % n_threads == t`, so each index is
/// written by exactly one worker.
fn fill_base(
    kind: &Combine,
    c0: &Column,
    c1: &Column,
    c2: &Column,
    n_threads: usize,
    out: Vec<Goldilocks>,
) -> (r: Vec<Goldilocks>)
    requires
        n_threads >= 1,
        !c0.is_ext(),
        !c1.is_ext(),
        !c2.is_ext(),
        forall|i: int|
            0 <= i < out@.len() ==> #[trigger] operands_readable(*c0, *c1, *c2, i),
    ensures
        r@.len() == out@.len(),
        forall|i: int| 0 <= i < r@.len() ==> #[trigger] ext_of_base(r@[i]@) == op_value(*kind, *c0, *c1, *c2, i),
{
    let len = out.len();
    let mut buf = out;
    let mut t: usize = 0;
    while t < n_threads
        invariant
            t <= n_threads,
            buf@.len() == len,
            !c0.is_ext(),
            !c1.is_ext(),
            !c2.is_ext(),
            forall|i: int|
                0 <= i < len ==> #[trigger] operands_readable(*c0, *c1, *c2, i),
            forall|idx: int|
                0 <= idx < len && idx % (n_threads as int) < t ==> #[trigger] ext_of_base(buf@[idx]@)
                    == op_value(*kind, *c0, *c1, *c2, idx),
        decreases n_threads - t,
    {
        let mut i: usize = t;
        proof {
            vstd::arithmetic::div_mod::lemma_small_mod(t as nat, n_threads as nat);
            assert forall|idx: int|
                0 <= idx < len && (idx % (n_threads as int) < t || (idx % (n_threads as int) == t
                    && idx < i)) implies #[trigger] ext_of_base(buf@[idx]@) == op_value(*kind, *c0, *c1, *c2, idx) by {
                if idx < t {
                    vstd::arithmetic::div_mod::lemma_small_mod(idx as nat, n_threads as nat);
                }
            }
        }
        while i < len
            invariant
                t < n_threads,
                buf@.len() == len,
                !c0.is_ext(),
                !c1.is_ext(),
                !c2.is_ext(),
                forall|k: int|
                    0 <= k < len ==> #[trigger] operands_readable(*c0, *c1, *c2, k),
                i >= len || i % n_threads == t,
                t <= i,
                forall|idx: int|
                    0 <= idx < len && (idx % (n_threads as int) < t || (idx % (n_threads as int)
                        == t && idx < i)) ==> #[trigger] ext_of_base(buf@[idx]@) == op_value(
                        *kind,
                        *c0,
                        *c1,
                        *c2,
                        idx,
                    ),
            decreases len - i,
        {
            assert(operands_readable(*c0, *c1, *c2, i as int));
            let v = base_entry(kind, c0, c1, c2, i);
            buf.set(i, v);
            let ghost old_i = i as int;
            if len - i <= n_threads {
                i = len;
            } else {
                i = i + n_threads;
                proof {
                    lemma_mod_add_multiples_vanish(old_i, n_threads as int);
                }
            }
            proof {
                assert forall|idx: int|
                    0 <= idx < len && (idx % (n_threads as int) < t || (idx % (n_threads as int)
                        == t && idx < i)) implies #[trigger] ext_of_base(buf@[idx]@) == op_value(
                    *kind,
                    *c0,
                    *c1,
                    *c2,
                    idx,
                ) by {
                    if idx % (n_threads as int) == t && idx > old_i {
                        lemma_stride(idx, old_i, n_threads as int);
                    }
                }
            }
        }
        t = t + 1;
    }
    proof {
        assert forall|idx: int| 0 <= idx < len implies #[trigger] ext_of_base(buf@[idx]@) == op_value(
            *kind,
            *c0,
            *c1,
            *c2,
            idx,
        ) by {
            lemma_mod_bound(idx, n_threads as int);
        }
    }
    buf
}

/// Length of the column `e` evaluates to: that of a leaf's column, one for a
/// constant or challenge, the longer operand's for a sum or product, `x`'s for
/// `a * x + b`.
pub open spec fn expr_len(e: Expression, fixed: Seq<Column>, wit: Seq<Column>, inst: Seq<Column>) -> nat
    decreases e,
{
    match e {
        Expression::Fixed(i) => fixed[i as int].spec_len(),
        Expression::WitIn(w) => wit[w as int].spec_len(),
        Expression::Instance(i) => inst[i as int].spec_len(),
        Expression::Constant(_) => 1,
        Expression::Challenge(..) => 1,
        Expression::Sum(a, b) => if expr_len(*a, fixed, wit, inst) == 1 {
            expr_len(*b, fixed, wit, inst)
        } else {
            expr_len(*a, fixed, wit, inst)
        },
        Expression::Product(a, b) => if expr_len(*a, fixed, wit, inst) == 1 {
            expr_len(*b, fixed, wit, inst)
        } else {
            expr_len(*a, fixed, wit, inst)
        },
        Expression::ScaledSum(x, _, _) => expr_len(*x, fixed, wit, inst),
    }
}

/// Whether `e` evaluates to an extension-field column: a challenge does, a
/// constant does not, a leaf follows its column, and a combination is in the
/// extension field when any operand is.
pub open spec fn expr_is_ext(e: Expression, fixed: Seq<Column>, wit: Seq<Column>, inst: Seq<Column>) -> bool
    decreases e,
{
    match e {
        Expression::Fixed(i) => fixed[i as int].is_ext(),
        Expression::WitIn(w) => wit[w as int].is_ext(),
        Expression::Instance(i) => inst[i as int].is_ext(),
        Expression::Constant(_) => false,
        Expression::Challenge(..) => true,
        Expression::Sum(a, b) => expr_is_ext(*a, fixed, wit, inst) || expr_is_ext(*b, fixed, wit, inst),
        Expression::Product(a, b) => expr_is_ext(*a, fixed, wit, inst) || expr_is_ext(*b, fixed, wit, inst),
        Expression::ScaledSum(x, a, b) => expr_is_ext(*x, fixed, wit, inst) || expr_is_ext(*a, fixed, wit, inst)
            || expr_is_ext(*b, fixed, wit, inst),
    }
}

/// Every column that `e` reads has length one or `n`.
pub open spec fn leaf_lens_ok(
    e: Expression,
    fixed: Seq<Column>,
    wit: Seq<Column>,
    inst: Seq<Column>,
    n: nat,
) -> bool
    decreases e,
{
    match e {
        Expression::Fixed(i) => fixed[i as int].spec_len() == 1 || fixed[i as int].spec_len() == n,
        Expression::WitIn(w) => wit[w as int].spec_len() == 1 || wit[w as int].spec_len() == n,
        Expression::Instance(i) => inst[i as int].spec_len() == 1 || inst[i as int].spec_len() == n,
        Expression::Sum(a, b) => leaf_lens_ok(*a, fixed, wit, inst, n) && leaf_lens_ok(
            *b,
            fixed,
            wit,
            inst,
            n,
        ),
        Expression::Product(a, b) => leaf_lens_ok(*a, fixed, wit, inst, n) && leaf_lens_ok(
            *b,
            fixed,
            wit,
            inst,
            n,
        ),
        Expression::ScaledSum(x, a, b) => leaf_lens_ok(*x, fixed, wit, inst, n) && leaf_lens_ok(
            *a,
            fixed,
            wit,
            inst,
            n,
        ) && leaf_lens_ok(*b, fixed, wit, inst, n),
        _ => true,
    }
}

/// In every `a * x + b` of `e`, `a` and `b` evaluate to single values.
pub open spec fn scalars_ok(e: Expression, fixed: Seq<Column>, wit: Seq<Column>, inst: Seq<Column>) -> bool
    decreases e,
{
    match e {
        Expression::Sum(a, b) => scalars_ok(*a, fixed, wit, inst) && scalars_ok(*b, fixed, wit, inst),
        Expression::Product(a, b) => scalars_ok(*a, fixed, wit, inst) && scalars_ok(*b, fixed, wit, inst),
        Expression::ScaledSum(x, a, b) => scalars_ok(*x, fixed, wit, inst) && scalars_ok(*a, fixed, wit, inst)
            && scalars_ok(*b, fixed, wit, inst) && expr_len(*a, fixed, wit, inst) == 1 && expr_len(
            *b,
            fixed,
            wit,
            inst,
        ) == 1,
        _ => true,
    }
}

/// Length of the result of an operation.
pub open spec fn combine_len(kind: Combine, c0: Column, c1: Column) -> nat {
    match kind {
        Combine::ScaledSum => c0.spec_len(),
        _ => if c0.spec_len() == 1 {
            c1.spec_len()
        } else {
            c0.spec_len()
        },
    }
}

/// Whether an operation's result is in the extension field.
pub open spec fn combine_is_ext(kind: Combine, c0: Column, c1: Column, c2: Column) -> bool {
    match kind {
        Combine::ScaledSum => c0.is_ext() || c1.is_ext() || c2.is_ext(),
        _ => c0.is_ext() || c1.is_ext(),
    }
}

/// Applies an operation to whole columns. A result longer than one takes its
/// buffer from the pool of its field.
fn combine(
    kind: Combine,
    c0: &Column,
    c1: &Column,
    c2: &Column,
    n: usize,
    n_threads: usize,
    pool_e: &mut VecPool<GoldilocksExt2>,
    pool_b: &mut VecPool<Goldilocks>,
) -> (r: Column)
    requires
        n >= 1,
        n_threads >= 1,
        old(pool_e).wf(),
        old(pool_b).wf(),
        old(pool_e).size() == n,
        old(pool_b).size() == n,
        c0.spec_len() == 1 || c0.spec_len() == n,
        c1.spec_len() == 1 || c1.spec_len() == n,
        c2.spec_len() == 1 || c2.spec_len() == n,
        kind is ScaledSum ==> c1.spec_len() == 1 && c2.spec_len() == 1,
        !(kind is ScaledSum) ==> c2.spec_len() == c1.spec_len() && c2.is_ext() == c1.is_ext(),
    ensures
        final(pool_e).wf(),
        final(pool_b).wf(),
        final(pool_e).size() == n,
        final(pool_b).size() == n,
        r.spec_len() == combine_len(kind, *c0, *c1),
        r.is_ext() == combine_is_ext(kind, *c0, *c1, *c2),
        forall|i: int| 0 <= i < r.spec_len() ==> #[trigger] r.values()[i] == op_value(kind, *c0, *c1, *c2, i),
{
    let len = match kind {
        Combine::ScaledSum => c0.len(),
        _ => if c0.len() == 1 {
            c1.len()
        } else {
            c0.len()
        },
    };
    let is_ext = match kind {
        Combine::ScaledSum => c0.is_ext_exec() || c1.is_ext_exec() || c2.is_ext_exec(),
        _ => c0.is_ext_exec() || c1.is_ext_exec(),
    };
    assert forall|i: int| 0 <= i < len implies #[trigger] operands_readable(*c0, *c1, *c2, i) by {}
    if is_ext {
        let buf = if len == 1 {
            filled(GoldilocksExt2::zero(), 1)
        } else {
            pool_e.acquire()
        };
        let out = fill_ext(&kind, c0, c1, c2, n_threads, buf);
        proof {
            assert forall|i: int| 0 <= i < len implies #[trigger] ext_values(out@)[i] == op_value(kind, *c0, *c1, *c2, i) by {
                assert(out@[i]@ == op_value(kind, *c0, *c1, *c2, i));
            }
        }
        Column::Ext(out)
    } else {
        let buf = if len == 1 {
            filled(Goldilocks::zero(), 1)
        } else {
            pool_b.acquire()
        };
        let out = fill_base(&kind, c0, c1, c2, n_threads, buf);
        proof {
            assert forall|i: int| 0 <= i < len implies #[trigger] base_values(out@)[i] == op_value(kind, *c0, *c1, *c2, i) by {
                assert(ext_of_base(out@[i]@) == op_value(kind, *c0, *c1, *c2, i));
            }
        }
        Column::Base(out)
    }
}

/// An intermediate result: a caller's column, by index, or a column owned by
/// the evaluation.
pub enum Operand {
    Fixed(usize),
    Witness(usize),
    Instance(usize),
    Owned(Column),
}

pub open spec fn operand_in_range(op: Operand, nf: nat, nw: nat, ni: nat) -> bool {
    match op {
        Operand::Fixed(i) => i < nf,
        Operand::Witness(i) => i < nw,
        Operand::Instance(i) => i < ni,
        Operand::Owned(_) => true,
    }
}

/// The column an operand stands for.
pub open spec fn operand_col(op: Operand, fixed: Seq<Column>, wit: Seq<Column>, inst: Seq<Column>) -> Column {
    match op {
        Operand::Fixed(i) => fixed[i as int],
        Operand::Witness(i) => wit[i as int],
        Operand::Instance(i) => inst[i as int],
        Operand::Owned(c) => c,
    }
}

fn operand_ref<'a>(
    op: &'a Operand,
    fixed: &'a [Column],
    wit: &'a [Column],
    inst: &'a [Column],
) -> (r: &'a Column)
    requires
        operand_in_range(*op, fixed@.len(), wit@.len(), inst@.len()),
    ensures
        *r == operand_col(*op, fixed@, wit@, inst@),
{
    match op {
        Operand::Fixed(i) => &fixed[*i],
        Operand::Witness(i) => &wit[*i],
        Operand::Instance(i) => &inst[*i],
        Operand::Owned(c) => c,
    }
}

/// Hands the storage of an owned operand of the pools' length to the pool of its
/// field; a caller's column is never touched.
fn try_recycle(
    op: Operand,
    pool_e: &mut VecPool<GoldilocksExt2>,
    pool_b: &mut VecPool<Goldilocks>,
    expected: usize,
)
    requires
        old(pool_e).wf(),
        old(pool_b).wf(),
        old(pool_e).size() == expected,
        old(pool_b).size() == expected,
    ensures
        final(pool_e).wf(),
        final(pool_b).wf(),
        final(pool_e).size() == expected,
        final(pool_b).size() == expected,
        !(op is Owned) ==> *final(pool_e) == *old(pool_e) && *final(pool_b) == *old(pool_b),
        op matches Operand::Owned(Column::Base(v)) ==> *final(pool_e) == *old(pool_e) && (
        v@.len() != expected ==> *final(pool_b) == *old(pool_b)),
        op matches Operand::Owned(Column::Ext(v)) ==> *final(pool_b) == *old(pool_b) && (
        v@.len() != expected ==> *final(pool_e) == *old(pool_e)),
        op matches Operand::Owned(Column::Base(v)) ==> (v@.len() == expected ==> final(pool_b).held()
            == (if old(pool_b).held().len() < old(pool_b).capacity() {
            old(pool_b).held().push(v@)
        } else {
            old(pool_b).held()
        })),
        op matches Operand::Owned(Column::Ext(v)) ==> (v@.len() == expected ==> final(pool_e).held()
            == (if old(pool_e).held().len() < old(pool_e).capacity() {
            old(pool_e).held().push(v@)
        } else {
            old(pool_e).held()
        })),
{
    match op {
        Operand::Owned(col) => {
            if col.len() == expected {
                match col {
                    Column::Base(v) => pool_b.return_to_pool(v),
                    Column::Ext(v) => pool_e.return_to_pool(v),
                }
            }
        },
        _ => {},
    }
}

/// The operand `e` evaluates to, column-wise.
fn eval_node(
    fixed: &[Column],
    wit: &[Column],
    inst: &[Column],
    challenges: &[GoldilocksExt2],
    e: &Expression,
    n: usize,
    n_threads: usize,
    pool_e: &mut VecPool<GoldilocksExt2>,
    pool_b: &mut VecPool<Goldilocks>,
) -> (r: Operand)
    requires
        leaves_in_range(*e, fixed@.len(), wit@.len(), inst@.len(), challenges@.len()),
        leaf_lens_ok(*e, fixed@, wit@, inst@, n as nat),
        scalars_ok(*e, fixed@, wit@, inst@),
        n >= 1,
        n_threads >= 1,
        old(pool_e).wf(),
        old(pool_b).wf(),
        old(pool_e).size() == n,
        old(pool_b).size() == n,
    ensures
        final(pool_e).wf(),
        final(pool_b).wf(),
        final(pool_e).size() == n,
        final(pool_b).size() == n,
        operand_in_range(r, fixed@.len(), wit@.len(), inst@.len()),
        operand_col(r, fixed@, wit@, inst@).spec_len() == expr_len(*e, fixed@, wit@, inst@),
        expr_len(*e, fixed@, wit@, inst@) == 1 || expr_len(*e, fixed@, wit@, inst@) == n,
        operand_col(r, fixed@, wit@, inst@).is_ext() == expr_is_ext(*e, fixed@, wit@, inst@),
        forall|j: int|
            0 <= j < n ==> #[trigger] col_at(operand_col(r, fixed@, wit@, inst@), j) == eval_spec(
                *e,
                rows(fixed@, j),
                rows(wit@, j),
                rows(inst@, j),
                ext_values(challenges@),
            ),
    decreases e,
{
    let ghost ch = ext_values(challenges@);
    match e {
        Expression::Fixed(i) => {
            assert(fixed@[*i as int].spec_len() == 1 || fixed@[*i as int].spec_len() == n);
            Operand::Fixed(*i)
        },
        Expression::WitIn(w) => {
            assert(wit@[*w as int].spec_len() == 1 || wit@[*w as int].spec_len() == n);
            Operand::Witness(*w as usize)
        },
        Expression::Instance(i) => {
            assert(inst@[*i as int].spec_len() == 1 || inst@[*i as int].spec_len() == n);
            Operand::Instance(*i)
        },
        Expression::Constant(c) => {
            let mut v: Vec<Goldilocks> = Vec::new();
            v.push(*c);
            Operand::Owned(Column::Base(v))
        },
        Expression::Challenge(id, pow, scalar, offset) => {
            let mut v: Vec<GoldilocksExt2> = Vec::new();
            v.push(challenge_value(&challenges[*id as usize], *pow, scalar, offset));
            Operand::Owned(Column::Ext(v))
        },
        Expression::Sum(a, b) => {
            let ra = eval_node(fixed, wit, inst, challenges, a, n, n_threads, pool_e, pool_b);
            let rb = eval_node(fixed, wit, inst, challenges, b, n, n_threads, pool_e, pool_b);
            let col = combine(
                Combine::Add,
                operand_ref(&ra, fixed, wit, inst),
                operand_ref(&rb, fixed, wit, inst),
                operand_ref(&rb, fixed, wit, inst),
                n,
                n_threads,
                pool_e,
                pool_b,
            );
            proof {
                let ca = operand_col(ra, fixed@, wit@, inst@);
                let cb = operand_col(rb, fixed@, wit@, inst@);
                assert forall|j: int| 0 <= j < n implies #[trigger] col_at(col, j) == ext_add(
                    col_at(ca, j),
                    col_at(cb, j),
                ) by {
                    if col.spec_len() == 1 {
                        assert(col.values()[0] == op_value(Combine::Add, ca, cb, cb, 0));
                    } else {
                        assert(col.values()[j] == op_value(Combine::Add, ca, cb, cb, j));
                    }
                }
            }
            try_recycle(ra, pool_e, pool_b, n);
            try_recycle(rb, pool_e, pool_b, n);
            Operand::Owned(col)
        },
        Expression::Product(a, b) => {
            let ra = eval_node(fixed, wit, inst, challenges, a, n, n_threads, pool_e, pool_b);
            let rb = eval_node(fixed, wit, inst, challenges, b, n, n_threads, pool_e, pool_b);
            let col = combine(
                Combine::Mul,
                operand_ref(&ra, fixed, wit, inst),
                operand_ref(&rb, fixed, wit, inst),
                operand_ref(&rb, fixed, wit, inst),
                n,
                n_threads,
                pool_e,
                pool_b,
            );
            proof {
                let ca = operand_col(ra, fixed@, wit@, inst@);
                let cb = operand_col(rb, fixed@, wit@, inst@);
                assert forall|j: int| 0 <= j < n implies #[trigger] col_at(col, j) == ext_mul(
                    col_at(ca, j),
                    col_at(cb, j),
                ) by {
                    if col.spec_len() == 1 {
                        assert(col.values()[0] == op_value(Combine::Mul, ca, cb, cb, 0));
                    } else {
                        assert(col.values()[j] == op_value(Combine::Mul, ca, cb, cb, j));
                    }
                }
            }
            try_recycle(ra, pool_e, pool_b, n);
            try_recycle(rb, pool_e, pool_b, n);
            Operand::Owned(col)
        },
        Expression::ScaledSum(x, a, b) => {
            let rx = eval_node(fixed, wit, inst, challenges, x, n, n_threads, pool_e, pool_b);
            let ra = eval_node(fixed, wit, inst, challenges, a, n, n_threads, pool_e, pool_b);
            let rb = eval_node(fixed, wit, inst, challenges, b, n, n_threads, pool_e, pool_b);
            let col = combine(
                Combine::ScaledSum,
                operand_ref(&rx, fixed, wit, inst),
                operand_ref(&ra, fixed, wit, inst),
                operand_ref(&rb, fixed, wit, inst),
                n,
                n_threads,
                pool_e,
                pool_b,
            );
            proof {
                let cx = operand_col(rx, fixed@, wit@, inst@);
                let ca = operand_col(ra, fixed@, wit@, inst@);
                let cb = operand_col(rb, fixed@, wit@, inst@);
                assert forall|j: int| 0 <= j < n implies #[trigger] col_at(col, j) == ext_add(
                    ext_mul(col_at(ca, j), col_at(cx, j)),
                    col_at(cb, j),
                ) by {
                    if col.spec_len() == 1 {
                        assert(col.values()[0] == op_value(Combine::ScaledSum, cx, ca, cb, 0));
                    } else {
                        assert(col.values()[j] == op_value(Combine::ScaledSum, cx, ca, cb, j));
                    }
                }
            }
            try_recycle(ra, pool_e, pool_b, n);
            try_recycle(rb, pool_e, pool_b, n);
            try_recycle(rx, pool_e, pool_b, n);
            Operand::Owned(col)
        },
    }
}

/// Evaluates `expr` over whole columns: element `j` of the result is `expr` at
/// position `j`, reading every column of length one as that value everywhere.
/// All columns have length one or `n`, the first witness column's length; the
/// work of each operation is split across `n_threads` strided workers.
pub fn wit_infer_by_expr<const N: usize>(
    fixed: &[Column],
    witnesses: &[Column],
    instance: &[Column],
    challenges: &[GoldilocksExt2; N],
    expr: &Expression,
    n_threads: usize,
) -> (r: Column)
    requires
        witnesses@.len() >= 1,
        witnesses@[0].spec_len() >= 1,
        n_threads >= 1,
        leaves_in_range(*expr, fixed@.len(), witnesses@.len(), instance@.len(), N as nat),
        leaf_lens_ok(*expr, fixed@, witnesses@, instance@, witnesses@[0].spec_len()),
        scalars_ok(*expr, fixed@, witnesses@, instance@),
    ensures
        r.spec_len() == expr_len(*expr, fixed@, witnesses@, instance@),
        r.is_ext() == expr_is_ext(*expr, fixed@, witnesses@, instance@),
        forall|j: int|
            0 <= j < r.spec_len() ==> #[trigger] r.values()[j] == eval_spec(
                *expr,
                rows(fixed@, j),
                rows(witnesses@, j),
                rows(instance@, j),
                ext_values(challenges@),
            ),
{
    let n = witnesses[0].len();
    let mut pool_e = VecPool::new(POOL_CAP, n, GoldilocksExt2::zero());
    let mut pool_b = VecPool::new(POOL_CAP, n, Goldilocks::zero());
    let ch = challenges.as_slice();
    assert(ch@ == challenges@);
    let res = eval_node(fixed, witnesses, instance, ch, expr, n, n_threads, &mut pool_e, &mut pool_b);
    let r = match res {
        Operand::Owned(c) => c,
        _ => operand_ref(&res, fixed, witnesses, instance).duplicate(),
    };
    proof {
        let c = operand_col(res, fixed@, witnesses@, instance@);
        assert forall|j: int| 0 <= j < r.spec_len() implies #[trigger] r.values()[j] == eval_spec(
            *expr,
            rows(fixed@, j),
            rows(witnesses@, j),
            rows(instance@, j),
            ext_values(challenges@),
        ) by {
            assert(col_at(c, j) == eval_spec(
                *expr,
                rows(fixed@, j),
                rows(witnesses@, j),
                rows(instance@, j),
                ext_values(ch@),
            ));
        }
    }
    r
}

/// `e` has a challenge leaf.
pub open spec fn has_challenge(e: Expression) -> bool
    decreases e,
{
    match e {
        Expression::Challenge(..) => true,
        Expression::Sum(a, b) => has_challenge(*a) || has_challenge(*b),
        Expression::Product(a, b) => has_challenge(*a) || has_challenge(*b),
        Expression::ScaledSum(x, a, b) => has_challenge(*x) || has_challenge(*a) || has_challenge(*b),
        _ => false,
    }
}

/// `e` has a leaf whose column holds extension-field elements.
pub open spec fn reads_ext_column(e: Expression, fixed: Seq<Column>, wit: Seq<Column>, inst: Seq<Column>) -> bool
    decreases e,
{
    match e {
        Expression::Fixed(i) => fixed[i as int].is_ext(),
        Expression::WitIn(w) => wit[w as int].is_ext(),
        Expression::Instance(i) => inst[i as int].is_ext(),
        Expression::Sum(a, b) => reads_ext_column(*a, fixed, wit, inst) || reads_ext_column(*b, fixed, wit, inst),
        Expression::Product(a, b) => reads_ext_column(*a, fixed, wit, inst) || reads_ext_column(*b, fixed, wit, inst),
        Expression::ScaledSum(x, a, b) => reads_ext_column(*x, fixed, wit, inst) || reads_ext_column(
            *a,
            fixed,
            wit,
            inst,
        ) || reads_ext_column(*b, fixed, wit, inst),
        _ => false,
    }
}

/// The evaluated column is in the extension field exactly when the expression
/// has a challenge or reads an extension-field column: over base-field columns
/// without challenges it stays in the base field.
pub proof fn lemma_result_field(e: Expression, fixed: Seq<Column>, wit: Seq<Column>, inst: Seq<Column>)
    ensures
        expr_is_ext(e, fixed, wit, inst) == (has_challenge(e) || reads_ext_column(e, fixed, wit, inst)),
    decreases e,
{
    match e {
        Expression::Sum(a, b) => {
            lemma_result_field(*a, fixed, wit, inst);
            lemma_result_field(*b, fixed, wit, inst);
        },
        Expression::Product(a, b) => {
            lemma_result_field(*a, fixed, wit, inst);
            lemma_result_field(*b, fixed, wit, inst);
        },
        Expression::ScaledSum(x, a, b) => {
            lemma_result_field(*x, fixed, wit, inst);
            lemma_result_field(*a, fixed, wit, inst);
            lemma_result_field(*b, fixed, wit, inst);
        },
        _ => {},
    }
}

/// Broadcast: at every position, a constant `s` added to or multiplied with an
/// expression `v` gives `v + s` and `v * s`, and `a * x + b` with constant `a`
/// and `b` gives `a` times `x` plus `b`.
pub proof fn lemma_broadcast(
    s: Goldilocks,
    a: Goldilocks,
    b: Goldilocks,
    v: Expression,
    fixed: Seq<ExtV>,
    wit: Seq<ExtV>,
    inst: Seq<ExtV>,
    ch: Seq<ExtV>,
)
    ensures
        eval_spec(Expression::Sum(Box::new(Expression::Constant(s)), Box::new(v)), fixed, wit, inst, ch)
            == ext_add(eval_spec(v, fixed, wit, inst, ch), ext_of_base(s@)),
        eval_spec(Expression::Product(Box::new(Expression::Constant(s)), Box::new(v)), fixed, wit, inst, ch)
            == ext_mul(eval_spec(v, fixed, wit, inst, ch), ext_of_base(s@)),
        eval_spec(
            Expression::ScaledSum(
                Box::new(v),
                Box::new(Expression::Constant(a)),
                Box::new(Expression::Constant(b)),
            ),
            fixed,
            wit,
            inst,
            ch,
        ) == ext_add(ext_mul(ext_of_base(a@), eval_spec(v, fixed, wit, inst, ch)), ext_of_base(b@)),
{
    let x = eval_spec(v, fixed, wit, inst, ch);
    let c = ext_of_base(s@);
    crate::field::lemma_ext_mul_commutes(c, x);
    assert(eval_spec(Expression::Constant(s), fixed, wit, inst, ch) == c);
    assert(eval_spec(Expression::Constant(a), fixed, wit, inst, ch) == ext_of_base(a@));
    assert(eval_spec(Expression::Constant(b), fixed, wit, inst, ch) == ext_of_base(b@));
    let sum = Expression::Sum(Box::new(Expression::Constant(s)), Box::new(v));
    let prod = Expression::Product(Box::new(Expression::Constant(s)), Box::new(v));
    assert(eval_spec(sum, fixed, wit, inst, ch) == ext_add(c, x));
    assert(eval_spec(prod, fixed, wit, inst, ch) == ext_mul(c, x));
    assert(ext_add(c, x) == ext_add(x, c));
}

/// Broadcast, column by column: for a witness column `v`, position `j` of
/// `Sum(Constant(s), v)` is `v[j] + s`, of `Product(Constant(s), v)` is `v[j] * s`,
/// and of `a * v + b` with constants `a`, `b` is `a * v[j] + b`; a column of
/// length one gives its single value at every position.
pub proof fn lemma_broadcast_column(
    s: Goldilocks,
    a: Goldilocks,
    b: Goldilocks,
    w: u16,
    fixed: Seq<Column>,
    wit: Seq<Column>,
    inst: Seq<Column>,
    ch: Seq<ExtV>,
    j: int,
)
    requires
        w < wit.len(),
    ensures
        eval_spec(
            Expression::Sum(Box::new(Expression::Constant(s)), Box::new(Expression::WitIn(w))),
            rows(fixed, j),
            rows(wit, j),
            rows(inst, j),
            ch,
        ) == ext_add(col_at(wit[w as int], j), ext_of_base(s@)),
        eval_spec(
            Expression::Product(Box::new(Expression::Constant(s)), Box::new(Expression::WitIn(w))),
            rows(fixed, j),
            rows(wit, j),
            rows(inst, j),
            ch,
        ) == ext_mul(col_at(wit[w as int], j), ext_of_base(s@)),
        eval_spec(
            Expression::ScaledSum(
                Box::new(Expression::WitIn(w)),
                Box::new(Expression::Constant(a)),
                Box::new(Expression::Constant(b)),
            ),
            rows(fixed, j),
            rows(wit, j),
            rows(inst, j),
            ch,
        ) == ext_add(ext_mul(ext_of_base(a@), col_at(wit[w as int], j)), ext_of_base(b@)),
{
    lemma_broadcast(s, a, b, Expression::WitIn(w), rows(fixed, j), rows(wit, j), rows(inst, j), ch);
    assert(eval_spec(Expression::WitIn(w), rows(fixed, j), rows(wit, j), rows(inst, j), ch) == col_at(
        wit[w as int],
        j,
    ));
}

} // verus!
