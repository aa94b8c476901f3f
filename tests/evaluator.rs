use ceno_witness::column::Column;
use ceno_witness::evaluator::wit_infer_by_expr;
use ceno_witness::expression::{eval_by_expr, eval_by_expr_with_fixed, eval_by_expr_with_instance, Expression};
use ceno_witness::field::{Goldilocks, GoldilocksExt2};

type E = GoldilocksExt2;
type B = Goldilocks;

fn e(v: u64) -> E {
    E::from_u64(v)
}

fn b(v: u64) -> B {
    B::from_u64(v)
}

fn wit(i: u16) -> Box<Expression> {
    Box::new(Expression::WitIn(i))
}

fn constant(v: u64) -> Box<Expression> {
    Box::new(Expression::Constant(b(v)))
}

/// `a + b + a * b + (c * 3 + 2)` over witnesses `a, b, c`.
fn sample_expr() -> Expression {
    Expression::Sum(
        Box::new(Expression::Sum(
            Box::new(Expression::Sum(wit(0), wit(1))),
            Box::new(Expression::Product(wit(0), wit(1))),
        )),
        Box::new(Expression::ScaledSum(wit(2), constant(3), constant(2))),
    )
}

fn base_vals(c: &Column) -> Vec<B> {
    match c {
        Column::Base(v) => v.clone(),
        Column::Ext(_) => panic!("expected a base-field column"),
    }
}

fn ext_vals(c: &Column) -> Vec<E> {
    match c {
        Column::Ext(v) => v.clone(),
        Column::Base(_) => panic!("expected an extension-field column"),
    }
}

#[test]
fn test_wit_infer_by_expr_base_field() {
    let expr = sample_expr();
    let no_challenges: [E; 0] = [];
    let res = wit_infer_by_expr(
        &[],
        &[Column::Base(vec![b(1)]), Column::Base(vec![b(2)]), Column::Base(vec![b(3)])],
        &[],
        &no_challenges,
        &expr,
        1,
    );
    let v = base_vals(&res);
    // 1 + 2 + 1 * 2 + (3 * 3 + 2)
    assert_eq!(v, vec![b(16)]);
}

#[test]
fn test_wit_infer_by_expr_ext_field() {
    let expr = Expression::Sum(
        Box::new(sample_expr()),
        Box::new(Expression::Challenge(0, 1, E::one(), E::one())),
    );
    let res = wit_infer_by_expr(
        &[],
        &[Column::Base(vec![b(1)]), Column::Base(vec![b(2)]), Column::Base(vec![b(3)])],
        &[],
        &[E::one()],
        &expr,
        1,
    );
    let v = ext_vals(&res);
    // 16 + (1^1 * 1 + 1)
    assert_eq!(v, vec![e(18)]);
}

#[test]
fn evaluator_columns_with_threads() {
    let a: Vec<u64> = (1..=8).collect();
    let bb: Vec<u64> = (11..=18).collect();
    let c: Vec<u64> = (21..=28).collect();
    let cols = vec![
        Column::Base(a.iter().map(|x| b(*x)).collect()),
        Column::Base(bb.iter().map(|x| b(*x)).collect()),
        Column::Base(c.iter().map(|x| b(*x)).collect()),
    ];
    let no_challenges: [E; 0] = [];
    for threads in [1usize, 3, 8, 20] {
        let res = wit_infer_by_expr(&[], &cols, &[], &no_challenges, &sample_expr(), threads);
        let expected: Vec<B> = (0..8).map(|i| b(a[i] + bb[i] + a[i] * bb[i] + c[i] * 3 + 2)).collect();
        assert_eq!(base_vals(&res), expected);
    }
}

#[test]
fn evaluator_broadcasts_constants() {
    let v: Vec<u64> = vec![5, 6, 7, 8];
    let cols = vec![Column::Ext(v.iter().map(|x| e(*x)).collect())];
    let no_challenges: [E; 0] = [];
    let sum = Expression::Sum(constant(10), wit(0));
    let res = wit_infer_by_expr(&[], &cols, &[], &no_challenges, &sum, 2);
    assert_eq!(ext_vals(&res), vec![e(15), e(16), e(17), e(18)]);
    let prod = Expression::Product(wit(0), constant(3));
    let res = wit_infer_by_expr(&[], &cols, &[], &no_challenges, &prod, 2);
    assert_eq!(ext_vals(&res), vec![e(15), e(18), e(21), e(24)]);
    let affine = Expression::ScaledSum(wit(0), constant(4), constant(9));
    let res = wit_infer_by_expr(&[], &cols, &[], &no_challenges, &affine, 2);
    assert_eq!(ext_vals(&res), vec![e(29), e(33), e(37), e(41)]);
}

#[test]
fn evaluator_single_leaf_returns_copy() {
    let cols = vec![Column::Base(vec![b(4), b(5)])];
    let no_challenges: [E; 0] = [];
    let res = wit_infer_by_expr(&[], &cols, &[], &no_challenges, &Expression::WitIn(0), 1);
    assert_eq!(base_vals(&res), vec![b(4), b(5)]);
    assert_eq!(base_vals(&cols[0]), vec![b(4), b(5)]);
}

#[test]
fn evaluator_reads_fixed_and_instance_columns() {
    let fixed = vec![Column::Base(vec![b(2), b(3)])];
    let witnesses = vec![Column::Base(vec![b(5), b(7)])];
    let instance = vec![Column::Ext(vec![e(100)])];
    let expr = Expression::Sum(
        Box::new(Expression::Product(Box::new(Expression::Fixed(0)), wit(0))),
        Box::new(Expression::Instance(0)),
    );
    let no_challenges: [E; 0] = [];
    let res = wit_infer_by_expr(&fixed, &witnesses, &instance, &no_challenges, &expr, 2);
    assert_eq!(ext_vals(&res), vec![e(110), e(121)]);
}

#[test]
fn scalar_evaluation_matches_columns() {
    let expr = Expression::Sum(
        Box::new(sample_expr()),
        Box::new(Expression::Challenge(0, 3, e(2), e(5))),
    );
    let r = eval_by_expr(&[e(1), e(2), e(3)], &[e(2)], &expr);
    // 16 + 2^3 * 2 + 5
    assert_eq!(r, e(37));
    let r = eval_by_expr_with_fixed(&[e(9)], &[e(1), e(2), e(3)], &[e(2)], &expr);
    assert_eq!(r, e(37));
    let with_inst = Expression::Product(Box::new(Expression::Instance(1)), Box::new(Expression::Fixed(0)));
    let r = eval_by_expr_with_instance(&[e(9)], &[], &[e(1), e(4)], &[], &with_inst);
    assert_eq!(r, e(36));
}

#[test]
fn evaluator_results_do_not_share_storage() {
    let cols = vec![Column::Ext(vec![e(1), e(2), e(3), e(4)]), Column::Ext(vec![e(5), e(6), e(7), e(8)])];
    let no_challenges: [E; 0] = [];
    // deep enough that intermediate buffers go back to the pools and are reused
    let expr = Expression::Sum(
        Box::new(Expression::Product(
            Box::new(Expression::Sum(wit(0), wit(1))),
            Box::new(Expression::Sum(wit(1), wit(0))),
        )),
        Box::new(Expression::Product(wit(0), wit(1))),
    );
    let first = wit_infer_by_expr(&[], &cols, &[], &no_challenges, &expr, 2);
    let second = wit_infer_by_expr(&[], &cols, &[], &no_challenges, &expr, 2);
    let mut a = ext_vals(&first);
    let b2 = ext_vals(&second);
    let expected: Vec<E> = (0..4u64).map(|i| e((i + 1 + i + 5) * (i + 5 + i + 1) + (i + 1) * (i + 5))).collect();
    assert_eq!(a, expected);
    a[0] = E::zero();
    assert_eq!(b2, expected);
    assert_eq!(ext_vals(&cols[0]), vec![e(1), e(2), e(3), e(4)]);
}

#[test]
fn evaluator_tag_follows_inputs_and_challenges() {
    let no_challenges: [E; 0] = [];
    let base_cols = vec![Column::Base(vec![b(1), b(2)])];
    let res = wit_infer_by_expr(&[], &base_cols, &[], &no_challenges, &Expression::Product(wit(0), constant(5)), 1);
    assert!(matches!(res, Column::Base(_)));
    let ext_cols = vec![Column::Ext(vec![e(1), e(2)])];
    let res = wit_infer_by_expr(&[], &ext_cols, &[], &no_challenges, &Expression::Product(wit(0), constant(5)), 1);
    assert!(matches!(res, Column::Ext(_)));
    let with_challenge = Expression::Sum(wit(0), Box::new(Expression::Challenge(0, 2, E::one(), E::zero())));
    let res = wit_infer_by_expr(&[], &base_cols, &[], &[e(3)], &with_challenge, 1);
    assert_eq!(ext_vals(&res), vec![e(10), e(11)]);
}

#[test]
fn evaluator_ignores_lengths_of_unread_columns() {
    let witnesses = vec![Column::Base(vec![b(1), b(2)]), Column::Base(vec![b(7), b(7), b(7)])];
    let no_challenges: [E; 0] = [];
    let res = wit_infer_by_expr(&[], &witnesses, &[], &no_challenges, &Expression::Sum(wit(0), constant(1)), 1);
    assert_eq!(base_vals(&res), vec![b(2), b(3)]);
}
