use ceno_witness::column::Column;
use ceno_witness::field::GoldilocksExt2;
use ceno_witness::tower::{infer_tower_logup_witness, infer_tower_product_witness};

type E = GoldilocksExt2;

fn e(v: u64) -> E {
    E::from_u64(v)
}

fn ext_col(vals: &[u64]) -> Column {
    Column::Ext(vals.iter().map(|v| e(*v)).collect())
}

fn ext_vals(c: &Column) -> Vec<E> {
    match c {
        Column::Ext(v) => v.clone(),
        Column::Base(_) => panic!("expected an extension-field column"),
    }
}

fn ceil_log2(x: usize) -> usize {
    ceno_witness::column::ceil_log2(x)
}

#[test]
fn test_infer_tower_witness() {
    let num_product_fanin = 2;
    let last_layer: Vec<Column> = vec![ext_col(&[1, 2]), ext_col(&[3, 4])];
    let num_vars = ceil_log2(last_layer[0].len()) + 1;
    let res = infer_tower_product_witness(num_vars, last_layer.clone(), 2);
    let (left, right) = (ext_vals(&res[0][0]), ext_vals(&res[0][1]));
    assert!(left.len() == 1 && right.len() == 1);
    let final_product = left[0].mul(&right[0]);
    let expected_final_product: E = last_layer
        .iter()
        .map(|f| ext_vals(f).into_iter().reduce(|a, b| a.mul(&b)).unwrap())
        .fold(E::one(), |a, b| a.mul(&b));
    assert_eq!(res.len(), num_vars);
    assert!(res.iter().all(|layer_wit| layer_wit.len() == num_product_fanin));
    assert_eq!(final_product, expected_final_product);
}

#[test]
fn product_tower_root_is_product_of_all_inputs() {
    let last_layer: Vec<Column> = vec![ext_col(&[1, 2]), ext_col(&[3, 4])];
    let res = infer_tower_product_witness(2, last_layer, 2);
    assert_eq!(res.len(), 2);
    assert_eq!(ext_vals(&res[0][0]), vec![e(3)]);
    assert_eq!(ext_vals(&res[0][1]), vec![e(8)]);
    assert_eq!(ext_vals(&res[0][0])[0].mul(&ext_vals(&res[0][1])[0]), e(24));
}

#[test]
fn product_tower_fan_in_four() {
    let last_layer: Vec<Column> = vec![
        ext_col(&[1, 2, 3, 4]),
        ext_col(&[5, 6, 7, 8]),
        ext_col(&[9, 10, 11, 12]),
        ext_col(&[13, 14, 15, 16]),
    ];
    let res = infer_tower_product_witness(4, last_layer, 4);
    assert_eq!(res.len(), 2);
    let root: Vec<E> = res[0].iter().map(|l| ext_vals(l)[0]).collect();
    assert_eq!(root, vec![e(1 * 5 * 9 * 13), e(2 * 6 * 10 * 14), e(3 * 7 * 11 * 15), e(4 * 8 * 12 * 16)]);
    let total = root.iter().fold(E::one(), |a, b| a.mul(b));
    let expected = (1..=16u64).fold(E::one(), |a, b| a.mul(&e(b)));
    assert_eq!(total, expected);
}

#[test]
fn test_infer_tower_logup_witness() {
    let num_vars = 2;
    let q: Vec<Column> = vec![ext_col(&[1, 2, 3, 4]), ext_col(&[5, 6, 7, 8])];
    let mut res = infer_tower_logup_witness(None, q);
    assert_eq!(num_vars + 1, res.len());
    // input layer
    let layer = res.pop().unwrap();
    assert_eq!(ext_vals(&layer[0]), vec![e(1); 4]);
    assert_eq!(ext_vals(&layer[1]), vec![e(1); 4]);
    assert_eq!(ext_vals(&layer[2]), vec![e(1), e(2), e(3), e(4)]);
    assert_eq!(ext_vals(&layer[3]), vec![e(5), e(6), e(7), e(8)]);

    // next layer
    let layer = res.pop().unwrap();
    assert_eq!(ext_vals(&layer[0]), vec![e(1 + 5), e(2 + 6)]);
    assert_eq!(ext_vals(&layer[1]), vec![e(3 + 7), e(4 + 8)]);
    assert_eq!(ext_vals(&layer[2]), vec![e(5), e(2 * 6)]);
    assert_eq!(ext_vals(&layer[3]), vec![e(3 * 7), e(4 * 8)]);

    // output layer
    let layer = res.pop().unwrap();
    assert_eq!(ext_vals(&layer[0]), vec![e((1 + 5) * (3 * 7) + (3 + 7) * 5)]);
    assert_eq!(ext_vals(&layer[1]), vec![e((2 + 6) * (4 * 8) + (4 + 8) * (2 * 6))]);
    assert_eq!(ext_vals(&layer[2]), vec![e((3 * 7) * 5)]);
    assert_eq!(ext_vals(&layer[3]), vec![e((4 * 8) * (2 * 6))]);
}

#[test]
fn logup_root_fraction_equals_sum_of_inverses() {
    let q: Vec<Column> = vec![ext_col(&[1, 2, 3, 4]), ext_col(&[5, 6, 7, 8])];
    let res = infer_tower_logup_witness(None, q);
    let root = &res[0];
    let (p1, p2, q1, q2) = (
        ext_vals(&root[0])[0],
        ext_vals(&root[1])[0],
        ext_vals(&root[2])[0],
        ext_vals(&root[3])[0],
    );
    // p/q = p1/q1 + p2/q2 = (p1 q2 + p2 q1) / (q1 q2)
    let p = p1.mul(&q2).add(&p2.mul(&q1));
    let qq = q1.mul(&q2);
    // sum over i of 1/d_i = (sum over i of prod_{j != i} d_j) / prod d_j
    let ds: Vec<u64> = (1..=8).collect();
    let prod_all = ds.iter().fold(E::one(), |a, d| a.mul(&e(*d)));
    let mut numer = E::zero();
    for i in 0..ds.len() {
        let mut t = E::one();
        for (j, d) in ds.iter().enumerate() {
            if i != j {
                t = t.mul(&e(*d));
            }
        }
        numer = numer.add(&t);
    }
    assert_eq!(p.mul(&prod_all), numer.mul(&qq));
}

#[test]
fn logup_with_explicit_numerators() {
    let p: Vec<Column> = vec![
        Column::Base(vec![
            ceno_witness::field::Goldilocks::from_u64(2),
            ceno_witness::field::Goldilocks::from_u64(3),
        ]),
        Column::Base(vec![
            ceno_witness::field::Goldilocks::from_u64(5),
            ceno_witness::field::Goldilocks::from_u64(7),
        ]),
    ];
    let q: Vec<Column> = vec![ext_col(&[11, 13]), ext_col(&[17, 19])];
    let res = infer_tower_logup_witness(Some(p), q);
    assert_eq!(res.len(), 2);
    assert!(matches!(res[1][0], Column::Base(_)));
    // halves: (p1[0]/q1[0], p2[0]/q2[0]) and (p1[1]/q1[1], p2[1]/q2[1])
    assert_eq!(ext_vals(&res[0][0]), vec![e(11 * 5 + 17 * 2)]);
    assert_eq!(ext_vals(&res[0][1]), vec![e(13 * 7 + 19 * 3)]);
    assert_eq!(ext_vals(&res[0][2]), vec![e(11 * 17)]);
    assert_eq!(ext_vals(&res[0][3]), vec![e(13 * 19)]);
}

#[test]
fn logup_single_element_has_one_layer() {
    let q: Vec<Column> = vec![ext_col(&[3]), ext_col(&[4])];
    let res = infer_tower_logup_witness(None, q);
    assert_eq!(res.len(), 1);
    assert_eq!(ext_vals(&res[0][0]), vec![e(1)]);
    assert_eq!(ext_vals(&res[0][3]), vec![e(4)]);
}
