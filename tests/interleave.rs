use ceno_witness::column::Column;
use ceno_witness::field::{Goldilocks, GoldilocksExt2};
use ceno_witness::interleave::interleaving_mles_to_mles;

type E = GoldilocksExt2;

fn e(v: u64) -> E {
    E::from_u64(v)
}

fn ext_col(vals: &[u64]) -> Column {
    Column::Ext(vals.iter().map(|v| e(*v)).collect())
}

fn ext_vals(c: &Column) -> Vec<E> {
    match c {
        Column::Ext(v) => v.clone(),
        Column::Base(_) => panic!("expected an extension-field column"),
    }
}

#[test]
fn test_interleaving_mles_to_mles() {
    let num_product_fanin = 2;
    // [[1, 2], [3, 4], [5, 6], [7, 8]]
    let input_mles: Vec<Column> = vec![ext_col(&[1, 2]), ext_col(&[3, 4]), ext_col(&[5, 6]), ext_col(&[7, 8])];
    let res = interleaving_mles_to_mles(&input_mles, 2, num_product_fanin, E::one());
    // [[1, 3, 5, 7], [2, 4, 6, 8]]
    assert_eq!(ext_vals(&res[0]), vec![e(1), e(3), e(5), e(7)]);
    assert_eq!(ext_vals(&res[1]), vec![e(2), e(4), e(6), e(8)]);
}

#[test]
fn test_interleaving_mles_to_mles_padding() {
    let num_product_fanin = 2;

    // limb level padding
    // [[1,2],[3,4],[5,6]]]
    let input_mles: Vec<Column> = vec![ext_col(&[1, 2]), ext_col(&[3, 4]), ext_col(&[5, 6])];
    let res = interleaving_mles_to_mles(&input_mles, 2, num_product_fanin, E::zero());
    // [[1, 3, 5, 0], [2, 4, 6, 0]]
    assert_eq!(ext_vals(&res[0]), vec![e(1), e(3), e(5), e(0)]);
    assert_eq!(ext_vals(&res[1]), vec![e(2), e(4), e(6), e(0)]);

    // instance level padding
    // [[1,0],[3,0],[5,0]]]
    let input_mles: Vec<Column> = vec![ext_col(&[1, 0]), ext_col(&[3, 0]), ext_col(&[5, 0])];
    let res = interleaving_mles_to_mles(&input_mles, 1, num_product_fanin, E::one());
    // [[1, 3, 5, 1], [1, 1, 1, 1]]
    assert_eq!(ext_vals(&res[0]), vec![e(1), e(3), e(5), E::one()]);
    assert_eq!(ext_vals(&res[1]), vec![E::one(); 4]);
}

#[test]
fn test_interleaving_mles_to_mles_edgecases() {
    let num_product_fanin = 2;
    // one instance, 2 mles: [[2], [3]]
    let input_mles: Vec<Column> = vec![ext_col(&[2]), ext_col(&[3])];
    let res = interleaving_mles_to_mles(&input_mles, 1, num_product_fanin, E::one());
    // [[2, 3], [1, 1]]
    assert_eq!(ext_vals(&res[0]), vec![e(2), e(3)]);
    assert_eq!(ext_vals(&res[1]), vec![E::one(), E::one()]);
}

#[test]
fn interleaving_round_trip() {
    // four columns of four instances, fan-in two: two instances per lane
    let cols: Vec<Vec<u64>> = (0..4u64).map(|m| (0..4u64).map(|i| 10 * m + i + 1).collect()).collect();
    let input: Vec<Column> = cols.iter().map(|c| ext_col(c)).collect();
    let res = interleaving_mles_to_mles(&input, 4, 2, E::zero());
    let per = 2;
    for (lane, l) in res.iter().enumerate() {
        let v = ext_vals(l);
        assert_eq!(v.len(), 8);
        for b in 0..per {
            for m in 0..4 {
                assert_eq!(v[b * 4 + m], e(cols[m][lane * per + b]));
            }
        }
    }
}

#[test]
fn interleaving_reads_base_columns() {
    let input: Vec<Column> = vec![
        Column::Base(vec![Goldilocks::from_u64(4), Goldilocks::from_u64(9)]),
        Column::Base(vec![Goldilocks::from_u64(6), Goldilocks::from_u64(8)]),
    ];
    let res = interleaving_mles_to_mles(&input, 2, 2, E::zero());
    assert_eq!(ext_vals(&res[0]), vec![e(4), e(6)]);
    assert_eq!(ext_vals(&res[1]), vec![e(9), e(8)]);
}

#[test]
fn interleaving_pads_with_default_both_ways() {
    // three columns, three instances over two lanes
    let input: Vec<Column> = vec![ext_col(&[1, 2, 3, 0]), ext_col(&[4, 5, 6, 0]), ext_col(&[7, 8, 9, 0])];
    for d in [E::zero(), E::one()] {
        let res = interleaving_mles_to_mles(&input, 3, 2, d);
        assert_eq!(ext_vals(&res[0]), vec![e(1), e(4), e(7), d, e(2), e(5), e(8), d]);
        assert_eq!(ext_vals(&res[1]), vec![e(3), e(6), e(9), d, d, d, d, d]);
    }
}

#[test]
fn interleaving_short_column_keeps_its_real_instances() {
    // three real instances in one lane; the second column holds only two of them
    let input: Vec<Column> = vec![ext_col(&[1, 2, 3, 4]), ext_col(&[5, 6])];
    let d = E::from_u64(9);
    let res = interleaving_mles_to_mles(&input, 3, 1, d);
    assert_eq!(res.len(), 1);
    assert_eq!(ext_vals(&res[0]), vec![e(1), e(5), e(2), e(6), e(3), d, d, d]);
}
