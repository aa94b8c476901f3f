use ceno_witness::digest::{Digest, DIGEST_WIDTH};
use ceno_witness::field::{Goldilocks, GoldilocksExt2, MODULUS};
use ceno_witness::pool::VecPool;

#[test]
fn field_reduces_modulo_prime() {
    assert_eq!(Goldilocks::from_u64(MODULUS).to_canonical_u64(), 0);
    assert_eq!(Goldilocks::from_u64(MODULUS + 5).to_canonical_u64(), 5);
    let minus_one = Goldilocks::from_u64(MODULUS - 1);
    assert_eq!(minus_one.add(&Goldilocks::from_u64(3)).to_canonical_u64(), 2);
    assert_eq!(minus_one.mul(&minus_one).to_canonical_u64(), 1);
}

#[test]
fn extension_multiplication_uses_nonresidue_seven() {
    let u = GoldilocksExt2 { c0: Goldilocks::zero(), c1: Goldilocks::one() };
    let sq = u.mul(&u);
    assert_eq!(sq, GoldilocksExt2::from_u64(7));
    let x = GoldilocksExt2 { c0: Goldilocks::from_u64(2), c1: Goldilocks::from_u64(3) };
    // (2 + 3u)^2 = 4 + 9 * 7 + 12u
    let x2 = x.mul(&x);
    assert_eq!(x2.c0.to_canonical_u64(), 67);
    assert_eq!(x2.c1.to_canonical_u64(), 12);
    assert_eq!(x.pow(2), x2);
    assert_eq!(x.pow(0), GoldilocksExt2::one());
}

#[test]
fn pool_reuses_returned_buffers() {
    let mut pool: VecPool<u64> = VecPool::new(1, 3, 0);
    let a = pool.acquire();
    assert_eq!(a, vec![0, 0, 0]);
    pool.return_to_pool(vec![7, 8, 9]);
    // no room for a second one
    pool.return_to_pool(vec![1, 2, 3]);
    assert_eq!(pool.acquire(), vec![7, 8, 9]);
    assert_eq!(pool.acquire(), vec![0, 0, 0]);
}

#[test]
fn digest_from_exact_width() {
    let vals: Vec<Goldilocks> = (1..=4).map(Goldilocks::from_u64).collect();
    let d = Digest::try_from(vals.clone()).unwrap();
    assert_eq!(d.elements(), vals.as_slice());
    assert_eq!(d.elements().len(), DIGEST_WIDTH);
}

#[test]
fn digest_rejects_other_widths() {
    let vals: Vec<Goldilocks> = (1..=3).map(Goldilocks::from_u64).collect();
    assert_eq!(Digest::try_from(vals), Err("can only create digest from 4 elements".to_string()));
    let vals: Vec<Goldilocks> = (1..=5).map(Goldilocks::from_u64).collect();
    assert!(Digest::try_from(vals).is_err());
}

#[test]
fn digest_from_partial_pads_with_zero() {
    let d = Digest::from_partial(&[Goldilocks::from_u64(5), Goldilocks::from_u64(6)]);
    assert_eq!(
        d.elements(),
        &[Goldilocks::from_u64(5), Goldilocks::from_u64(6), Goldilocks::zero(), Goldilocks::zero()]
    );
}
