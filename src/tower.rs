//! Layered witnesses for grand-product and fractional-sum (logup) arguments.
//!
//! Layers are returned top-down: index 0 is the root, the last index is the
//! input layer.
use crate::column::{
    ceil_log2, ext_lanes_of_len, ext_values, filled, lanes_of_len, lanes_values, lemma_values_wf,
    log2_ceil, reversed, Column,
};
use crate::field::{
    ext_add, ext_mul, ext_one, ext_wf, lemma_ext_mul_assoc, lemma_ext_mul_commutes, lemma_ext_mul_one,
    lemma_ext_mul_wf, ExtV, GoldilocksExt2,
};
use vstd::arithmetic::power2::pow2;
use vstd::prelude::*;

verus! {

/// The product of lanes `0..k` at position `i`, multiplied in lane order.
pub open spec fn lane_prod(lanes: Seq<Seq<ExtV>>, k: nat, i: int) -> ExtV
    decreases k,
{
    if k == 0 {
        ext_one()
    } else {
        ext_mul(lane_prod(lanes, (k - 1) as nat, i), lanes[k - 1][i])
    }
}

/// One level of the product tower: `F` lanes of length `n` become `F` lanes of
/// length `m = n / F`, where lane `b` at `p` multiplies every lane at `b * m + p`.
pub open spec fn product_step(lanes: Seq<Seq<ExtV>>) -> Seq<Seq<ExtV>> {
    let f = lanes.len();
    let m = lanes[0].len() / f;
    Seq::new(f, |b: int| Seq::new(m, |p: int| lane_prod(lanes, f, b * m + p)))
}

fn product_fold_layer(layer: &Vec<Column>) -> (next: Vec<Column>)
    requires
        layer@.len() >= 1,
        ext_lanes_of_len(layer@, layer@[0].spec_len()),
    ensures
        next@.len() == layer@.len(),
        ext_lanes_of_len(next@, layer@[0].spec_len() / layer@.len()),
        lanes_values(next@) == product_step(lanes_values(layer@)),
{
    let fanin = layer.len();
    let n = layer[0].len();
    let cur_len = n / fanin;
    let ghost lanes = lanes_values(layer@);
    let mut next: Vec<Column> = Vec::new();
    let mut index: usize = 0;
    while index < fanin
        invariant
            index <= fanin,
            fanin == layer@.len(),
            fanin >= 1,
            n == layer@[0].spec_len(),
            cur_len == n / fanin,
            lanes == lanes_values(layer@),
            ext_lanes_of_len(layer@, n as nat),
            next@.len() == index,
            ext_lanes_of_len(next@, cur_len as nat),
            forall|b: int| 0 <= b < index ==> #[trigger] next@[b].values() == product_step(lanes)[b],
        decreases fanin - index,
    {
        assert(index * cur_len + cur_len <= fanin * cur_len) by (nonlinear_arith)
            requires
                index < fanin,
        ;
        assert(fanin * cur_len <= n) by (nonlinear_arith)
            requires
                cur_len == n / fanin,
                fanin >= 1,
        ;
        let start = index * cur_len;
        let mut evals = filled(GoldilocksExt2::one(), cur_len);
        let mut f: usize = 0;
        while f < fanin
            invariant
                f <= fanin,
                fanin == layer@.len(),
                n == layer@[0].spec_len(),
                start + cur_len <= n,
                lanes == lanes_values(layer@),
                ext_lanes_of_len(layer@, n as nat),
                evals@.len() == cur_len,
                forall|q: int|
                    0 <= q < cur_len ==> #[trigger] evals@[q]@ == lane_prod(
                        lanes,
                        f as nat,
                        start + q,
                    ),
            decreases fanin - f,
        {
            let lane = layer[f].ext_vec();
            assert(lanes[f as int] == layer@[f as int].values());
            let mut p: usize = 0;
            while p < cur_len
                invariant
                    p <= cur_len,
                    f < fanin,
                    start + cur_len <= n,
                    lane@.len() == n,
                    ext_values(lane@) == lanes[f as int],
                    evals@.len() == cur_len,
                    forall|q: int|
                        0 <= q < p ==> #[trigger] evals@[q]@ == lane_prod(
                            lanes,
                            (f + 1) as nat,
                            start + q,
                        ),
                    forall|q: int|
                        p <= q < cur_len ==> #[trigger] evals@[q]@ == lane_prod(
                            lanes,
                            f as nat,
                            start + q,
                        ),
                decreases cur_len - p,
            {
                assert(lane@[start + p]@ == lanes[f as int][start + p]);
                let v = evals[p].mul(&lane[start + p]);
                evals.set(p, v);
                p = p + 1;
            }
            f = f + 1;
        }
        next.push(Column::Ext(evals));
        proof {
            assert(next@[index as int].values() =~= product_step(lanes)[index as int]);
        }
        index = index + 1;
    }
    proof {
        assert(lanes_values(next@) =~= product_step(lanes));
    }
    next
}

/// Builds the product tower over `last_layer`: `num_vars / log2(F)` layers of
/// `F = num_product_fanin` lanes, each layer one `product_step` above the next.
pub fn infer_tower_product_witness(
    num_vars: usize,
    last_layer: Vec<Column>,
    num_product_fanin: usize,
) -> (res: Vec<Vec<Column>>)
    requires
        num_product_fanin >= 2,
        last_layer@.len() == num_product_fanin,
        ext_lanes_of_len(last_layer@, last_layer@[0].spec_len()),
        num_vars >= log2_ceil(num_product_fanin as nat),
        num_vars as nat % log2_ceil(num_product_fanin as nat) == 0,
        last_layer@[0].spec_len() == fan_pow(
            num_product_fanin as nat,
            (num_vars as nat / log2_ceil(num_product_fanin as nat) - 1) as nat,
        ),
    ensures
        res@.len() == num_vars as nat / log2_ceil(num_product_fanin as nat),
        res@[res@.len() - 1]@ == last_layer@,
        forall|i: int|
            0 <= i < res@.len() ==> #[trigger] res@[i]@.len() == num_product_fanin
                && ext_lanes_of_len(res@[i]@, res@[i]@[0].spec_len()),
        forall|i: int|
            0 <= i < res@.len() - 1 ==> lanes_values(#[trigger] res@[i]@) == product_step(
                lanes_values(res@[i + 1]@),
            ),
{
    let log2_fanin = ceil_log2(num_product_fanin);
    proof {
        if log2_fanin == 0 {
            vstd::arithmetic::power2::lemma2_to64();
        }
    }
    let levels = num_vars / log2_fanin;
    assert(levels >= 1) by (nonlinear_arith)
        requires
            levels == num_vars / log2_fanin,
            num_vars >= log2_fanin,
            log2_fanin >= 1,
    ;
    let mut layers: Vec<Vec<Column>> = Vec::new();
    layers.push(last_layer);
    let mut k: usize = 1;
    while k < levels
        invariant
            1 <= k <= levels,
            num_product_fanin >= 2,
            layers@.len() == k,
            layers@[0]@ == last_layer@,
            forall|j: int|
                0 <= j < k ==> #[trigger] layers@[j]@.len() == num_product_fanin
                    && ext_lanes_of_len(layers@[j]@, layers@[j]@[0].spec_len()),
            forall|j: int|
                0 <= j < k - 1 ==> lanes_values(#[trigger] layers@[j + 1]@) == product_step(
                    lanes_values(layers@[j]@),
                ),
        decreases levels - k,
    {
        assert(layers@[k - 1]@.len() == num_product_fanin);
        let next = product_fold_layer(&layers[k - 1]);
        assert(next@[0].is_ext());
        layers.push(next);
        assert(layers@[k as int]@ == next@);
        k = k + 1;
    }
    let res = reversed(layers);
    assert forall|i: int| 0 <= i < res@.len() - 1 implies lanes_values(#[trigger] res@[i]@)
        == product_step(lanes_values(res@[i + 1]@)) by {
        let j = levels - 2 - i;
        assert(res@[i] == layers@[j + 1]);
        assert(res@[i + 1] == layers@[j]);
        assert(lanes_values(layers@[j + 1]@) == product_step(lanes_values(layers@[j]@)));
    }
    res
}

/// Numerator at `j` of half `idx` one level up from `[p1, p2, q1, q2]`:
/// `p1 / q1 + p2 / q2 = (q1 p2 + q2 p1) / (q1 q2)`.
pub open spec fn logup_num(l: Seq<Seq<ExtV>>, idx: int, j: int) -> ExtV {
    let m = l[2].len() / 2;
    let i = idx * m + j;
    ext_add(ext_mul(l[2][i], l[1][i]), ext_mul(l[3][i], l[0][i]))
}

/// Denominator at `j` of half `idx` one level up from `[p1, p2, q1, q2]`.
pub open spec fn logup_den(l: Seq<Seq<ExtV>>, idx: int, j: int) -> ExtV {
    let m = l[2].len() / 2;
    let i = idx * m + j;
    ext_mul(l[2][i], l[3][i])
}

/// One level of the logup tower on lanes `[p1, p2, q1, q2]` of length `n`: the
/// low and the high half (each of length `n / 2`) give the new first and second
/// fraction.
pub open spec fn logup_step(l: Seq<Seq<ExtV>>) -> Seq<Seq<ExtV>> {
    let m = l[2].len() / 2;
    seq![
        Seq::new(m, |j: int| logup_num(l, 0, j)),
        Seq::new(m, |j: int| logup_num(l, 1, j)),
        Seq::new(m, |j: int| logup_den(l, 0, j)),
        Seq::new(m, |j: int| logup_den(l, 1, j)),
    ]
}

/// `n` unit numerators.
pub open spec fn unit_lane(n: nat) -> Seq<ExtV> {
    Seq::new(n, |i: int| ext_one())
}

/// The fraction `p1 / q1 + p2 / q2` at position `i` of `[p1, p2, q1, q2]`, as
/// numerator and denominator.
fn logup_entry(layer: &Vec<Column>, unit_numerators: bool, i: usize) -> (r: (
    GoldilocksExt2,
    GoldilocksExt2,
))
    requires
        layer@.len() == 4,
        lanes_of_len(layer@, layer@[2].spec_len()),
        i < layer@[2].spec_len(),
        unit_numerators ==> layer@[0].values() == unit_lane(layer@[2].spec_len())
            && layer@[1].values() == unit_lane(layer@[2].spec_len()),
    ensures
        ({
            let l = lanes_values(layer@);
            &&& r.0@ == ext_add(ext_mul(l[2][i as int], l[1][i as int]), ext_mul(l[3][i as int], l[0][i as int]))
            &&& r.1@ == ext_mul(l[2][i as int], l[3][i as int])
        }),
{
    let ghost l = lanes_values(layer@);
    assert(layer@[0].spec_len() == layer@[2].spec_len());
    assert(layer@[1].spec_len() == layer@[2].spec_len());
    assert(layer@[3].spec_len() == layer@[2].spec_len());
    let q1 = layer[2].ext_at(i);
    let q2 = layer[3].ext_at(i);
    let p = if unit_numerators {
        proof {
            lemma_values_wf(layer@[2], i as int);
            lemma_values_wf(layer@[3], i as int);
            lemma_ext_mul_one(q1@);
            lemma_ext_mul_one(q2@);
            assert(l[0][i as int] == ext_one());
            assert(l[1][i as int] == ext_one());
        }
        q1.add(&q2)
    } else {
        let p1 = layer[0].ext_at(i);
        let p2 = layer[1].ext_at(i);
        q1.mul(&p2).add(&q2.mul(&p1))
    };
    (p, q1.mul(&q2))
}

/// Numerator and denominator lanes of half `index` one level up.
fn logup_half(layer: &Vec<Column>, unit_numerators: bool, index: usize) -> (r: (Column, Column))
    requires
        layer@.len() == 4,
        lanes_of_len(layer@, layer@[2].spec_len()),
        index < 2,
        unit_numerators ==> layer@[0].values() == unit_lane(layer@[2].spec_len())
            && layer@[1].values() == unit_lane(layer@[2].spec_len()),
    ensures
        r.0.is_ext(),
        r.1.is_ext(),
        r.0.spec_len() == layer@[2].spec_len() / 2,
        r.1.spec_len() == layer@[2].spec_len() / 2,
        r.0.values() == Seq::new(
            layer@[2].spec_len() / 2,
            |j: int| logup_num(lanes_values(layer@), index as int, j),
        ),
        r.1.values() == Seq::new(
            layer@[2].spec_len() / 2,
            |j: int| logup_den(lanes_values(layer@), index as int, j),
        ),
{
    let ghost l = lanes_values(layer@);
    let n = layer[2].len();
    let cur_len = n / 2;
    assert(cur_len * index + cur_len <= n) by (nonlinear_arith)
        requires
            index < 2,
            cur_len == n / 2,
    ;
    let start = cur_len * index;
    let mut p_evals: Vec<GoldilocksExt2> = Vec::new();
    let mut q_evals: Vec<GoldilocksExt2> = Vec::new();
    let mut j: usize = 0;
    while j < cur_len
        invariant
            j <= cur_len,
            cur_len == n / 2,
            n == layer@[2].spec_len(),
            start == cur_len * index,
            start + cur_len <= n,
            layer@.len() == 4,
            lanes_of_len(layer@, n as nat),
            l == lanes_values(layer@),
            unit_numerators ==> layer@[0].values() == unit_lane(n as nat) && layer@[1].values()
                == unit_lane(n as nat),
            p_evals@.len() == j,
            q_evals@.len() == j,
            forall|k: int| 0 <= k < j ==> #[trigger] p_evals@[k]@ == logup_num(l, index as int, k),
            forall|k: int| 0 <= k < j ==> #[trigger] q_evals@[k]@ == logup_den(l, index as int, k),
        decreases cur_len - j,
    {
        let (p, q) = logup_entry(layer, unit_numerators, start + j);
        proof {
            assert(l[2].len() == n);
            assert(index as int * cur_len == start) by (nonlinear_arith)
                requires
                    start == cur_len * index,
            ;
            assert(p@ == logup_num(l, index as int, j as int));
            assert(q@ == logup_den(l, index as int, j as int));
        }
        p_evals.push(p);
        q_evals.push(q);
        j = j + 1;
    }
    let ghost m = cur_len as nat;
    assert(ext_values(p_evals@) =~= Seq::new(m, |k: int| logup_num(l, index as int, k)));
    assert(ext_values(q_evals@) =~= Seq::new(m, |k: int| logup_den(l, index as int, k)));
    (Column::Ext(p_evals), Column::Ext(q_evals))
}

fn logup_fold_layer(layer: &Vec<Column>, unit_numerators: bool) -> (next: Vec<Column>)
    requires
        layer@.len() == 4,
        lanes_of_len(layer@, layer@[2].spec_len()),
        unit_numerators ==> layer@[0].values() == unit_lane(layer@[2].spec_len())
            && layer@[1].values() == unit_lane(layer@[2].spec_len()),
    ensures
        next@.len() == 4,
        ext_lanes_of_len(next@, layer@[2].spec_len() / 2),
        lanes_values(next@) == logup_step(lanes_values(layer@)),
{
    let (p_low, q_low) = logup_half(layer, unit_numerators, 0);
    let (p_high, q_high) = logup_half(layer, unit_numerators, 1);
    let mut next: Vec<Column> = Vec::new();
    next.push(p_low);
    next.push(p_high);
    next.push(q_low);
    next.push(q_high);
    assert(lanes_values(next@) =~= logup_step(lanes_values(layer@)));
    next
}

/// Builds the logup tower over denominators `q = [q1, q2]` and numerators
/// `p = [p1, p2]` (all `1` when absent), all of length `n`: `log2(n) + 1` layers of
/// lanes `[p1, p2, q1, q2]`, each one `logup_step` above the next.
pub fn infer_tower_logup_witness(p_mles: Option<Vec<Column>>, q_mles: Vec<Column>) -> (res: Vec<
    Vec<Column>,
>)
    requires
        q_mles@.len() == 2,
        q_mles@[0].spec_len() >= 1,
        q_mles@[0].spec_len() == pow2(log2_ceil(q_mles@[0].spec_len())),
        ext_lanes_of_len(q_mles@, q_mles@[0].spec_len()),
        p_mles matches Some(p) ==> p@.len() == 2 && lanes_of_len(p@, q_mles@[0].spec_len())
            && p@[0].is_ext() == p@[1].is_ext(),
    ensures
        res@.len() == log2_ceil(q_mles@[0].spec_len()) + 1,
        res@[res@.len() - 1]@.len() == 4,
        res@[res@.len() - 1]@.subrange(2, 4) == q_mles@,
        p_mles matches Some(p) ==> res@[res@.len() - 1]@.subrange(0, 2) == p@,
        p_mles is None ==> ext_lanes_of_len(
            res@[res@.len() - 1]@.subrange(0, 2),
            q_mles@[0].spec_len(),
        ) && lanes_values(res@[res@.len() - 1]@).subrange(0, 2) == seq![
            unit_lane(q_mles@[0].spec_len()),
            unit_lane(q_mles@[0].spec_len()),
        ],
        forall|i: int|
            0 <= i < res@.len() - 1 ==> #[trigger] res@[i]@.len() == 4 && ext_lanes_of_len(
                res@[i]@,
                res@[i]@[2].spec_len(),
            ),
        forall|i: int|
            0 <= i < res@.len() - 1 ==> lanes_values(#[trigger] res@[i]@) == logup_step(
                lanes_values(res@[i + 1]@),
            ),
{
    let n = q_mles[0].len();
    let num_vars = ceil_log2(n);
    let unit_numerators = p_mles.is_none();
    let mut bottom: Vec<Column> = match p_mles {
        Some(p) => p,
        None => {
            let mut ones: Vec<Column> = Vec::new();
            ones.push(Column::Ext(filled(GoldilocksExt2::one(), n)));
            ones.push(Column::Ext(filled(GoldilocksExt2::one(), n)));
            proof {
                assert(ones@[0].values() =~= unit_lane(n as nat));
                assert(ones@[1].values() =~= unit_lane(n as nat));
            }
            ones
        },
    };
    let ghost numerators = bottom@;
    let ghost qs = q_mles@;
    let mut q_mles = q_mles;
    bottom.append(&mut q_mles);
    assert(bottom@.subrange(0, 2) == numerators);
    assert(bottom@.subrange(2, 4) == qs);
    assert(bottom@[2] == qs[0]);
    let mut layers: Vec<Vec<Column>> = Vec::new();
    layers.push(bottom);
    let mut k: usize = 0;
    while k < num_vars
        invariant
            k <= num_vars,
            layers@.len() == k + 1,
            layers@[0]@ == bottom@,
            bottom@.len() == 4,
            lanes_of_len(bottom@, n as nat),
            unit_numerators ==> bottom@[0].values() == unit_lane(n as nat) && bottom@[1].values()
                == unit_lane(n as nat),
            forall|j: int|
                1 <= j <= k ==> #[trigger] layers@[j]@.len() == 4 && ext_lanes_of_len(
                    layers@[j]@,
                    layers@[j]@[2].spec_len(),
                ),
            forall|j: int|
                0 <= j < k ==> lanes_values(#[trigger] layers@[j + 1]@) == logup_step(
                    lanes_values(layers@[j]@),
                ),
        decreases num_vars - k,
    {
        let next = if k == 0 {
            logup_fold_layer(&layers[0], unit_numerators)
        } else {
            assert(layers@[k as int]@.len() == 4);
            assert(layers@[k as int]@[0].is_ext() && layers@[k as int]@[1].is_ext()
                && layers@[k as int]@[3].is_ext());
            logup_fold_layer(&layers[k], false)
        };
        assert(next@[2].is_ext());
        layers.push(next);
        k = k + 1;
    }
    let res = reversed(layers);
    assert forall|i: int| 0 <= i < res@.len() - 1 implies lanes_values(#[trigger] res@[i]@)
        == logup_step(lanes_values(res@[i + 1]@)) by {
        let j = num_vars - 1 - i;
        assert(res@[i] == layers@[j + 1]);
        assert(res@[i + 1] == layers@[j]);
        assert(lanes_values(layers@[j + 1]@) == logup_step(lanes_values(layers@[j]@)));
    }
    assert(res@[res@.len() - 1] == layers@[0]);
    res
}

/// `g(0) * g(1) * ... * g(n - 1)`, multiplied left to right.
pub open spec fn prodf(g: spec_fn(int) -> ExtV, n: nat) -> ExtV
    decreases n,
{
    if n == 0 {
        ext_one()
    } else {
        ext_mul(prodf(g, (n - 1) as nat), g(n - 1))
    }
}

/// The product of the elements of lane `f`.
pub open spec fn lane_total(lanes: Seq<Seq<ExtV>>, f: int) -> ExtV {
    prodf(|i: int| lanes[f][i], lanes[f].len())
}

/// The product of every element of every lane.
pub open spec fn lanes_prod(lanes: Seq<Seq<ExtV>>) -> ExtV {
    prodf(|f: int| lane_total(lanes, f), lanes.len())
}

/// The product of block `b` (of `m` elements) of lane `f`.
pub open spec fn block_prod(lanes: Seq<Seq<ExtV>>, m: nat, f: int, b: int) -> ExtV {
    prodf(|p: int| lanes[f][b * m + p], m)
}

/// `f^e`.
pub open spec fn fan_pow(f: nat, e: nat) -> nat
    decreases e,
{
    if e == 0 {
        1
    } else {
        f * fan_pow(f, (e - 1) as nat)
    }
}

proof fn lemma_one_wf()
    ensures
        ext_wf(ext_one()),
{
    vstd::arithmetic::div_mod::lemma_small_mod(1, crate::field::modulus() as nat);
}

proof fn lemma_prodf_wf(g: spec_fn(int) -> ExtV, n: nat)
    ensures
        ext_wf(prodf(g, n)),
{
    lemma_one_wf();
    if n > 0 {
        lemma_ext_mul_wf(prodf(g, (n - 1) as nat), g(n - 1));
    }
}

proof fn lemma_prodf_congr(g1: spec_fn(int) -> ExtV, g2: spec_fn(int) -> ExtV, n: nat)
    requires
        forall|i: int| 0 <= i < n ==> #[trigger] g1(i) == g2(i),
    ensures
        prodf(g1, n) == prodf(g2, n),
    decreases n,
{
    if n > 0 {
        lemma_prodf_congr(g1, g2, (n - 1) as nat);
    }
}

proof fn lemma_prodf_ones(n: nat)
    ensures
        prodf(|i: int| ext_one(), n) == ext_one(),
    decreases n,
{
    lemma_one_wf();
    lemma_ext_mul_one(ext_one());
    if n > 0 {
        lemma_prodf_ones((n - 1) as nat);
    }
}

/// `(a b)(c d) = (a c)(b d)`.
proof fn lemma_rearrange(a: ExtV, b: ExtV, c: ExtV, d: ExtV)
    ensures
        ext_mul(ext_mul(a, b), ext_mul(c, d)) == ext_mul(ext_mul(a, c), ext_mul(b, d)),
{
    lemma_ext_mul_assoc(a, b, ext_mul(c, d));
    lemma_ext_mul_assoc(b, c, d);
    lemma_ext_mul_commutes(b, c);
    lemma_ext_mul_assoc(c, b, d);
    lemma_ext_mul_assoc(a, c, ext_mul(b, d));
}

/// A product of pointwise products is the product of the two products.
proof fn lemma_prodf_mul(g: spec_fn(int) -> ExtV, h: spec_fn(int) -> ExtV, n: nat)
    ensures
        prodf(|i: int| ext_mul(g(i), h(i)), n) == ext_mul(prodf(g, n), prodf(h, n)),
    decreases n,
{
    if n == 0 {
        lemma_one_wf();
        lemma_ext_mul_one(ext_one());
    } else {
        let k = (n - 1) as nat;
        lemma_prodf_mul(g, h, k);
        lemma_rearrange(prodf(g, k), prodf(h, k), g(k as int), h(k as int));
    }
}

/// Splitting a product after `a` factors.
proof fn lemma_prodf_split(g: spec_fn(int) -> ExtV, a: nat, b: nat)
    ensures
        prodf(g, a + b) == ext_mul(prodf(g, a), prodf(|i: int| g(a + i), b)),
    decreases b,
{
    if b == 0 {
        lemma_prodf_wf(g, a);
        lemma_ext_mul_one(prodf(g, a));
    } else {
        let k = (b - 1) as nat;
        lemma_prodf_split(g, a, k);
        assert(prodf(g, a + b) == ext_mul(prodf(g, a + k), g((a + k) as int)));
        lemma_ext_mul_assoc(prodf(g, a), prodf(|i: int| g(a + i), k), g((a + k) as int));
    }
}

/// The order of a double product can be swapped.
proof fn lemma_prodf_swap(h: spec_fn(int, int) -> ExtV, ni: nat, nj: nat)
    ensures
        prodf(|i: int| prodf(|j: int| h(i, j), nj), ni) == prodf(
            |j: int| prodf(|i: int| h(i, j), ni),
            nj,
        ),
    decreases ni,
{
    if ni == 0 {
        lemma_prodf_ones(nj);
        lemma_prodf_congr(|j: int| prodf(|i: int| h(i, j), 0), |i: int| ext_one(), nj);
    } else {
        let k = (ni - 1) as nat;
        lemma_prodf_swap(h, k, nj);
        let g = |j: int| prodf(|i: int| h(i, j), k);
        let last = |j: int| h(k as int, j);
        lemma_prodf_mul(g, last, nj);
        lemma_prodf_congr(
            |j: int| ext_mul(g(j), last(j)),
            |j: int| prodf(|i: int| h(i, j), ni),
            nj,
        );
    }
}

/// A product over `c` blocks of `m` factors, block by block.
proof fn lemma_prodf_blocks(g: spec_fn(int) -> ExtV, m: nat, c: nat)
    ensures
        prodf(g, c * m) == prodf(|b: int| prodf(|p: int| g(b * m + p), m), c),
    decreases c,
{
    if c > 0 {
        let k = (c - 1) as nat;
        lemma_prodf_blocks(g, m, k);
        assert(c * m == k * m + m) by (nonlinear_arith)
            requires
                k == c - 1,
        ;
        lemma_prodf_split(g, k * m, m);
        assert(prodf(g, c * m) == prodf(g, k * m + m));
        assert(prodf(g, k * m + m) == ext_mul(prodf(g, k * m), prodf(|i: int| g(k * m + i), m)));
        let blocks = |b: int| prodf(|p: int| g(b * m + p), m);
        assert(prodf(blocks, c) == ext_mul(prodf(blocks, k), blocks(k as int)));
        lemma_prodf_congr(|i: int| g(k * m + i), |p: int| g(k * m + p), m);
        assert(blocks(k as int) == prodf(|i: int| g(k * m + i), m));
    } else {
        assert(c * m == 0) by (nonlinear_arith)
            requires
                c == 0,
        ;
    }
}

proof fn lemma_lane_prod(lanes: Seq<Seq<ExtV>>, k: nat, i: int)
    ensures
        lane_prod(lanes, k, i) == prodf(|f: int| lanes[f][i], k),
    decreases k,
{
    if k > 0 {
        lemma_lane_prod(lanes, (k - 1) as nat, i);
    }
}

/// The product over all lanes of their block `b`.
pub open spec fn blocks_at(lanes: Seq<Seq<ExtV>>, m: nat, nf: nat, b: int) -> ExtV {
    prodf(|f: int| block_prod(lanes, m, f, b), nf)
}

/// One level of the product tower keeps the product of all elements, when every
/// lane's length is a multiple of the lane count.
pub proof fn lemma_product_step_keeps_product(lanes: Seq<Seq<ExtV>>)
    requires
        lanes.len() >= 1,
        forall|f: int|
            0 <= f < lanes.len() ==> #[trigger] lanes[f].len() == lanes.len() * (lanes[0].len()
                / lanes.len()),
    ensures
        lanes_prod(product_step(lanes)) == lanes_prod(lanes),
{
    let nf = lanes.len();
    let m = lanes[0].len() / nf;
    let next = product_step(lanes);
    // each new lane multiplies, position by position, the matching block of every lane
    assert forall|b: int| 0 <= b < nf implies #[trigger] lane_total(next, b) == blocks_at(
        lanes,
        m,
        nf,
        b,
    ) by {
        let h = |p: int, f: int| lanes[f][b * m + p];
        assert forall|p: int| 0 <= p < m implies #[trigger] next[b][p] == prodf(
            |f: int| h(p, f),
            nf,
        ) by {
            lemma_lane_prod(lanes, nf, b * m + p);
            lemma_prodf_congr(|f: int| lanes[f][b * m + p], |f: int| h(p, f), nf);
        }
        lemma_prodf_congr(|p: int| next[b][p], |i: int| prodf(|j: int| h(i, j), nf), m);
        lemma_prodf_swap(h, m, nf);
        assert forall|j: int| 0 <= j < nf implies prodf(|i: int| h(i, j), m) == #[trigger] block_prod(
            lanes,
            m,
            j,
            b,
        ) by {
            lemma_prodf_congr(|i: int| h(i, j), |p: int| lanes[j][b * m + p], m);
        }
        lemma_prodf_congr(
            |j: int| prodf(|i: int| h(i, j), m),
            |f: int| block_prod(lanes, m, f, b),
            nf,
        );
    }
    lemma_prodf_congr(|b: int| lane_total(next, b), |i: int| blocks_at(lanes, m, nf, i), nf);
    let h2 = |b: int, f: int| block_prod(lanes, m, f, b);
    lemma_prodf_swap(h2, nf, nf);
    assert forall|i: int| 0 <= i < nf implies prodf(|j: int| h2(i, j), nf) == #[trigger] blocks_at(
        lanes,
        m,
        nf,
        i,
    ) by {
        lemma_prodf_congr(|j: int| h2(i, j), |j: int| block_prod(lanes, m, j, i), nf);
    }
    lemma_prodf_congr(
        |i: int| blocks_at(lanes, m, nf, i),
        |i: int| prodf(|j: int| h2(i, j), nf),
        nf,
    );
    // each old lane is the product of its blocks
    assert forall|f: int| 0 <= f < nf implies #[trigger] lane_total(lanes, f) == prodf(
        |i: int| h2(i, f),
        nf,
    ) by {
        let g = |i: int| lanes[f][i];
        lemma_prodf_blocks(g, m, nf);
        assert(nf * m == lanes[f].len()) by (nonlinear_arith)
            requires
                lanes[f].len() == nf * m,
        ;
        assert forall|b: int| 0 <= b < nf implies prodf(|p: int| g(b * m + p), m)
            == #[trigger] block_prod(lanes, m, f, b) by {
            lemma_prodf_congr(|p: int| g(b * m + p), |p: int| lanes[f][b * m + p], m);
        }
        lemma_prodf_congr(
            |b: int| prodf(|p: int| g(b * m + p), m),
            |i: int| h2(i, f),
            nf,
        );
    }
    lemma_prodf_congr(
        |j: int| prodf(|i: int| h2(i, j), nf),
        |f: int| lane_total(lanes, f),
        nf,
    );
}

proof fn lemma_tower_from(layers: Seq<Seq<Seq<ExtV>>>, f: nat, idx: nat)
    requires
        layers.len() >= 1,
        idx < layers.len(),
        f >= 1,
        layers.last().len() == f,
        forall|i: int|
            0 <= i < layers.last().len() ==> #[trigger] layers.last()[i].len() == fan_pow(
                f,
                (layers.len() - 1) as nat,
            ),
        forall|i: int| 0 <= i < layers.len() - 1 ==> #[trigger] layers[i] == product_step(layers[i + 1]),
    ensures
        layers[idx as int].len() == f,
        forall|i: int| 0 <= i < f ==> #[trigger] layers[idx as int][i].len() == fan_pow(f, idx),
        lanes_prod(layers[idx as int]) == lanes_prod(layers.last()),
    decreases layers.len() - idx,
{
    if idx + 1 < layers.len() {
        lemma_tower_from(layers, f, idx + 1);
        let below = layers[idx + 1 as int];
        let x = fan_pow(f, idx);
        assert(fan_pow(f, idx + 1) == f * x);
        vstd::arithmetic::div_mod::lemma_div_multiples_vanish(x as int, f as int);
        assert(below[0].len() / f == x);
        lemma_product_step_keeps_product(below);
        assert(layers[idx as int] == product_step(below));
    }
}

/// Product tower: when the `F` input lanes all have length `F^(levels - 1)`,
/// every root lane holds a single value, and the root's values multiply to the
/// product of every input element.
pub proof fn lemma_product_tower_root(layers: Seq<Seq<Seq<ExtV>>>, f: nat)
    requires
        layers.len() >= 1,
        f >= 1,
        layers.last().len() == f,
        forall|i: int|
            0 <= i < layers.last().len() ==> #[trigger] layers.last()[i].len() == fan_pow(
                f,
                (layers.len() - 1) as nat,
            ),
        forall|i: int| 0 <= i < layers.len() - 1 ==> #[trigger] layers[i] == product_step(layers[i + 1]),
    ensures
        layers[0].len() == f,
        forall|i: int| 0 <= i < f ==> #[trigger] layers[0][i].len() == 1,
        lanes_prod(layers[0]) == lanes_prod(layers.last()),
{
    lemma_tower_from(layers, f, 0);
}

} // verus!
