//! Reshaping per-instance columns into the fan-in lanes of a tower's input layer.
use crate::column::{ceil_log2, filled, lemma_log2_ceil_unique, log2_ceil, Column};
use crate::field::{ExtV, GoldilocksExt2};
use vstd::arithmetic::power2::pow2;
use vstd::prelude::*;

verus! {

/// `2^e`.
pub fn pow2_usize(e: usize) -> (r: usize)
    requires
        pow2(e as nat) <= usize::MAX,
    ensures
        r == pow2(e as nat),
{
    let mut r: usize = 1;
    let mut i: usize = 0;
    proof {
        vstd::arithmetic::power2::lemma2_to64();
    }
    while i < e
        invariant
            i <= e,
            pow2(e as nat) <= usize::MAX,
            r == pow2(i as nat),
        decreases e - i,
    {
        proof {
            vstd::arithmetic::power2::lemma_pow2_unfold((i + 1) as nat);
            if i + 1 < e {
                vstd::arithmetic::power2::lemma_pow2_strictly_increases((i + 1) as nat, e as nat);
            }
        }
        r = r * 2;
        i = i + 1;
    }
    r
}

/// Number of instance slots the padded instance count spans:
/// `log2` of `max(N.next_power_of_two(), 2)`.
pub open spec fn log2_instances(num_instances: nat) -> nat {
    if log2_ceil(num_instances) >= 1 {
        log2_ceil(num_instances)
    } else {
        1
    }
}

/// Slots per instance in a lane: the number of columns, rounded up to a power of two.
pub open spec fn slots_per_instance(num_columns: nat) -> nat {
    pow2(log2_ceil(num_columns))
}

/// Instances per lane: `2^(log2 padded instances - log2 lanes)`, at least one.
pub open spec fn instances_per_lane(num_instances: nat, num_limbs: nat) -> nat {
    let a = log2_instances(num_instances);
    let b = log2_ceil(num_limbs);
    if a >= b {
        pow2((a - b) as nat)
    } else {
        1
    }
}

/// Real instances each lane takes: the first column's length over the lane count, at
/// least one.
pub open spec fn per_fanin_len(first_len: nat, num_limbs: nat) -> nat {
    if first_len / num_limbs >= 1 {
        first_len / num_limbs
    } else {
        1
    }
}

/// Lane `lane`, instance block `b`, slot `m` of the interleaved layout: column `m`'s
/// value at instance `per * lane + b` where that instance is real (below
/// `num_instances`) and the column holds it; `default` elsewhere.
pub open spec fn interleaved(
    cols: Seq<Seq<ExtV>>,
    num_instances: nat,
    per: nat,
    lane: nat,
    b: nat,
    m: nat,
    default: ExtV,
) -> ExtV {
    let start = per * lane;
    if m < cols.len() && b < per && start + b < num_instances && start + b < cols[m as int].len() {
        cols[m as int][(start + b) as int]
    } else {
        default
    }
}

pub open spec fn cols_values(cols: Seq<Column>) -> Seq<Seq<ExtV>> {
    Seq::new(cols.len(), |i: int| cols[i].values())
}

proof fn lemma_slot(b: int, m: int, s: int, n: int)
    requires
        0 <= b < n,
        0 <= m < s,
    ensures
        0 <= b * s + m < n * s,
        n * s == s * n,
        b * s <= b * s + m,
{
    assert(n * s == s * n) by (nonlinear_arith);
    assert(b * s + m < n * s) by (nonlinear_arith)
        requires
            0 <= b < n,
            0 <= m < s,
    ;
    assert(0 <= b * s) by (nonlinear_arith)
        requires
            0 <= b,
            0 <= m < s,
    ;
}

proof fn lemma_slot_unique(b1: int, m1: int, b2: int, m2: int, s: int)
    requires
        0 <= b1,
        0 <= b2,
        0 <= m1 < s,
        0 <= m2 < s,
        b1 * s + m1 == b2 * s + m2,
    ensures
        b1 == b2 && m1 == m2,
{
    if b1 < b2 {
        assert(b1 * s + s <= b2 * s) by (nonlinear_arith)
            requires
                b1 < b2,
                s > 0,
        ;
    } else if b2 < b1 {
        assert(b2 * s + s <= b1 * s) by (nonlinear_arith)
            requires
                b2 < b1,
                s > 0,
        ;
    }
}

/// Position of instance block `b`, slot `m` in a lane with `s` slots per instance.
pub open spec fn slot(b: int, m: int, s: int) -> int {
    b * s + m
}

/// The lane `lane` of the interleaved layout, built slot by slot.
fn interleave_lane(
    mles: &Vec<Column>,
    num_instances: usize,
    per: usize,
    lane: usize,
    s: usize,
    inst: usize,
    default: GoldilocksExt2,
) -> (r: Vec<GoldilocksExt2>)
    requires
        s >= 1,
        inst >= 1,
        s * inst <= usize::MAX,
        mles@.len() <= s,
        per * lane <= usize::MAX,
    ensures
        r@.len() == s * inst,
        forall|b: int, m: int|
            0 <= b < inst && 0 <= m < s ==> #[trigger] r@[slot(b, m, s as int)]@ == interleaved(
                cols_values(mles@),
                num_instances as nat,
                per as nat,
                lane as nat,
                b as nat,
                m as nat,
                default@,
            ),
{
    let ghost cols = cols_values(mles@);
    let mut evals = filled(default, s * inst);
    assert forall|b: int, m: int| 0 <= b < inst && 0 <= m < s implies #[trigger] evals@[slot(
        b,
        m,
        s as int,
    )] == default by {
        lemma_slot(b, m, s as int, inst as int);
    }
    let start = per * lane;
    if start < num_instances {
        let valid = if per <= num_instances - start {
            per
        } else {
            num_instances - start
        };
        let cnt = if valid <= inst {
            valid
        } else {
            inst
        };
        let mut i: usize = 0;
        while i < mles.len()
            invariant
                i <= mles@.len(),
                mles@.len() <= s,
                s >= 1,
                s * inst <= usize::MAX,
                cols == cols_values(mles@),
                start == per * lane,
                start < num_instances,
                valid == (if per <= num_instances - start {
                    per
                } else {
                    (num_instances - start) as usize
                }),
                cnt <= valid,
                cnt <= inst,
                cnt == valid || cnt == inst,
                evals@.len() == s * inst,
                forall|b: int, m: int|
                    0 <= b < inst && 0 <= m < s ==> #[trigger] evals@[slot(b, m, s as int)]@ == (
                    if m < i {
                        interleaved(
                            cols,
                            num_instances as nat,
                            per as nat,
                            lane as nat,
                            b as nat,
                            m as nat,
                            default@,
                        )
                    } else {
                        default@
                    }),
            decreases mles@.len() - i,
        {
            let col_len = mles[i].len();
            let mut b: usize = 0;
            while b < cnt
                invariant
                    b <= cnt,
                    cnt <= valid,
                    cnt <= inst,
                    i < mles@.len(),
                    mles@.len() <= s,
                    col_len == mles@[i as int].spec_len(),
                    start + valid <= num_instances,
                    s * inst <= usize::MAX,
                    s >= 1,
                    cols == cols_values(mles@),
                    start == per * lane,
                    start < num_instances,
                    valid == (if per <= num_instances - start {
                        per
                    } else {
                        (num_instances - start) as usize
                    }),
                    evals@.len() == s * inst,
                    forall|b2: int, m: int|
                        0 <= b2 < inst && 0 <= m < s ==> #[trigger] evals@[slot(
                            b2,
                            m,
                            s as int,
                        )]@ == (if m < i || (m == i && b2 < b) {
                            interleaved(
                                cols,
                                num_instances as nat,
                                per as nat,
                                lane as nat,
                                b2 as nat,
                                m as nat,
                                default@,
                            )
                        } else {
                            default@
                        }),
                decreases cnt - b,
            {
                proof {
                    lemma_slot(b as int, i as int, s as int, inst as int);
                }
                let pos = b * s + i;
                if start + b < col_len {
                    let v = mles[i].ext_at(start + b);
                    evals.set(pos, v);
                }
                proof {
                    assert forall|b2: int, m: int|
                        0 <= b2 < inst && 0 <= m < s implies #[trigger] evals@[slot(
                            b2,
                            m,
                            s as int,
                        )]@ == (if m < i || (m == i && b2 < b + 1) {
                            interleaved(
                                cols,
                                num_instances as nat,
                                per as nat,
                                lane as nat,
                                b2 as nat,
                                m as nat,
                                default@,
                            )
                        } else {
                            default@
                        }) by {
                        lemma_slot(b2, m, s as int, inst as int);
                        if slot(b2, m, s as int) == pos {
                            lemma_slot_unique(b2, m, b as int, i as int, s as int);
                        }
                    }
                }
                b = b + 1;
            }
            proof {
                assert forall|b2: int, m: int|
                    0 <= b2 < inst && 0 <= m < s implies #[trigger] evals@[slot(
                        b2,
                        m,
                        s as int,
                    )]@ == (if m < i + 1 {
                        interleaved(
                            cols,
                            num_instances as nat,
                            per as nat,
                            lane as nat,
                            b2 as nat,
                            m as nat,
                            default@,
                        )
                    } else {
                        default@
                    }) by {
                    if m == i {
                        assert(mles@[i as int].values().len() == mles@[i as int].spec_len());
                    }
                }
            }
            i = i + 1;
        }
    }
    proof {
        assert forall|b: int, m: int| 0 <= b < inst && 0 <= m < s implies #[trigger] evals@[slot(
            b,
            m,
            s as int,
        )]@ == interleaved(
            cols_values(mles@),
            num_instances as nat,
            per as nat,
            lane as nat,
            b as nat,
            m as nat,
            default@,
        ) by {}
    }
    evals
}

/// Interleaves `M` per-instance columns into `num_limbs` lanes of `S * I` slots,
/// with `S` the number of columns rounded up to a power of two and `I` the
/// instances per lane: slot `(b, m)` of lane `lane` holds column `m`'s value at
/// instance `lane * per + b` (see `interleaved`), `default` where there is none.
pub fn interleaving_mles_to_mles(
    mles: &Vec<Column>,
    num_instances: usize,
    num_limbs: usize,
    default: GoldilocksExt2,
) -> (res: Vec<Column>)
    requires
        num_limbs >= 1,
        num_limbs == pow2(log2_ceil(num_limbs as nat)),
        mles@.len() >= 1,
        forall|i: int|
            0 <= i < mles@.len() ==> #[trigger] mles@[i].spec_len() <= pow2(
                log2_instances(num_instances as nat),
            ),
        slots_per_instance(mles@.len()) * instances_per_lane(
            num_instances as nat,
            num_limbs as nat,
        ) <= usize::MAX,
    ensures
        res@.len() == num_limbs,
        forall|lane: int| 0 <= lane < num_limbs ==> #[trigger] res@[lane].is_ext(),
        forall|lane: int|
            0 <= lane < num_limbs ==> #[trigger] res@[lane].spec_len() == slots_per_instance(
                mles@.len(),
            ) * instances_per_lane(num_instances as nat, num_limbs as nat),
        forall|lane: int, b: int, m: int|
            0 <= lane < num_limbs && 0 <= b < instances_per_lane(
                num_instances as nat,
                num_limbs as nat,
            ) && 0 <= m < slots_per_instance(mles@.len()) ==> #[trigger] res@[lane].values()[slot(
                b,
                m,
                slots_per_instance(mles@.len()) as int,
            )] == interleaved(
                cols_values(mles@),
                num_instances as nat,
                per_fanin_len(mles@[0].spec_len(), num_limbs as nat),
                lane as nat,
                b as nat,
                m as nat,
                default@,
            ),
{
    proof {
        vstd::arithmetic::power2::lemma2_to64();
    }
    let log2_num_instances: usize = if num_instances <= 1 {
        proof {
            lemma_log2_ceil_unique(num_instances as nat, 0);
        }
        1
    } else {
        ceil_log2(num_instances)
    };
    assert(log2_num_instances == log2_instances(num_instances as nat));
    let log2_mle_size = ceil_log2(mles.len());
    let log2_num_limbs = ceil_log2(num_limbs);
    let ghost s_spec = slots_per_instance(mles@.len());
    let ghost i_spec = instances_per_lane(num_instances as nat, num_limbs as nat);
    proof {
        vstd::arithmetic::power2::lemma_pow2_pos(log2_mle_size as nat);
        if log2_num_instances >= log2_num_limbs {
            vstd::arithmetic::power2::lemma_pow2_pos((log2_num_instances - log2_num_limbs) as nat);
        }
        assert(s_spec <= s_spec * i_spec) by (nonlinear_arith)
            requires
                i_spec >= 1,
        ;
        assert(i_spec <= s_spec * i_spec) by (nonlinear_arith)
            requires
                s_spec >= 1,
        ;
    }
    let s = pow2_usize(log2_mle_size);
    let inst = if log2_num_instances >= log2_num_limbs {
        pow2_usize(log2_num_instances - log2_num_limbs)
    } else {
        1
    };
    let first_len = mles[0].len();
    let per = if first_len / num_limbs >= 1 {
        first_len / num_limbs
    } else {
        1
    };
    let mut res: Vec<Column> = Vec::new();
    let mut lane: usize = 0;
    while lane < num_limbs
        invariant
            lane <= num_limbs,
            num_limbs >= 1,
            s == s_spec,
            inst == i_spec,
            s >= 1,
            inst >= 1,
            s * inst <= usize::MAX,
            mles@.len() <= s,
            per == per_fanin_len(mles@[0].spec_len(), num_limbs as nat),
            per == first_len / num_limbs || per == 1,
            first_len == mles@[0].spec_len(),
            res@.len() == lane,
            forall|l: int|
                0 <= l < lane ==> #[trigger] res@[l].is_ext() && res@[l].spec_len() == s * inst,
            forall|l: int, b: int, m: int|
                0 <= l < lane && 0 <= b < inst && 0 <= m < s ==> #[trigger] res@[l].values()[slot(
                    b,
                    m,
                    s as int,
                )] == interleaved(
                    cols_values(mles@),
                    num_instances as nat,
                    per as nat,
                    l as nat,
                    b as nat,
                    m as nat,
                    default@,
                ),
        decreases num_limbs - lane,
    {
        assert(per * lane <= usize::MAX) by (nonlinear_arith)
            requires
                per == first_len / num_limbs || per == 1,
                lane < num_limbs,
                first_len <= usize::MAX,
                num_limbs <= usize::MAX,
        ;
        let evals = interleave_lane(mles, num_instances, per, lane, s, inst, default);
        let ghost before = res@;
        res.push(Column::Ext(evals));
        proof {
            assert forall|l: int, b: int, m: int|
                0 <= l < lane + 1 && 0 <= b < inst && 0 <= m < s implies #[trigger] res@[l].values()[slot(
                b,
                m,
                s as int,
            )] == interleaved(
                cols_values(mles@),
                num_instances as nat,
                per as nat,
                l as nat,
                b as nat,
                m as nat,
                default@,
            ) by {
                if l < lane {
                    assert(res@[l] == before[l]);
                } else {
                    lemma_slot(b, m, s as int, inst as int);
                    assert(evals@[slot(b, m, s as int)]@ == interleaved(
                        cols_values(mles@),
                        num_instances as nat,
                        per as nat,
                        l as nat,
                        b as nat,
                        m as nat,
                        default@,
                    ));
                }
            }
        }
        lane = lane + 1;
    }
    assert(s * inst == slots_per_instance(mles@.len()) * instances_per_lane(
        num_instances as nat,
        num_limbs as nat,
    ));
    assert forall|l: int| 0 <= l < num_limbs implies #[trigger] res@[l].spec_len()
        == slots_per_instance(mles@.len()) * instances_per_lane(
        num_instances as nat,
        num_limbs as nat,
    ) by {
        assert(res@[l].is_ext());
    }
    res
}

/// Round trip: when `M` columns of `I` real instances each (`I` a power of two, at
/// least two) are interleaved over `L` lanes with `L` dividing `I`, lane `lane`,
/// block `b`, slot `m` holds column `m` at instance `lane * (I / L) + b`, and
/// each lane has `I / L` blocks.
pub proof fn lemma_interleave_round_trip(
    cols: Seq<Seq<ExtV>>,
    k: nat,
    l: nat,
    lane: nat,
    b: nat,
    m: nat,
    default: ExtV,
)
    requires
        1 <= k,
        l <= k,
        forall|i: int| 0 <= i < cols.len() ==> #[trigger] cols[i].len() == pow2(k),
        cols.len() >= 1,
        lane < pow2(l),
        b < pow2(k) / pow2(l),
        m < cols.len(),
    ensures
        instances_per_lane(pow2(k), pow2(l)) == pow2(k) / pow2(l),
        interleaved(
            cols,
            pow2(k),
            per_fanin_len(cols[0].len(), pow2(l)),
            lane,
            b,
            m,
            default,
        ) == cols[m as int][(lane * (pow2(k) / pow2(l)) + b) as int],
{
    let n = pow2(k);
    let nl = pow2(l);
    vstd::arithmetic::power2::lemma_pow2_pos(l);
    vstd::arithmetic::power2::lemma_pow2_adds((k - l) as nat, l);
    assert(n == pow2((k - l) as nat) * nl);
    vstd::arithmetic::div_mod::lemma_div_multiples_vanish(pow2((k - l) as nat) as int, nl as int);
    let per = n / nl;
    assert(nl * per == n);
    if l > 0 {
        vstd::arithmetic::power2::lemma_pow2_strictly_increases((l - 1) as nat, l);
    }
    lemma_log2_ceil_unique(nl, l);
    vstd::arithmetic::power2::lemma_pow2_strictly_increases((k - 1) as nat, k);
    lemma_log2_ceil_unique(n, k);
    assert(log2_instances(n) == k);
    vstd::arithmetic::power2::lemma_pow2_pos((k - l) as nat);
    assert(per >= 1);
    assert(per_fanin_len(cols[0].len(), nl) == per);
    assert(per * lane + per <= n) by (nonlinear_arith)
        requires
            lane < nl,
            nl * per == n,
    ;
    assert(per * lane == lane * per) by (nonlinear_arith);
}

/// Padding: a slot past the columns, or past the real instances, holds the
/// default.
pub proof fn lemma_interleave_padding(
    cols: Seq<Seq<ExtV>>,
    num_instances: nat,
    per: nat,
    lane: nat,
    b: nat,
    m: nat,
    default: ExtV,
)
    requires
        m >= cols.len() || per * lane + b >= num_instances,
    ensures
        interleaved(cols, num_instances, per, lane, b, m, default) == default,
{
}

} // verus!
