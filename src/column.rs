//! Columns: dense evaluation tables tagged as holding base-field or
//! extension-field elements.
use crate::field::{ext_of_base, ext_wf, lemma_residue, ExtV, Goldilocks, GoldilocksExt2};
use vstd::arithmetic::power2::pow2;
use vstd::prelude::*;

verus! {

/// A column of evaluations, tagged by the field its elements live in.
#[derive(Clone, Debug)]
pub enum Column {
    Base(Vec<Goldilocks>),
    Ext(Vec<GoldilocksExt2>),
}

/// The elements of a base-field vector, seen in the extension.
pub open spec fn base_values(v: Seq<Goldilocks>) -> Seq<ExtV> {
    Seq::new(v.len(), |i: int| ext_of_base(v[i]@))
}

/// The elements of an extension-field vector.
pub open spec fn ext_values(v: Seq<GoldilocksExt2>) -> Seq<ExtV> {
    Seq::new(v.len(), |i: int| v[i]@)
}

impl Column {
    pub open spec fn is_ext(&self) -> bool {
        self is Ext
    }

    /// The column's elements, seen in the extension field.
    pub open spec fn values(&self) -> Seq<ExtV> {
        match self {
            Column::Base(v) => base_values(v@),
            Column::Ext(v) => ext_values(v@),
        }
    }

    pub open spec fn spec_len(&self) -> nat {
        match self {
            Column::Base(v) => v@.len(),
            Column::Ext(v) => v@.len(),
        }
    }

    pub fn is_ext_exec(&self) -> (r: bool)
        ensures
            r == self.is_ext(),
    {
        match self {
            Column::Base(_) => false,
            Column::Ext(_) => true,
        }
    }

    pub fn len(&self) -> (r: usize)
        ensures
            r == self.spec_len(),
            r == self.values().len(),
    {
        match self {
            Column::Base(v) => v.len(),
            Column::Ext(v) => v.len(),
        }
    }

    /// The elements of an extension-field column.
    pub fn ext_vec(&self) -> (r: &Vec<GoldilocksExt2>)
        requires
            self.is_ext(),
        ensures
            ext_values(r@) == self.values(),
            r@.len() == self.spec_len(),
    {
        match self {
            Column::Ext(v) => v,
            Column::Base(_) => vstd::pervasive::unreached(),
        }
    }

    /// A copy with its own storage.
    pub fn duplicate(&self) -> (r: Column)
        ensures
            r.is_ext() == self.is_ext(),
            r.spec_len() == self.spec_len(),
            r.values() == self.values(),
    {
        match self {
            Column::Base(v) => Column::Base(copy_vec(v)),
            Column::Ext(v) => Column::Ext(copy_vec(v)),
        }
    }

    /// The element at `i`, seen in the extension field.
    pub fn ext_at(&self, i: usize) -> (r: GoldilocksExt2)
        requires
            i < self.spec_len(),
        ensures
            r@ == self.values()[i as int],
    {
        match self {
            Column::Base(v) => GoldilocksExt2::from_base(&v[i]),
            Column::Ext(v) => v[i],
        }
    }

    /// The elements of a base-field column, seen in the extension field.
    pub fn to_ext_vec(&self) -> (r: Vec<GoldilocksExt2>)
        ensures
            ext_values(r@) == self.values(),
    {
        let n = self.len();
        let mut r: Vec<GoldilocksExt2> = Vec::new();
        let mut i: usize = 0;
        while i < n
            invariant
                i <= n,
                n == self.spec_len(),
                r@.len() == i,
                forall|j: int| 0 <= j < i ==> r@[j]@ == self.values()[j],
            decreases n - i,
        {
            r.push(self.ext_at(i));
            i = i + 1;
        }
        assert(ext_values(r@) =~= self.values());
        r
    }
}

/// The columns' elements, lane by lane.
pub open spec fn lanes_values(lanes: Seq<Column>) -> Seq<Seq<ExtV>> {
    Seq::new(lanes.len(), |i: int| lanes[i].values())
}


/// Every lane has length `n`.
pub open spec fn lanes_of_len(lanes: Seq<Column>, n: nat) -> bool {
    forall|i: int| 0 <= i < lanes.len() ==> #[trigger] lanes[i].spec_len() == n
}

/// Every lane holds extension-field elements and has length `n`.
pub open spec fn ext_lanes_of_len(lanes: Seq<Column>, n: nat) -> bool {
    &&& lanes_of_len(lanes, n)
    &&& forall|i: int| 0 <= i < lanes.len() ==> #[trigger] lanes[i].is_ext()
}

/// Every element of a column is a well-formed extension element.
pub proof fn lemma_values_wf(c: Column, i: int)
    requires
        0 <= i < c.spec_len(),
    ensures
        ext_wf(c.values()[i]),
{
    match c {
        Column::Base(v) => {
            lemma_residue(v@[i].value as int);
            lemma_residue(0);
        },
        Column::Ext(v) => {
            lemma_residue(v@[i].c0.value as int);
            lemma_residue(v@[i].c1.value as int);
        },
    }
}

/// A copy of `v` with its own storage.
pub fn copy_vec<T: Copy>(v: &Vec<T>) -> (r: Vec<T>)
    ensures
        r@ == v@,
{
    let mut r: Vec<T> = Vec::new();
    let mut i: usize = 0;
    while i < v.len()
        invariant
            i <= v@.len(),
            r@ == v@.take(i as int),
        decreases v@.len() - i,
    {
        r.push(v[i]);
        i = i + 1;
        assert(r@ =~= v@.take(i as int));
    }
    assert(r@ =~= v@);
    r
}

/// `n` copies of `v`.
pub fn filled<T: Copy>(v: T, n: usize) -> (r: Vec<T>)
    ensures
        r@ == Seq::new(n as nat, |i: int| v),
{
    let mut r: Vec<T> = Vec::new();
    let mut i: usize = 0;
    while i < n
        invariant
            i <= n,
            r@ == Seq::new(i as nat, |j: int| v),
        decreases n - i,
    {
        r.push(v);
        i = i + 1;
        assert(r@ =~= Seq::new(i as nat, |j: int| v));
    }
    r
}

/// `r` is the least exponent with `x <= 2^r`.
pub open spec fn is_log2_ceil(x: nat, r: nat) -> bool {
    x <= pow2(r) && (r == 0 || pow2((r - 1) as nat) < x)
}

/// The least `r` with `x <= 2^r`.
pub open spec fn log2_ceil(x: nat) -> nat {
    choose|r: nat| is_log2_ceil(x, r)
}

pub proof fn lemma_log2_ceil_unique(x: nat, r: nat)
    requires
        is_log2_ceil(x, r),
    ensures
        log2_ceil(x) == r,
{
    let c = log2_ceil(x);
    assert(is_log2_ceil(x, c));
    if c < r {
        if c < (r - 1) as nat {
            vstd::arithmetic::power2::lemma_pow2_strictly_increases(c, (r - 1) as nat);
        }
    } else if r < c {
        if r < (c - 1) as nat {
            vstd::arithmetic::power2::lemma_pow2_strictly_increases(r, (c - 1) as nat);
        }
    }
}

/// The least `k` with `x <= 2^k`.
pub fn ceil_log2(x: usize) -> (r: usize)
    requires
        x >= 1,
    ensures
        x <= pow2(r as nat),
        r == 0 || pow2((r - 1) as nat) < x,
        r == log2_ceil(x as nat),
        r <= 64,
{
    let mut r: usize = 0;
    let mut p: u128 = 1;
    proof {
        vstd::arithmetic::power2::lemma2_to64();
    }
    while p < x as u128
        invariant
            p == pow2(r as nat),
            r <= 64,
            r == 0 || pow2((r - 1) as nat) < x,
        decreases 64 - r,
    {
        proof {
            vstd::arithmetic::power2::lemma_pow2_unfold((r + 1) as nat);
            vstd::arithmetic::power2::lemma_pow2_pos(r as nat);
            vstd::arithmetic::power2::lemma2_to64_rest();
            if r >= 64 {
                vstd::arithmetic::power2::lemma_pow2_adds(64, (r - 64) as nat);
                vstd::arithmetic::power2::lemma_pow2_pos((r - 64) as nat);
                assert(pow2(64) * pow2((r - 64) as nat) >= pow2(64)) by (nonlinear_arith)
                    requires
                        pow2((r - 64) as nat) >= 1,
                ;
            }
        }
        p = p * 2;
        r = r + 1;
    }
    proof {
        lemma_log2_ceil_unique(x as nat, r as nat);
    }
    r
}

/// `v` in reverse order.
pub fn reversed<T>(v: Vec<T>) -> (r: Vec<T>)
    ensures
        r@.len() == v@.len(),
        forall|i: int| 0 <= i < v@.len() ==> #[trigger] r@[i] == v@[v@.len() - 1 - i],
{
    let ghost orig = v@;
    let mut v = v;
    let mut r: Vec<T> = Vec::new();
    while v.len() > 0
        invariant
            v@ == orig.take(v@.len() as int),
            v@.len() <= orig.len(),
            r@.len() + v@.len() == orig.len(),
            forall|i: int| 0 <= i < r@.len() ==> #[trigger] r@[i] == orig[orig.len() - 1 - i],
        decreases v@.len(),
    {
        match v.pop() {
            Some(x) => {
                r.push(x);
            },
            None => {},
        }
    }
    r
}

} // verus!
