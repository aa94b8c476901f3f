//! Fixed-width hash digests of field elements.
use crate::field::Goldilocks;
use vstd::prelude::*;

verus! {

/// Number of field elements in a digest.
pub const DIGEST_WIDTH: usize = 4;

/// A digest: `DIGEST_WIDTH` field elements.
#[derive(Clone, Copy, Debug, PartialEq, Eq)]
pub struct Digest(pub [Goldilocks; DIGEST_WIDTH]);

impl Digest {
    /// The digest holding exactly `values`; an error unless there are
    /// `DIGEST_WIDTH` of them.
    pub fn try_from(values: Vec<Goldilocks>) -> (r: Result<Digest, String>)
        ensures
            values@.len() == DIGEST_WIDTH <==> r is Ok,
            r matches Ok(d) ==> d.0@ == values@,
            r matches Err(e) ==> e@ == "can only create digest from 4 elements"@,
    {
        if values.len() != DIGEST_WIDTH {
            return Err("can only create digest from 4 elements".to_owned());
        }
        let d = Digest([values[0], values[1], values[2], values[3]]);
        assert(d.0@ =~= values@);
        Ok(d)
    }

    /// The digest starting with `inputs` and padded with zeros.
    pub fn from_partial(inputs: &[Goldilocks]) -> (r: Digest)
        requires
            inputs@.len() <= DIGEST_WIDTH,
        ensures
            forall|i: int| 0 <= i < inputs@.len() ==> #[trigger] r.0@[i] == inputs@[i],
            forall|i: int| inputs@.len() <= i < DIGEST_WIDTH ==> #[trigger] r.0@[i] == Goldilocks::zero_spec(),
    {
        let mut elements: Vec<Goldilocks> = Vec::new();
        let mut i: usize = 0;
        while i < DIGEST_WIDTH
            invariant
                i <= DIGEST_WIDTH,
                elements@.len() == i,
                forall|k: int| 0 <= k < i && k < inputs@.len() ==> #[trigger] elements@[k] == inputs@[k],
                forall|k: int| inputs@.len() <= k < i ==> #[trigger] elements@[k] == Goldilocks::zero_spec(),
            decreases DIGEST_WIDTH - i,
        {
            if i < inputs.len() {
                elements.push(inputs[i]);
            } else {
                elements.push(Goldilocks::zero());
            }
            i = i + 1;
        }
        let d = Digest([elements[0], elements[1], elements[2], elements[3]]);
        assert(d.0@ =~= elements@);
        d
    }

    /// The digest's elements.
    pub fn elements(&self) -> (r: &[Goldilocks])
        ensures
            r@ == self.0@,
    {
        self.0.as_slice()
    }
}

} // verus!
