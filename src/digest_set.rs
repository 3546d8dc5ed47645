use vstd::prelude::*;

use crate::types::{copy_bytes, Digest};

verus! {

/// A set of digests, kept as a list without repeats in order of insertion.
pub struct DigestSet {
    pub items: Vec<Vec<u8>>,
}

pub open spec fn byte_views(items: Seq<Vec<u8>>) -> Seq<Seq<u8>> {
    items.map_values(|v: Vec<u8>| v@)
}

impl View for DigestSet {
    type V = Set<Seq<u8>>;

    open spec fn view(&self) -> Set<Seq<u8>> {
        byte_views(self.items@).to_set()
    }
}

impl DigestSet {
    pub open spec fn wf(&self) -> bool {
        byte_views(self.items@).no_duplicates()
    }

    pub fn new() -> (r: DigestSet)
        ensures
            r.wf(),
            r@ == Set::<Seq<u8>>::empty(),
            r.items@.len() == 0,
    {
        let r = DigestSet { items: Vec::new() };
        assert(r@ =~= Set::<Seq<u8>>::empty());
        r
    }

    pub fn contains(&self, digest: &Digest) -> (r: bool)
        ensures
            r == self@.contains(digest@),
    {
        let mut i: usize = 0;
        while i < self.items.len()
            invariant
                0 <= i <= self.items@.len(),
                forall|j: int| 0 <= j < i ==> self.items@[j]@ != digest@,
            decreases self.items@.len() - i,
        {
            if digest.matches(&self.items[i]) {
                assert(byte_views(self.items@)[i as int] == digest@);
                return true;
            }
            i = i + 1;
        }
        assert(!byte_views(self.items@).contains(digest@)) by {
            if byte_views(self.items@).contains(digest@) {
                let k = choose|k: int|
                    0 <= k < byte_views(self.items@).len() && byte_views(self.items@)[k]
                        == digest@;
                assert(self.items@[k]@ == digest@);
            }
        }
        false
    }

    /// Adds a digest; returns whether it was absent before.
    pub fn insert(&mut self, digest: &Digest) -> (r: bool)
        requires
            old(self).wf(),
        ensures
            final(self).wf(),
            final(self)@ == old(self)@.insert(digest@),
            r == !old(self)@.contains(digest@),
            !r ==> final(self).items@ == old(self).items@,
    {
        if self.contains(digest) {
            assert(self@.insert(digest@) =~= self@);
            return false;
        }
        let ghost before = byte_views(self.items@);
        self.items.push(copy_bytes(&digest.bytes));
        assert(byte_views(self.items@) =~= before.push(digest@));
        assert(before.push(digest@).to_set() =~= before.to_set().insert(digest@)) by {
            assert forall|x: Seq<u8>|
                before.push(digest@).contains(x) <==> before.contains(x) || x == digest@ by {
                if before.push(digest@).contains(x) {
                    let k = choose|k: int|
                        0 <= k < before.push(digest@).len() && before.push(digest@)[k] == x;
                    if k < before.len() {
                        assert(before[k] == x);
                    }
                }
                if before.contains(x) {
                    let k = choose|k: int| 0 <= k < before.len() && before[k] == x;
                    assert(before.push(digest@)[k] == x);
                }
                if x == digest@ {
                    assert(before.push(digest@)[before.len() as int] == x);
                }
            }
        }
        true
    }

    /// The number of distinct digests held.
    pub fn len(&self) -> (r: usize)
        requires
            self.wf(),
        ensures
            r == self@.len(),
    {
        proof {
            byte_views(self.items@).unique_seq_to_set();
        }
        self.items.len()
    }
}

} // verus!
