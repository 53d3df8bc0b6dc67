//! The set of payloads delivered from the mesh, keyed by content.

use vstd::prelude::*;
use crate::text::{same_text, texts};

verus! {

/// The payloads delivered so far; identical payloads collapse to one.
pub struct DeliveredSet {
    items: Vec<String>,
}

impl View for DeliveredSet {
    type V = Set<Seq<char>>;

    closed spec fn view(&self) -> Set<Seq<char>> {
        texts(self.items@).to_set()
    }
}

impl DeliveredSet {
    /// Each payload is held once.
    pub closed spec fn wf(&self) -> bool {
        texts(self.items@).no_duplicates()
    }

    /// The empty set.
    pub fn new() -> (r: DeliveredSet)
        ensures
            r.wf(),
            r@ == Set::<Seq<char>>::empty(),
    {
        let r = DeliveredSet { items: Vec::new() };
        assert(r@ =~= Set::<Seq<char>>::empty());
        r
    }

    /// Whether `payload` was delivered.
    pub fn contains(&self, payload: &str) -> (r: bool)
        ensures
            r == self@.contains(payload@),
    {
        let mut i: usize = 0;
        while i < self.items.len()
            invariant
                i <= self.items@.len(),
                forall|k: int| 0 <= k < i ==> self.items@[k]@ != payload@,
            decreases self.items@.len() - i,
        {
            if same_text(self.items[i].as_str(), payload) {
                assert(texts(self.items@)[i as int] == payload@);
                return true;
            }
            i = i + 1;
        }
        assert(!texts(self.items@).contains(payload@)) by {
            if texts(self.items@).contains(payload@) {
                let k = choose|k: int| 0 <= k < texts(self.items@).len() && texts(self.items@)[k] == payload@;
                assert(self.items@[k]@ == payload@);
            }
        }
        false
    }

    /// Records a delivered payload.
    pub fn insert(&mut self, payload: &str)
        requires
            old(self).wf(),
        ensures
            final(self).wf(),
            final(self)@ == old(self)@.insert(payload@),
    {
        if self.contains(payload) {
            assert(self@.insert(payload@) =~= self@);
            return;
        }
        let ghost before = self.items@;
        self.items.push(String::from_str(payload));
        proof {
            let t = texts(self.items@);
            assert(t =~= texts(before).push(payload@));
            assert(t.to_set() =~= texts(before).to_set().insert(payload@)) by {
                assert forall|x: Seq<char>| t.contains(x) implies texts(before).contains(x) || x == payload@ by {
                    let k = choose|k: int| 0 <= k < t.len() && t[k] == x;
                    if k < before.len() {
                        assert(texts(before)[k] == x);
                    }
                }
                assert forall|x: Seq<char>| texts(before).contains(x) implies t.contains(x) by {
                    let k = choose|k: int| 0 <= k < texts(before).len() && texts(before)[k] == x;
                    assert(t[k] == x);
                }
                assert(t[before.len() as int] == payload@);
            }
            assert forall|a: int, b: int| 0 <= a < t.len() && 0 <= b < t.len() && a != b implies t[a] != t[b] by {
                if a == before.len() {
                    assert(texts(before)[b] == t[b]);
                } else if b == before.len() {
                    assert(texts(before)[a] == t[a]);
                } else {
                    assert(texts(before)[a] == t[a] && texts(before)[b] == t[b]);
                }
            }
        }
    }

    /// The number of distinct payloads.
    pub fn len(&self) -> (r: usize)
        requires
            self.wf(),
        ensures
            r == self@.len(),
    {
        proof {
            texts(self.items@).unique_seq_to_set();
        }
        self.items.len()
    }

    /// Forgets every payload.
    pub fn clear(&mut self)
        ensures
            final(self).wf(),
            final(self)@ == Set::<Seq<char>>::empty(),
    {
        self.items.clear();
        assert(self@ =~= Set::<Seq<char>>::empty());
    }
}

/// Delivering one payload twice gives the set that delivering it once gives,
/// with the same number of payloads.
pub proof fn lemma_delivery_idempotent(delivered: Set<Seq<char>>, payload: Seq<char>)
    requires
        delivered.finite(),
    ensures
        delivered.insert(payload).insert(payload) == delivered.insert(payload),
        delivered.insert(payload).insert(payload).len() == delivered.insert(payload).len(),
{
    assert(delivered.insert(payload).insert(payload) =~= delivered.insert(payload));
}

} // verus!
