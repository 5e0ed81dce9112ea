use vstd::prelude::*;

use crate::txid::TransactionId;

verus! {

/// The exclusive right of one flow to request one transaction id.
///
/// A claim is minted only by `RequestLedger::try_claim` and gives its id back
/// to the ledger through `RequestLedger::release`.
#[derive(Debug, PartialEq, Eq, Structural)]
pub struct Claim {
    pub id: TransactionId,
}

/// The table of transaction ids that some flow is currently requesting.
/// An id stands in it at most once.
pub struct RequestLedger {
    ids: Vec<TransactionId>,
}

impl RequestLedger {
    /// The ids currently claimed.
    pub closed spec fn view(&self) -> Set<TransactionId> {
        self.ids@.to_set()
    }

    pub closed spec fn wf(&self) -> bool {
        self.ids@.no_duplicates()
    }

    pub fn new() -> (r: RequestLedger)
        ensures
            r.wf(),
            r@ == Set::<TransactionId>::empty(),
    {
        let r = RequestLedger { ids: Vec::new() };
        assert(r.ids@.to_set() =~= Set::<TransactionId>::empty());
        r
    }

    fn position(&self, id: TransactionId) -> (r: Option<usize>)
        ensures
            match r {
                Some(i) => i < self.ids@.len() && self.ids@[i as int] == id,
                None => !self.ids@.contains(id),
            },
    {
        let mut i: usize = 0;
        while i < self.ids.len()
            invariant
                0 <= i <= self.ids@.len(),
                forall|j: int| 0 <= j < i ==> self.ids@[j] != id,
            decreases self.ids@.len() - i,
        {
            if self.ids[i] == id {
                return Some(i);
            }
            i = i + 1;
        }
        None
    }

    /// Whether some flow holds a claim on `id`.
    pub fn is_claimed(&self, id: TransactionId) -> (r: bool)
        ensures
            r == self@.contains(id),
    {
        self.position(id).is_some()
    }

    /// The number of outstanding claims.
    pub fn len(&self) -> (r: usize)
        requires
            self.wf(),
        ensures
            r == self@.len(),
    {
        proof {
            self.ids@.unique_seq_to_set();
        }
        self.ids.len()
    }

    /// Claims `id` when no flow holds it; gives nothing when one does.
    pub fn try_claim(&mut self, id: TransactionId) -> (r: Option<Claim>)
        requires
            old(self).wf(),
        ensures
            final(self).wf(),
            r.is_some() == !old(self)@.contains(id),
            r.is_some() ==> r == Some(Claim { id }),
            final(self)@ == old(self)@.insert(id),
    {
        match self.position(id) {
            Some(_) => {
                assert(self.ids@.to_set().insert(id) =~= self.ids@.to_set());
                None
            },
            None => {
                self.ids.push(id);
                proof {
                    let s = self.ids@;
                    assert forall|x: TransactionId| s.contains(x) <==> (old(self).ids@.contains(x) || x == id) by {
                        if old(self).ids@.contains(x) {
                            let k = choose|k: int| 0 <= k < old(self).ids@.len() && old(self).ids@[k] == x;
                            assert(s[k] == x);
                        }
                        if x == id {
                            assert(s[s.len() - 1] == x);
                        }
                    }
                    assert(s.to_set() =~= old(self).ids@.to_set().insert(id));
                    assert forall|a: int, b: int| 0 <= a < s.len() && 0 <= b < s.len() && a != b
                        implies s[a] != s[b] by {
                        if a == s.len() - 1 || b == s.len() - 1 {
                            assert(old(self).ids@.contains(s[if a == s.len() - 1 { b } else { a }]));
                        }
                    }
                }
                Some(Claim { id })
            },
        }
    }

    /// Gives the claim's id back: any flow may claim it again.
    pub fn release(&mut self, claim: Claim)
        requires
            old(self).wf(),
        ensures
            final(self).wf(),
            final(self)@ == old(self)@.remove(claim.id),
    {
        self.release_id(claim.id);
    }

    pub(crate) fn release_id(&mut self, id: TransactionId)
        requires
            old(self).wf(),
        ensures
            final(self).wf(),
            final(self)@ == old(self)@.remove(id),
    {
        match self.position(id) {
            Some(i) => {
                let ghost s0 = self.ids@;
                self.ids.remove(i);
                proof {
                    let s = self.ids@;
                    assert(s =~= s0.remove(i as int));
                    assert forall|x: TransactionId| s.contains(x) <==> (s0.contains(x) && x != id) by {
                        if s0.contains(x) && x != id {
                            let k = choose|k: int| 0 <= k < s0.len() && s0[k] == x;
                            assert(k != i);
                            if k < i {
                                assert(s[k] == x);
                            } else {
                                assert(s[k - 1] == x);
                            }
                        }
                        if s.contains(x) {
                            let k = choose|k: int| 0 <= k < s.len() && s[k] == x;
                            if k < i {
                                assert(s0[k] == x);
                                assert(k != i);
                            } else {
                                assert(s0[k + 1] == x);
                                assert(k + 1 != i);
                            }
                        }
                    }
                    assert(s.to_set() =~= s0.to_set().remove(id));
                }
            },
            None => {
                assert(self.ids@.to_set().remove(id) =~= self.ids@.to_set());
            },
        }
    }
}

} // verus!
