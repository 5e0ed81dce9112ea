use vstd::prelude::*;

use crate::ledger::{Claim, RequestLedger};
use crate::txid::TransactionId;

verus! {

/// Default bound on the number of ids in one announcement.
pub const MAX_INV_PER_TX_INV_MSG: usize = 131072;

/// Default bound, in seconds, on the wait for one response.
pub const RESPONSE_TIMEOUT_SECS: u64 = 120;

/// Why a relay or serve flow stops.
#[derive(Clone, Copy, Debug, PartialEq, Eq, Structural)]
pub enum ProtocolError {
    /// An announcement held more ids than the bound allows.
    OverLimit { len: usize, max: usize },
    /// A message of another kind came where a response was awaited.
    UnexpectedMessage,
    /// The peer's channel closed in the middle of an exchange.
    ConnectionClosed,
    /// No response came within the round-trip bound.
    Timeout,
    /// A response resolved another id than the one awaited.
    IdMismatch { expected: TransactionId, got: TransactionId },
    /// The peer delivered a transaction that the mempool found invalid.
    MisbehavingPeer(TransactionId),
    /// A message could not be handed to the transport.
    EnqueueFailed,
}

/// A peer's answer to one requested id.
#[derive(Clone, Copy, Debug, PartialEq, Eq, Structural)]
pub enum Response {
    /// A transaction, by the id computed from its contents.
    Transaction(TransactionId),
    /// The peer no longer has the id.
    NotFound(TransactionId),
}

impl Response {
    pub open spec fn resolves(&self) -> TransactionId {
        match self {
            Response::Transaction(id) => *id,
            Response::NotFound(id) => *id,
        }
    }

    /// The id this response resolves.
    pub fn transaction_id(&self) -> (r: TransactionId)
        ensures
            r == self.resolves(),
    {
        match self {
            Response::Transaction(id) => *id,
            Response::NotFound(id) => *id,
        }
    }
}

/// What the response route produced while a response was awaited.
#[derive(Clone, Copy, Debug, PartialEq, Eq, Structural)]
pub enum Incoming {
    Transaction(TransactionId),
    NotFound(TransactionId),
    /// A message of any other kind.
    Other,
    /// The route is closed.
    Closed,
    /// The wait ran out.
    TimedOut,
}

pub open spec fn response_of(msg: Incoming) -> Result<Response, ProtocolError> {
    match msg {
        Incoming::Transaction(id) => Ok(Response::Transaction(id)),
        Incoming::NotFound(id) => Ok(Response::NotFound(id)),
        Incoming::Other => Err(ProtocolError::UnexpectedMessage),
        Incoming::Closed => Err(ProtocolError::ConnectionClosed),
        Incoming::TimedOut => Err(ProtocolError::Timeout),
    }
}

/// Turns what the response route produced into a response, or the error
/// that ends the flow.
pub fn read_response(msg: Incoming) -> (r: Result<Response, ProtocolError>)
    ensures
        r == response_of(msg),
{
    match msg {
        Incoming::Transaction(id) => Ok(Response::Transaction(id)),
        Incoming::NotFound(id) => Ok(Response::NotFound(id)),
        Incoming::Other => Err(ProtocolError::UnexpectedMessage),
        Incoming::Closed => Err(ProtocolError::ConnectionClosed),
        Incoming::TimedOut => Err(ProtocolError::Timeout),
    }
}

/// Accepts an announcement of `len` ids when it is within `max`.
pub fn check_announcement(len: usize, max: usize) -> (r: Result<(), ProtocolError>)
    ensures
        r == if len <= max {
            Ok::<(), ProtocolError>(())
        } else {
            Err(ProtocolError::OverLimit { len, max })
        },
{
    if len > max {
        Err(ProtocolError::OverLimit { len, max })
    } else {
        Ok(())
    }
}

/// The ids of an announcement that a flow claims, in announcement order:
/// those unknown to the mempool, not held in `held`, and not already taken
/// earlier in the same batch.
pub open spec fn claimed(held: Set<TransactionId>, ids: Seq<TransactionId>, known: Seq<bool>) -> Seq<
    TransactionId,
>
    decreases ids.len(),
{
    if ids.len() == 0 {
        Seq::empty()
    } else {
        let p = claimed(held, ids.drop_last(), known.drop_last());
        let id = ids.last();
        if !known.last() && !held.contains(id) && !p.contains(id) {
            p.push(id)
        } else {
            p
        }
    }
}

pub open spec fn claim_ids(c: Seq<Claim>) -> Seq<TransactionId> {
    c.map_values(|x: Claim| x.id)
}

/// Claims, in order, each announced id that the mempool does not know
/// (`known[i]` for `ids[i]`) and that no flow is requesting already.
/// The claimed ids are the ones to request from the peer.
pub fn request_transactions(
    ledger: &mut RequestLedger,
    ids: &Vec<TransactionId>,
    known: &Vec<bool>,
) -> (r: Vec<Claim>)
    requires
        old(ledger).wf(),
        known@.len() == ids@.len(),
    ensures
        final(ledger).wf(),
        claim_ids(r@) == claimed(old(ledger)@, ids@, known@),
        final(ledger)@ == old(ledger)@.union(claimed(old(ledger)@, ids@, known@).to_set()),
{
    let ghost held = ledger@;
    let mut requests: Vec<Claim> = Vec::new();
    let mut i: usize = 0;
    while i < ids.len()
        invariant
            0 <= i <= ids@.len(),
            known@.len() == ids@.len(),
            ledger.wf(),
            claim_ids(requests@) == claimed(held, ids@.take(i as int), known@.take(i as int)),
            ledger@ == held.union(claimed(held, ids@.take(i as int), known@.take(i as int)).to_set()),
        decreases ids@.len() - i,
    {
        let id = ids[i];
        let ghost p = claimed(held, ids@.take(i as int), known@.take(i as int));
        proof {
            assert(ids@.take(i + 1).drop_last() =~= ids@.take(i as int));
            assert(known@.take(i + 1).drop_last() =~= known@.take(i as int));
            assert(ids@.take(i + 1).last() == id);
            assert(known@.take(i + 1).last() == known@[i as int]);
        }
        if !known[i] {
            match ledger.try_claim(id) {
                Some(claim) => {
                    let ghost before = requests@;
                    requests.push(claim);
                    proof {
                        assert(claim_ids(requests@) =~= claim_ids(before).push(id));
                    }
                },
                None => {},
            }
        }
        proof {
            let q = claimed(held, ids@.take(i + 1), known@.take(i + 1));
            assert(ledger@ =~= held.union(q.to_set())) by {
                assert forall|x: TransactionId| q.contains(x) <==> (p.contains(x) || (x == id
                    && !known@[i as int] && !held.contains(id))) by {
                    if q.contains(x) && !p.contains(x) {
                        let k = choose|k: int| 0 <= k < q.len() && q[k] == x;
                        assert(k == q.len() - 1);
                    }
                    if p.contains(x) {
                        let k = choose|k: int| 0 <= k < p.len() && p[k] == x;
                        assert(q[k] == x);
                    }
                    if x == id && !known@[i as int] && !held.contains(id) && !p.contains(x) {
                        assert(q[q.len() - 1] == x);
                    }
                }
            }
        }
        i = i + 1;
    }
    proof {
        assert(ids@.take(ids@.len() as int) =~= ids@);
        assert(known@.take(known@.len() as int) =~= known@);
    }
    requests
}

/// Takes one announcement: refuses one over `max_ids`, ignores it while the
/// node is not nearly synced, and otherwise claims the ids to request.
pub fn on_announcement(
    ledger: &mut RequestLedger,
    ids: &Vec<TransactionId>,
    known: &Vec<bool>,
    nearly_synced: bool,
    max_ids: usize,
) -> (r: Result<Vec<Claim>, ProtocolError>)
    requires
        old(ledger).wf(),
        known@.len() == ids@.len(),
    ensures
        final(ledger).wf(),
        ids@.len() > max_ids ==> r == Err::<Vec<Claim>, ProtocolError>(
            ProtocolError::OverLimit { len: ids@.len() as usize, max: max_ids },
        ) && final(ledger)@ == old(ledger)@,
        ids@.len() <= max_ids && !nearly_synced ==> r is Ok && r->Ok_0@.len() == 0 && final(ledger)@
            == old(ledger)@,
        ids@.len() <= max_ids && nearly_synced ==> r is Ok && claim_ids(r->Ok_0@) == claimed(
            old(ledger)@,
            ids@,
            known@,
        ) && final(ledger)@ == old(ledger)@.union(claimed(old(ledger)@, ids@, known@).to_set()),
{
    match check_announcement(ids.len(), max_ids) {
        Err(e) => Err(e),
        Ok(()) => {
            if !nearly_synced {
                Ok(Vec::new())
            } else {
                Ok(request_transactions(ledger, ids, known))
            }
        },
    }
}

proof fn lemma_claimed_fresh(held: Set<TransactionId>, ids: Seq<TransactionId>, known: Seq<bool>)
    ensures
        claimed(held, ids, known).no_duplicates(),
        forall|x: TransactionId| #[trigger]
            claimed(held, ids, known).contains(x) ==> !held.contains(x),
    decreases ids.len(),
{
    if ids.len() > 0 {
        let p = claimed(held, ids.drop_last(), known.drop_last());
        lemma_claimed_fresh(held, ids.drop_last(), known.drop_last());
        let q = claimed(held, ids, known);
        assert forall|x: TransactionId| q.contains(x) implies !held.contains(x) by {
            if !p.contains(x) {
                let k = choose|k: int| 0 <= k < q.len() && q[k] == x;
                assert(k == q.len() - 1);
            }
        }
        if q != p {
            assert forall|a: int, b: int| 0 <= a < q.len() && 0 <= b < q.len() && a != b implies q[a]
                != q[b] by {
                if a == q.len() - 1 {
                    assert(p.contains(q[b]));
                } else if b == q.len() - 1 {
                    assert(p.contains(q[a]));
                }
            }
        }
    }
}

/// At most one flow requests an id while it is claimed: what a flow claims
/// from an announcement holds no id twice and none that another flow holds,
/// and a second flow that announces after the first has claimed requests
/// none of the first flow's ids.
pub proof fn lemma_requests_deduplicated(
    held: Set<TransactionId>,
    ids_a: Seq<TransactionId>,
    known_a: Seq<bool>,
    ids_b: Seq<TransactionId>,
    known_b: Seq<bool>,
)
    ensures
        claimed(held, ids_a, known_a).no_duplicates(),
        forall|x: TransactionId| #[trigger]
            claimed(held, ids_a, known_a).contains(x) ==> !held.contains(x),
        forall|x: TransactionId|
            #![trigger claimed(held, ids_a, known_a).contains(x)]
            claimed(held, ids_a, known_a).contains(x) ==> !claimed(
                held.union(claimed(held, ids_a, known_a).to_set()),
                ids_b,
                known_b,
            ).contains(x),
{
    let a = claimed(held, ids_a, known_a);
    lemma_claimed_fresh(held, ids_a, known_a);
    lemma_claimed_fresh(held.union(a.to_set()), ids_b, known_b);
    assert forall|x: TransactionId| a.contains(x) implies !claimed(
        held.union(a.to_set()),
        ids_b,
        known_b,
    ).contains(x) by {
        assert(held.union(a.to_set()).contains(x));
    }
}

/// What the mempool made of a delivered transaction.
#[derive(Debug, PartialEq, Eq)]
pub enum InsertOutcome {
    /// Accepted, together with the orphans it unblocked: the ids of all the
    /// newly accepted transactions.
    Accepted(Vec<TransactionId>),
    /// Rejected as definitively invalid.
    RejectInvalid,
    /// Any other mempool error (already known, fee too low, ...).
    Other,
}

/// What the flow does next with a response that matched its claim.
#[derive(Clone, Copy, Debug, PartialEq, Eq, Structural)]
pub enum Step {
    /// Hand the delivered transaction to the mempool, then report the
    /// outcome through `on_insert_result`.
    Insert(TransactionId),
    /// The peer no longer has it: go on with the next response.
    Skip,
}

/// The responses awaited for one request message: one per claimed id, in
/// the order the ids were requested. The claims not yet resolved stay in the
/// ledger until their round is resolved or the round is aborted.
pub struct ReceiveRound {
    ids: Vec<TransactionId>,
    next: usize,
    inserting: bool,
}

impl ReceiveRound {
    /// The requested ids, in request order.
    pub closed spec fn requested(&self) -> Seq<TransactionId> {
        self.ids@
    }

    /// How many requested ids are resolved.
    pub closed spec fn resolved(&self) -> nat {
        self.next as nat
    }

    /// Whether the awaited transaction is with the mempool.
    pub closed spec fn inserting(&self) -> bool {
        self.inserting
    }

    pub closed spec fn wf(&self) -> bool {
        &&& self.next <= self.ids@.len()
        &&& self.inserting ==> self.next < self.ids@.len()
    }

    /// The ids whose claims this round still holds.
    pub open spec fn outstanding(&self) -> Seq<TransactionId> {
        self.requested().subrange(self.resolved() as int, self.requested().len() as int)
    }

    pub open spec fn done(&self) -> bool {
        self.resolved() == self.requested().len()
    }

    /// The id whose response is awaited.
    pub open spec fn awaited(&self) -> TransactionId {
        self.requested()[self.resolved() as int]
    }

    /// Starts awaiting one response per claim, in order.
    pub fn new(claims: Vec<Claim>) -> (r: ReceiveRound)
        ensures
            r.wf(),
            r.requested() == claim_ids(claims@),
            r.resolved() == 0,
            !r.inserting(),
    {
        let mut ids: Vec<TransactionId> = Vec::new();
        let mut i: usize = 0;
        while i < claims.len()
            invariant
                0 <= i <= claims@.len(),
                ids@ == claim_ids(claims@.take(i as int)),
            decreases claims@.len() - i,
        {
            ids.push(claims[i].id);
            proof {
                assert(claim_ids(claims@.take(i + 1)) =~= claim_ids(claims@.take(i as int)).push(
                    claims@[i as int].id,
                ));
            }
            i = i + 1;
        }
        proof {
            assert(claims@.take(claims@.len() as int) =~= claims@);
        }
        ReceiveRound { ids, next: 0, inserting: false }
    }

    /// Whether every requested id is resolved.
    pub fn is_done(&self) -> (r: bool)
        requires
            self.wf(),
        ensures
            r == self.done(),
    {
        self.next == self.ids.len()
    }

    /// The id whose response is awaited, if any.
    pub fn expected(&self) -> (r: Option<TransactionId>)
        requires
            self.wf(),
        ensures
            r == if self.done() {
                None
            } else {
                Some(self.awaited())
            },
    {
        if self.next < self.ids.len() {
            Some(self.ids[self.next])
        } else {
            None
        }
    }

    fn release_from(&mut self, ledger: &mut RequestLedger)
        requires
            old(self).wf(),
            old(ledger).wf(),
        ensures
            final(self).wf(),
            final(self).done(),
            !final(self).inserting(),
            final(self).requested() == old(self).requested(),
            final(ledger).wf(),
            final(ledger)@ == old(ledger)@.difference(old(self).outstanding().to_set()),
    {
        self.inserting = false;
        let ghost start = self.next as int;
        let ghost before = ledger@;
        while self.next < self.ids.len()
            invariant
                self.wf(),
                !self.inserting,
                start <= self.next <= self.ids@.len(),
                self.ids@ == old(self).ids@,
                start == old(self).next,
                ledger.wf(),
                ledger@ == before.difference(self.ids@.subrange(start, self.next as int).to_set()),
            decreases self.ids@.len() - self.next,
        {
            let id = self.ids[self.next];
            ledger.release_id(id);
            proof {
                let a = self.ids@.subrange(start, self.next as int);
                let b = self.ids@.subrange(start, self.next + 1);
                assert forall|x: TransactionId| b.contains(x) <==> (a.contains(x) || x == id) by {
                    if a.contains(x) {
                        let k = choose|k: int| 0 <= k < a.len() && a[k] == x;
                        assert(b[k] == x);
                    }
                    if x == id {
                        assert(b[b.len() - 1] == x);
                    }
                    if b.contains(x) && x != id {
                        let k = choose|k: int| 0 <= k < b.len() && b[k] == x;
                        assert(k < a.len());
                        assert(a[k] == x);
                    }
                }
                assert(before.difference(b.to_set()) =~= before.difference(a.to_set()).remove(id));
            }
            self.next = self.next + 1;
        }
    }

    /// Gives back every claim the round still holds, as the flow stops.
    pub fn abort(&mut self, ledger: &mut RequestLedger)
        requires
            old(self).wf(),
            old(ledger).wf(),
        ensures
            final(self).wf(),
            final(self).done(),
            final(ledger).wf(),
            final(ledger)@ == old(ledger)@.difference(old(self).outstanding().to_set()),
    {
        self.release_from(ledger);
    }

    /// Takes what the response route produced for the awaited id.
    ///
    /// A response that resolves the awaited id goes on: a not-found one
    /// releases its claim and moves to the next id, a transaction is to be
    /// handed to the mempool. Anything else ends the flow, and every claim
    /// still held is released.
    pub fn on_response(&mut self, ledger: &mut RequestLedger, msg: Incoming) -> (r: Result<
        Step,
        ProtocolError,
    >)
        requires
            old(self).wf(),
            !old(self).done(),
            !old(self).inserting(),
            old(ledger).wf(),
        ensures
            final(self).wf(),
            final(ledger).wf(),
            final(self).requested() == old(self).requested(),
            r == match response_of(msg) {
                Err(e) => Err(e),
                Ok(resp) => if resp.resolves() != old(self).awaited() {
                    Err(ProtocolError::IdMismatch { expected: old(self).awaited(), got: resp.resolves() })
                } else {
                    match resp {
                        Response::Transaction(id) => Ok(Step::Insert(id)),
                        Response::NotFound(_) => Ok(Step::Skip),
                    }
                },
            },
            r.is_err() ==> final(self).done() && final(ledger)@ == old(ledger)@.difference(
                old(self).outstanding().to_set(),
            ),
            r == Ok::<Step, ProtocolError>(Step::Skip) ==> final(self).resolved() == old(self).resolved() + 1
                && !final(self).inserting() && final(ledger)@ == old(ledger)@.remove(old(self).awaited()),
            r is Ok && r != Ok::<Step, ProtocolError>(Step::Skip) ==> final(self).resolved() == old(self).resolved()
                && final(self).inserting() && final(ledger)@ == old(ledger)@,
    {
        let _n = self.ids.len();
        let expected = self.ids[self.next];
        match read_response(msg) {
            Err(e) => {
                self.release_from(ledger);
                Err(e)
            },
            Ok(resp) => {
                let got = resp.transaction_id();
                if got != expected {
                    self.release_from(ledger);
                    Err(ProtocolError::IdMismatch { expected, got })
                } else {
                    match resp {
                        Response::Transaction(id) => {
                            self.inserting = true;
                            Ok(Step::Insert(id))
                        },
                        Response::NotFound(_) => {
                            ledger.release_id(expected);
                            self.next = self.next + 1;
                            Ok(Step::Skip)
                        },
                    }
                }
            },
        }
    }

    /// Takes the mempool's verdict on the delivered transaction and releases
    /// its claim. Gives the ids to announce to the other peers: all those the
    /// mempool newly accepted, or none. A transaction rejected as invalid
    /// ends the flow, and every claim still held is released.
    pub fn on_insert_result(&mut self, ledger: &mut RequestLedger, outcome: InsertOutcome) -> (r: Result<
        Vec<TransactionId>,
        ProtocolError,
    >)
        requires
            old(self).wf(),
            old(self).inserting(),
            old(ledger).wf(),
        ensures
            final(self).wf(),
            final(ledger).wf(),
            !final(self).inserting(),
            final(self).requested() == old(self).requested(),
            match outcome {
                InsertOutcome::Accepted(ids) => r is Ok && r->Ok_0@ == ids@,
                InsertOutcome::RejectInvalid => r == Err::<Vec<TransactionId>, ProtocolError>(
                    ProtocolError::MisbehavingPeer(old(self).awaited()),
                ),
                InsertOutcome::Other => r is Ok && r->Ok_0@.len() == 0,
            },
            r is Ok ==> final(self).resolved() == old(self).resolved() + 1 && final(ledger)@ == old(
                ledger,
            )@.remove(old(self).awaited()),
            r is Err ==> final(self).done() && final(ledger)@ == old(ledger)@.difference(
                old(self).outstanding().to_set(),
            ),
    {
        let _n = self.ids.len();
        let id = self.ids[self.next];
        match outcome {
            InsertOutcome::Accepted(accepted) => {
                ledger.release_id(id);
                self.next = self.next + 1;
                self.inserting = false;
                Ok(accepted)
            },
            InsertOutcome::RejectInvalid => {
                self.release_from(ledger);
                Err(ProtocolError::MisbehavingPeer(id))
            },
            InsertOutcome::Other => {
                ledger.release_id(id);
                self.next = self.next + 1;
                self.inserting = false;
                Ok(Vec::new())
            },
        }
    }
}

/// A flow that stops gives its ids back: once a round has failed or been
/// aborted, each id it still held is absent from the ledger, so the next
/// flow that tries to claim it succeeds.
pub proof fn lemma_released_claimable(
    before: RequestLedger,
    after: RequestLedger,
    round: ReceiveRound,
    id: TransactionId,
)
    requires
        after@ == before@.difference(round.outstanding().to_set()),
        round.outstanding().contains(id),
    ensures
        !after@.contains(id),
{
}

} // verus!
