use txrelay::ledger::RequestLedger;
use txrelay::relay::{
    check_announcement, on_announcement, read_response, request_transactions, Incoming,
    InsertOutcome, ProtocolError, ReceiveRound, Response, Step, MAX_INV_PER_TX_INV_MSG,
};
use txrelay::serve::serve_request;
use txrelay::txid::TransactionId;

fn id(n: u128) -> TransactionId {
    TransactionId::new(0, n)
}

fn ids(ns: &[u128]) -> Vec<TransactionId> {
    ns.iter().map(|n| id(*n)).collect()
}

#[test]
fn claim_is_exclusive_until_released() {
    let mut ledger = RequestLedger::new();
    let first = ledger.try_claim(id(1));
    assert_eq!(first.as_ref().map(|c| c.id), Some(id(1)));
    assert!(ledger.try_claim(id(1)).is_none());
    assert!(ledger.is_claimed(id(1)));
    assert_eq!(ledger.len(), 1);
    ledger.release(first.unwrap());
    assert!(!ledger.is_claimed(id(1)));
    assert_eq!(ledger.len(), 0);
    assert!(ledger.try_claim(id(1)).is_some());
}

#[test]
fn concurrent_announcements_request_once() {
    let mut ledger = RequestLedger::new();
    let batch = ids(&[7, 8]);
    let known = vec![false, false];
    let a = request_transactions(&mut ledger, &batch, &known);
    let b = request_transactions(&mut ledger, &batch, &known);
    let c = request_transactions(&mut ledger, &batch, &known);
    assert_eq!(a.iter().map(|c| c.id).collect::<Vec<_>>(), ids(&[7, 8]));
    assert!(b.is_empty());
    assert!(c.is_empty());
}

#[test]
fn known_and_repeated_ids_are_not_requested() {
    let mut ledger = RequestLedger::new();
    let held = ledger.try_claim(id(2)).unwrap();
    let batch = ids(&[1, 2, 3, 1, 4]);
    let known = vec![false, false, true, false, false];
    let r = request_transactions(&mut ledger, &batch, &known);
    assert_eq!(r.iter().map(|c| c.id).collect::<Vec<_>>(), ids(&[1, 4]));
    assert!(ledger.is_claimed(id(1)) && ledger.is_claimed(id(2)) && ledger.is_claimed(id(4)));
    assert!(!ledger.is_claimed(id(3)));
    ledger.release(held);
    assert_eq!(ledger.len(), 2);
}

#[test]
fn announcement_at_limit_is_accepted() {
    assert_eq!(check_announcement(MAX_INV_PER_TX_INV_MSG, MAX_INV_PER_TX_INV_MSG), Ok(()));
    let mut ledger = RequestLedger::new();
    let batch = ids(&[1, 2, 3]);
    let r = on_announcement(&mut ledger, &batch, &vec![false; 3], true, 3).unwrap();
    assert_eq!(r.len(), 3);
}

#[test]
fn announcement_over_limit_is_rejected() {
    assert_eq!(
        check_announcement(MAX_INV_PER_TX_INV_MSG + 1, MAX_INV_PER_TX_INV_MSG),
        Err(ProtocolError::OverLimit { len: MAX_INV_PER_TX_INV_MSG + 1, max: MAX_INV_PER_TX_INV_MSG })
    );
    let mut ledger = RequestLedger::new();
    let batch = ids(&[1, 2, 3, 4]);
    let r = on_announcement(&mut ledger, &batch, &vec![false; 4], true, 3);
    assert_eq!(r.err(), Some(ProtocolError::OverLimit { len: 4, max: 3 }));
    assert_eq!(ledger.len(), 0);
}

#[test]
fn announcement_ignored_while_syncing() {
    let mut ledger = RequestLedger::new();
    let batch = ids(&[1, 2]);
    let r = on_announcement(&mut ledger, &batch, &vec![false; 2], false, 10).unwrap();
    assert!(r.is_empty());
    assert_eq!(ledger.len(), 0);
}

#[test]
fn read_response_kinds() {
    assert_eq!(read_response(Incoming::Transaction(id(5))), Ok(Response::Transaction(id(5))));
    assert_eq!(read_response(Incoming::NotFound(id(5))), Ok(Response::NotFound(id(5))));
    assert_eq!(read_response(Incoming::Other), Err(ProtocolError::UnexpectedMessage));
    assert_eq!(read_response(Incoming::Closed), Err(ProtocolError::ConnectionClosed));
    assert_eq!(Response::NotFound(id(9)).transaction_id(), id(9));
    assert_eq!(Response::Transaction(id(8)).transaction_id(), id(8));
}

#[test]
fn timeout_is_distinct_from_malformed() {
    let mut ledger = RequestLedger::new();
    let claims = request_transactions(&mut ledger, &ids(&[1]), &vec![false]);
    let mut round = ReceiveRound::new(claims);
    let r = round.on_response(&mut ledger, Incoming::TimedOut);
    assert_eq!(r, Err(ProtocolError::Timeout));
    assert_ne!(r, Err(ProtocolError::UnexpectedMessage));
    assert!(round.is_done());
    assert_eq!(ledger.len(), 0);
}

fn round_of(ledger: &mut RequestLedger, ns: &[u128]) -> ReceiveRound {
    let batch = ids(ns);
    let known = vec![false; batch.len()];
    ReceiveRound::new(request_transactions(ledger, &batch, &known))
}

#[test]
fn responses_in_order_succeed() {
    let mut ledger = RequestLedger::new();
    let mut round = round_of(&mut ledger, &[1, 2, 3]);
    assert_eq!(round.expected(), Some(id(1)));
    assert_eq!(round.on_response(&mut ledger, Incoming::Transaction(id(1))), Ok(Step::Insert(id(1))));
    assert_eq!(round.on_insert_result(&mut ledger, InsertOutcome::Accepted(ids(&[1]))), Ok(ids(&[1])));
    assert_eq!(round.on_response(&mut ledger, Incoming::NotFound(id(2))), Ok(Step::Skip));
    assert_eq!(round.on_response(&mut ledger, Incoming::Transaction(id(3))), Ok(Step::Insert(id(3))));
    assert_eq!(round.on_insert_result(&mut ledger, InsertOutcome::Other), Ok(vec![]));
    assert!(round.is_done());
    assert_eq!(round.expected(), None);
    assert_eq!(ledger.len(), 0);
}

#[test]
fn response_out_of_order_is_mismatch() {
    let mut ledger = RequestLedger::new();
    let mut round = round_of(&mut ledger, &[1, 2, 3]);
    let r = round.on_response(&mut ledger, Incoming::Transaction(id(2)));
    assert_eq!(r, Err(ProtocolError::IdMismatch { expected: id(1), got: id(2) }));
    assert!(round.is_done());
    assert_eq!(ledger.len(), 0);
    for n in [1, 2, 3] {
        assert!(ledger.try_claim(id(n)).is_some());
    }
}

#[test]
fn not_found_advances_without_insert() {
    let mut ledger = RequestLedger::new();
    let mut round = round_of(&mut ledger, &[4, 5]);
    assert_eq!(round.on_response(&mut ledger, Incoming::NotFound(id(4))), Ok(Step::Skip));
    assert!(!ledger.is_claimed(id(4)));
    assert!(ledger.is_claimed(id(5)));
    assert_eq!(round.expected(), Some(id(5)));
}

#[test]
fn accepted_set_is_broadcast_with_orphans() {
    let mut ledger = RequestLedger::new();
    let mut round = round_of(&mut ledger, &[10]);
    assert_eq!(round.on_response(&mut ledger, Incoming::Transaction(id(10))), Ok(Step::Insert(id(10))));
    let r = round.on_insert_result(&mut ledger, InsertOutcome::Accepted(ids(&[10, 11, 12])));
    assert_eq!(r, Ok(ids(&[10, 11, 12])));
    assert_eq!(ledger.len(), 0);
}

#[test]
fn invalid_transaction_marks_peer() {
    let mut ledger = RequestLedger::new();
    let mut round = round_of(&mut ledger, &[1, 2]);
    assert_eq!(round.on_response(&mut ledger, Incoming::Transaction(id(1))), Ok(Step::Insert(id(1))));
    let r = round.on_insert_result(&mut ledger, InsertOutcome::RejectInvalid);
    assert_eq!(r, Err(ProtocolError::MisbehavingPeer(id(1))));
    assert!(round.is_done());
    assert_eq!(ledger.len(), 0);
}

#[test]
fn abort_releases_every_claim() {
    let mut ledger = RequestLedger::new();
    let other = ledger.try_claim(id(99)).unwrap();
    let mut round = round_of(&mut ledger, &[1, 2, 3]);
    assert_eq!(round.on_response(&mut ledger, Incoming::NotFound(id(1))), Ok(Step::Skip));
    round.abort(&mut ledger);
    assert!(round.is_done());
    assert_eq!(ledger.len(), 1);
    assert!(ledger.try_claim(id(2)).is_some());
    assert!(ledger.try_claim(id(3)).is_some());
    ledger.release(other);
}

#[test]
fn closed_route_ends_flow() {
    let mut ledger = RequestLedger::new();
    let mut round = round_of(&mut ledger, &[1]);
    assert_eq!(round.on_response(&mut ledger, Incoming::Closed), Err(ProtocolError::ConnectionClosed));
    let mut round = round_of(&mut ledger, &[2]);
    assert_eq!(round.on_response(&mut ledger, Incoming::Other), Err(ProtocolError::UnexpectedMessage));
    assert_eq!(ledger.len(), 0);
}

#[test]
fn serve_answers_each_id_in_order() {
    let r = serve_request(&ids(&[1, 2, 3]), &vec![true, false, true]);
    assert_eq!(
        r,
        vec![Response::Transaction(id(1)), Response::NotFound(id(2)), Response::Transaction(id(3))]
    );
    assert!(serve_request(&vec![], &vec![]).is_empty());
}
