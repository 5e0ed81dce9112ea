use vstd::prelude::*;

use crate::relay::Response;
use crate::txid::TransactionId;

verus! {

/// Answers a request message: for each requested id, in order, the
/// transaction when the mempool has it (`found[i]` for `ids[i]`), else a
/// not-found answer carrying that id.
pub fn serve_request(ids: &Vec<TransactionId>, found: &Vec<bool>) -> (r: Vec<Response>)
    requires
        found@.len() == ids@.len(),
    ensures
        r@.len() == ids@.len(),
        forall|i: int|
            0 <= i < ids@.len() ==> #[trigger] r@[i] == if found@[i] {
                Response::Transaction(ids@[i])
            } else {
                Response::NotFound(ids@[i])
            },
{
    let mut out: Vec<Response> = Vec::new();
    let mut i: usize = 0;
    while i < ids.len()
        invariant
            0 <= i <= ids@.len(),
            found@.len() == ids@.len(),
            out@.len() == i,
            forall|k: int|
                0 <= k < i ==> #[trigger] out@[k] == if found@[k] {
                    Response::Transaction(ids@[k])
                } else {
                    Response::NotFound(ids@[k])
                },
        decreases ids@.len() - i,
    {
        if found[i] {
            out.push(Response::Transaction(ids[i]));
        } else {
            out.push(Response::NotFound(ids[i]));
        }
        i = i + 1;
    }
    out
}

} // verus!
