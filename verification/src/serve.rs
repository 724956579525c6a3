//! The request boundary: turn the outcome of one query execution into a
//! client-visible status and JSON body, and decide what a request loop
//! does after a failure.
//!
//! Every per-request failure becomes a non-success status with an empty
//! body — error responses carry no backend detail — and no input can make
//! these functions panic: a malformed query can never take the serving
//! process down.

use crate::json::records_array_bytes;
use crate::pool::{spec_release, spec_replace, Pool};
use crate::json::records_to_json;
use crate::json::{BYTE_LBRACKET, BYTE_RBRACKET};
use crate::project::{project, spec_project, UnknownTypePolicy};
use crate::rowset::ResultSet;
use crate::typed::{project_typed, spec_project_typed, typed_json_bytes, typed_to_json};
use vstd::prelude::*;

verus! {

/// Classes of request failure ahead of projection: the pool had no
/// connection within the wait budget, the backend connection dropped
/// during use, or the backend rejected or failed to run the statement.
#[derive(Clone, Copy, PartialEq, Eq, Structural, Debug)]
pub enum RequestError {
    PoolExhausted,
    TransientConnection,
    QueryExecutionFailed,
}

pub const STATUS_OK: u16 = 200;

pub const STATUS_FORBIDDEN: u16 = 403;

pub const STATUS_UNAVAILABLE: u16 = 503;

/// The status of each failure class: a rejected or failed statement is
/// forbidden; an exhausted pool or a dropped connection is a retryable
/// unavailability.
pub open spec fn spec_status_of_error(e: RequestError) -> u16 {
    match e {
        RequestError::PoolExhausted => STATUS_UNAVAILABLE,
        RequestError::TransientConnection => STATUS_UNAVAILABLE,
        RequestError::QueryExecutionFailed => STATUS_FORBIDDEN,
    }
}

pub open spec fn is_success_status(s: u16) -> bool {
    200 <= s < 300
}

/// Map one request failure to its client-visible status, never a
/// success status.
pub fn status_of_error(e: RequestError) -> (s: u16)
    ensures
        s == spec_status_of_error(e),
        !is_success_status(s),
{
    match e {
        RequestError::PoolExhausted => STATUS_UNAVAILABLE,
        RequestError::TransientConnection => STATUS_UNAVAILABLE,
        RequestError::QueryExecutionFailed => STATUS_FORBIDDEN,
    }
}

/// The request boundary under the generic shape: a successful execution
/// whose projection succeeds is a success status with the records' JSON
/// bytes; everything else is a non-success status with an empty body.
pub fn respond_generic(outcome: Result<ResultSet, RequestError>, policy: UnknownTypePolicy) -> (r:
    (u16, Vec<u8>))
    requires
        outcome is Ok ==> (outcome->Ok_0)@.wf(),
    ensures
        outcome is Ok && spec_project((outcome->Ok_0)@, policy) is Some ==> r.0 == STATUS_OK
            && r.1@ == records_array_bytes(spec_project((outcome->Ok_0)@, policy).unwrap()),
        outcome is Ok && spec_project((outcome->Ok_0)@, policy) is None ==> r.0 == STATUS_FORBIDDEN
            && r.1@ == Seq::<u8>::empty(),
        outcome is Err ==> r.0 == spec_status_of_error(outcome->Err_0) && r.1@ == Seq::<
            u8,
        >::empty(),
        is_success_status(r.0) <==> (outcome is Ok && spec_project((outcome->Ok_0)@, policy)
            is Some),
{
    match outcome {
        Ok(rs) => {
            match project(&rs, policy) {
                Ok(records) => {
                    let body = records_to_json(&records);
                    (STATUS_OK, body)
                },
                Err(_) => (STATUS_FORBIDDEN, Vec::new()),
            }
        },
        Err(e) => (status_of_error(e), Vec::new()),
    }
}

/// The request boundary under the typed shape: projection never fails, so
/// a successful execution is always a success status with the typed
/// records' JSON bytes.
pub fn respond_typed(outcome: Result<ResultSet, RequestError>) -> (r: (u16, Vec<u8>))
    requires
        outcome is Ok ==> (outcome->Ok_0)@.wf(),
    ensures
        outcome is Ok ==> r.0 == STATUS_OK && r.1@ == typed_json_bytes(
            spec_project_typed((outcome->Ok_0)@),
        ),
        outcome is Err ==> r.0 == spec_status_of_error(outcome->Err_0) && r.1@ == Seq::<
            u8,
        >::empty(),
        is_success_status(r.0) <==> outcome is Ok,
{
    match outcome {
        Ok(rs) => {
            let ts = project_typed(&rs);
            let body = typed_to_json(&ts);
            (STATUS_OK, body)
        },
        Err(e) => (status_of_error(e), Vec::new()),
    }
}

/// A result set with zero rows projects, under either shape, to the JSON
/// array `[]` — an empty array, never `null` and never an error.
pub proof fn lemma_empty_result_set_is_empty_array(rsm: crate::rowset::ResultSetModel, policy:
    UnknownTypePolicy)
    requires
        rsm.rows.len() == 0,
    ensures
        spec_project(rsm, policy) == Some(Seq::<Seq<(Seq<u8>, crate::json::JsonValueModel)>>::empty()),
        records_array_bytes(spec_project(rsm, policy).unwrap()) == seq![BYTE_LBRACKET, BYTE_RBRACKET],
        typed_json_bytes(spec_project_typed(rsm)) == seq![BYTE_LBRACKET, BYTE_RBRACKET],
{
    assert(spec_project(rsm, policy) == Some(
        Seq::<Seq<(Seq<u8>, crate::json::JsonValueModel)>>::empty(),
    ));
    let items = spec_project(rsm, policy).unwrap();
    assert(crate::json::record_items_bytes(items) =~= Seq::<u8>::empty());
    assert(records_array_bytes(items) =~= seq![BYTE_LBRACKET, BYTE_RBRACKET]);
    let ts = spec_project_typed(rsm);
    let fs = ts.map_values(|t: crate::typed::TypedRecordModel| crate::typed::typed_record_fields(t));
    assert(fs.len() == 0);
    assert(crate::json::record_items_bytes(fs) =~= Seq::<u8>::empty());
    assert(typed_json_bytes(ts) =~= seq![BYTE_LBRACKET, BYTE_RBRACKET]);
}

/// Finish one request under the typed shape: produce the response and
/// settle the borrowed connection on every exit path. A healthy
/// connection is released; one whose backend dropped during use is never
/// returned to the pool in a poisoned state — its slot is replaced by the
/// `fresh` handle. Either way the connection is never leaked: after the
/// call the caller holds nothing.
pub fn finish_request(
    pool: &mut Pool,
    id: u64,
    fresh: u64,
    outcome: Result<ResultSet, RequestError>,
) -> (r: (u16, Vec<u8>))
    requires
        old(pool)@.wf(),
        old(pool)@.lent.contains(id),
        !old(pool)@.lent.contains(fresh),
        forall|i: int|
            0 <= i < old(pool)@.available.len() ==> (#[trigger] old(pool)@.available[i]) != fresh,
        outcome is Ok ==> (outcome->Ok_0)@.wf(),
    ensures
        final(pool)@.wf(),
        final(pool)@.max_size == old(pool)@.max_size,
        !final(pool)@.lent.contains(id),
        outcome == Result::<ResultSet, RequestError>::Err(RequestError::TransientConnection)
            ==> final(pool)@ == spec_replace(old(pool)@, id, fresh),
        outcome != Result::<ResultSet, RequestError>::Err(RequestError::TransientConnection)
            ==> final(pool)@ == spec_release(old(pool)@, id),
        outcome is Ok ==> r.0 == STATUS_OK && r.1@ == typed_json_bytes(
            spec_project_typed((outcome->Ok_0)@),
        ),
        outcome is Err ==> r.0 == spec_status_of_error(outcome->Err_0) && r.1@ == Seq::<
            u8,
        >::empty(),
        is_success_status(r.0) <==> outcome is Ok,
{
    let transient = match &outcome {
        Err(RequestError::TransientConnection) => true,
        _ => false,
    };
    let resp = respond_typed(outcome);
    if transient {
        pool.replace(id, fresh);
    } else {
        pool.release(id);
    }
    resp
}

/// What a request loop does next after a failure.
#[derive(Clone, Copy, PartialEq, Eq, Structural, Debug)]
pub enum NextStep {
    Retry,
    Surface(RequestError),
}

/// The retry policy: a backend connection that dropped during use is
/// transient and acquisition is retried exactly once; every other failure,
/// and a second transient failure, is surfaced to the caller.
pub fn decide_after_failure(e: RequestError, prior_retries: u32) -> (s: NextStep)
    ensures
        s == (if e is TransientConnection && prior_retries == 0 {
            NextStep::Retry
        } else {
            NextStep::Surface(e)
        }),
{
    match e {
        RequestError::TransientConnection => {
            if prior_retries == 0 {
                NextStep::Retry
            } else {
                NextStep::Surface(e)
            }
        },
        _ => NextStep::Surface(e),
    }
}

} // verus!
