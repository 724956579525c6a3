use sqljson::pool::{Pool, PoolError};
use sqljson::project::UnknownTypePolicy;
use sqljson::rowset::{Cell, Column, ResultSet, Row};
use sqljson::serve::{
    decide_after_failure, finish_request, respond_generic, respond_typed, status_of_error,
    NextStep, RequestError,
};

fn sample_result_set() -> ResultSet {
    ResultSet {
        columns: vec![
            Column { name: b"pk".to_vec(), reported_type: b"INT".to_vec() },
            Column { name: b"message".to_vec(), reported_type: b"TEXT".to_vec() },
        ],
        rows: vec![Row { cells: vec![Cell::Raw(b"1".to_vec()), Cell::Raw(b"hi".to_vec())] }],
    }
}

#[test]
fn pool_conserves_capacity_under_churn() {
    let mut pool = Pool::new(4);
    assert_eq!(pool.max_size, 4);
    assert_eq!(pool.available.len(), 4);
    let mut held = Vec::new();
    for round in 0..100 {
        let id = pool.acquire().unwrap();
        assert!(!held.contains(&id), "round {round}: connection lent twice");
        held.push(id);
        assert_eq!(pool.available.len() + held.len(), 4);
        if held.len() == 3 {
            while let Some(back) = held.pop() {
                pool.release(back);
            }
            assert_eq!(pool.available.len(), 4);
        }
    }
    while let Some(back) = held.pop() {
        pool.release(back);
    }
    assert_eq!(pool.available.len(), 4);
}

#[test]
fn pool_hands_out_distinct_connections() {
    let mut pool = Pool::new(4);
    let a = pool.acquire().unwrap();
    let b = pool.acquire().unwrap();
    let c = pool.acquire().unwrap();
    let d = pool.acquire().unwrap();
    let mut ids = vec![a, b, c, d];
    ids.sort();
    ids.dedup();
    assert_eq!(ids.len(), 4);
}

#[test]
fn exhausted_pool_fails_fast_until_release() {
    let mut pool = Pool::new(1);
    let first = pool.acquire().unwrap();
    assert_eq!(pool.acquire(), Err(PoolError::Exhausted));
    assert_eq!(pool.acquire(), Err(PoolError::Exhausted));
    pool.release(first);
    let second = pool.acquire().unwrap();
    assert_eq!(second, first);
    assert_eq!(pool.acquire(), Err(PoolError::Exhausted));
}

#[test]
fn failed_connection_is_replaced_not_returned() {
    let mut pool = Pool::new(2);
    let broken = pool.acquire().unwrap();
    // The connection errored during use: replace its slot with a fresh
    // handle instead of returning it.
    let fresh = 1000;
    pool.replace(broken, fresh);
    assert_eq!(pool.available.len(), 2);
    let a = pool.acquire().unwrap();
    let b = pool.acquire().unwrap();
    assert_ne!(a, broken);
    assert_ne!(b, broken);
    assert!(a == fresh || b == fresh);
    assert_eq!(pool.acquire(), Err(PoolError::Exhausted));
}

#[test]
fn successful_query_is_ok_with_json_body() {
    let (status, body) = respond_typed(Ok(sample_result_set()));
    assert_eq!(status, 200);
    assert_eq!(body, b"[{\"pk\":1,\"message\":\"hi\"}]".to_vec());

    let (status2, body2) = respond_generic(Ok(sample_result_set()), UnknownTypePolicy::EmptyText);
    assert_eq!(status2, 200);
    assert_eq!(body2, b"[{\"pk\":1,\"message\":\"hi\"}]".to_vec());
}

#[test]
fn failed_query_is_non_success_and_detail_free() {
    let (status, body) = respond_typed(Err(RequestError::QueryExecutionFailed));
    assert_eq!(status, 403);
    assert!(body.is_empty());
    assert!(!(200..300).contains(&status));

    let (status2, body2) =
        respond_generic(Err(RequestError::QueryExecutionFailed), UnknownTypePolicy::EmptyText);
    assert_eq!(status2, 403);
    assert!(body2.is_empty());

    let (status3, body3) = respond_typed(Err(RequestError::PoolExhausted));
    assert_eq!(status3, 503);
    assert!(body3.is_empty());

    let (status4, body4) = respond_typed(Err(RequestError::TransientConnection));
    assert_eq!(status4, 503);
    assert!(body4.is_empty());
}

#[test]
fn undecodable_result_set_is_non_success() {
    let rs = ResultSet {
        columns: vec![Column { name: b"pk".to_vec(), reported_type: b"INT".to_vec() }],
        rows: vec![Row { cells: vec![Cell::Raw(b"not a number".to_vec())] }],
    };
    let (status, body) = respond_generic(Ok(rs), UnknownTypePolicy::EmptyText);
    assert_eq!(status, 403);
    assert!(body.is_empty());
}

#[test]
fn error_statuses_are_never_success() {
    assert_eq!(status_of_error(RequestError::PoolExhausted), 503);
    assert_eq!(status_of_error(RequestError::TransientConnection), 503);
    assert_eq!(status_of_error(RequestError::QueryExecutionFailed), 403);
}

#[test]
fn finish_request_settles_the_connection_on_every_path() {
    let mut pool = Pool::new(2);
    let id = pool.acquire().unwrap();
    let (status, _) = finish_request(&mut pool, id, 700, Ok(sample_result_set()));
    assert_eq!(status, 200);
    assert_eq!(pool.available.len(), 2);

    let id2 = pool.acquire().unwrap();
    let (status2, body2) =
        finish_request(&mut pool, id2, 701, Err(RequestError::TransientConnection));
    assert_eq!(status2, 503);
    assert!(body2.is_empty());
    assert_eq!(pool.available.len(), 2);
    let a = pool.acquire().unwrap();
    let b = pool.acquire().unwrap();
    assert_ne!(a, id2);
    assert_ne!(b, id2);
}

#[test]
fn transient_failures_are_retried_exactly_once() {
    assert_eq!(
        decide_after_failure(RequestError::TransientConnection, 0),
        NextStep::Retry
    );
    assert_eq!(
        decide_after_failure(RequestError::TransientConnection, 1),
        NextStep::Surface(RequestError::TransientConnection)
    );
    assert_eq!(
        decide_after_failure(RequestError::QueryExecutionFailed, 0),
        NextStep::Surface(RequestError::QueryExecutionFailed)
    );
    assert_eq!(
        decide_after_failure(RequestError::PoolExhausted, 0),
        NextStep::Surface(RequestError::PoolExhausted)
    );
}
