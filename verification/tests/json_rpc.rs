use afn::json_rpc::{
    better_jsonrpc_batch_result, check_batch_responses, count_potentially_faulty_responses,
    CallAttempts, CallStep, JsonRpcError, JsonRpcResponse,
};
use afn::rpc::{combine_get_logs_replies, parse_hex_u64, HexU64Error};

type Resp = JsonRpcResponse<u32, String>;

fn ok(id: u64, result: Option<u32>) -> Resp {
    JsonRpcResponse::Success { jsonrpc: "2.0".to_string(), id, result }
}

fn fail(id: u64) -> Resp {
    JsonRpcResponse::Failure { jsonrpc: "2.0".to_string(), id, error: "boom".to_string() }
}

#[test]
fn batch_is_put_in_id_order() {
    let r = check_batch_responses(10, 3, vec![ok(12, Some(2)), ok(10, Some(0)), ok(11, None)]).unwrap();
    let ids: Vec<u64> = r.iter().map(|x| x.id()).collect();
    assert_eq!(ids, vec![10, 11, 12]);
    assert!(matches!(r[0], JsonRpcResponse::Success { result: Some(0), .. }));
}

#[test]
fn batch_with_missing_or_repeated_id_is_incomplete() {
    let missing = check_batch_responses(0, 3, vec![ok(0, Some(1)), ok(1, Some(1))]);
    assert!(matches!(missing, Err(JsonRpcError::IncompleteBatch)));
    let repeated = check_batch_responses(0, 2, vec![ok(0, Some(1)), ok(0, Some(1))]);
    assert!(matches!(repeated, Err(JsonRpcError::IncompleteBatch)));
    let foreign = check_batch_responses(5, 1, vec![ok(4, Some(1))]);
    assert!(matches!(foreign, Err(JsonRpcError::IncompleteBatch)));
}

#[test]
fn batch_with_other_version_is_refused() {
    let odd = JsonRpcResponse::Success { jsonrpc: "1.0".to_string(), id: 2, result: Some(7) };
    let older = JsonRpcResponse::Failure { jsonrpc: "0.9".to_string(), id: 1, error: "x".to_string() };
    let r = check_batch_responses(0, 3, vec![odd, ok(0, None), older]);
    match r {
        Err(JsonRpcError::UnexpectedVersion(v)) => assert_eq!(v, "0.9"),
        other => panic!("unexpected {:?}", other),
    }
}

#[test]
fn faulty_replies_are_counted() {
    let batch = vec![ok(0, None), fail(1), ok(2, Some(3))];
    assert_eq!(count_potentially_faulty_responses(&batch), 2);
}

#[test]
fn better_batch_prefers_fewer_faults() {
    let older: Result<Vec<Resp>, JsonRpcError<String>> = Ok(vec![ok(0, None)]);
    let newer: Result<Vec<Resp>, JsonRpcError<String>> = Ok(vec![ok(0, Some(1))]);
    let best = better_jsonrpc_batch_result(older, newer).unwrap();
    assert!(matches!(best[0], JsonRpcResponse::Success { result: Some(1), .. }));
    let tie_old: Result<Vec<Resp>, JsonRpcError<String>> = Ok(vec![ok(0, Some(5))]);
    let tie_new: Result<Vec<Resp>, JsonRpcError<String>> = Ok(vec![ok(0, Some(6))]);
    let best = better_jsonrpc_batch_result(tie_old, tie_new).unwrap();
    assert!(matches!(best[0], JsonRpcResponse::Success { result: Some(5), .. }));
    let e1: Result<Vec<Resp>, JsonRpcError<String>> = Err(JsonRpcError::IncompleteBatch);
    let e2: Result<Vec<Resp>, JsonRpcError<String>> = Err(JsonRpcError::HttpStatus(500, "x".to_string()));
    assert!(matches!(better_jsonrpc_batch_result(e1, e2), Err(JsonRpcError::HttpStatus(500, _))));
    let e3: Result<Vec<Resp>, JsonRpcError<String>> = Err(JsonRpcError::IncompleteBatch);
    let good: Result<Vec<Resp>, JsonRpcError<String>> = Ok(vec![fail(0)]);
    assert!(better_jsonrpc_batch_result(good, e3).is_ok());
}

#[test]
fn call_attempts_go_round_the_servers() {
    let mut a = CallAttempts::new(2, 3);
    assert_eq!(a.after_attempt(10, 100, None), CallStep::Retry { server_id: 0, sleep_millis: 150 });
    assert_eq!(a.attempt, 2);
    assert_eq!(a.after_attempt(400, 300, Some(1)), CallStep::Retry { server_id: 1, sleep_millis: 0 });
    assert_eq!(a.after_attempt(800, 300, Some(1)), CallStep::Finish);
}

#[test]
fn call_stops_on_a_clean_batch_or_when_exhausted() {
    let mut a = CallAttempts::new(0, 2);
    assert_eq!(a.after_attempt(5, 5, Some(0)), CallStep::Finish);
    let mut b = CallAttempts::new(0, 1);
    assert_eq!(b.after_attempt(5, 5, None), CallStep::Retry { server_id: 0, sleep_millis: 245 });
    assert_eq!(b.after_attempt(29_999, 5, None), CallStep::Retry { server_id: 0, sleep_millis: 245 });
    assert_eq!(b.after_attempt(30_000, 5, None), CallStep::Finish);
}

#[test]
fn get_logs_reports_the_logs_failure_first() {
    let r: Result<u8, &str> = combine_get_logs_replies(Err::<(), &str>("from"), Err("to"), Err("logs"));
    assert_eq!(r, Err("logs"));
    let r: Result<u8, &str> = combine_get_logs_replies(Err::<(), &str>("from"), Err("to"), Ok(1u8));
    assert_eq!(r, Err("from"));
    let r: Result<u8, &str> = combine_get_logs_replies(Ok(()), Err("to"), Ok(1u8));
    assert_eq!(r, Err("to"));
    let r: Result<u8, &str> = combine_get_logs_replies(Ok(()), Ok(()), Ok(1u8));
    assert_eq!(r, Ok(1));
}

#[test]
fn hex_quantities_read_as_u64() {
    assert_eq!(parse_hex_u64("0x1a"), Ok(26));
    assert_eq!(parse_hex_u64("0xffffffffffffffff"), Ok(u64::MAX));
    assert_eq!(parse_hex_u64("0x010000000000000000"), Err(HexU64Error::Overflow));
    assert!(matches!(parse_hex_u64("0xgg"), Err(HexU64Error::Decode(_))));
}
