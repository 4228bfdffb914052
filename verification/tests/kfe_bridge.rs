use kerosene_node::cometbft_adapter::abci::KfeVerdict;
use kerosene_node::kfe_bridge::{
    kernel_verdict, BridgeError, CallStep, CheckTxResponse, ClientError, CommitStateResponse,
    KfeBridge, PrepareBlockResponse, UnixSocketClient,
};

fn value(json: &str) -> serde_json::Value {
    serde_json::from_str(json).unwrap()
}

fn text(v: &serde_json::Value) -> String {
    v.as_str().unwrap_or("").to_string()
}

#[test]
fn bridge_constructs() {
    let bridge = KfeBridge::new("/tmp/kfe.sock");
    assert_eq!(bridge.client().socket_path(), "/tmp/kfe.sock");
}

fn read_check(json: &str) -> CheckTxResponse {
    let v = value(json);
    let parsed = CheckTxResponse {
        allowed: v["allowed"].as_bool().unwrap(),
        reason: text(&v["reason"]),
        gas_estimate: v["gas_estimate"].as_u64().unwrap(),
    };
    match KfeBridge::check_transaction(Ok(json.to_string()), Ok(parsed)) {
        Ok(resp) => resp,
        Err(BridgeError::KfeError(reason)) => {
            CheckTxResponse { allowed: false, reason, gas_estimate: 0 }
        },
        Err(e) => panic!("unexpected {:?}", e),
    }
}

#[test]
fn check_tx_response_parsing() {
    let json = r#"{"allowed": true, "reason": "", "gas_estimate": 50000}"#;
    let resp = read_check(json);
    assert!(resp.allowed);
    assert_eq!(resp.gas_estimate, 50000);
}

#[test]
fn check_tx_response_rejected() {
    let json = r#"{"allowed": false, "reason": "insufficient funds", "gas_estimate": 0}"#;
    let resp = read_check(json);
    assert!(!resp.allowed);
    assert_eq!(resp.reason, "insufficient funds");
}

#[test]
fn prepare_block_response_parsing() {
    let json = r#"{"valid_tx_indices": [0, 2, 3], "state_root": "abc123"}"#;
    let v = value(json);
    let parsed = PrepareBlockResponse {
        valid_tx_indices: v["valid_tx_indices"]
            .as_array()
            .unwrap()
            .iter()
            .map(|i| i.as_u64().unwrap() as usize)
            .collect(),
        state_root: v["state_root"].as_str().map(|s| s.to_string()),
        error: text(&v["error"]),
    };
    let resp = KfeBridge::prepare_block(Ok(json.to_string()), Ok(parsed)).unwrap();
    assert_eq!(resp.valid_tx_indices, vec![0, 2, 3]);
    assert_eq!(resp.state_root, Some("abc123".into()));
}

#[test]
fn commit_state_response_parsing() {
    let json = r#"{"state_root": "def456"}"#;
    let v = value(json);
    let parsed = CommitStateResponse { state_root: text(&v["state_root"]), error: text(&v["error"]) };
    let resp = KfeBridge::commit_state(Ok(json.to_string()), Ok(parsed)).unwrap();
    assert_eq!(resp.state_root, "def456");
}

#[test]
fn send_and_receive() {
    let request = r#"{"method": "check_transaction", "params": {}, "id": 1}"#;
    let framed = UnixSocketClient::frame_request(request);
    assert_eq!(framed, format!("{}\n", request).into_bytes());
    let response = UnixSocketClient::read_response("{\"allowed\": true}\n").unwrap();
    assert_eq!(response, r#"{"allowed": true}"#);
}

#[test]
fn socket_not_found() {
    let client = UnixSocketClient::new("/tmp/nonexistent-kfe-test.sock");
    let error = client.socket_not_found();
    assert!(error.message().contains("/tmp/nonexistent-kfe-test.sock"));
}

#[test]
fn connection_timeout() {
    let client = UnixSocketClient::new("/tmp/hang.sock");
    let mut attempt: u32 = 0;
    let mut waited: u64 = 0;
    loop {
        match client.after_attempt(attempt, Err(ClientError::Timeout)) {
            CallStep::Retry { delay_ms } => {
                waited += delay_ms;
                attempt += 1;
            },
            CallStep::Done(result) => {
                assert!(result.is_err());
                break;
            },
        }
    }
    assert!(attempt > 0);
    assert!(waited > 0);
}

#[test]
fn an_answer_ends_the_call() {
    let client = UnixSocketClient::new("/tmp/kfe.sock");
    match client.after_attempt(0, Ok("{}".to_string())) {
        CallStep::Done(Ok(answer)) => assert_eq!(answer, "{}"),
        other => panic!("unexpected {:?}", other),
    }
}

#[test]
fn waits_double_from_a_tenth_of_a_second() {
    let client = UnixSocketClient::new("/tmp/kfe.sock");
    for (attempt, wait) in [(0, 100), (1, 200), (2, 400)] {
        match client.after_attempt(attempt, Err(ClientError::Timeout)) {
            CallStep::Retry { delay_ms } => assert_eq!(delay_ms, wait),
            other => panic!("unexpected {:?}", other),
        }
    }
    assert!(matches!(
        client.after_attempt(3, Err(ClientError::Timeout)),
        CallStep::Done(Err(ClientError::Timeout))
    ));
}

#[test]
fn requests_are_json_with_the_text_quoted() {
    assert_eq!(
        KfeBridge::check_transaction_request("{\"key\":\"a\"}\n"),
        "{\"id\":1,\"method\":\"check_transaction\",\"params\":{\"transaction\":\"{\\\"key\\\":\\\"a\\\"}\\n\"}}"
    );
    let request = value(&KfeBridge::prepare_block_request("[\"x\"]", 17));
    assert_eq!(request["method"], "prepare_block");
    assert_eq!(request["params"]["height"], 17);
    assert_eq!(request["params"]["transactions"], "[\"x\"]");
    let request = value(&KfeBridge::commit_state_request("{}", 18));
    assert_eq!(request["method"], "commit_state");
    assert_eq!(request["params"]["height"], 18);
    assert_eq!(request["params"]["state"], "{}");
}

#[test]
fn an_empty_line_is_no_answer() {
    assert!(matches!(
        UnixSocketClient::read_response(""),
        Err(ClientError::Connection(_))
    ));
}

#[test]
fn failures_are_told_apart() {
    let refused = KfeBridge::check_transaction(
        Ok("{}".to_string()),
        Ok(CheckTxResponse { allowed: false, reason: "spent".to_string(), gas_estimate: 0 }),
    );
    match refused {
        Err(BridgeError::KfeError(e)) => assert_eq!(e, "spent"),
        other => panic!("unexpected {:?}", other),
    }
    let unreadable: Result<CommitStateResponse, String> = Err("eof".to_string());
    assert!(matches!(
        KfeBridge::commit_state(Ok("".to_string()), unreadable),
        Err(BridgeError::InvalidResponse(_))
    ));
    let unread: Result<CommitStateResponse, String> = Err("nothing read".to_string());
    match KfeBridge::commit_state(Err(ClientError::Timeout), unread) {
        Err(BridgeError::Connection(e)) => assert_eq!(e, ClientError::Timeout.message()),
        other => panic!("unexpected {:?}", other),
    }
}

#[test]
fn the_verdict_of_the_kernel() {
    let allowed = CheckTxResponse { allowed: true, reason: String::new(), gas_estimate: 1 };
    assert!(matches!(
        kernel_verdict(Ok(allowed)),
        KfeVerdict::Answered { allowed: true, .. }
    ));
    match kernel_verdict(Err(BridgeError::KfeError("no funds".to_string()))) {
        KfeVerdict::Answered { allowed, reason } => {
            assert!(!allowed);
            assert_eq!(reason, "no funds");
        },
        other => panic!("unexpected {:?}", other),
    }
    assert!(matches!(
        kernel_verdict(Err(BridgeError::Timeout)),
        KfeVerdict::Unavailable
    ));
}

#[test]
fn requests_take_the_bytes_of_a_transaction() {
    assert_eq!(
        KfeBridge::check_bytes_request(b"{\"a\":1}"),
        KfeBridge::check_transaction_request("{\"a\":1}")
    );
    assert_eq!(
        KfeBridge::check_bytes_request(&[0xff, 0x41]),
        KfeBridge::check_transaction_request("\u{fffd}A")
    );
}
