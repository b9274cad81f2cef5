use iota_sdk::dispatch::{quorum_reached, GetOutcome, TransportEvent};
use iota_sdk::error::Error;
use iota_sdk::node::{InfoResponse, Node, Url};
use iota_sdk::node_manager::NodeManager;

fn node(host: &str) -> Node {
    Node::new(Url::new("https".to_string(), host.to_string(), None))
}

fn healthy(host: &str) -> (Node, InfoResponse) {
    (node(host), InfoResponse { features: Vec::new() })
}

fn quorum_manager(n_healthy: usize) -> NodeManager {
    let mut m = NodeManager::builder()
        .with_quorum(true)
        .with_min_quorum_size(3)
        .with_quorum_threshold(67)
        .build();
    m.healthy_nodes = (0..n_healthy).map(|i| healthy(&format!("n{i}.example"))).collect();
    m
}

#[test]
fn quorum_two_of_three_fails_threshold() {
    let m = quorum_manager(3);
    let mut d = m
        .plan_get_request("api/core/v2/outputs", None, true, false, true)
        .unwrap();
    assert!(d.parallel);
    assert_eq!(d.candidates.len(), 3);

    d.record(TransportEvent::Body { text: "body-a".to_string() });
    d.record(TransportEvent::Body { text: "body-a".to_string() });
    d.record(TransportEvent::Body { text: "body-b".to_string() });

    // count = 2, required agreement = 3 * 0.67 = 2.01, so 2 votes lose.
    let r = d.finish();
    assert!(matches!(
        r,
        Err(Error::QuorumThresholdError { achieved: 2, required: 3 })
    ));
}

#[test]
fn quorum_three_of_three_succeeds() {
    let m = quorum_manager(3);
    let mut d = m
        .plan_get_request("api/core/v2/outputs", None, true, false, true)
        .unwrap();
    for _ in 0..3 {
        d.record(TransportEvent::Body { text: "body-a".to_string() });
    }
    match d.finish() {
        Ok(GetOutcome::Body { text }) => assert_eq!(text.as_str(), "body-a"),
        other => panic!("unexpected outcome: {:?}", other.is_ok()),
    }
}

#[test]
fn quorum_pool_too_small_fails_before_dispatch() {
    let m = quorum_manager(2);
    let r = m.plan_get_request("api/core/v2/outputs", None, true, false, true);
    // The plan itself fails: no node was handed out, so no call was made.
    assert!(matches!(
        r,
        Err(Error::QuorumPoolSizeError { available: 2, required: 3 })
    ));
}

#[test]
fn query_disables_quorum() {
    let m = quorum_manager(3);
    let mut d = m
        .plan_get_request("api/core/v2/outputs", Some("cursor=5"), true, false, true)
        .unwrap();
    // A query forces the sequential path.
    assert!(!d.parallel);
    assert_eq!(d.candidates.len(), 3);

    // One success from any candidate is enough, whatever the others say.
    d.record(TransportEvent::Body { text: "only-answer".to_string() });
    assert!(d.next_node().is_none());
    match d.finish() {
        Ok(GetOutcome::Body { text }) => assert_eq!(text.as_str(), "only-answer"),
        _ => panic!("a query must disable the quorum check"),
    }
}

#[test]
fn sequential_failover_returns_last_error() {
    let m = quorum_manager(3);
    let mut f = m.plan_get_request_bytes("api/core/v2/blocks/0x00", None).unwrap();
    assert_eq!(f.candidates.len(), 3);

    // First two candidates fail, the third would succeed: the caller
    // returns its bytes directly. Here all three fail: the error surfaced
    // is the third's, not the first's.
    assert!(f.next_node().is_some());
    f.record_failure(Error::TransportError { message: "first down".to_string() });
    assert!(f.next_node().is_some());
    f.record_failure(Error::TransportError { message: "second down".to_string() });
    assert!(f.next_node().is_some());
    f.record_failure(Error::TransportError { message: "third down".to_string() });
    assert!(f.next_node().is_none());

    match f.into_error() {
        Error::TransportError { message } => assert_eq!(message.as_str(), "third down"),
        _ => panic!("expected the transport error of the last candidate"),
    }
}

#[test]
fn sequential_without_quorum_halts_on_first_success() {
    let mut m = NodeManager::builder().build();
    m.healthy_nodes = vec![healthy("a.example"), healthy("b.example")];
    let mut d = m
        .plan_get_request("api/core/v2/outputs", None, false, false, true)
        .unwrap();
    assert!(!d.parallel);

    let first = d.next_node().unwrap();
    assert_eq!(first.url.host.as_str(), "a.example");
    d.record(TransportEvent::TransportFailed { message: "down".to_string() });
    let second = d.next_node().unwrap();
    assert_eq!(second.url.host.as_str(), "b.example");
    d.record(TransportEvent::Body { text: "answer".to_string() });
    assert!(d.next_node().is_none());
    match d.finish() {
        Ok(GetOutcome::Body { text }) => assert_eq!(text.as_str(), "answer"),
        _ => panic!("first success must be accepted without quorum"),
    }
}

#[test]
fn node_info_returns_answering_node() {
    let mut m = NodeManager::builder().build();
    m.healthy_nodes = vec![healthy("info.example")];
    let mut d = m.plan_get_request("api/core/v2/info", None, false, false, true).unwrap();
    assert!(d.is_info_path);

    d.record(TransportEvent::Body { text: "{\"name\":\"node\"}".to_string() });
    match d.finish() {
        Ok(GetOutcome::Info { text, node }) => {
            assert_eq!(text.as_str(), "{\"name\":\"node\"}");
            assert_eq!(node.url.origin().as_str(), "https://info.example");
        },
        _ => panic!("the node-info endpoint must return the answering node"),
    }
}

#[test]
fn parallel_decode_failure_is_dropped_silently() {
    let m = quorum_manager(3);
    let mut d = m
        .plan_get_request("api/core/v2/outputs", None, true, false, true)
        .unwrap();
    d.record(TransportEvent::Body { text: "body-a".to_string() });
    d.record(TransportEvent::DecodeFailed { message: "not text".to_string() });
    d.record(TransportEvent::Body { text: "body-a".to_string() });

    // Two of three agreed; the dropped body neither voted nor errored.
    let r = d.finish();
    assert!(matches!(
        r,
        Err(Error::QuorumThresholdError { achieved: 2, required: 3 })
    ));
}

#[test]
fn exhausted_list_surfaces_last_error() {
    let mut m = NodeManager::builder().build();
    m.healthy_nodes = vec![healthy("a.example")];
    let mut d = m
        .plan_get_request("api/core/v2/outputs", None, false, false, true)
        .unwrap();
    d.record(TransportEvent::DecodeFailed { message: "bad json".to_string() });
    assert!(d.next_node().is_none());
    match d.finish() {
        Err(Error::DecodeError { message }) => assert_eq!(message.as_str(), "bad json"),
        _ => panic!("the swallowed decode error must surface at the end"),
    }
}

#[test]
fn quorum_threshold_comparison_is_exact() {
    // 2 >= 3 * 0.67 is false; 3 >= 3 * 0.67 is true.
    assert!(!quorum_reached(2, 3, 67));
    assert!(quorum_reached(3, 3, 67));
    // Exact boundary: 2 >= 4 * 0.50.
    assert!(quorum_reached(2, 4, 50));
    assert!(!quorum_reached(1, 4, 50));
    // A threshold of zero accepts anything, even zero votes.
    assert!(quorum_reached(0, 3, 0));
}

#[test]
fn pool_size_error_even_with_query() {
    // The pool-size check precedes the query check, as the dispatcher's
    // ordering has it.
    let m = quorum_manager(2);
    let r = m.plan_get_request("api/core/v2/outputs", Some("cursor=1"), true, false, true);
    assert!(matches!(
        r,
        Err(Error::QuorumPoolSizeError { available: 2, required: 3 })
    ));
}

#[test]
fn no_concurrency_degrades_to_sequential() {
    let m = quorum_manager(3);
    let mut d = m
        .plan_get_request("api/core/v2/outputs", None, true, false, false)
        .unwrap();
    // Same semantics, sequential dispatch: walks nodes until the quorum
    // count is reached.
    assert!(!d.parallel);
    assert_eq!(d.candidates.len(), 3);
    d.record(TransportEvent::Body { text: "a".to_string() });
    assert!(d.next_node().is_some());
    d.record(TransportEvent::Body { text: "a".to_string() });
    assert!(d.next_node().is_some());
    d.record(TransportEvent::Body { text: "a".to_string() });
    assert!(d.next_node().is_none());
    assert!(d.finish().is_ok());
}
