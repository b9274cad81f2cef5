use iota_sdk::error::Error;
use iota_sdk::node::{InfoResponse, Node, NodeAuth, Url};
use iota_sdk::node_manager::NodeManager;

fn url(host: &str) -> Url {
    Url::new("https".to_string(), host.to_string(), None)
}

fn node(host: &str) -> Node {
    Node::new(url(host))
}

fn healthy(host: &str, features: Vec<&str>) -> (Node, InfoResponse) {
    (
        node(host),
        InfoResponse {
            features: features.into_iter().map(|f| f.to_string()).collect(),
        },
    )
}

#[test]
fn select_covers_primary_and_snapshot() {
    let mut m: NodeManager = NodeManager::builder()
        .with_primary_node(node("primary.example"))
        .build();
    m.healthy_nodes = vec![healthy("a.example", vec![]), healthy("b.example", vec![])];

    let nodes = m.get_nodes("api/core/v2/tips", None, false, false).unwrap();
    assert_eq!(nodes.len(), 3);
    // The primary is first: no archival or pow segment precedes it.
    assert_eq!(nodes[0].url.host.as_str(), "primary.example");
    let hosts: Vec<&str> = nodes.iter().map(|n| n.url.host.as_str()).collect();
    assert!(hosts.contains(&"a.example"));
    assert!(hosts.contains(&"b.example"));
    // No two entries share a URL.
    for i in 0..nodes.len() {
        for j in (i + 1)..nodes.len() {
            assert_ne!(nodes[i].url.host, nodes[j].url.host);
        }
    }
    // The request target was materialized on every survivor.
    for n in &nodes {
        assert_eq!(n.url.path.as_str(), "api/core/v2/tips");
        assert_eq!(n.url.query, None);
    }
}

#[test]
fn select_all_disabled_fails_no_healthy_nodes() {
    let mut primary = node("primary.example");
    primary.disabled = true;
    let mut m: NodeManager = NodeManager::builder().with_primary_node(primary).build();
    let mut sick = healthy("a.example", vec![]);
    sick.0.disabled = true;
    m.healthy_nodes = vec![sick];

    let r = m.get_nodes("api/core/v2/tips", None, false, false);
    assert!(matches!(r, Err(Error::NoHealthyNodes)));
}

#[test]
fn select_no_pow_capable_node() {
    let mut m: NodeManager = NodeManager::builder().build();
    m.healthy_nodes = vec![healthy("a.example", vec!["core"]), healthy("b.example", vec![])];

    // Remote pow requested, no pow primary, no snapshot node advertises pow.
    let r = m.get_nodes("api/core/v2/blocks", None, true, false);
    assert!(matches!(r, Err(Error::NoPowCapableNode)));
}

#[test]
fn select_pow_filters_snapshot() {
    let mut m: NodeManager = NodeManager::builder().build();
    m.healthy_nodes = vec![healthy("a.example", vec!["core"]), healthy("b.example", vec!["pow"])];

    let nodes = m.get_nodes("api/core/v2/blocks", None, true, false).unwrap();
    assert_eq!(nodes.len(), 1);
    assert_eq!(nodes[0].url.host.as_str(), "b.example");
}

#[test]
fn node_identity_is_url_first_insert_wins() {
    let with_auth = Node {
        url: url("same.example"),
        auth: Some(NodeAuth {
            basic_auth_name_pwd: Some(("alice".to_string(), "pw".to_string())),
            jwt: None,
        }),
        disabled: false,
    };
    let without_auth = Node::new(url("same.example"));

    let b = NodeManager::builder().with_node(with_auth).with_node(without_auth);
    assert_eq!(b.nodes.len(), 1);
    assert!(b.nodes[0].auth.is_some());

    // The same holds through selection: one candidate, first auth kept,
    // credentials injected into the materialized URL.
    let mut m = b.with_ignore_node_health(true).build();
    m.nodes = vec![
        Node {
            url: url("same.example"),
            auth: Some(NodeAuth {
                basic_auth_name_pwd: Some(("alice".to_string(), "pw".to_string())),
                jwt: None,
            }),
            disabled: false,
        },
        Node::new(url("same.example")),
    ];
    let nodes = m.get_nodes("path", None, false, false).unwrap();
    assert_eq!(nodes.len(), 1);
    assert_eq!(nodes[0].url.username.as_str(), "alice");
    assert_eq!(nodes[0].url.password.as_deref(), Some("pw"));
}

#[test]
fn archival_preference_orders_permanodes_first() {
    let mut m: NodeManager = NodeManager::builder()
        .with_primary_node(node("primary.example"))
        .with_permanode(node("perma.example"))
        .build();
    m.healthy_nodes = vec![healthy("a.example", vec![])];

    let nodes = m.get_nodes("api/core/v2/tips", None, false, true).unwrap();
    assert_eq!(nodes[0].url.host.as_str(), "perma.example");
    assert_eq!(nodes[1].url.host.as_str(), "primary.example");
}

#[test]
fn block_submission_with_query_prefers_permanodes() {
    let mut m: NodeManager = NodeManager::builder()
        .with_primary_node(node("primary.example"))
        .with_permanode(node("perma.example"))
        .build();
    m.healthy_nodes = vec![healthy("a.example", vec![])];

    // Without a query the permanode is not preferred.
    let plain = m.get_nodes("api/core/v2/blocks", None, false, false).unwrap();
    assert_eq!(plain[0].url.host.as_str(), "primary.example");
    assert_eq!(plain.len(), 2);

    // With a query on the block-submission endpoint it is.
    let q = m.get_nodes("api/core/v2/blocks", Some("id=1"), false, false).unwrap();
    assert_eq!(q[0].url.host.as_str(), "perma.example");
    assert_eq!(q[0].url.query.as_deref(), Some("id=1"));
}

#[test]
fn ignore_node_health_uses_general_pool() {
    let mut m: NodeManager = NodeManager::builder().with_ignore_node_health(true).build();
    m.nodes = vec![node("a.example"), node("b.example")];
    // The snapshot is ignored entirely.
    m.healthy_nodes = vec![healthy("c.example", vec![])];

    let nodes = m.get_nodes("p", None, false, false).unwrap();
    let hosts: Vec<&str> = nodes.iter().map(|n| n.url.host.as_str()).collect();
    assert_eq!(hosts, vec!["a.example", "b.example"]);
}

#[test]
fn disabled_nodes_are_dropped_but_block_later_duplicates() {
    let mut disabled_primary = node("dup.example");
    disabled_primary.disabled = true;
    let mut m: NodeManager = NodeManager::builder()
        .with_primary_node(disabled_primary)
        .build();
    m.healthy_nodes = vec![healthy("dup.example", vec![])];

    // The disabled primary occupies the URL, so the healthy duplicate is
    // de-duplicated away and then the primary is dropped as disabled.
    let r = m.get_nodes("p", None, false, false);
    assert!(matches!(r, Err(Error::NoHealthyNodes)));
}

#[test]
fn origin_joins_scheme_and_host() {
    let u = url("node.example");
    assert_eq!(u.origin().as_str(), "https://node.example");
}

#[test]
fn error_kind_names_are_distinct() {
    assert_eq!(Error::NoHealthyNodes.kind_name(), "no healthy nodes");
    assert_eq!(Error::NoPowCapableNode.kind_name(), "no pow capable node");
    assert_eq!(
        Error::QuorumPoolSizeError { available: 1, required: 3 }.kind_name(),
        "quorum pool too small"
    );
    assert_eq!(
        Error::QuorumThresholdError { achieved: 1, required: 3 }.kind_name(),
        "quorum threshold not reached"
    );
    assert_eq!(Error::UrlCredentialError.kind_name(), "url credential error");
}
