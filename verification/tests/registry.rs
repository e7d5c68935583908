use balancer::{remove_stale_nodes, AppState, NodeHealth, Registry};

const SEC: u64 = 1_000_000_000;

fn ids(registry: &Registry) -> Vec<String> {
    registry.snapshot().iter().map(|n| n.id().clone()).collect()
}

#[test]
fn new_registry_is_empty() {
    let nodes = Registry::new();
    assert_eq!(nodes.len(), 0);
    assert!(nodes.snapshot().is_empty());
    assert!(nodes.get("n1").is_none());
}

#[test]
fn upsert_adds_an_available_node() {
    let mut nodes = Registry::new();
    nodes.upsert("n1", "http://10.0.0.5:8000/v1", 5);
    assert_eq!(nodes.len(), 1);
    let n1 = nodes.get("n1").unwrap();
    assert_eq!(n1.id(), "n1");
    assert_eq!(n1.state(), NodeHealth::Available);
    assert_eq!(n1.service_url(), "http://10.0.0.5:8000/v1");
    assert_eq!(n1.last_seen(), 5);
}

#[test]
fn upsert_twice_keeps_one_record_and_the_later_time() {
    let mut nodes = Registry::new();
    nodes.upsert("n1", "http://10.0.0.5:8000/v1", 5);
    nodes.upsert("n2", "http://10.0.0.6:8000/v1", 6);
    nodes.upsert("n1", "http://10.0.0.5:8000/v1", 9);
    assert_eq!(nodes.len(), 2);
    assert_eq!(ids(&nodes), vec!["n1".to_string(), "n2".to_string()]);
    assert_eq!(nodes.get("n1").unwrap().last_seen(), 9);
    assert_eq!(nodes.get("n2").unwrap().last_seen(), 6);
}

#[test]
fn upsert_replaces_the_url() {
    let mut nodes = Registry::new();
    nodes.upsert("n1", "http://10.0.0.5:8000/v1", 5);
    nodes.upsert("n1", "http://10.0.0.9:8000/v2", 7);
    assert_eq!(nodes.get("n1").unwrap().service_url(), "http://10.0.0.9:8000/v2");
}

#[test]
fn upsert_makes_a_busy_node_available() {
    let mut nodes = Registry::new();
    nodes.upsert("n1", "u", 1);
    assert!(AppState::find_and_occupy_node(&mut nodes).is_some());
    assert_eq!(nodes.get("n1").unwrap().state(), NodeHealth::Busy);
    nodes.upsert("n1", "u", 2);
    assert_eq!(nodes.get("n1").unwrap().state(), NodeHealth::Available);
}

#[test]
fn upsert_makes_a_failed_node_available() {
    let mut nodes = Registry::new();
    nodes.upsert("n1", "u", 1);
    AppState::update_node_state(&mut nodes, "n1", NodeHealth::Failed(2));
    assert_eq!(nodes.get("n1").unwrap().state(), NodeHealth::Failed(2));
    nodes.upsert("n1", "u", 3);
    assert_eq!(nodes.get("n1").unwrap().state(), NodeHealth::Available);
}

#[test]
fn occupy_takes_the_first_available_node() {
    let mut nodes = Registry::new();
    nodes.upsert("a", "ua", 1);
    nodes.upsert("b", "ub", 1);
    nodes.upsert("c", "uc", 1);
    AppState::update_node_state(&mut nodes, "a", NodeHealth::Failed(2));
    let found = AppState::find_and_occupy_node(&mut nodes);
    assert_eq!(found, Some(("b".to_string(), "ub".to_string())));
    assert_eq!(nodes.get("a").unwrap().state(), NodeHealth::Failed(2));
    assert_eq!(nodes.get("b").unwrap().state(), NodeHealth::Busy);
    assert_eq!(nodes.get("c").unwrap().state(), NodeHealth::Available);
}

#[test]
fn occupy_never_hands_out_a_node_twice() {
    let mut nodes = Registry::new();
    nodes.upsert("a", "ua", 1);
    nodes.upsert("b", "ub", 1);
    let first = AppState::find_and_occupy_node(&mut nodes).unwrap();
    let second = AppState::find_and_occupy_node(&mut nodes).unwrap();
    assert_ne!(first.0, second.0);
    assert_eq!(AppState::find_and_occupy_node(&mut nodes), None);
    let busy = nodes.snapshot().iter().filter(|n| n.state() == NodeHealth::Busy).count();
    assert_eq!(busy, 2);
}

#[test]
fn occupy_on_an_empty_registry_finds_nothing() {
    let mut nodes = Registry::new();
    assert_eq!(AppState::find_and_occupy_node(&mut nodes), None);
    assert_eq!(nodes.len(), 0);
}

#[test]
fn occupy_without_an_available_node_touches_nothing() {
    let mut nodes = Registry::new();
    nodes.upsert("a", "ua", 1);
    nodes.upsert("b", "ub", 2);
    AppState::update_node_state(&mut nodes, "a", NodeHealth::Busy);
    AppState::update_node_state(&mut nodes, "b", NodeHealth::Failed(3));
    assert_eq!(AppState::find_and_occupy_node(&mut nodes), None);
    assert_eq!(nodes.get("a").unwrap().state(), NodeHealth::Busy);
    assert_eq!(nodes.get("b").unwrap().state(), NodeHealth::Failed(3));
    assert_eq!(nodes.get("a").unwrap().last_seen(), 1);
    assert_eq!(nodes.get("b").unwrap().last_seen(), 2);
}

#[test]
fn update_of_an_absent_node_changes_nothing() {
    let mut nodes = Registry::new();
    nodes.upsert("a", "ua", 1);
    AppState::update_node_state(&mut nodes, "zz", NodeHealth::Busy);
    assert_eq!(nodes.len(), 1);
    assert_eq!(nodes.get("a").unwrap().state(), NodeHealth::Available);
    assert!(nodes.get("zz").is_none());
}

#[test]
fn update_keeps_url_and_last_seen() {
    let mut nodes = Registry::new();
    nodes.upsert("a", "ua", 1);
    AppState::update_node_state(&mut nodes, "a", NodeHealth::Failed(7));
    let a = nodes.get("a").unwrap();
    assert_eq!(a.state(), NodeHealth::Failed(7));
    assert_eq!(a.service_url(), "ua");
    assert_eq!(a.last_seen(), 1);
}

#[test]
fn identifiers_are_compared_whole() {
    let mut nodes = Registry::new();
    nodes.upsert("node", "u1", 1);
    nodes.upsert("node-2", "u2", 1);
    nodes.upsert("nod", "u3", 1);
    assert_eq!(nodes.len(), 3);
    AppState::update_node_state(&mut nodes, "nod", NodeHealth::Busy);
    assert_eq!(nodes.get("node").unwrap().state(), NodeHealth::Available);
    assert_eq!(nodes.get("nod").unwrap().state(), NodeHealth::Busy);
}

#[test]
fn a_node_is_stale_only_after_the_timeout() {
    let mut nodes = Registry::new();
    nodes.upsert("a", "ua", 10 * SEC);
    let removed = remove_stale_nodes(&mut nodes, 35 * SEC, 45 * SEC);
    assert!(removed.is_empty());
    assert_eq!(nodes.len(), 1);
    let removed = remove_stale_nodes(&mut nodes, 35 * SEC, 45 * SEC + 1);
    assert_eq!(removed, vec!["a".to_string()]);
    assert_eq!(nodes.len(), 0);
}

#[test]
fn eviction_keeps_the_order_of_the_rest() {
    let mut nodes = Registry::new();
    nodes.upsert("a", "ua", 1);
    nodes.upsert("b", "ub", 51);
    nodes.upsert("c", "uc", 2);
    nodes.upsert("d", "ud", 60);
    let removed = remove_stale_nodes(&mut nodes, 10, 61);
    assert_eq!(removed, vec!["a".to_string(), "c".to_string()]);
    assert_eq!(ids(&nodes), vec!["b".to_string(), "d".to_string()]);
    assert_eq!(nodes.get("b").unwrap().service_url(), "ub");
}

#[test]
fn a_busy_node_is_evicted_like_any_other() {
    let mut nodes = Registry::new();
    nodes.upsert("a", "ua", 1);
    assert!(AppState::find_and_occupy_node(&mut nodes).is_some());
    let removed = remove_stale_nodes(&mut nodes, 10, 100);
    assert_eq!(removed, vec!["a".to_string()]);
    AppState::update_node_state(&mut nodes, "a", NodeHealth::Available);
    assert_eq!(nodes.len(), 0);
}

#[test]
fn a_node_seen_after_now_is_not_stale() {
    let mut nodes = Registry::new();
    nodes.upsert("a", "ua", 100);
    let removed = remove_stale_nodes(&mut nodes, 0, 50);
    assert!(removed.is_empty());
    assert_eq!(nodes.len(), 1);
}

#[test]
fn an_evicted_node_comes_back_as_a_new_record() {
    let mut nodes = Registry::new();
    nodes.upsert("a", "ua", 1);
    nodes.upsert("b", "ub", 90);
    AppState::update_node_state(&mut nodes, "a", NodeHealth::Failed(5));
    remove_stale_nodes(&mut nodes, 10, 100);
    nodes.upsert("a", "ua2", 101);
    assert_eq!(ids(&nodes), vec!["b".to_string(), "a".to_string()]);
    let a = nodes.get("a").unwrap();
    assert_eq!(a.state(), NodeHealth::Available);
    assert_eq!(a.service_url(), "ua2");
    assert_eq!(a.last_seen(), 101);
}

#[test]
fn a_snapshot_is_a_copy() {
    let mut nodes = Registry::new();
    nodes.upsert("a", "ua", 1);
    let before = nodes.snapshot();
    AppState::update_node_state(&mut nodes, "a", NodeHealth::Busy);
    assert_eq!(before[0].state(), NodeHealth::Available);
    assert_eq!(nodes.snapshot()[0].state(), NodeHealth::Busy);
    let copy = before[0].clone();
    assert_eq!(copy.id(), "a");
    assert_eq!(copy.service_url(), "ua");
    assert_eq!(copy.last_seen(), 1);
}
