use balancer::dispatch::{
    no_capacity_reply, poll_admission, settle, status_is_success, STATUS_BACKEND_FAILURE,
    STATUS_NO_CAPACITY,
};
use balancer::text::decimal;
use balancer::{Admission, AppState, BackendOutcome, NodeHealth, Registry, ServiceClass};

const SEC: u64 = 1_000_000_000;
const MS: u64 = 1_000_000;

fn one_node() -> Registry {
    let mut nodes = Registry::new();
    nodes.upsert("n1", "http://10.0.0.5:8000/v1", 0);
    nodes
}

#[test]
fn an_available_node_is_handed_out() {
    let mut nodes = one_node();
    match poll_admission(&mut nodes, 0, 0, 30 * SEC, 200 * MS) {
        Admission::Dispatch { node_id, service_url } => {
            assert_eq!(node_id, "n1");
            assert_eq!(service_url, "http://10.0.0.5:8000/v1");
        }
        other => panic!("unexpected {:?}", other),
    }
    assert_eq!(nodes.get("n1").unwrap().state(), NodeHealth::Busy);
}

#[test]
fn an_available_node_is_handed_out_even_after_the_timeout() {
    let mut nodes = one_node();
    let next = poll_admission(&mut nodes, 0, 100 * SEC, 30 * SEC, 200 * MS);
    assert!(matches!(next, Admission::Dispatch { .. }));
}

#[test]
fn without_a_node_the_request_waits_up_to_the_timeout() {
    let mut nodes = Registry::new();
    let next = poll_admission(&mut nodes, 5 * SEC, 5 * SEC, 30 * SEC, 200 * MS);
    assert!(matches!(next, Admission::Wait { poll_interval } if poll_interval == 200 * MS));
    let next = poll_admission(&mut nodes, 5 * SEC, 35 * SEC, 30 * SEC, 200 * MS);
    assert!(matches!(next, Admission::Wait { poll_interval } if poll_interval == 200 * MS));
    let next = poll_admission(&mut nodes, 5 * SEC, 35 * SEC + 1, 30 * SEC, 200 * MS);
    assert!(matches!(next, Admission::NoCapacity));
}

#[test]
fn a_clock_that_ran_back_means_no_time_has_passed() {
    let mut nodes = Registry::new();
    let next = poll_admission(&mut nodes, 50 * SEC, 10 * SEC, 0, 200 * MS);
    assert!(matches!(next, Admission::Wait { .. }));
}

#[test]
fn a_rejected_request_marks_no_node_busy() {
    let mut nodes = one_node();
    AppState::update_node_state(&mut nodes, "n1", NodeHealth::Failed(1));
    let next = poll_admission(&mut nodes, 0, 31 * SEC, 30 * SEC, 200 * MS);
    assert!(matches!(next, Admission::NoCapacity));
    assert_eq!(nodes.get("n1").unwrap().state(), NodeHealth::Failed(1));
}

#[test]
fn the_rejection_names_the_service_and_the_timeout() {
    let reply = no_capacity_reply(ServiceClass::Ollama, SEC);
    assert_eq!(reply.status, 503);
    assert_eq!(reply.status, STATUS_NO_CAPACITY);
    assert_eq!(reply.body, b"No hay nodos Ollama disponibles (timeout 1s)".to_vec());
    let reply = no_capacity_reply(ServiceClass::LmStudio, 30 * SEC);
    assert_eq!(reply.body, b"No hay nodos LM Studio disponibles (timeout 30s)".to_vec());
}

#[test]
fn the_timeout_is_told_in_whole_seconds() {
    let reply = no_capacity_reply(ServiceClass::Ollama, 2 * SEC - 1);
    assert_eq!(reply.body, b"No hay nodos Ollama disponibles (timeout 1s)".to_vec());
    let reply = no_capacity_reply(ServiceClass::Ollama, 200 * MS);
    assert_eq!(reply.body, b"No hay nodos Ollama disponibles (timeout 0s)".to_vec());
}

#[test]
fn a_success_releases_the_node() {
    let mut nodes = one_node();
    AppState::find_and_occupy_node(&mut nodes).unwrap();
    let outcome = BackendOutcome::Response { status: 200, body: b"{\"ok\":true}".to_vec() };
    let reply = settle(&mut nodes, ServiceClass::LmStudio, "n1", outcome, 7);
    assert_eq!(reply.status, 200);
    assert_eq!(reply.body, b"{\"ok\":true}".to_vec());
    assert_eq!(nodes.get("n1").unwrap().state(), NodeHealth::Available);
}

#[test]
fn every_success_status_releases_the_node() {
    for status in [200u16, 201, 204, 299] {
        let mut nodes = one_node();
        AppState::find_and_occupy_node(&mut nodes).unwrap();
        let outcome = BackendOutcome::Response { status, body: Vec::new() };
        let reply = settle(&mut nodes, ServiceClass::LmStudio, "n1", outcome, 7);
        assert_eq!(reply.status, status);
        assert_eq!(nodes.get("n1").unwrap().state(), NodeHealth::Available);
    }
}

#[test]
fn any_other_status_passes_through_and_fails_the_node() {
    for status in [100u16, 199, 300, 302, 404, 500, 503, 999] {
        let mut nodes = one_node();
        AppState::find_and_occupy_node(&mut nodes).unwrap();
        let outcome = BackendOutcome::Response { status, body: b"boom".to_vec() };
        let reply = settle(&mut nodes, ServiceClass::LmStudio, "n1", outcome, 7);
        assert_eq!(reply.status, status);
        assert_eq!(reply.body, b"boom".to_vec());
        assert_eq!(nodes.get("n1").unwrap().state(), NodeHealth::Failed(7));
    }
}

#[test]
fn a_body_is_passed_on_byte_for_byte() {
    let body: Vec<u8> = (0..=255u8).collect();
    let mut nodes = one_node();
    AppState::find_and_occupy_node(&mut nodes).unwrap();
    let outcome = BackendOutcome::Response { status: 200, body: body.clone() };
    let reply = settle(&mut nodes, ServiceClass::Ollama, "n1", outcome, 7);
    assert_eq!(reply.body, body);
}

#[test]
fn an_unread_answer_fails_the_node() {
    let mut nodes = one_node();
    AppState::find_and_occupy_node(&mut nodes).unwrap();
    let reply = settle(&mut nodes, ServiceClass::Ollama, "n1", BackendOutcome::ReadFailed, 9);
    assert_eq!(reply.status, 500);
    assert_eq!(reply.status, STATUS_BACKEND_FAILURE);
    assert_eq!(reply.body, b"Error leyendo respuesta de Ollama".to_vec());
    assert_eq!(nodes.get("n1").unwrap().state(), NodeHealth::Failed(9));
}

#[test]
fn an_unreachable_node_fails() {
    let mut nodes = one_node();
    AppState::find_and_occupy_node(&mut nodes).unwrap();
    let outcome = BackendOutcome::Unreachable { detail: "connection refused".to_string() };
    let reply = settle(&mut nodes, ServiceClass::LmStudio, "n1", outcome, 11);
    assert_eq!(reply.status, 500);
    assert_eq!(reply.body, b"Error reenviando a LM Studio: connection refused".to_vec());
    assert_eq!(nodes.get("n1").unwrap().state(), NodeHealth::Failed(11));
}

#[test]
fn the_detail_of_a_failure_is_written_in_utf8() {
    let mut nodes = one_node();
    let outcome = BackendOutcome::Unreachable { detail: "sin conexi\u{f3}n".to_string() };
    let reply = settle(&mut nodes, ServiceClass::Ollama, "n1", outcome, 11);
    assert_eq!(reply.body, "Error reenviando a Ollama: sin conexi\u{f3}n".as_bytes().to_vec());
}

#[test]
fn settling_on_an_evicted_node_changes_nothing() {
    let mut nodes = one_node();
    nodes.upsert("n2", "u2", 0);
    let outcome = BackendOutcome::Response { status: 200, body: b"late".to_vec() };
    let reply = settle(&mut nodes, ServiceClass::Ollama, "gone", outcome, 11);
    assert_eq!(reply.status, 200);
    assert_eq!(reply.body, b"late".to_vec());
    assert_eq!(nodes.len(), 2);
    assert_eq!(nodes.get("n1").unwrap().state(), NodeHealth::Available);
    assert_eq!(nodes.get("n2").unwrap().state(), NodeHealth::Available);
}

#[test]
fn success_is_200_to_299() {
    assert!(!status_is_success(199));
    assert!(status_is_success(200));
    assert!(status_is_success(299));
    assert!(!status_is_success(300));
    assert!(!status_is_success(0));
    assert!(!status_is_success(u16::MAX));
}

#[test]
fn numbers_are_written_in_decimal() {
    assert_eq!(decimal(0), "0");
    assert_eq!(decimal(7), "7");
    assert_eq!(decimal(10), "10");
    assert_eq!(decimal(30), "30");
    assert_eq!(decimal(1234567890), "1234567890");
    assert_eq!(decimal(u64::MAX), "18446744073709551615");
}
