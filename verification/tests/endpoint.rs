use balancer::endpoint::{effective_url, is_loopback, pick_url};

#[test]
fn localhost_gives_way_to_the_source() {
    assert_eq!(effective_url("http://localhost:9000/x", "192.168.1.7"), "http://192.168.1.7:9000/x");
}

#[test]
fn the_loopback_address_gives_way_to_the_source() {
    assert_eq!(effective_url("http://127.0.0.1:9000/x", "192.168.1.7"), "http://192.168.1.7:9000/x");
}

#[test]
fn scheme_port_path_and_query_stay() {
    assert_eq!(
        effective_url("https://localhost:1234/v1/chat?stream=0", "10.1.2.3"),
        "https://10.1.2.3:1234/v1/chat?stream=0"
    );
}

#[test]
fn any_other_host_is_kept_as_announced() {
    assert_eq!(effective_url("http://10.0.0.5:8000/v1", "192.168.1.7"), "http://10.0.0.5:8000/v1");
    assert_eq!(effective_url("http://example.org", "192.168.1.7"), "http://example.org");
    assert_eq!(effective_url("http://127.0.0.2:80/", "192.168.1.7"), "http://127.0.0.2:80/");
    assert_eq!(effective_url("HTTP://Example.ORG:80/A", "192.168.1.7"), "HTTP://Example.ORG:80/A");
}

#[test]
fn what_is_no_url_is_kept_as_announced() {
    assert_eq!(effective_url("url", "192.168.1.7"), "url");
    assert_eq!(effective_url("", "192.168.1.7"), "");
    assert_eq!(effective_url("localhost:9000/x y", "192.168.1.7"), "localhost:9000/x y");
    assert_eq!(effective_url("//localhost/x", "192.168.1.7"), "//localhost/x");
}

#[test]
fn a_url_without_a_host_is_kept_as_announced() {
    assert_eq!(effective_url("mailto:a@localhost", "192.168.1.7"), "mailto:a@localhost");
    assert_eq!(effective_url("data:text/plain,localhost", "192.168.1.7"), "data:text/plain,localhost");
}

#[test]
fn a_source_that_is_no_host_leaves_the_url_as_announced() {
    assert_eq!(effective_url("http://localhost:9000/x", ""), "http://localhost:9000/x");
    assert_eq!(effective_url("http://localhost:9000/x", "a b"), "http://localhost:9000/x");
}

#[test]
fn a_text_too_long_for_a_datagram_is_left_alone() {
    let long = format!("http://localhost:9000/{}", "a".repeat(1100));
    assert_eq!(effective_url(&long, "192.168.1.7"), long);
    let source = "h".repeat(256);
    assert_eq!(effective_url("http://localhost:9000/x", &source), "http://localhost:9000/x");
}

#[test]
fn two_hosts_are_loopback() {
    assert!(is_loopback("localhost"));
    assert!(is_loopback("127.0.0.1"));
    assert!(!is_loopback("127.0.0.2"));
    assert!(!is_loopback("localhost."));
    assert!(!is_loopback("LOCALHOST"));
    assert!(!is_loopback("::1"));
    assert!(!is_loopback(""));
}

#[test]
fn the_rewritten_url_wins_where_there_is_one() {
    assert_eq!(pick_url("http://localhost/", Some("http://10.0.0.1/".to_string())), "http://10.0.0.1/");
    assert_eq!(pick_url("http://localhost/", None), "http://localhost/");
}
