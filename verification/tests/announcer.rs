use balancer::announcer::{fresh_node_id, node_id, read_service_url, UrlInput};
use balancer::wire::{encode_announcement, parse_announcement};
use balancer::ServiceClass;

fn accept_service_url(line: &str) -> Option<String> {
    read_service_url(line).accepted()
}

#[test]
fn an_identifier_is_host_hyphen_uuid() {
    let id = node_id(Some("worker".to_string()), "67e55044-10b1-426f-9247-bb680e5fe0c8");
    assert_eq!(id, "worker-67e55044-10b1-426f-9247-bb680e5fe0c8");
}

#[test]
fn a_machine_without_a_name_is_an_unknown_host() {
    let id = node_id(None, "67e55044-10b1-426f-9247-bb680e5fe0c8");
    assert_eq!(id, "unknown-host-67e55044-10b1-426f-9247-bb680e5fe0c8");
}

#[test]
fn a_fresh_identifier_ends_in_a_uuid() {
    let id = fresh_node_id();
    let chars: Vec<char> = id.chars().collect();
    assert!(chars.len() >= 38);
    let uuid = &chars[chars.len() - 36..];
    assert_eq!(chars[chars.len() - 37], '-');
    for (i, c) in uuid.iter().enumerate() {
        if i == 8 || i == 13 || i == 18 || i == 23 {
            assert_eq!(*c, '-');
        } else {
            assert!(matches!(*c, '0'..='9' | 'a'..='f'));
        }
    }
    assert_eq!(uuid[14], '4');
}

#[test]
fn two_fresh_identifiers_differ() {
    assert_ne!(fresh_node_id(), fresh_node_id());
}

#[test]
fn a_fresh_identifier_can_be_announced() {
    let id = fresh_node_id();
    if !id.contains(',') && id.is_ascii() && id.trim() == id {
        let text = encode_announcement(ServiceClass::LmStudio, &id, "http://localhost:1234/v1");
        let a = parse_announcement(text.as_bytes()).unwrap();
        assert_eq!(a.node_id, id);
    }
}

#[test]
fn a_url_with_a_scheme_is_accepted() {
    assert_eq!(
        accept_service_url("http://localhost:1234/v1/api\n"),
        Some("http://localhost:1234/v1/api".to_string())
    );
    assert_eq!(accept_service_url("  https://h/x  "), Some("https://h/x".to_string()));
    assert_eq!(accept_service_url("http://"), Some("http://".to_string()));
    assert_eq!(accept_service_url("https://a b"), Some("https://a b".to_string()));
}

#[test]
fn an_empty_line_offers_nothing() {
    assert_eq!(accept_service_url(""), None);
    assert_eq!(accept_service_url("\n"), None);
    assert_eq!(accept_service_url(" \t \r\n"), None);
}

#[test]
fn a_line_without_a_scheme_is_passed_over() {
    assert_eq!(accept_service_url("localhost:1234"), None);
    assert_eq!(accept_service_url("ftp://h/x"), None);
    assert_eq!(accept_service_url("HTTP://h/x"), None);
    assert_eq!(accept_service_url("http:/h"), None);
    assert_eq!(accept_service_url("x http://h"), None);
}

#[test]
fn every_white_space_is_trimmed() {
    assert_eq!(accept_service_url("\u{a0}\u{2003}http://h/\u{3000}\u{85}"), Some("http://h/".to_string()));
    assert_eq!(accept_service_url("http://h/\u{200b}"), Some("http://h/\u{200b}".to_string()));
    assert_eq!(accept_service_url("http://h/\u{e9}t\u{e9}"), Some("http://h/\u{e9}t\u{e9}".to_string()));
}

#[test]
fn an_empty_line_and_a_bad_line_are_told_apart() {
    assert!(matches!(read_service_url(""), UrlInput::Blank));
    assert!(matches!(read_service_url(" \n"), UrlInput::Blank));
    assert!(matches!(read_service_url("localhost:1234\n"), UrlInput::Rejected));
    assert!(matches!(read_service_url("http://h\n"), UrlInput::Accepted(url) if url == "http://h"));
}
