use balancer::wire::{encode_announcement, parse_announcement, MAX_DATAGRAM_LEN};
use balancer::{DatagramError, ServiceClass};

#[test]
fn a_datagram_announces_a_node() {
    let a = parse_announcement(b"DISCOVER,lmstudio,n1,http://10.0.0.5:8000/v1").unwrap();
    assert_eq!(a.class, ServiceClass::LmStudio);
    assert_eq!(a.node_id, "n1");
    assert_eq!(a.service_url, "http://10.0.0.5:8000/v1");
}

#[test]
fn the_second_class_is_ollama() {
    let a = parse_announcement(b"DISCOVER,ollama,host-1234,http://h:11434/api").unwrap();
    assert_eq!(a.class, ServiceClass::Ollama);
    assert_eq!(a.node_id, "host-1234");
    assert_eq!(a.service_url, "http://h:11434/api");
}

#[test]
fn white_space_at_the_ends_does_not_count() {
    let a = parse_announcement(b" \t\r\nDISCOVER,ollama,n1,http://h/x \x0b\x0c\n").unwrap();
    assert_eq!(a.class, ServiceClass::Ollama);
    assert_eq!(a.node_id, "n1");
    assert_eq!(a.service_url, "http://h/x");
}

#[test]
fn white_space_inside_is_kept() {
    let a = parse_announcement(b"DISCOVER,ollama, n 1 ,http://h/a b").unwrap();
    assert_eq!(a.node_id, " n 1 ");
    assert_eq!(a.service_url, "http://h/a b");
}

#[test]
fn the_url_may_hold_commas() {
    let a = parse_announcement(b"DISCOVER,lmstudio,n1,http://h/x?a=1,2,3").unwrap();
    assert_eq!(a.node_id, "n1");
    assert_eq!(a.service_url, "http://h/x?a=1,2,3");
}

#[test]
fn the_url_may_be_empty() {
    let a = parse_announcement(b"DISCOVER,lmstudio,n1,").unwrap();
    assert_eq!(a.node_id, "n1");
    assert_eq!(a.service_url, "");
}

#[test]
fn a_long_datagram_is_refused() {
    let mut datagram = b"DISCOVER,lmstudio,n1,http://h/".to_vec();
    datagram.resize(MAX_DATAGRAM_LEN, b'a');
    let a = parse_announcement(&datagram).unwrap();
    assert_eq!(a.service_url.len(), MAX_DATAGRAM_LEN - 21);
    datagram.push(b'a');
    assert_eq!(parse_announcement(&datagram).unwrap_err(), DatagramError::TooLong);
}

#[test]
fn a_byte_beyond_ascii_is_refused() {
    assert_eq!(
        parse_announcement(b"DISCOVER,lmstudio,n\xc3\xa9,http://h/").unwrap_err(),
        DatagramError::NotAscii
    );
    assert_eq!(parse_announcement(b"\xff").unwrap_err(), DatagramError::NotAscii);
}

#[test]
fn too_few_fields_are_refused() {
    assert_eq!(parse_announcement(b"").unwrap_err(), DatagramError::FieldCount);
    assert_eq!(parse_announcement(b"   ").unwrap_err(), DatagramError::FieldCount);
    assert_eq!(parse_announcement(b"DISCOVER").unwrap_err(), DatagramError::FieldCount);
    assert_eq!(parse_announcement(b"DISCOVER,lmstudio").unwrap_err(), DatagramError::FieldCount);
    assert_eq!(
        parse_announcement(b"DISCOVER,lmstudio,10.0.0.5:8000").unwrap_err(),
        DatagramError::FieldCount
    );
}

#[test]
fn another_first_word_is_refused() {
    assert_eq!(
        parse_announcement(b"HELLO,lmstudio,n1,url").unwrap_err(),
        DatagramError::MissingPrefix
    );
    assert_eq!(
        parse_announcement(b"discover,lmstudio,n1,url").unwrap_err(),
        DatagramError::MissingPrefix
    );
    assert_eq!(
        parse_announcement(b"DISCOVERY,lmstudio,n1,url").unwrap_err(),
        DatagramError::MissingPrefix
    );
    assert_eq!(parse_announcement(b",lmstudio,n1,url").unwrap_err(), DatagramError::MissingPrefix);
}

#[test]
fn an_unknown_class_is_refused() {
    assert_eq!(
        parse_announcement(b"DISCOVER,vllm,n1,http://h/").unwrap_err(),
        DatagramError::UnknownService
    );
    assert_eq!(
        parse_announcement(b"DISCOVER,LMSTUDIO,n1,http://h/").unwrap_err(),
        DatagramError::UnknownService
    );
    assert_eq!(
        parse_announcement(b"DISCOVER, ollama,n1,http://h/").unwrap_err(),
        DatagramError::UnknownService
    );
    assert_eq!(
        parse_announcement(b"DISCOVER,,n1,http://h/").unwrap_err(),
        DatagramError::UnknownService
    );
}

#[test]
fn an_empty_identifier_is_refused() {
    assert_eq!(
        parse_announcement(b"DISCOVER,ollama,,http://h/").unwrap_err(),
        DatagramError::EmptyNodeId
    );
}

#[test]
fn the_first_fault_found_is_reported() {
    assert_eq!(parse_announcement(b"HELLO,vllm,,x").unwrap_err(), DatagramError::MissingPrefix);
    assert_eq!(parse_announcement(b"DISCOVER,vllm,,x").unwrap_err(), DatagramError::UnknownService);
    assert_eq!(parse_announcement(b"HELLO,vllm").unwrap_err(), DatagramError::FieldCount);
}

#[test]
fn an_announcement_is_written_field_by_field() {
    assert_eq!(
        encode_announcement(ServiceClass::LmStudio, "n1", "http://10.0.0.5:8000/v1"),
        "DISCOVER,lmstudio,n1,http://10.0.0.5:8000/v1"
    );
    assert_eq!(
        encode_announcement(ServiceClass::Ollama, "host-7", "http://localhost:11434/a,b"),
        "DISCOVER,ollama,host-7,http://localhost:11434/a,b"
    );
}

#[test]
fn what_is_written_is_read_back() {
    let text = encode_announcement(ServiceClass::Ollama, "host-7", "http://localhost:11434/a,b");
    let a = parse_announcement(text.as_bytes()).unwrap();
    assert_eq!(a.class, ServiceClass::Ollama);
    assert_eq!(a.node_id, "host-7");
    assert_eq!(a.service_url, "http://localhost:11434/a,b");
}

#[test]
fn the_names_of_the_classes() {
    assert_eq!(ServiceClass::LmStudio.name(), "lmstudio");
    assert_eq!(ServiceClass::Ollama.name(), "ollama");
    assert_eq!(ServiceClass::LmStudio.label(), "LM Studio");
    assert_eq!(ServiceClass::Ollama.label(), "Ollama");
}
