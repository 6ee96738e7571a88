use open_guandan_server::engine::{forwarded_client_address, has_valid_engine_sid, is_initial_engine_handshake};

fn gate(uri: &str) -> bool {
    match uri.split_once('?') {
        Some((path, query)) => is_initial_engine_handshake(path, Some(query)),
        None => is_initial_engine_handshake(uri, None),
    }
}

#[test]
fn engine_gate_matches_socketioxide_prefix_and_only_initial_opens() {
    assert!(gate("/socket.io/?EIO=4&transport=websocket"));
    assert!(gate("/socket.io/anything?EIO=4&transport=polling"));
    assert!(gate("/socket.ioevil?EIO=4&transport=websocket"));
    assert!(!gate("/socket.io/?EIO=4&transport=polling&sid=AAAAAAAAAAAAAAHs"));
    assert!(gate("/socket.io/?EIO=4&transport=websocket&sid=!"));
    assert!(gate("/socket.io/?EIO=4&transport=websocket&sid="));
    assert!(!gate("/api/rooms"));
}

#[test]
fn session_ids_are_sixteen_url_safe_characters_of_the_first_sid() {
    assert!(has_valid_engine_sid("sid=abcdefgh_-123456"));
    assert!(has_valid_engine_sid("sid=abcdefgh_-123456=tail"));
    assert!(!has_valid_engine_sid("sid=abcdefgh_-12345"));
    assert!(!has_valid_engine_sid("sid=!bcdefgh_-123456"));
    assert!(!has_valid_engine_sid("sid=bad&sid=abcdefgh_-123456"));
    assert!(!has_valid_engine_sid("xsid=abcdefgh_-123456"));
    assert!(!has_valid_engine_sid(""));
}

#[test]
fn forwarded_header_gives_its_first_entry() {
    assert_eq!(forwarded_client_address("203.0.113.7, 10.0.0.2").as_deref(), Some("203.0.113.7"));
    assert_eq!(forwarded_client_address("  , 10.0.0.2"), None);
    assert_eq!(forwarded_client_address(" 198.51.100.1 ").as_deref(), Some("198.51.100.1"));
}
