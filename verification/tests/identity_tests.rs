use bing_chat::identity::{chat_headers, fresh_ws_key, random_forwarded_ip, random_hex_string};
use bing_chat::session::ChatSession;
use bing_chat::style::ConversationStyle;
use bing_chat::meta::{cookie_header_value, create_conversation_headers, parse_conversation_meta,
    ConversationMeta, ConversationMetaCreatingError, CookieInFile};

#[test]
fn hex_strings_have_the_asked_length_and_alphabet() {
    let s = random_hex_string(32);
    assert_eq!(s.len(), 32);
    assert!(s.chars().all(|c| c.is_ascii_hexdigit() && !c.is_ascii_uppercase()));
    assert_eq!(random_hex_string(0).len(), 0);
}

#[test]
fn fresh_uuids_are_hyphenated_and_lowercase() {
    let session = ChatSession::fresh(ConversationMeta {
        conversation_signature: "s".to_string(),
        client_id: "c".to_string(),
        conversation_id: "i".to_string(),
    }, ConversationStyle::Balanced);
    let u = session.uuid().clone();
    assert_eq!(u.len(), 36);
    let bytes = u.as_bytes();
    assert_eq!(bytes[8], b'-');
    assert_eq!(bytes[13], b'-');
    assert_eq!(bytes[18], b'-');
    assert_eq!(bytes[23], b'-');
    assert!(u.chars().all(|c| c == '-' || (c.is_ascii_hexdigit() && !c.is_ascii_uppercase())));
}

#[test]
fn simulated_origin_addresses_come_from_the_fixed_block() {
    for _ in 0..16 {
        let ip = random_forwarded_ip();
        let parts: Vec<&str> = ip.split('.').collect();
        assert_eq!(parts.len(), 4);
        assert_eq!(parts[0], "13");
        let second: u32 = parts[1].parse().unwrap();
        assert!((104..=107).contains(&second));
        let third: u32 = parts[2].parse().unwrap();
        let fourth: u32 = parts[3].parse().unwrap();
        assert!(third <= 255);
        assert!(fourth <= 255);
    }
}

#[test]
fn handshake_keys_are_encoded_sixteen_byte_tokens() {
    let key = fresh_ws_key();
    assert_eq!(key.len(), 24);
    // Sixteen bytes always leave two characters of padding.
    assert!(key.ends_with("=="));
}

#[test]
fn connection_headers_carry_the_session_identity() {
    let headers = chat_headers("the-uuid", "13.104.0.9", "QUFBQUFBQUFBQUFBQUFBQQ==");
    assert_eq!(headers.len(), 25);
    let find = |name: &str| {
        headers.iter().find(|h| h.name == name).map(|h| h.value.clone())
    };
    assert_eq!(find("x-ms-client-request-id").unwrap(), "the-uuid");
    assert_eq!(find("x-forwarded-for").unwrap(), "13.104.0.9");
    assert_eq!(find("Sec-websocket-key").unwrap(), "QUFBQUFBQUFBQUFBQUFBQQ==");
    assert_eq!(find("Host").unwrap(), "sydney.bing.com");
    assert_eq!(find("Upgrade").unwrap(), "websocket");
    assert_eq!(find("accept").unwrap(), "application/json");
}

#[test]
fn creation_headers_are_the_fixed_browser_identity() {
    let headers = create_conversation_headers();
    assert_eq!(headers.len(), 20);
    assert_eq!(headers[0].name, "authority");
    assert_eq!(headers[0].value, "edgeservices.bing.com");
    assert_eq!(headers[19].name, "x-forwarded-for");
    assert_eq!(headers[19].value, "1.1.1.1");
}

#[test]
fn cookie_lines_are_scoped_to_the_domain() {
    let cookie = CookieInFile { name: "_U".to_string(), value: "SECRET-REDACTED".to_string() };
    assert_eq!(cookie_header_value(&cookie), "_U=SECRET-REDACTED; Domain=bing.com");
}

#[test]
fn creation_bodies_parse_into_credentials() {
    let body = "{\"conversationSignature\":\"sig\",\"clientId\":\"cl\",\
\"conversationId\":\"conv\",\"result\":{\"value\":\"Success\"}}";
    let meta = parse_conversation_meta(body).expect("body should parse");
    assert_eq!(meta, ConversationMeta {
        conversation_signature: "sig".to_string(),
        client_id: "cl".to_string(),
        conversation_id: "conv".to_string(),
    });
}

#[test]
fn broken_creation_bodies_are_parse_failures() {
    assert_eq!(parse_conversation_meta("<html>"),
        Err(ConversationMetaCreatingError::ParseRespond));
    assert_eq!(parse_conversation_meta("{\"clientId\":\"cl\"}"),
        Err(ConversationMetaCreatingError::ParseRespond));
    assert_eq!(parse_conversation_meta("{\"conversationSignature\":1,\"clientId\":\"c\",\
\"conversationId\":\"i\"}"),
        Err(ConversationMetaCreatingError::ParseRespond));
}
