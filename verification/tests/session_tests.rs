use bing_chat::classify::ChatError;
use bing_chat::json::parse_json_text;
use bing_chat::classify::get_field;
use bing_chat::json::JsonValue;
use bing_chat::meta::ConversationMeta;
use bing_chat::session::{handshake_frame, keep_alive_frame, resolve_messages, step_exchange,
    step_stream, ChatSession, FrameAction, StreamStep};
use bing_chat::style::{style_of_token, ConversationStyle};
use bing_chat::classify::InboundFrame;
use bing_chat::classify::classify;

fn meta() -> ConversationMeta {
    ConversationMeta {
        conversation_signature: "sig-0001".to_string(),
        client_id: "client-7".to_string(),
        conversation_id: "conv-99".to_string(),
    }
}

#[test]
fn style_tokens_are_the_three_fixed_strings() {
    assert_eq!(ConversationStyle::Creative.wire_token(), "h3imaginative");
    assert_eq!(ConversationStyle::Balanced.wire_token(), "galileo");
    assert_eq!(ConversationStyle::Precise.wire_token(), "h3precise");
}

#[test]
fn style_token_decoding_inverts_encoding() {
    for style in [ConversationStyle::Creative, ConversationStyle::Balanced,
        ConversationStyle::Precise] {
        assert_eq!(style_of_token(style.wire_token()), Some(style));
    }
    assert_eq!(style_of_token("imaginative"), None);
    assert_eq!(style_of_token(""), None);
}

#[test]
fn handshake_frame_is_exact() {
    assert_eq!(handshake_frame(), "{\"protocol\":\"json\",\"version\":1}\u{1e}");
}

#[test]
fn keep_alive_frame_is_exact() {
    assert_eq!(keep_alive_frame(), "{\"type\":6}\u{1e}");
}

#[test]
fn keep_alive_is_echoed_exactly_once() {
    let frame = parse_json_text("{\"type\":6}").unwrap();
    let classified = classify(&frame).unwrap();
    assert!(matches!(classified, InboundFrame::KeepAlive));
    assert!(matches!(step_exchange(classified), FrameAction::Echo));
}

#[test]
fn turn_index_advances_once_per_request() {
    let mut session = ChatSession::new(meta(), ConversationStyle::Balanced, 0,
        "fixed-uuid".to_string(), "13.104.2.3".to_string());
    assert_eq!(session.invocation_id(), 0);
    let r0 = session.next_request("one");
    let r1 = session.next_request("two");
    let r2 = session.next_request("three");
    assert_eq!(session.invocation_id(), 3);
    assert_eq!(r0.invocation_id, "0");
    assert_eq!(r1.invocation_id, "1");
    assert_eq!(r2.invocation_id, "2");
    assert!(r0.arguments[0].is_start_of_session);
    assert!(!r1.arguments[0].is_start_of_session);
    assert!(!r2.arguments[0].is_start_of_session);
}

#[test]
fn request_envelope_carries_the_wire_fields() {
    let mut session = ChatSession::new(meta(), ConversationStyle::Balanced, 4,
        "fixed-uuid".to_string(), "13.104.2.3".to_string());
    let request = session.next_request("hello there");
    let wire = bing_chat::request::encode_request(&request);
    assert!(wire.ends_with('\u{1e}'));
    let doc = parse_json_text(&wire[..wire.len() - 1]).expect("envelope should parse");
    match get_field(&doc, "type") {
        Some(JsonValue::Int(n)) => assert_eq!(*n, 4),
        other => panic!("bad type field"),
    }
    match get_field(&doc, "target") {
        Some(JsonValue::Str(s)) => assert_eq!(s, "chat"),
        other => panic!("bad target field"),
    }
    match get_field(&doc, "invocationId") {
        Some(JsonValue::Str(s)) => assert_eq!(s, "4"),
        other => panic!("bad invocationId field"),
    }
    let args = match get_field(&doc, "arguments") {
        Some(JsonValue::Array(a)) => a,
        other => panic!("bad arguments field"),
    };
    assert_eq!(args.len(), 1);
    let arg = &args[0];
    match get_field(arg, "isStartOfSession") {
        Some(JsonValue::Bool(b)) => assert!(!b),
        other => panic!("bad flag"),
    }
    match get_field(arg, "source") {
        Some(JsonValue::Str(s)) => assert_eq!(s, "cib"),
        other => panic!("bad source"),
    }
    let options = match get_field(arg, "optionsSets") {
        Some(JsonValue::Array(a)) => a,
        other => panic!("bad optionsSets"),
    };
    assert_eq!(options.len(), 10);
    match &options[5] {
        JsonValue::Str(s) => assert_eq!(s, "galileo"),
        other => panic!("bad style token"),
    }
    match get_field(arg, "conversationSignature") {
        Some(JsonValue::Str(s)) => assert_eq!(s, "sig-0001"),
        other => panic!("bad signature"),
    }
    let participant = match get_field(arg, "participant") {
        Some(p) => p,
        None => panic!("no participant"),
    };
    match get_field(participant, "id") {
        Some(JsonValue::Str(s)) => assert_eq!(s, "client-7"),
        other => panic!("bad participant id"),
    }
    let message = match get_field(arg, "message") {
        Some(m) => m,
        None => panic!("no message"),
    };
    match get_field(message, "text") {
        Some(JsonValue::Str(s)) => assert_eq!(s, "hello there"),
        other => panic!("bad message text"),
    }
    match get_field(message, "author") {
        Some(JsonValue::Str(s)) => assert_eq!(s, "user"),
        other => panic!("bad author"),
    }
    let trace = match get_field(arg, "traceId") {
        Some(JsonValue::Str(s)) => s.clone(),
        other => panic!("bad traceId"),
    };
    assert_eq!(trace.len(), 32);
    assert!(trace.chars().all(|c| c.is_ascii_hexdigit() && !c.is_ascii_uppercase()));
}

#[test]
fn session_survives_serialization_bit_for_bit() {
    let mut session = ChatSession::new(meta(), ConversationStyle::Precise, 5,
        "11111111-2222-3333-4444-555555555555".to_string(), "13.106.9.200".to_string());
    let text = session.serialize();
    let restored = ChatSession::deserialize(&text).expect("session should deserialize");
    assert_eq!(restored.invocation_id(), 5);
    assert_eq!(restored.uuid(), "11111111-2222-3333-4444-555555555555");
    assert_eq!(restored.ip(), "13.106.9.200");
    assert_eq!(restored.style(), ConversationStyle::Precise);
    assert_eq!(*restored.conversation_meta(), meta());
    let mut restored = restored;
    let request = restored.next_request("resumed");
    assert_eq!(request.invocation_id, "5");
    assert!(!request.arguments[0].is_start_of_session);
    assert_eq!(restored.invocation_id(), 6);
    let _ = session.next_request("the first session still works");
}

#[test]
fn deserialization_rejects_broken_documents() {
    assert!(ChatSession::deserialize("not json").is_none());
    assert!(ChatSession::deserialize("{\"uuid\":\"u\"}").is_none());
    assert!(ChatSession::deserialize(
        "{\"conversationSignature\":\"s\",\"clientId\":\"c\",\"conversationId\":\"i\",\
\"invocationId\":-1,\"uuid\":\"u\",\"ip\":\"p\",\"style\":\"galileo\"}").is_none());
    assert!(ChatSession::deserialize(
        "{\"conversationSignature\":\"s\",\"clientId\":\"c\",\"conversationId\":\"i\",\
\"invocationId\":0,\"uuid\":\"u\",\"ip\":\"p\",\"style\":\"mystery\"}").is_none());
}

#[test]
fn end_of_stream_without_answer_fails_the_exchange() {
    let wire = "{\"type\":1}\u{1e}{\"type\":6}\u{1e}{\"type\":3}\u{1e}".to_string();
    let outcome = resolve_messages(&vec![wire]);
    assert!(matches!(outcome, Err(ChatError::NoFullResponseFound)));
}

#[test]
fn full_response_ends_the_exchange_with_the_answer() {
    let item = "{\"type\":2,\"item\":{\"messages\":[{\"author\":\"bot\",\"text\":\"hi\",\
\"suggestedResponses\":[],\"sourceAttributions\":[]}]}}\u{1e}";
    let messages = vec![
        "{\"type\":1}\u{1e}".to_string(),
        format!("{}{}", "{\"type\":6}\u{1e}", item),
    ];
    let answer = resolve_messages(&messages).expect("exchange should succeed");
    assert_eq!(answer.text, "hi");
}

#[test]
fn closed_socket_without_terminal_frame_is_a_network_failure() {
    assert!(matches!(resolve_messages(&vec![]), Err(ChatError::Network)));
    assert!(matches!(
        resolve_messages(&vec!["{\"type\":1}\u{1e}".to_string()]),
        Err(ChatError::Network)
    ));
}

#[test]
fn malformed_message_fails_as_a_parse_error() {
    let outcome = resolve_messages(&vec!["{broken\u{1e}".to_string()]);
    assert!(matches!(outcome, Err(ChatError::ParseRespond)));
}

#[test]
fn fresh_session_starts_at_turn_zero() {
    let session = ChatSession::fresh(meta(), ConversationStyle::Creative);
    assert_eq!(session.invocation_id(), 0);
    assert_eq!(session.uuid().len(), 36);
    assert!(session.ip().starts_with("13."));
}

#[test]
fn streaming_emits_every_extractable_item_and_ends_at_the_marker() {
    let full = parse_json_text("{\"type\":2,\"item\":{\"messages\":[{\"author\":\"bot\",\
\"text\":\"partial so far\",\"suggestedResponses\":[],\"sourceAttributions\":[]}]}}").unwrap();
    match step_stream(classify(&full).unwrap()) {
        StreamStep::Emit(m) => assert_eq!(m.text, "partial so far"),
        other => panic!("expected an emitted delta, got {:?}", other),
    }
    let quiet = parse_json_text(
        "{\"type\":2,\"item\":{\"messages\":[{\"author\":\"user\",\"text\":\"q\"}]}}").unwrap();
    assert!(matches!(step_stream(classify(&quiet).unwrap()), StreamStep::Skip));
    let end = parse_json_text("{\"type\":3}").unwrap();
    assert!(matches!(step_stream(classify(&end).unwrap()), StreamStep::End));
    let ping = parse_json_text("{\"type\":6}").unwrap();
    assert!(matches!(step_stream(classify(&ping).unwrap()), StreamStep::EchoThenContinue));
}

#[test]
fn serialized_session_text_is_exact() {
    let session = ChatSession::new(
        ConversationMeta {
            conversation_signature: "sig".to_string(),
            client_id: "cl".to_string(),
            conversation_id: "conv".to_string(),
        },
        ConversationStyle::Creative,
        2,
        "uu".to_string(),
        "13.105.0.1".to_string(),
    );
    assert_eq!(
        session.serialize(),
        "{\"conversationSignature\":\"sig\",\"clientId\":\"cl\",\"conversationId\":\"conv\",\
\"invocationId\":2,\"uuid\":\"uu\",\"ip\":\"13.105.0.1\",\"style\":\"h3imaginative\"}"
    );
}
