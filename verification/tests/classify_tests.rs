use bing_chat::classify::{classify, ChatError, InboundFrame};
use bing_chat::json::{parse_json_text, JsonValue};

fn parse(text: &str) -> JsonValue {
    parse_json_text(text).expect("fixture should parse")
}

const FULL_ITEM: &str = "{\"type\":2,\"item\":{\"messages\":[\
{\"author\":\"user\",\"text\":\"question\",\"messageType\":\"Chat\"},\
{\"author\":\"bot\",\"text\":\"the answer\",\
\"suggestedResponses\":[{\"text\":\"first\"},{\"text\":\"second\"}],\
\"sourceAttributions\":[{\"seeMoreUrl\":\"https://example.com/a\"},\
{\"seeMoreUrl\":\"https://example.com/b\"}]}]}}";

#[test]
fn full_item_frame_yields_the_bot_answer() {
    let frame = parse(FULL_ITEM);
    match classify(&frame) {
        Ok(InboundFrame::FullResponse(m)) => {
            assert_eq!(m.text, "the answer");
            assert_eq!(m.suggested_responses, vec!["first".to_string(), "second".to_string()]);
            assert_eq!(m.source_attributions, vec![
                "https://example.com/a".to_string(),
                "https://example.com/b".to_string(),
            ]);
        },
        other => panic!("expected a full response, got {:?}", other),
    }
}

#[test]
fn item_frame_without_qualifying_message_is_a_partial() {
    let frame = parse("{\"type\":2,\"item\":{\"messages\":[\
{\"author\":\"bot\",\"text\":\"typing\",\"messageType\":\"InternalSearchQuery\"},\
{\"author\":\"user\",\"text\":\"hi\"}]}}");
    assert!(matches!(classify(&frame), Ok(InboundFrame::StreamItem)));
}

#[test]
fn frame_without_type_field_names_the_type_path() {
    let frame = parse("{}");
    match classify(&frame) {
        Err(ChatError::GetFieldError { object_name, field_name }) => {
            assert_eq!(object_name, "newbing_response");
            assert_eq!(field_name, "type");
        },
        other => panic!("expected a field error, got {:?}", other),
    }
}

#[test]
fn frame_with_non_integer_type_is_a_type_error() {
    let frame = parse("{\"type\":\"six\"}");
    match classify(&frame) {
        Err(ChatError::FieldTypeError { object_name, field_name, expected_type }) => {
            assert_eq!(object_name, "newbing_response");
            assert_eq!(field_name, "type");
            assert_eq!(expected_type, "integer");
        },
        other => panic!("expected a type error, got {:?}", other),
    }
}

#[test]
fn discriminants_sort_into_their_kinds() {
    assert!(matches!(classify(&parse("{\"type\":1}")), Ok(InboundFrame::Invocation)));
    assert!(matches!(classify(&parse("{\"type\":3}")), Ok(InboundFrame::EndOfResponse)));
    assert!(matches!(classify(&parse("{\"type\":6}")), Ok(InboundFrame::KeepAlive)));
    assert!(matches!(classify(&parse("{\"type\":7}")), Ok(InboundFrame::Unknown)));
    assert!(matches!(classify(&parse("{\"type\":0}")), Ok(InboundFrame::Unknown)));
}

#[test]
fn item_frame_missing_text_reports_the_message_path() {
    let frame = parse("{\"type\":2,\"item\":{\"messages\":[{\"author\":\"bot\"}]}}");
    match classify(&frame) {
        Err(ChatError::GetFieldError { object_name, field_name }) => {
            assert_eq!(object_name,
                "newbing_response.item.messages[{author == bot, messageType != null}]");
            assert_eq!(field_name, "text");
        },
        other => panic!("expected a field error, got {:?}", other),
    }
}

#[test]
fn item_frame_missing_item_reports_its_path() {
    let frame = parse("{\"type\":2}");
    match classify(&frame) {
        Err(ChatError::GetFieldError { object_name, field_name }) => {
            assert_eq!(object_name, "newbing_response");
            assert_eq!(field_name, "item");
        },
        other => panic!("expected a field error, got {:?}", other),
    }
}

#[test]
fn suggested_response_entry_missing_text_reports_the_list_path() {
    let frame = parse("{\"type\":2,\"item\":{\"messages\":[\
{\"author\":\"bot\",\"text\":\"x\",\"suggestedResponses\":[{\"nottext\":1}],\
\"sourceAttributions\":[]}]}}");
    match classify(&frame) {
        Err(ChatError::GetFieldError { object_name, field_name }) => {
            assert_eq!(object_name,
                "newbing_response.item.messages[{author == bot, messageType != null}].suggestedResponses");
            assert_eq!(field_name, "text");
        },
        other => panic!("expected a field error, got {:?}", other),
    }
}

#[test]
fn extra_fractional_fields_do_not_break_classification() {
    let frame = parse("{\"type\":2,\"item\":{\"throttling\":{\"used\":0.5},\"messages\":[\
{\"author\":\"bot\",\"text\":\"ok\",\"suggestedResponses\":[],\"sourceAttributions\":[]}]}}");
    match classify(&frame) {
        Ok(InboundFrame::FullResponse(m)) => assert_eq!(m.text, "ok"),
        other => panic!("expected a full response, got {:?}", other),
    }
}

#[test]
fn answer_with_empty_lists_is_complete() {
    let frame = parse("{\"type\":2,\"item\":{\"messages\":[\
{\"author\":\"bot\",\"text\":\"done\",\"suggestedResponses\":[],\"sourceAttributions\":[]}]}}");
    match classify(&frame) {
        Ok(InboundFrame::FullResponse(m)) => {
            assert_eq!(m.text, "done");
            assert!(m.suggested_responses.is_empty());
            assert!(m.source_attributions.is_empty());
        },
        other => panic!("expected a full response, got {:?}", other),
    }
}
