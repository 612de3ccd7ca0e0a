//! The response classifier: sorts an inbound frame into one of a closed set
//! of kinds by its integer `type` field, and for item frames extracts the
//! bot's answer, suggested follow-ups and citation sources from the nested
//! payload.
//!
//! Every failed lookup reports the dotted path it failed at, so a caller
//! can tell schema drift from a broken transport.

use vstd::prelude::*;
use crate::json::{JVal, JsonValue, jval_of, jkvs_of, jvals_of, lemma_jkvs_of, lemma_jvals_of};

verus! {

/// An error of the chat exchange phase.
#[derive(Debug, Clone, PartialEq, Eq)]
pub enum ChatError {
    /// A field was absent at the named path.
    GetFieldError { object_name: String, field_name: String },
    /// A field at the named path had the wrong shape.
    FieldTypeError { object_name: String, field_name: String, expected_type: String },
    /// The transport failed.
    Network,
    /// A frame's text was not valid JSON.
    ParseRespond,
    /// The stream ended with no qualifying answer.
    NoFullResponseFound,
}

/// The mathematical form of a `ChatError`.
#[verifier::ext_equal]
pub enum ChatErrorView {
    GetField { object_name: Seq<char>, field_name: Seq<char> },
    FieldType { object_name: Seq<char>, field_name: Seq<char>, expected_type: Seq<char> },
    Network,
    ParseRespond,
    NoFullResponseFound,
}

impl View for ChatError {
    type V = ChatErrorView;

    open spec fn view(&self) -> ChatErrorView {
        match self {
            ChatError::GetFieldError { object_name, field_name } => ChatErrorView::GetField {
                object_name: object_name@,
                field_name: field_name@,
            },
            ChatError::FieldTypeError { object_name, field_name, expected_type } =>
                ChatErrorView::FieldType {
                object_name: object_name@,
                field_name: field_name@,
                expected_type: expected_type@,
            },
            ChatError::Network => ChatErrorView::Network,
            ChatError::ParseRespond => ChatErrorView::ParseRespond,
            ChatError::NoFullResponseFound => ChatErrorView::NoFullResponseFound,
        }
    }
}

/// A complete answer extracted from a full item frame.
#[derive(Debug, Clone, PartialEq, Eq)]
pub struct NewBingResponseMessage {
    /// Text content of the response.
    pub text: String,
    /// Suggested responses offered with the response.
    pub suggested_responses: Vec<String>,
    /// Source attribution addresses cited by the response.
    pub source_attributions: Vec<String>,
}

/// The mathematical form of an answer.
#[verifier::ext_equal]
pub struct AnswerView {
    pub text: Seq<char>,
    pub suggested_responses: Seq<Seq<char>>,
    pub source_attributions: Seq<Seq<char>>,
}

impl View for NewBingResponseMessage {
    type V = AnswerView;

    open spec fn view(&self) -> AnswerView {
        AnswerView {
            text: self.text@,
            suggested_responses: self.suggested_responses.deep_view(),
            source_attributions: self.source_attributions.deep_view(),
        }
    }
}

/// An inbound frame, sorted by its `type` discriminant.
#[derive(Debug, Clone)]
pub enum InboundFrame {
    /// An acknowledgement with an empty payload.
    Invocation,
    /// An item frame with no qualifying complete answer: a partial delta.
    StreamItem,
    /// An item frame carrying a complete answer.
    FullResponse(NewBingResponseMessage),
    /// The end of the response stream.
    EndOfResponse,
    /// A liveness ping that must be echoed.
    KeepAlive,
    /// A frame kind this protocol revision does not know; safely ignored.
    Unknown,
}

/// The mathematical form of an inbound frame.
#[verifier::ext_equal]
pub enum FrameView {
    Invocation,
    StreamItem,
    FullResponse(AnswerView),
    EndOfResponse,
    KeepAlive,
    Unknown,
}

impl View for InboundFrame {
    type V = FrameView;

    open spec fn view(&self) -> FrameView {
        match self {
            InboundFrame::Invocation => FrameView::Invocation,
            InboundFrame::StreamItem => FrameView::StreamItem,
            InboundFrame::FullResponse(m) => FrameView::FullResponse(m@),
            InboundFrame::EndOfResponse => FrameView::EndOfResponse,
            InboundFrame::KeepAlive => FrameView::KeepAlive,
            InboundFrame::Unknown => FrameView::Unknown,
        }
    }
}

// ------------------------------------------------------------------
// Field lookup.
// ------------------------------------------------------------------

/// The value of the first member named `key`, if any.
pub open spec fn spec_obj_get(o: Seq<(Seq<char>, JVal)>, key: Seq<char>) -> Option<JVal>
    decreases o.len(),
{
    if o.len() == 0 {
        None
    } else if o[0].0 == key {
        Some(o[0].1)
    } else {
        spec_obj_get(o.drop_first(), key)
    }
}

/// Where `key` first occurs at member `k`, the lookup yields that member.
pub proof fn lemma_obj_get_at(o: Seq<(Seq<char>, JVal)>, key: Seq<char>, k: int)
    requires
        0 <= k < o.len(),
        o[k].0 == key,
        forall|q: int| 0 <= q < k ==> o[q].0 != key,
    ensures
        spec_obj_get(o, key) == Some(o[k].1),
    decreases k,
{
    if k == 0 {
    } else {
        let t = o.drop_first();
        assert(o[0].0 != key);
        assert forall|q: int| 0 <= q < k - 1 implies t[q].0 != key by {
            assert(o[q + 1].0 != key);
        }
        assert(t[k - 1] == o[k]);
        lemma_obj_get_at(t, key, k - 1);
    }
}

/// The value of the field named `key`, if `v` is an object holding one.
pub open spec fn spec_get_field(v: JVal, key: Seq<char>) -> Option<JVal> {
    match v {
        JVal::Obj(o) => spec_obj_get(o, key),
        _ => None,
    }
}

/// Looks a field up by name; the first member wins on duplicate keys.
pub fn get_field<'a>(v: &'a JsonValue, key: &str) -> (r: Option<&'a JsonValue>)
    ensures
        (r is Some) == (spec_get_field(v@, key@) is Some),
        r matches Some(f) ==> spec_get_field(v@, key@) == Some(f@),
{
    match v {
        JsonValue::Object(o) => {
            let mut i: usize = 0;
            proof {
                lemma_jkvs_of(*o, 0);
            }
            while i < o.len()
                invariant
                    i <= o.len(),
                    v@ == JVal::Obj(jkvs_of(*o, 0)),
                    spec_obj_get(jkvs_of(*o, 0), key@) == spec_obj_get(jkvs_of(*o, i as int), key@),
                decreases o.len() - i,
            {
                proof {
                    lemma_jkvs_of(*o, i as int);
                    assert(jkvs_of(*o, i as int)[0] == (o[i as int].0@, o[i as int].1@));
                    assert(jkvs_of(*o, i as int).drop_first() =~= jkvs_of(*o, i + 1));
                }
                let entry = &o[i];
                if crate::text::str_eq(entry.0.as_str(), key) {
                    return Some(&entry.1);
                }
                i += 1;
            }
            proof {
                lemma_jkvs_of(*o, o.len() as int);
            }
            None
        },
        _ => None,
    }
}

// ------------------------------------------------------------------
// Answer extraction.
// ------------------------------------------------------------------

/// Whether a message entry is a qualifying complete bot message: no
/// `messageType` tag, and its author is exactly `"bot"`.
pub open spec fn spec_is_bot_msg(m: JVal) -> bool {
    spec_get_field(m, "messageType"@) is None && match spec_get_field(m, "author"@) {
        Some(JVal::Str(a)) => a == "bot"@,
        _ => false,
    }
}

/// The first qualifying bot message of the list, if any.
pub open spec fn spec_find_bot(list: Seq<JVal>) -> Option<JVal>
    decreases list.len(),
{
    if list.len() == 0 {
        None
    } else if spec_is_bot_msg(list[0]) {
        Some(list[0])
    } else {
        spec_find_bot(list.drop_first())
    }
}

/// Pulls the string field `field` out of each entry, in order; the first
/// missing or mistyped entry decides the error.
pub open spec fn spec_texts_of(list: Seq<JVal>, object_name: Seq<char>, field: Seq<char>)
    -> Result<Seq<Seq<char>>, ChatErrorView>
    decreases list.len(),
{
    if list.len() == 0 {
        Ok(Seq::empty())
    } else {
        match spec_get_field(list[0], field) {
            None => Err(ChatErrorView::GetField { object_name, field_name: field }),
            Some(JVal::Str(s)) => match spec_texts_of(list.drop_first(), object_name, field) {
                Ok(rest) => Ok(seq![s] + rest),
                Err(e) => Err(e),
            },
            Some(_) => Err(ChatErrorView::FieldType {
                object_name,
                field_name: field,
                expected_type: "str"@,
            }),
        }
    }
}

/// The dotted path of the qualifying bot message inside an item frame.
pub open spec fn spec_msg_path() -> Seq<char> {
    "newbing_response.item.messages[{author == bot, messageType != null}]"@
}

/// Extracts the answer carried by an item frame: `Ok(None)` when no
/// qualifying bot message is present, an error when the message or its
/// surroundings miss a required field.
pub open spec fn spec_extract_answer(v: JVal) -> Result<Option<AnswerView>, ChatErrorView> {
    match spec_get_field(v, "item"@) {
        None => Err(ChatErrorView::GetField {
            object_name: "newbing_response"@,
            field_name: "item"@,
        }),
        Some(item) => match spec_get_field(item, "messages"@) {
            None => Err(ChatErrorView::GetField {
                object_name: "newbing_response.item"@,
                field_name: "messages"@,
            }),
            Some(JVal::Arr(list)) => match spec_find_bot(list) {
                None => Ok(None),
                Some(m) => spec_extract_from_msg(m),
            },
            Some(_) => Err(ChatErrorView::FieldType {
                object_name: "newbing_response.item"@,
                field_name: "messages"@,
                expected_type: "array"@,
            }),
        },
    }
}

/// Extracts text, suggested responses and source attributions from a
/// qualifying bot message.
pub open spec fn spec_extract_from_msg(m: JVal) -> Result<Option<AnswerView>, ChatErrorView> {
    match spec_get_field(m, "text"@) {
        None => Err(ChatErrorView::GetField {
            object_name: spec_msg_path(),
            field_name: "text"@,
        }),
        Some(JVal::Str(text)) => match spec_get_field(m, "suggestedResponses"@) {
            None => Err(ChatErrorView::GetField {
                object_name: spec_msg_path(),
                field_name: "suggestedResponses"@,
            }),
            Some(JVal::Arr(sr)) => match spec_texts_of(sr, spec_msg_path()
                + ".suggestedResponses"@, "text"@) {
                Err(e) => Err(e),
                Ok(suggested) => match spec_get_field(m, "sourceAttributions"@) {
                    None => Err(ChatErrorView::GetField {
                        object_name: spec_msg_path(),
                        field_name: "sourceAttributions"@,
                    }),
                    Some(JVal::Arr(sa)) => match spec_texts_of(sa, spec_msg_path()
                        + ".sourceAttributions"@, "seeMoreUrl"@) {
                        Err(e) => Err(e),
                        Ok(sources) => Ok(Some(AnswerView {
                            text,
                            suggested_responses: suggested,
                            source_attributions: sources,
                        })),
                    },
                    Some(_) => Err(ChatErrorView::FieldType {
                        object_name: spec_msg_path(),
                        field_name: "sourceAttributions"@,
                        expected_type: "array"@,
                    }),
                },
            },
            Some(_) => Err(ChatErrorView::FieldType {
                object_name: spec_msg_path(),
                field_name: "suggestedResponses"@,
                expected_type: "array"@,
            }),
        },
        Some(_) => Err(ChatErrorView::FieldType {
            object_name: spec_msg_path(),
            field_name: "text"@,
            expected_type: "str"@,
        }),
    }
}

/// Sorts a frame by its `type` field: 1 acknowledges, 2 carries an item,
/// 3 ends the stream, 6 asks for a liveness echo, anything else is safely
/// ignored. A frame without an integer `type` is an error naming `type`.
pub open spec fn spec_classify(v: JVal) -> Result<FrameView, ChatErrorView> {
    match spec_get_field(v, "type"@) {
        None => Err(ChatErrorView::GetField {
            object_name: "newbing_response"@,
            field_name: "type"@,
        }),
        Some(JVal::Int(n)) => if n == 1 {
            Ok(FrameView::Invocation)
        } else if n == 2 {
            match spec_extract_answer(v) {
                Ok(Some(a)) => Ok(FrameView::FullResponse(a)),
                Ok(None) => Ok(FrameView::StreamItem),
                Err(e) => Err(e),
            }
        } else if n == 3 {
            Ok(FrameView::EndOfResponse)
        } else if n == 6 {
            Ok(FrameView::KeepAlive)
        } else {
            Ok(FrameView::Unknown)
        },
        Some(_) => Err(ChatErrorView::FieldType {
            object_name: "newbing_response"@,
            field_name: "type"@,
            expected_type: "integer"@,
        }),
    }
}

fn is_bot_msg(m: &JsonValue) -> (r: bool)
    ensures
        r == spec_is_bot_msg(m@),
{
    if get_field(m, "messageType").is_some() {
        return false;
    }
    match get_field(m, "author") {
        Some(author) => match author {
            JsonValue::Str(a) => crate::text::str_eq(a.as_str(), "bot"),
            _ => false,
        },
        None => false,
    }
}

/// Pulls the string field `field` out of each entry of `list`, in order.
fn texts_of(list: &Vec<JsonValue>, object_name: &str, field: &str) -> (r: Result<Vec<String>,
    ChatError>)
    ensures
        r matches Ok(texts) ==> spec_texts_of(jvals_of(*list, 0), object_name@, field@)
            == Ok::<_, ChatErrorView>(texts.deep_view()),
        r matches Err(e) ==> spec_texts_of(jvals_of(*list, 0), object_name@, field@)
            == Err::<Seq<Seq<char>>, _>(e@),
{
    let ghost all = jvals_of(*list, 0);
    proof {
        lemma_jvals_of(*list, 0);
    }
    let mut out: Vec<String> = Vec::new();
    let mut i: usize = 0;
    proof {
        assert(all.skip(0) =~= all);
        assert(out.deep_view() =~= Seq::<Seq<char>>::empty());
        match spec_texts_of(all, object_name@, field@) {
            Ok(rest) => {
                assert(out.deep_view() + rest =~= rest);
            },
            Err(e) => {},
        }
    }
    while i < list.len()
        invariant
            i <= list.len(),
            all == jvals_of(*list, 0),
            all.len() == list.len(),
            forall|k: int| 0 <= k < list.len() ==> all[k] == jval_of(list[k]),
            spec_texts_of(all.skip(i as int), object_name@, field@) matches Ok(rest) ==>
                spec_texts_of(all, object_name@, field@)
                    == Ok::<_, ChatErrorView>(out.deep_view() + rest),
            spec_texts_of(all.skip(i as int), object_name@, field@) matches Err(e) ==>
                spec_texts_of(all, object_name@, field@) == Err::<Seq<Seq<char>>, _>(e),
        decreases list.len() - i,
    {
        proof {
            assert(all.skip(i as int)[0] == all[i as int]);
            assert(all.skip(i as int).drop_first() =~= all.skip(i + 1));
        }
        match get_field(&list[i], field) {
            None => {
                return Err(ChatError::GetFieldError {
                    object_name: object_name.to_owned(),
                    field_name: field.to_owned(),
                });
            },
            Some(f) => {
                match f {
                    JsonValue::Str(s) => {
                        let ghost out0 = out.deep_view();
                        out.push(s.clone());
                        proof {
                            assert(out.deep_view() =~= out0.push(s@));
                            match spec_texts_of(all.skip(i + 1), object_name@, field@) {
                                Ok(rest) => {
                                    assert(out0.push(s@) + rest =~= out0 + (seq![s@] + rest));
                                },
                                Err(e) => {},
                            }
                        }
                    },
                    _ => {
                        return Err(ChatError::FieldTypeError {
                            object_name: object_name.to_owned(),
                            field_name: field.to_owned(),
                            expected_type: "str".to_owned(),
                        });
                    },
                }
            },
        }
        i += 1;
    }
    proof {
        assert(all.skip(list.len() as int) =~= Seq::<JVal>::empty());
        match spec_texts_of(all, object_name@, field@) {
            Ok(total) => {
                assert(out.deep_view() + Seq::<Seq<char>>::empty() =~= out.deep_view());
            },
            Err(e) => {},
        }
    }
    Ok(out)
}

/// Classifies one inbound frame, extracting the full answer from a
/// qualifying item frame.
pub fn classify(v: &JsonValue) -> (r: Result<InboundFrame, ChatError>)
    ensures
        r matches Ok(f) ==> spec_classify(v@) == Ok::<_, ChatErrorView>(f@),
        r matches Err(e) ==> spec_classify(v@) == Err::<FrameView, _>(e@),
{
    let tyfield = get_field(v, "type");
    match tyfield {
        None => Err(ChatError::GetFieldError {
            object_name: "newbing_response".to_owned(),
            field_name: "type".to_owned(),
        }),
        Some(tv) => match tv {
            JsonValue::Int(n) => {
                let n = *n;
                if n == 1 {
                    Ok(InboundFrame::Invocation)
                } else if n == 2 {
                    match extract_answer(v) {
                        Ok(Some(m)) => Ok(InboundFrame::FullResponse(m)),
                        Ok(None) => Ok(InboundFrame::StreamItem),
                        Err(e) => Err(e),
                    }
                } else if n == 3 {
                    Ok(InboundFrame::EndOfResponse)
                } else if n == 6 {
                    Ok(InboundFrame::KeepAlive)
                } else {
                    Ok(InboundFrame::Unknown)
                }
            },
            _ => Err(ChatError::FieldTypeError {
                object_name: "newbing_response".to_owned(),
                field_name: "type".to_owned(),
                expected_type: "integer".to_owned(),
            }),
        },
    }
}

/// Extracts the answer carried by an item frame, `Ok(None)` when the item
/// holds no qualifying bot message.
pub fn extract_answer(v: &JsonValue) -> (r: Result<Option<NewBingResponseMessage>, ChatError>)
    ensures
        r matches Ok(Some(m)) ==> spec_extract_answer(v@)
            == Ok::<_, ChatErrorView>(Some(m@)),
        r matches Ok(None) ==> spec_extract_answer(v@)
            == Ok::<Option<AnswerView>, ChatErrorView>(None),
        r matches Err(e) ==> spec_extract_answer(v@) == Err::<Option<AnswerView>, _>(e@),
{
    let item = match get_field(v, "item") {
        None => {
            return Err(ChatError::GetFieldError {
                object_name: "newbing_response".to_owned(),
                field_name: "item".to_owned(),
            });
        },
        Some(item) => item,
    };
    let msgs = match get_field(item, "messages") {
        None => {
            return Err(ChatError::GetFieldError {
                object_name: "newbing_response.item".to_owned(),
                field_name: "messages".to_owned(),
            });
        },
        Some(msgs) => msgs,
    };
    match msgs {
        JsonValue::Array(list) => {
            let ghost lv = jvals_of(*list, 0);
            proof {
                lemma_jvals_of(*list, 0);
                assert(msgs@ == JVal::Arr(lv));
                assert(lv.skip(0) =~= lv);
            }
            let mut i: usize = 0;
            while i < list.len()
                invariant
                    i <= list.len(),
                    lv == jvals_of(*list, 0),
                    lv.len() == list.len(),
                    spec_get_field(v@, "item"@) == Some(item@),
                    spec_get_field(item@, "messages"@) == Some(msgs@),
                    msgs@ == JVal::Arr(lv),
                    forall|k: int| 0 <= k < list.len() ==> lv[k] == jval_of(list[k]),
                    spec_find_bot(lv) == spec_find_bot(lv.skip(i as int)),
                decreases list.len() - i,
            {
                proof {
                    assert(lv.skip(i as int)[0] == lv[i as int]);
                    assert(lv.skip(i as int).drop_first() =~= lv.skip(i + 1));
                }
                if is_bot_msg(&list[i]) {
                    proof {
                        assert(spec_is_bot_msg(lv[i as int]));
                        assert(spec_find_bot(lv.skip(i as int)) == Some(lv[i as int]));
                        assert(spec_find_bot(lv) == Some(lv[i as int]));
                        assert(spec_extract_answer(v@) == spec_extract_from_msg(lv[i as int]));
                    }
                    return extract_from_msg(&list[i]);
                }
                i += 1;
            }
            proof {
                assert(lv.skip(list.len() as int) =~= Seq::<JVal>::empty());
            }
            Ok(None)
        },
        _ => {
            Err(ChatError::FieldTypeError {
                object_name: "newbing_response.item".to_owned(),
                field_name: "messages".to_owned(),
                expected_type: "array".to_owned(),
            })
        },
    }
}

/// Extracts the three answer fields from a qualifying bot message.
fn extract_from_msg(m: &JsonValue) -> (r: Result<Option<NewBingResponseMessage>, ChatError>)
    ensures
        r matches Ok(Some(a)) ==> spec_extract_from_msg(m@)
            == Ok::<_, ChatErrorView>(Some(a@)),
        r matches Err(e) ==> spec_extract_from_msg(m@) == Err::<Option<AnswerView>, _>(e@),
        !(r matches Ok(None)),
{
    let msg_path = "newbing_response.item.messages[{author == bot, messageType != null}]";
    let text = match get_field(m, "text") {
        None => {
            return Err(ChatError::GetFieldError {
                object_name: msg_path.to_owned(),
                field_name: "text".to_owned(),
            });
        },
        Some(t) => match t {
            JsonValue::Str(s) => s.clone(),
            _ => {
                return Err(ChatError::FieldTypeError {
                    object_name: msg_path.to_owned(),
                    field_name: "text".to_owned(),
                    expected_type: "str".to_owned(),
                });
            },
        },
    };
    let suggested = match get_field(m, "suggestedResponses") {
        None => {
            return Err(ChatError::GetFieldError {
                object_name: msg_path.to_owned(),
                field_name: "suggestedResponses".to_owned(),
            });
        },
        Some(sr) => match sr {
            JsonValue::Array(list) => {
                let joined = crate::text::concat_str(msg_path, ".suggestedResponses");
                match texts_of(list, joined.as_str(), "text") {
                    Ok(texts) => texts,
                    Err(e) => {
                        return Err(e);
                    },
                }
            },
            _ => {
                return Err(ChatError::FieldTypeError {
                    object_name: msg_path.to_owned(),
                    field_name: "suggestedResponses".to_owned(),
                    expected_type: "array".to_owned(),
                });
            },
        },
    };
    let sources = match get_field(m, "sourceAttributions") {
        None => {
            return Err(ChatError::GetFieldError {
                object_name: msg_path.to_owned(),
                field_name: "sourceAttributions".to_owned(),
            });
        },
        Some(sa) => match sa {
            JsonValue::Array(list) => {
                let joined = crate::text::concat_str(msg_path, ".sourceAttributions");
                match texts_of(list, joined.as_str(), "seeMoreUrl") {
                    Ok(texts) => texts,
                    Err(e) => {
                        return Err(e);
                    },
                }
            },
            _ => {
                return Err(ChatError::FieldTypeError {
                    object_name: msg_path.to_owned(),
                    field_name: "sourceAttributions".to_owned(),
                    expected_type: "array".to_owned(),
                });
            },
        },
    };
    Ok(Some(NewBingResponseMessage {
        text,
        suggested_responses: suggested,
        source_attributions: sources,
    }))
}

} // verus!
