//! The request builder: assembles the outgoing chat-turn envelope from the
//! conversation credentials, the style, the turn index and the user's text,
//! and renders it as the wire document the protocol expects.

use vstd::prelude::*;
use crate::json::{JVal, JsonValue, jval_of, jvals_of, jkvs_of,
    lemma_jvals_push, lemma_jkvs_push};
use crate::meta::ConversationMeta;
use crate::style::{ConversationStyle, spec_style_token};
use crate::identity::is_lower_hex;
use crate::text::spec_dec_digits;

verus! {

/// The message sub-object of a chat turn.
#[derive(Debug, Clone)]
pub struct NewBingRequestMessage {
    pub author: &'static str,
    pub input_method: &'static str,
    pub text: String,
    pub message_type: &'static str,
}

impl NewBingRequestMessage {
    /// A user chat message typed on a keyboard, as every turn sends it.
    pub fn new(text: String) -> (r: Self)
        ensures
            r.author@ == "user"@,
            r.input_method@ == "Keyboard"@,
            r.text == text,
            r.message_type@ == "Chat"@,
    {
        NewBingRequestMessage {
            author: "user",
            input_method: "Keyboard",
            text,
            message_type: "Chat",
        }
    }
}

/// The participant reference inside the argument object.
#[derive(Debug, Clone)]
pub struct Participant {
    pub id: String,
}

/// The single argument object of a chat-turn envelope.
#[derive(Debug, Clone)]
pub struct Argument {
    pub source: &'static str,
    pub options_sets: [&'static str; 10],
    pub slice_ids: [&'static str; 3],
    pub trace_id: String,
    pub is_start_of_session: bool,
    pub message: NewBingRequestMessage,
    pub conversation_signature: String,
    pub participant: Participant,
    pub conversation_id: String,
}

/// What a freshly built argument object holds: the fixed source tag, the
/// ten feature flags — nine constants with the style token sixth — the
/// three fixed slice ids, a 32-digit trace id, the start-of-session flag,
/// the user message, and the conversation credentials.
pub open spec fn arg_matches(a: Argument, meta: crate::meta::MetaView,
    style: ConversationStyle, is_start_of_session: bool, text: Seq<char>) -> bool {
    &&& a.source@ == "cib"@
    &&& a.options_sets@.len() == 10
    &&& a.options_sets@[0]@ == "nlu_direct_response_filter"@
    &&& a.options_sets@[1]@ == "deepleo"@
    &&& a.options_sets@[2]@ == "disable_emoji_spoken_text"@
    &&& a.options_sets@[3]@ == "responsible_ai_policy_235"@
    &&& a.options_sets@[4]@ == "enablemm"@
    &&& a.options_sets@[5]@ == spec_style_token(style)
    &&& a.options_sets@[6]@ == "dtappid"@
    &&& a.options_sets@[7]@ == "cricinfo"@
    &&& a.options_sets@[8]@ == "cricinfov2"@
    &&& a.options_sets@[9]@ == "dv3sugg"@
    &&& a.slice_ids@.len() == 3
    &&& a.slice_ids@[0]@ == "222dtappid"@
    &&& a.slice_ids@[1]@ == "225cricinfo"@
    &&& a.slice_ids@[2]@ == "224locals0"@
    &&& a.trace_id@.len() == 32
    &&& forall|k: int| 0 <= k < 32 ==> is_lower_hex(#[trigger] a.trace_id@[k])
    &&& a.is_start_of_session == is_start_of_session
    &&& a.message.author@ == "user"@
    &&& a.message.input_method@ == "Keyboard"@
    &&& a.message.text@ == text
    &&& a.message.message_type@ == "Chat"@
    &&& a.conversation_signature@ == meta.conversation_signature
    &&& a.participant.id@ == meta.client_id
    &&& a.conversation_id@ == meta.conversation_id
}

impl Argument {
    /// Builds the argument object for one turn; the trace id is drawn
    /// fresh for every request.
    pub fn new(
        conversation_meta: ConversationMeta,
        style: ConversationStyle,
        is_start_of_session: bool,
        text: &str,
    ) -> (r: Self)
        ensures
            arg_matches(r, conversation_meta@, style, is_start_of_session, text@),
    {
        Argument {
            source: "cib",
            options_sets: [
                "nlu_direct_response_filter",
                "deepleo",
                "disable_emoji_spoken_text",
                "responsible_ai_policy_235",
                "enablemm",
                style.wire_token(),
                "dtappid",
                "cricinfo",
                "cricinfov2",
                "dv3sugg",
            ],
            slice_ids: ["222dtappid", "225cricinfo", "224locals0"],
            trace_id: crate::identity::random_hex_string(32),
            is_start_of_session,
            message: NewBingRequestMessage::new(text.to_owned()),
            conversation_signature: conversation_meta.conversation_signature,
            participant: Participant { id: conversation_meta.client_id },
            conversation_id: conversation_meta.conversation_id,
        }
    }
}

/// The outgoing chat-turn envelope.
#[derive(Debug, Clone)]
pub struct NewBingRequest {
    pub arguments: [Argument; 1],
    pub invocation_id: String,
    pub target: &'static str,
    pub message_type: u8,
}

impl NewBingRequest {
    /// Builds the envelope for one turn. The start-of-session flag is set
    /// exactly when the turn index is zero.
    pub fn new(
        conversation_meta: ConversationMeta,
        style: ConversationStyle,
        invocation_id: usize,
        text: &str,
    ) -> (r: Self)
        ensures
            arg_matches(r.arguments@[0], conversation_meta@, style, invocation_id == 0, text@),
            r.invocation_id@ == spec_dec_digits(invocation_id as nat),
            r.target@ == "chat"@,
            r.message_type == 4,
    {
        let arg = Argument::new(conversation_meta, style, invocation_id == 0, text);
        let mut digits: Vec<char> = Vec::new();
        crate::text::push_dec_digits(&mut digits, invocation_id as u64);
        NewBingRequest {
            arguments: [arg],
            invocation_id: crate::text::string_of_chars(&digits),
            target: "chat",
            message_type: 4,
        }
    }
}

// ------------------------------------------------------------------
// The wire document of an envelope.
// ------------------------------------------------------------------

/// The wire form of the message sub-object.
pub open spec fn spec_message_json(m: NewBingRequestMessage) -> JVal {
    JVal::Obj(seq![
        ("author"@, JVal::Str(m.author@)),
        ("inputMethod"@, JVal::Str(m.input_method@)),
        ("text"@, JVal::Str(m.text@)),
        ("messageType"@, JVal::Str(m.message_type@)),
    ])
}

/// The wire form of the argument object.
pub open spec fn spec_argument_json(a: Argument) -> JVal {
    JVal::Obj(seq![
        ("source"@, JVal::Str(a.source@)),
        ("optionsSets"@, JVal::Arr(Seq::new(a.options_sets@.len(),
            |i: int| JVal::Str(a.options_sets@[i]@)))),
        ("sliceIds"@, JVal::Arr(Seq::new(a.slice_ids@.len(),
            |i: int| JVal::Str(a.slice_ids@[i]@)))),
        ("traceId"@, JVal::Str(a.trace_id@)),
        ("isStartOfSession"@, JVal::Bool(a.is_start_of_session)),
        ("message"@, spec_message_json(a.message)),
        ("conversationSignature"@, JVal::Str(a.conversation_signature@)),
        ("participant"@, JVal::Obj(seq![("id"@, JVal::Str(a.participant.id@))])),
        ("conversationId"@, JVal::Str(a.conversation_id@)),
    ])
}

/// The wire form of a whole envelope: the single argument, the turn index
/// as decimal text, the fixed target, and message type 4.
pub open spec fn spec_request_json(r: NewBingRequest) -> JVal {
    JVal::Obj(seq![
        ("arguments"@, JVal::Arr(seq![spec_argument_json(r.arguments@[0])])),
        ("invocationId"@, JVal::Str(r.invocation_id@)),
        ("target"@, JVal::Str(r.target@)),
        ("type"@, JVal::Int(r.message_type as int)),
    ])
}

fn push_member(m: &mut Vec<(String, JsonValue)>, key: &str, v: JsonValue)
    ensures
        jkvs_of(*final(m), 0) == jkvs_of(*old(m), 0).push((key@, jval_of(v))),
{
    let ghost before = *m;
    let owned_key = key.to_owned();
    let ghost entry = (owned_key, v);
    m.push((owned_key, v));
    proof {
        lemma_jkvs_push(before, *m, entry);
    }
}

/// Renders a list of fixed tokens as a JSON array of strings.
fn texts_json(xs: &[&'static str]) -> (r: JsonValue)
    ensures
        r@ == JVal::Arr(Seq::new(xs@.len(), |i: int| JVal::Str(xs@[i]@))),
{
    let mut out: Vec<JsonValue> = Vec::new();
    let mut i: usize = 0;
    while i < xs.len()
        invariant
            i <= xs@.len(),
            jvals_of(out, 0) =~= Seq::new(i as nat, |k: int| JVal::Str(xs@[k]@)),
        decreases xs@.len() - i,
    {
        let ghost before = out;
        let pushed = JsonValue::Str(xs[i].to_owned());
        let ghost pv = pushed;
        out.push(pushed);
        proof {
            lemma_jvals_push(before, out, pv);
            assert(jvals_of(out, 0) =~= Seq::new((i + 1) as nat, |k: int| JVal::Str(xs@[k]@)));
        }
        i += 1;
    }
    JsonValue::Array(out)
}

fn message_json(m: &NewBingRequestMessage) -> (r: JsonValue)
    ensures
        r@ == spec_message_json(*m),
{
    let mut mm: Vec<(String, JsonValue)> = Vec::new();
    push_member(&mut mm, "author", JsonValue::Str(m.author.to_owned()));
    push_member(&mut mm, "inputMethod", JsonValue::Str(m.input_method.to_owned()));
    push_member(&mut mm, "text", JsonValue::Str(m.text.clone()));
    push_member(&mut mm, "messageType", JsonValue::Str(m.message_type.to_owned()));
    proof {
        assert(jkvs_of(mm, 0) =~~= spec_message_json(*m)->Obj_0);
    }
    JsonValue::Object(mm)
}

fn argument_json(a: &Argument) -> (r: JsonValue)
    ensures
        r@ == spec_argument_json(*a),
{
    let mut pm: Vec<(String, JsonValue)> = Vec::new();
    push_member(&mut pm, "id", JsonValue::Str(a.participant.id.clone()));
    let participant = JsonValue::Object(pm);
    proof {
        assert(jkvs_of(pm, 0) =~~= seq![("id"@, JVal::Str(a.participant.id@))]);
    }
    let mut mm: Vec<(String, JsonValue)> = Vec::new();
    push_member(&mut mm, "source", JsonValue::Str(a.source.to_owned()));
    push_member(&mut mm, "optionsSets", texts_json(a.options_sets.as_slice()));
    push_member(&mut mm, "sliceIds", texts_json(a.slice_ids.as_slice()));
    push_member(&mut mm, "traceId", JsonValue::Str(a.trace_id.clone()));
    push_member(&mut mm, "isStartOfSession", JsonValue::Bool(a.is_start_of_session));
    push_member(&mut mm, "message", message_json(&a.message));
    push_member(&mut mm, "conversationSignature",
        JsonValue::Str(a.conversation_signature.clone()));
    push_member(&mut mm, "participant", participant);
    push_member(&mut mm, "conversationId", JsonValue::Str(a.conversation_id.clone()));
    proof {
        assert(jkvs_of(mm, 0) =~~= spec_argument_json(*a)->Obj_0);
    }
    JsonValue::Object(mm)
}

/// Renders a whole envelope as its wire document.
pub fn request_json(r: &NewBingRequest) -> (out: JsonValue)
    ensures
        out@ == spec_request_json(*r),
{
    let mut args: Vec<JsonValue> = Vec::new();
    let ghost empty_args = args;
    let aj = argument_json(&r.arguments[0]);
    let ghost ajv = aj;
    args.push(aj);
    proof {
        lemma_jvals_push(empty_args, args, ajv);
        assert(jvals_of(empty_args, 0) =~= Seq::<JVal>::empty());
        assert(jvals_of(args, 0) =~~= seq![spec_argument_json(r.arguments@[0])]);
    }
    let mut mm: Vec<(String, JsonValue)> = Vec::new();
    push_member(&mut mm, "arguments", JsonValue::Array(args));
    push_member(&mut mm, "invocationId", JsonValue::Str(r.invocation_id.clone()));
    push_member(&mut mm, "target", JsonValue::Str(r.target.to_owned()));
    push_member(&mut mm, "type", JsonValue::Int(r.message_type as i64));
    proof {
        assert(jkvs_of(mm, 0) =~~= spec_request_json(*r)->Obj_0);
    }
    JsonValue::Object(mm)
}

/// The wire bytes of one envelope, framed and delimiter-terminated.
pub fn encode_request(r: &NewBingRequest) -> (out: String)
    ensures
        out@ == crate::codec::spec_encode_frame(spec_request_json(*r)),
{
    let doc = request_json(r);
    crate::codec::encode_frame(&doc)
}

} // verus!
