//! The chat session and its protocol engine: the mutable turn counter, the
//! per-turn envelope, the handshake and keep-alive frames, the decision
//! rules of the exchange read loop, and the serialized form that pauses
//! and resumes a conversation.
//!
//! The engine opens no sockets itself. A transport performs each exchange:
//! it sends the three frames this module builds, hands every inbound
//! socket message to the frame step, and performs the action the step
//! decides — echo a keep-alive, finish with the answer, or fail.

use vstd::prelude::*;
use crate::classify::{AnswerView, ChatError, ChatErrorView, FrameView, InboundFrame,
    NewBingResponseMessage, spec_classify, spec_get_field};
use crate::codec::{spec_decode, spec_encode_frame};
use crate::json::{JVal, JsonValue, jkvs_of, wf_jval, sp_parse_text, spec_ser};
use crate::meta::{ConversationMeta, MetaView};
use crate::request::{NewBingRequest, arg_matches};
use crate::style::{ConversationStyle, spec_style_token, spec_style_of_token};
use crate::text::spec_dec_digits;

verus! {

/// A session represents one conversation. Its full state can be written
/// out and read back to pause and resume the conversation over a fresh
/// socket.
#[derive(Debug)]
pub struct ChatSession {
    conversation_meta: ConversationMeta,
    invocation_id: usize,
    uuid: String,
    ip: String,
    style: ConversationStyle,
}

/// The mathematical form of a session.
#[verifier::ext_equal]
pub struct SessionView {
    pub conversation_meta: MetaView,
    pub invocation_id: int,
    pub uuid: Seq<char>,
    pub ip: Seq<char>,
    pub style: ConversationStyle,
}

impl View for ChatSession {
    type V = SessionView;

    closed spec fn view(&self) -> SessionView {
        SessionView {
            conversation_meta: self.conversation_meta@,
            invocation_id: self.invocation_id as int,
            uuid: self.uuid@,
            ip: self.ip@,
            style: self.style,
        }
    }
}

impl ChatSession {
    /// Rebuilds a session from its parts, exactly as given: a resumed
    /// session keeps its preserved turn index, request id and origin
    /// address rather than drawing fresh ones.
    pub fn new(
        conversation_meta: ConversationMeta,
        style: ConversationStyle,
        invocation_id: usize,
        uuid: String,
        ip: String,
    ) -> (r: Self)
        ensures
            r@.conversation_meta == conversation_meta@,
            r@.invocation_id == invocation_id as int,
            r@.uuid == uuid@,
            r@.ip == ip@,
            r@.style == style,
    {
        ChatSession { conversation_meta, invocation_id, uuid, ip, style }
    }

    /// Starts a fresh session on newly minted credentials: the turn index
    /// is zero, the request id is a fresh hyphenated identifier fixed for
    /// the session's lifetime, and the simulated origin address is drawn
    /// once from the fixed block.
    pub fn fresh(conversation_meta: ConversationMeta, style: ConversationStyle) -> (r: Self)
        ensures
            r@.conversation_meta == conversation_meta@,
            r@.invocation_id == 0,
            r@.uuid.len() == 36,
            crate::identity::valid_origin_ip(r@.ip),
            r@.style == style,
    {
        ChatSession {
            conversation_meta,
            invocation_id: 0,
            uuid: crate::identity::fresh_uuid_string(),
            ip: crate::identity::random_forwarded_ip(),
            style,
        }
    }

    /// The conversation credentials this session holds.
    pub fn conversation_meta(&self) -> (r: &ConversationMeta)
        ensures
            r@ == self@.conversation_meta,
    {
        &self.conversation_meta
    }

    /// The index of the next turn.
    pub fn invocation_id(&self) -> (r: usize)
        ensures
            r as int == self@.invocation_id,
    {
        self.invocation_id
    }

    /// The session's stable client request id.
    pub fn uuid(&self) -> (r: &String)
        ensures
            r@ == self@.uuid,
    {
        &self.uuid
    }

    /// The session's simulated origin address.
    pub fn ip(&self) -> (r: &String)
        ensures
            r@ == self@.ip,
    {
        &self.ip
    }

    /// The session's conversation style.
    pub fn style(&self) -> (r: ConversationStyle)
        ensures
            r == self@.style,
    {
        self.style
    }

    /// Builds the envelope for the next turn and advances the turn index
    /// by exactly one — also when the exchange later fails, so a failed
    /// exchange still consumes its turn slot.
    pub fn next_request(&mut self, text: &str) -> (r: NewBingRequest)
        requires
            old(self)@.invocation_id < usize::MAX,
        ensures
            final(self)@.invocation_id == old(self)@.invocation_id + 1,
            final(self)@.conversation_meta == old(self)@.conversation_meta,
            final(self)@.uuid == old(self)@.uuid,
            final(self)@.ip == old(self)@.ip,
            final(self)@.style == old(self)@.style,
            arg_matches(r.arguments@[0], old(self)@.conversation_meta, old(self)@.style,
                old(self)@.invocation_id == 0, text@),
            r.invocation_id@ == spec_dec_digits(old(self)@.invocation_id as nat),
            r.target@ == "chat"@,
            r.message_type == 4,
    {
        let request = NewBingRequest::new(
            self.conversation_meta.clone(),
            self.style,
            self.invocation_id,
            text,
        );
        self.invocation_id = self.invocation_id + 1;
        request
    }
}

// ------------------------------------------------------------------
// The fixed frames of an exchange.
// ------------------------------------------------------------------

/// The handshake document sent first on every fresh socket.
pub open spec fn spec_handshake_json() -> JVal {
    JVal::Obj(seq![("protocol"@, JVal::Str("json"@)), ("version"@, JVal::Int(1))])
}

/// The keep-alive document, sent once before the request and again for
/// every liveness ping received.
pub open spec fn spec_keep_alive_json() -> JVal {
    JVal::Obj(seq![("type"@, JVal::Int(6))])
}

/// The encoded handshake frame.
pub fn handshake_frame() -> (r: String)
    ensures
        r@ == spec_encode_frame(spec_handshake_json()),
{
    let mut members: Vec<(String, JsonValue)> = Vec::new();
    members.push(("protocol".to_owned(), JsonValue::Str("json".to_owned())));
    members.push(("version".to_owned(), JsonValue::Int(1)));
    proof {
        crate::json::lemma_jkvs_of(members, 0);
        assert(jkvs_of(members, 0) =~~= spec_handshake_json()->Obj_0);
    }
    let doc = JsonValue::Object(members);
    crate::codec::encode_frame(&doc)
}

/// The encoded keep-alive frame.
pub fn keep_alive_frame() -> (r: String)
    ensures
        r@ == spec_encode_frame(spec_keep_alive_json()),
{
    let mut members: Vec<(String, JsonValue)> = Vec::new();
    members.push(("type".to_owned(), JsonValue::Int(6)));
    proof {
        crate::json::lemma_jkvs_of(members, 0);
        assert(jkvs_of(members, 0) =~~= spec_keep_alive_json()->Obj_0);
    }
    let doc = JsonValue::Object(members);
    crate::codec::encode_frame(&doc)
}

// ------------------------------------------------------------------
// The exchange decision rules.
// ------------------------------------------------------------------

/// What the transport must do after one classified frame.
#[derive(Debug)]
pub enum FrameAction {
    /// Read on; the frame carries nothing the exchange needs.
    Ignore,
    /// Send one keep-alive frame, then read on.
    Echo,
    /// The exchange is over: hand this answer to the caller.
    Complete(NewBingResponseMessage),
    /// The stream ended with no answer: fail with `NoFullResponseFound`.
    EndOfStream,
}

/// The mathematical form of a frame action.
#[verifier::ext_equal]
pub enum ActionView {
    Ignore,
    Echo,
    Complete(AnswerView),
    EndOfStream,
}

impl View for FrameAction {
    type V = ActionView;

    open spec fn view(&self) -> ActionView {
        match self {
            FrameAction::Ignore => ActionView::Ignore,
            FrameAction::Echo => ActionView::Echo,
            FrameAction::Complete(m) => ActionView::Complete(m@),
            FrameAction::EndOfStream => ActionView::EndOfStream,
        }
    }
}

/// The action each frame kind demands: a full response completes the
/// exchange at once, the end of the stream fails it, a keep-alive is
/// echoed exactly once, and everything else is read past.
pub open spec fn spec_step(f: FrameView) -> ActionView {
    match f {
        FrameView::FullResponse(a) => ActionView::Complete(a),
        FrameView::EndOfResponse => ActionView::EndOfStream,
        FrameView::KeepAlive => ActionView::Echo,
        FrameView::Invocation => ActionView::Ignore,
        FrameView::StreamItem => ActionView::Ignore,
        FrameView::Unknown => ActionView::Ignore,
    }
}

/// Decides what the transport does with one classified frame.
pub fn step_exchange(frame: InboundFrame) -> (r: FrameAction)
    ensures
        r@ == spec_step(frame@),
{
    match frame {
        InboundFrame::FullResponse(m) => FrameAction::Complete(m),
        InboundFrame::EndOfResponse => FrameAction::EndOfStream,
        InboundFrame::KeepAlive => FrameAction::Echo,
        InboundFrame::Invocation => FrameAction::Ignore,
        InboundFrame::StreamItem => FrameAction::Ignore,
        InboundFrame::Unknown => FrameAction::Ignore,
    }
}

/// What the transport must do with one frame in streaming mode: every
/// item frame with an extractable answer is emitted as a cumulative delta,
/// the stream ends at the end-of-response marker, and liveness pings are
/// still echoed.
#[derive(Debug)]
pub enum StreamStep {
    /// Emit this cumulative answer to the consumer, then read on.
    Emit(NewBingResponseMessage),
    /// Nothing visible: read on.
    Skip,
    /// Send one keep-alive frame, then read on.
    EchoThenContinue,
    /// The stream is over; close the socket and end the sequence.
    End,
}

/// The mathematical form of a streaming step.
#[verifier::ext_equal]
pub enum StreamStepView {
    Emit(AnswerView),
    Skip,
    EchoThenContinue,
    End,
}

impl View for StreamStep {
    type V = StreamStepView;

    open spec fn view(&self) -> StreamStepView {
        match self {
            StreamStep::Emit(m) => StreamStepView::Emit(m@),
            StreamStep::Skip => StreamStepView::Skip,
            StreamStep::EchoThenContinue => StreamStepView::EchoThenContinue,
            StreamStep::End => StreamStepView::End,
        }
    }
}

/// The streaming action each frame kind demands: emitted deltas are the
/// item frames whose answer extraction succeeds; an item frame without a
/// qualifying message is no visible delta.
pub open spec fn spec_step_stream(f: FrameView) -> StreamStepView {
    match f {
        FrameView::FullResponse(a) => StreamStepView::Emit(a),
        FrameView::EndOfResponse => StreamStepView::End,
        FrameView::KeepAlive => StreamStepView::EchoThenContinue,
        FrameView::Invocation => StreamStepView::Skip,
        FrameView::StreamItem => StreamStepView::Skip,
        FrameView::Unknown => StreamStepView::Skip,
    }
}

/// Decides what the transport does with one classified frame in streaming
/// mode.
pub fn step_stream(frame: InboundFrame) -> (r: StreamStep)
    ensures
        r@ == spec_step_stream(frame@),
{
    match frame {
        InboundFrame::FullResponse(m) => StreamStep::Emit(m),
        InboundFrame::EndOfResponse => StreamStep::End,
        InboundFrame::KeepAlive => StreamStep::EchoThenContinue,
        InboundFrame::Invocation => StreamStep::Skip,
        InboundFrame::StreamItem => StreamStep::Skip,
        InboundFrame::Unknown => StreamStep::Skip,
    }
}

/// The outcome of scanning the frames of one socket message, in order.
#[verifier::ext_equal]
pub enum ScanView {
    /// A terminal frame was hit: the exchange ends with this result.
    Terminal(Result<AnswerView, ChatErrorView>),
    /// No terminal frame: keep reading socket messages.
    More,
}

/// Scans one message's frames in order: a classification error, a full
/// response, or an end-of-stream marker ends the exchange; every other
/// frame is read past.
pub open spec fn spec_scan_frames(fs: Seq<JVal>) -> ScanView
    decreases fs.len(),
{
    if fs.len() == 0 {
        ScanView::More
    } else {
        match spec_classify(fs[0]) {
            Err(e) => ScanView::Terminal(Err(e)),
            Ok(FrameView::FullResponse(a)) => ScanView::Terminal(Ok(a)),
            Ok(FrameView::EndOfResponse) => ScanView::Terminal(Err(
                ChatErrorView::NoFullResponseFound)),
            Ok(_) => spec_scan_frames(fs.drop_first()),
        }
    }
}

/// Replays a whole exchange over the socket messages received, in order:
/// the first terminal frame decides; a message that does not decode fails
/// with a parse error; a socket that closes with no terminal frame fails
/// as a network error.
pub open spec fn spec_resolve(texts: Seq<Seq<char>>) -> Result<AnswerView, ChatErrorView>
    decreases texts.len(),
{
    if texts.len() == 0 {
        Err(ChatErrorView::Network)
    } else {
        match spec_decode(texts[0]) {
            None => Err(ChatErrorView::ParseRespond),
            Some(fs) => match spec_scan_frames(fs) {
                ScanView::Terminal(r) => r,
                ScanView::More => spec_resolve(texts.drop_first()),
            },
        }
    }
}

/// Replays an exchange over already-received socket messages: decodes
/// each, classifies each frame in order, and returns what the exchange
/// returns. Pure: the keep-alive echoes a live transport would send are
/// the `Echo` steps of the same frames.
pub fn resolve_messages(messages: &Vec<String>) -> (r: Result<NewBingResponseMessage, ChatError>)
    ensures
        r matches Ok(m) ==> spec_resolve(messages.deep_view()) == Ok::<_, ChatErrorView>(m@),
        r matches Err(e) ==> spec_resolve(messages.deep_view()) == Err::<AnswerView, _>(e@),
{
    let ghost all = messages.deep_view();
    let mut idx: usize = 0;
    proof {
        assert(all.skip(0) =~= all);
    }
    while idx < messages.len()
        invariant
            idx <= messages.len(),
            all == messages.deep_view(),
            all.len() == messages.len(),
            forall|k: int| 0 <= k < messages.len() ==> all[k] == messages[k]@,
            spec_resolve(all) == spec_resolve(all.skip(idx as int)),
        decreases messages.len() - idx,
    {
        proof {
            assert(all.skip(idx as int)[0] == all[idx as int]);
            assert(all.skip(idx as int).drop_first() =~= all.skip(idx + 1));
        }
        let frames = match crate::codec::decode_frames(messages[idx].as_str()) {
            Some(frames) => frames,
            None => {
                return Err(ChatError::ParseRespond);
            },
        };
        let ghost fvs = frames.deep_view();
        let mut k: usize = 0;
        proof {
            assert(fvs.skip(0) =~= fvs);
        }
        while k < frames.len()
            invariant
                k <= frames.len(),
                fvs == frames.deep_view(),
                fvs.len() == frames.len(),
                forall|q: int| 0 <= q < frames.len() ==> fvs[q] == frames[q]@,
                spec_scan_frames(fvs) == spec_scan_frames(fvs.skip(k as int)),
                spec_decode(all[idx as int]) == Some(fvs),
                idx < messages.len(),
                all == messages.deep_view(),
                all.len() == messages.len(),
                spec_resolve(all) == spec_resolve(all.skip(idx as int)),
            decreases frames.len() - k,
        {
            proof {
                assert(fvs.skip(k as int)[0] == fvs[k as int]);
                assert(fvs.skip(k as int).drop_first() =~= fvs.skip(k + 1));
            }
            match crate::classify::classify(&frames[k]) {
                Err(e) => {
                    return Err(e);
                },
                Ok(frame) => {
                    match step_exchange(frame) {
                        FrameAction::Complete(m) => {
                            return Ok(m);
                        },
                        FrameAction::EndOfStream => {
                            return Err(ChatError::NoFullResponseFound);
                        },
                        _ => {},
                    }
                },
            }
            k += 1;
        }
        proof {
            assert(fvs.skip(frames.len() as int) =~= Seq::<JVal>::empty());
        }
        idx += 1;
    }
    proof {
        assert(all.skip(messages.len() as int) =~= Seq::<Seq<char>>::empty());
    }
    Err(ChatError::Network)
}

// ------------------------------------------------------------------
// The serialized form of a session.
// ------------------------------------------------------------------

/// The serialized document of a session: its credentials, turn index,
/// stable identifiers and style token.
pub open spec fn spec_session_json(s: SessionView) -> JVal {
    JVal::Obj(seq![
        ("conversationSignature"@, JVal::Str(s.conversation_meta.conversation_signature)),
        ("clientId"@, JVal::Str(s.conversation_meta.client_id)),
        ("conversationId"@, JVal::Str(s.conversation_meta.conversation_id)),
        ("invocationId"@, JVal::Int(s.invocation_id)),
        ("uuid"@, JVal::Str(s.uuid)),
        ("ip"@, JVal::Str(s.ip)),
        ("style"@, JVal::Str(spec_style_token(s.style))),
    ])
}

/// The session a serialized document stands for, if it has every field.
pub open spec fn spec_session_of_json(j: JVal) -> Option<SessionView> {
    match (spec_get_field(j, "conversationSignature"@), spec_get_field(j, "clientId"@),
        spec_get_field(j, "conversationId"@), spec_get_field(j, "invocationId"@),
        spec_get_field(j, "uuid"@), spec_get_field(j, "ip"@), spec_get_field(j, "style"@)) {
        (Some(JVal::Str(sig)), Some(JVal::Str(cid)), Some(JVal::Str(conv)),
            Some(JVal::Int(inv)), Some(JVal::Str(uuid)), Some(JVal::Str(ip)),
            Some(JVal::Str(tok))) => {
            if 0 <= inv <= usize::MAX && spec_style_of_token(tok) is Some {
                Some(SessionView {
                    conversation_meta: MetaView {
                        conversation_signature: sig,
                        client_id: cid,
                        conversation_id: conv,
                    },
                    invocation_id: inv,
                    uuid,
                    ip,
                    style: spec_style_of_token(tok)->0,
                })
            } else {
                None
            }
        },
        _ => None,
    }
}

impl ChatSession {
    /// The serialized document of this session.
    pub fn to_json(&self) -> (r: JsonValue)
        requires
            self@.invocation_id <= i64::MAX,
        ensures
            r@ == spec_session_json(self@),
    {
        let mut members: Vec<(String, JsonValue)> = Vec::new();
        members.push(("conversationSignature".to_owned(),
            JsonValue::Str(self.conversation_meta.conversation_signature.clone())));
        members.push(("clientId".to_owned(),
            JsonValue::Str(self.conversation_meta.client_id.clone())));
        members.push(("conversationId".to_owned(),
            JsonValue::Str(self.conversation_meta.conversation_id.clone())));
        members.push(("invocationId".to_owned(), JsonValue::Int(self.invocation_id as i64)));
        members.push(("uuid".to_owned(), JsonValue::Str(self.uuid.clone())));
        members.push(("ip".to_owned(), JsonValue::Str(self.ip.clone())));
        members.push(("style".to_owned(),
            JsonValue::Str(self.style.wire_token().to_owned())));
        proof {
            crate::json::lemma_jkvs_of(members, 0);
            assert(jkvs_of(members, 0) =~~= spec_session_json(self@)->Obj_0);
        }
        JsonValue::Object(members)
    }

    /// Rebuilds a session from its serialized document; `None` when a
    /// field is missing, mistyped, or out of range.
    pub fn from_json(v: &JsonValue) -> (r: Option<ChatSession>)
        ensures
            (r is Some) == (spec_session_of_json(v@) is Some),
            r matches Some(s) ==> spec_session_of_json(v@) == Some(s@),
    {
        let sig = match crate::classify::get_field(v, "conversationSignature") {
            Some(f) => match f {
                JsonValue::Str(s) => s.clone(),
                _ => { return None; },
            },
            None => { return None; },
        };
        let cid = match crate::classify::get_field(v, "clientId") {
            Some(f) => match f {
                JsonValue::Str(s) => s.clone(),
                _ => { return None; },
            },
            None => { return None; },
        };
        let conv = match crate::classify::get_field(v, "conversationId") {
            Some(f) => match f {
                JsonValue::Str(s) => s.clone(),
                _ => { return None; },
            },
            None => { return None; },
        };
        let inv = match crate::classify::get_field(v, "invocationId") {
            Some(f) => match f {
                JsonValue::Int(n) => *n,
                _ => { return None; },
            },
            None => { return None; },
        };
        let uuid = match crate::classify::get_field(v, "uuid") {
            Some(f) => match f {
                JsonValue::Str(s) => s.clone(),
                _ => { return None; },
            },
            None => { return None; },
        };
        let ip = match crate::classify::get_field(v, "ip") {
            Some(f) => match f {
                JsonValue::Str(s) => s.clone(),
                _ => { return None; },
            },
            None => { return None; },
        };
        let style = match crate::classify::get_field(v, "style") {
            Some(f) => match f {
                JsonValue::Str(s) => match crate::style::style_of_token(s.as_str()) {
                    Some(style) => style,
                    None => { return None; },
                },
                _ => { return None; },
            },
            None => { return None; },
        };
        if inv < 0 {
            return None;
        }
        if !i64_fits_usize(inv) {
            return None;
        }
        Some(ChatSession {
            conversation_meta: ConversationMeta {
                conversation_signature: sig,
                client_id: cid,
                conversation_id: conv,
            },
            invocation_id: inv as usize,
            uuid,
            ip,
            style,
        })
    }

    /// The session's serialized text.
    pub fn serialize(&self) -> (r: String)
        requires
            self@.invocation_id <= i64::MAX,
        ensures
            r@ == spec_ser(spec_session_json(self@)),
    {
        let doc = self.to_json();
        crate::json::json_text(&doc)
    }

    /// Rebuilds a session from its serialized text.
    pub fn deserialize(text: &str) -> (r: Option<ChatSession>)
        ensures
            r matches Some(s) ==> sp_parse_text(text@) matches Some(j)
                && spec_session_of_json(j) == Some(s@),
            r is None ==> (sp_parse_text(text@) matches Some(j)
                ==> spec_session_of_json(j) is None),
    {
        match crate::json::parse_json_text(text) {
            Some(v) => ChatSession::from_json(&v),
            None => None,
        }
    }
}

fn i64_fits_usize(n: i64) -> (r: bool)
    requires
        n >= 0,
    ensures
        r == (n as int <= usize::MAX),
{
    n as u64 <= usize::MAX as u64
}

/// Law: a session's serialized document reconstructs the session exactly —
/// the preserved turn index, identifiers, credentials and style — and the
/// document's text parses back to the document, so the text form
/// round-trips too.
pub proof fn lemma_session_round_trip(s: SessionView)
    requires
        0 <= s.invocation_id <= i64::MAX,
        s.invocation_id <= usize::MAX,
    ensures
        spec_session_of_json(spec_session_json(s)) == Some(s),
        sp_parse_text(spec_ser(spec_session_json(s))) == Some(spec_session_json(s)),
{
    let j = spec_session_json(s);
    let mems = j->Obj_0;
    reveal_strlit("conversationSignature");
    reveal_strlit("clientId");
    reveal_strlit("conversationId");
    reveal_strlit("invocationId");
    reveal_strlit("uuid");
    reveal_strlit("ip");
    reveal_strlit("style");
    assert("conversationSignature"@.len() == 21);
    assert("clientId"@.len() == 8);
    assert("conversationId"@.len() == 14);
    assert("invocationId"@.len() == 12);
    assert("uuid"@.len() == 4);
    assert("ip"@.len() == 2);
    assert("style"@.len() == 5);
    lemma_obj_get_literal(mems);
    crate::style::lemma_style_token_bijection();
    assert(spec_session_of_json(j) == Some(s));
    assert(wf_jval(j)) by {
        assert(crate::json::wf_jkv(mems[0]));
        assert(crate::json::wf_jkv(mems[1]));
        assert(crate::json::wf_jkv(mems[2]));
        assert(crate::json::wf_jkv(mems[3]));
        assert(crate::json::wf_jkv(mems[4]));
        assert(crate::json::wf_jkv(mems[5]));
        assert(crate::json::wf_jkv(mems[6]));
        assert(crate::json::wf_jkvs(mems, 7));
        assert(crate::json::wf_jkvs(mems, 6));
        assert(crate::json::wf_jkvs(mems, 5));
        assert(crate::json::wf_jkvs(mems, 4));
        assert(crate::json::wf_jkvs(mems, 3));
        assert(crate::json::wf_jkvs(mems, 2));
        assert(crate::json::wf_jkvs(mems, 1));
        assert(crate::json::wf_jkvs(mems, 0));
    }
    crate::roundtrip::lemma_parse_text_ser(j);
}

/// Field lookup over the seven serialized session members.
proof fn lemma_obj_get_literal(mems: Seq<(Seq<char>, JVal)>)
    requires
        mems.len() == 7,
        mems[0].0 == "conversationSignature"@,
        mems[1].0 == "clientId"@,
        mems[2].0 == "conversationId"@,
        mems[3].0 == "invocationId"@,
        mems[4].0 == "uuid"@,
        mems[5].0 == "ip"@,
        mems[6].0 == "style"@,
        "conversationSignature"@.len() == 21,
        "clientId"@.len() == 8,
        "conversationId"@.len() == 14,
        "invocationId"@.len() == 12,
        "uuid"@.len() == 4,
        "ip"@.len() == 2,
        "style"@.len() == 5,
    ensures
        crate::classify::spec_obj_get(mems, "conversationSignature"@) == Some(mems[0].1),
        crate::classify::spec_obj_get(mems, "clientId"@) == Some(mems[1].1),
        crate::classify::spec_obj_get(mems, "conversationId"@) == Some(mems[2].1),
        crate::classify::spec_obj_get(mems, "invocationId"@) == Some(mems[3].1),
        crate::classify::spec_obj_get(mems, "uuid"@) == Some(mems[4].1),
        crate::classify::spec_obj_get(mems, "ip"@) == Some(mems[5].1),
        crate::classify::spec_obj_get(mems, "style"@) == Some(mems[6].1),
{
    assert forall|q: int| 0 <= q < 7 && q != 1 implies mems[q].0 != "clientId"@ by {
        assert(mems[q].0.len() != 8);
    }
    assert forall|q: int| 0 <= q < 7 && q != 2 implies mems[q].0 != "conversationId"@ by {
        assert(mems[q].0.len() != 14);
    }
    assert forall|q: int| 0 <= q < 7 && q != 3 implies mems[q].0 != "invocationId"@ by {
        assert(mems[q].0.len() != 12);
    }
    assert forall|q: int| 0 <= q < 7 && q != 4 implies mems[q].0 != "uuid"@ by {
        assert(mems[q].0.len() != 4);
    }
    assert forall|q: int| 0 <= q < 7 && q != 5 implies mems[q].0 != "ip"@ by {
        assert(mems[q].0.len() != 2);
    }
    assert forall|q: int| 0 <= q < 7 && q != 6 implies mems[q].0 != "style"@ by {
        assert(mems[q].0.len() != 5);
    }
    crate::classify::lemma_obj_get_at(mems, "conversationSignature"@, 0);
    crate::classify::lemma_obj_get_at(mems, "clientId"@, 1);
    crate::classify::lemma_obj_get_at(mems, "conversationId"@, 2);
    crate::classify::lemma_obj_get_at(mems, "invocationId"@, 3);
    crate::classify::lemma_obj_get_at(mems, "uuid"@, 4);
    crate::classify::lemma_obj_get_at(mems, "ip"@, 5);
    crate::classify::lemma_obj_get_at(mems, "style"@, 6);
}

} // verus!
