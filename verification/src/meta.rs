//! Conversation credentials: the triple minted by the authenticated lookup,
//! the cookie pairs it is minted from, and the pure parts of that exchange —
//! the fixed header set, the cookie line, and the response-body parser.
//!
//! The HTTP transport itself lives outside the library; it hands the
//! response body in as text and takes these values back.

use vstd::prelude::*;
use crate::json::{JVal, JsonValue, sp_parse_text};
use crate::classify::spec_get_field;
use crate::identity::Header;

verus! {

/// Fields we care about in a cookie file: an opaque name and value pair.
#[derive(Debug, Clone, PartialEq, Eq)]
pub struct CookieInFile {
    /// Name of the cookie.
    pub name: String,
    /// Value of the cookie.
    pub value: String,
}

/// Information of a created conversation.
#[derive(Debug, PartialEq, Eq)]
pub struct ConversationMeta {
    /// Identifies the conversation to the upstream service.
    pub conversation_signature: String,
    /// Identifies the client within the conversation.
    pub client_id: String,
    /// Identifies the conversation record itself.
    pub conversation_id: String,
}

/// The mathematical form of conversation credentials.
#[verifier::ext_equal]
pub struct MetaView {
    pub conversation_signature: Seq<char>,
    pub client_id: Seq<char>,
    pub conversation_id: Seq<char>,
}

impl View for ConversationMeta {
    type V = MetaView;

    open spec fn view(&self) -> MetaView {
        MetaView {
            conversation_signature: self.conversation_signature@,
            client_id: self.client_id@,
            conversation_id: self.conversation_id@,
        }
    }
}

impl Clone for ConversationMeta {
    fn clone(&self) -> (r: Self)
        ensures
            r@ == self@,
    {
        ConversationMeta {
            conversation_signature: self.conversation_signature.clone(),
            client_id: self.client_id.clone(),
            conversation_id: self.conversation_id.clone(),
        }
    }
}

/// An error of the conversation-creation phase.
#[derive(Debug, Clone, Copy, PartialEq, Eq, Structural)]
pub enum ConversationMetaCreatingError {
    /// The creation request could not be sent or answered.
    Network,
    /// The response body did not decode into conversation credentials.
    ParseRespond,
}

/// The credentials carried by a creation-response document, if it has the
/// three expected string fields.
pub open spec fn spec_meta_of_json(j: JVal) -> Option<MetaView> {
    match (spec_get_field(j, "conversationSignature"@), spec_get_field(j, "clientId"@),
        spec_get_field(j, "conversationId"@)) {
        (Some(JVal::Str(sig)), Some(JVal::Str(cid)), Some(JVal::Str(conv))) => Some(MetaView {
            conversation_signature: sig,
            client_id: cid,
            conversation_id: conv,
        }),
        _ => None,
    }
}

/// Parses the creation response body into conversation credentials; any
/// body that is not a JSON object carrying the three string fields is a
/// parse failure, exactly as the wire contract names them.
pub fn parse_conversation_meta(body: &str) -> (r: Result<ConversationMeta,
    ConversationMetaCreatingError>)
    ensures
        match sp_parse_text(body@) {
            None => r == Err::<ConversationMeta, _>(ConversationMetaCreatingError::ParseRespond),
            Some(j) => match spec_meta_of_json(j) {
                Some(m) => r matches Ok(meta) && meta@ == m,
                None => r == Err::<ConversationMeta, _>(
                    ConversationMetaCreatingError::ParseRespond),
            },
        },
{
    let parsed = match crate::json::parse_json_text(body) {
        Some(v) => v,
        None => {
            return Err(ConversationMetaCreatingError::ParseRespond);
        },
    };
    let sig = match crate::classify::get_field(&parsed, "conversationSignature") {
        Some(f) => match f {
            JsonValue::Str(s) => s.clone(),
            _ => {
                return Err(ConversationMetaCreatingError::ParseRespond);
            },
        },
        None => {
            return Err(ConversationMetaCreatingError::ParseRespond);
        },
    };
    let cid = match crate::classify::get_field(&parsed, "clientId") {
        Some(f) => match f {
            JsonValue::Str(s) => s.clone(),
            _ => {
                return Err(ConversationMetaCreatingError::ParseRespond);
            },
        },
        None => {
            return Err(ConversationMetaCreatingError::ParseRespond);
        },
    };
    let conv = match crate::classify::get_field(&parsed, "conversationId") {
        Some(f) => match f {
            JsonValue::Str(s) => s.clone(),
            _ => {
                return Err(ConversationMetaCreatingError::ParseRespond);
            },
        },
        None => {
            return Err(ConversationMetaCreatingError::ParseRespond);
        },
    };
    Ok(ConversationMeta {
        conversation_signature: sig,
        client_id: cid,
        conversation_id: conv,
    })
}

/// The cookie line a credential contributes to the creation request,
/// scoped to the endpoint's domain.
pub fn cookie_header_value(cookie: &CookieInFile) -> (r: String)
    ensures
        r@ == cookie.name@ + "="@ + cookie.value@ + "; Domain=bing.com"@,
{
    let mut r = cookie.name.clone();
    r.append("=");
    r.append(cookie.value.as_str());
    r.append("; Domain=bing.com");
    r
}

/// The fixed browser-identity header set of the creation request, in order.
pub open spec fn spec_conversation_headers() -> Seq<(Seq<char>, Seq<char>)> {
    seq![
        ("authority"@, "edgeservices.bing.com"@),
        ("accept"@,
            "text/html,application/xhtml+xml,application/xml;q=0.9,image/webp,image/apng,*/*;q=0.8,application/signed-exchange;v=b3;q=0.7"@),
        ("accept-language"@, "en-US,en;q=0.9"@),
        ("cache-control"@, "max-age=0"@),
        ("sec-ch-ua"@,
            "\"Chromium\";v=\"110\", \"Not A(Brand\";v=\"24\", \"Microsoft Edge\";v=\"110\""@),
        ("sec-ch-ua-arch"@, "\"x86\""@),
        ("sec-ch-ua-bitness"@, "\"64\""@),
        ("sec-ch-ua-full-version"@, "\"110.0.1587.69\""@),
        ("sec-ch-ua-full-version-list"@,
            "\"Chromium\";v=\"110.0.5481.192\", \"Not A(Brand\";v=\"24.0.0.0\", \"Microsoft Edge\";v=\"110.0.1587.69\""@),
        ("sec-ch-ua-mobile"@, "?0"@),
        ("sec-ch-ua-model"@, "\"\""@),
        ("sec-ch-ua-platform"@, "\"Windows\""@),
        ("sec-ch-ua-platform-version"@, "\"15.0.0\""@),
        ("sec-fetch-dest"@, "document"@),
        ("sec-fetch-mode"@, "navigate"@),
        ("sec-fetch-site"@, "none"@),
        ("sec-fetch-user"@, "?1"@),
        ("upgrade-insecure-requests"@, "1"@),
        ("x-edge-shopping-flag"@, "1"@),
        ("x-forwarded-for"@, "1.1.1.1"@),
    ]
}

/// Builds the fixed header set of the creation request.
pub fn create_conversation_headers() -> (r: Vec<Header>)
    ensures
        r.deep_view() == spec_conversation_headers(),
{
    let mut out: Vec<Header> = Vec::new();
    push_header(&mut out, "authority", "edgeservices.bing.com");
    push_header(&mut out, "accept",
        "text/html,application/xhtml+xml,application/xml;q=0.9,image/webp,image/apng,*/*;q=0.8,application/signed-exchange;v=b3;q=0.7");
    push_header(&mut out, "accept-language", "en-US,en;q=0.9");
    push_header(&mut out, "cache-control", "max-age=0");
    push_header(&mut out, "sec-ch-ua",
        "\"Chromium\";v=\"110\", \"Not A(Brand\";v=\"24\", \"Microsoft Edge\";v=\"110\"");
    push_header(&mut out, "sec-ch-ua-arch", "\"x86\"");
    push_header(&mut out, "sec-ch-ua-bitness", "\"64\"");
    push_header(&mut out, "sec-ch-ua-full-version", "\"110.0.1587.69\"");
    push_header(&mut out, "sec-ch-ua-full-version-list",
        "\"Chromium\";v=\"110.0.5481.192\", \"Not A(Brand\";v=\"24.0.0.0\", \"Microsoft Edge\";v=\"110.0.1587.69\"");
    push_header(&mut out, "sec-ch-ua-mobile", "?0");
    push_header(&mut out, "sec-ch-ua-model", "\"\"");
    push_header(&mut out, "sec-ch-ua-platform", "\"Windows\"");
    push_header(&mut out, "sec-ch-ua-platform-version", "\"15.0.0\"");
    push_header(&mut out, "sec-fetch-dest", "document");
    push_header(&mut out, "sec-fetch-mode", "navigate");
    push_header(&mut out, "sec-fetch-site", "none");
    push_header(&mut out, "sec-fetch-user", "?1");
    push_header(&mut out, "upgrade-insecure-requests", "1");
    push_header(&mut out, "x-edge-shopping-flag", "1");
    push_header(&mut out, "x-forwarded-for", "1.1.1.1");
    proof {
        assert(out.deep_view() =~~= spec_conversation_headers());
    }
    out
}

fn push_header(out: &mut Vec<Header>, name: &str, value: &str)
    ensures
        final(out).deep_view() == old(out).deep_view().push((name@, value@)),
{
    let ghost before = out.deep_view();
    out.push(Header { name: name.to_owned(), value: value.to_owned() });
    proof {
        assert(out.deep_view() =~~= before.push((name@, value@)));
    }
}

/// The address of the conversation-creation endpoint.
pub fn create_conversation_endpoint() -> (r: &'static str)
    ensures
        r@ == "https://edgeservices.bing.com/edgesvc/turing/conversation/create"@,
{
    "https://edgeservices.bing.com/edgesvc/turing/conversation/create"
}

/// The address of the duplex chat endpoint.
pub fn chat_endpoint() -> (r: &'static str)
    ensures
        r@ == "wss://sydney.bing.com/sydney/ChatHub"@,
{
    "wss://sydney.bing.com/sydney/ChatHub"
}

} // verus!
