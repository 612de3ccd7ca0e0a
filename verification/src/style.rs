//! Conversation styles and their fixed wire tokens.
//!
//! Each style maps to exactly one protocol token; the mapping is a bijection
//! and the upstream service rejects a turn whose token differs from these.

use vstd::prelude::*;

verus! {

/// Conversation style of a chat session.
#[derive(Clone, Copy, Debug, PartialEq, Eq, Structural)]
pub enum ConversationStyle {
    Creative,
    Balanced,
    Precise,
}

/// The wire token of a style, as a sequence of characters.
pub open spec fn spec_style_token(style: ConversationStyle) -> Seq<char> {
    match style {
        ConversationStyle::Creative => "h3imaginative"@,
        ConversationStyle::Balanced => "galileo"@,
        ConversationStyle::Precise => "h3precise"@,
    }
}

/// The style whose wire token is the given text, if any.
pub open spec fn spec_style_of_token(token: Seq<char>) -> Option<ConversationStyle> {
    if token == "h3imaginative"@ {
        Some(ConversationStyle::Creative)
    } else if token == "galileo"@ {
        Some(ConversationStyle::Balanced)
    } else if token == "h3precise"@ {
        Some(ConversationStyle::Precise)
    } else {
        None
    }
}

impl ConversationStyle {
    /// The fixed token this style puts on the wire.
    pub fn wire_token(self) -> (r: &'static str)
        ensures
            r@ == spec_style_token(self),
    {
        match self {
            ConversationStyle::Creative => "h3imaginative",
            ConversationStyle::Balanced => "galileo",
            ConversationStyle::Precise => "h3precise",
        }
    }
}

/// Decodes a wire token back into a style.
pub fn style_of_token(token: &str) -> (r: Option<ConversationStyle>)
    ensures
        r == spec_style_of_token(token@),
{
    if crate::text::str_eq(token, "h3imaginative") {
        Some(ConversationStyle::Creative)
    } else if crate::text::str_eq(token, "galileo") {
        Some(ConversationStyle::Balanced)
    } else if crate::text::str_eq(token, "h3precise") {
        Some(ConversationStyle::Precise)
    } else {
        None
    }
}

/// Law: the style tokens form a bijection. Decoding the token of any style
/// yields that style back, and distinct styles carry distinct tokens.
pub proof fn lemma_style_token_bijection()
    ensures
        forall|s: ConversationStyle| spec_style_of_token(spec_style_token(s)) == Some(s),
        forall|s1: ConversationStyle, s2: ConversationStyle|
            spec_style_token(s1) == spec_style_token(s2) ==> s1 == s2,
{
    reveal_strlit("h3imaginative");
    reveal_strlit("galileo");
    reveal_strlit("h3precise");
    assert("h3imaginative"@.len() == 13);
    assert("galileo"@.len() == 7);
    assert("h3precise"@.len() == 9);
    assert forall|s: ConversationStyle| spec_style_of_token(spec_style_token(s)) == Some(s) by {
        match s {
            ConversationStyle::Creative => {
                assert(spec_style_token(s) == "h3imaginative"@);
            },
            ConversationStyle::Balanced => {
                assert(spec_style_token(s) != "h3imaginative"@);
            },
            ConversationStyle::Precise => {
                assert(spec_style_token(s) != "h3imaginative"@);
                assert(spec_style_token(s) != "galileo"@);
            },
        }
    }
}

} // verus!
