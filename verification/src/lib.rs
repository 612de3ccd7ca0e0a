//! A verified client core for a framed, JSON-over-socket chat protocol.
//!
//! The crate models the protocol's data (conversation credentials, chat
//! sessions, wire frames) and proves the protocol rules: the frame codec
//! round-trips every payload, the style tokens form a bijection, the turn
//! counter advances exactly once per exchange, and the classifier extracts
//! answers exactly as the wire schema dictates.

use vstd::prelude::*;

pub use classify::{ChatError, InboundFrame, NewBingResponseMessage};
pub use meta::{ConversationMeta, ConversationMetaCreatingError, CookieInFile};
pub use session::{ChatSession, FrameAction, StreamStep};
pub use style::ConversationStyle;

pub mod classify;
pub mod codec;
pub mod identity;
pub mod json;
pub mod meta;
pub mod request;
pub mod roundtrip;
pub mod session;
pub mod style;
pub mod text;

verus! {

/// The result of the conversation-creation phase.
pub type ConversationMetaCreatingResult<T> = core::result::Result<T, ConversationMetaCreatingError>;

/// The result of a chat exchange.
pub type SessionResult<T> = core::result::Result<T, ChatError>;

} // verus!
