//! Protocol message types exchanged between clients and the relay server.
//!
//! The relay forwards document content and MLS handshake traffic opaquely; a
//! special manifest document carries the vault-wide file registry the same way.

use vstd::prelude::*;

use crate::capability::SubscribeCapability;

verus! {

/// Unique identifier for a document.
pub type DocumentId = String;

/// Unique identifier for a user.
pub type UserId = String;

/// Messages sent from client to relay server.
#[derive(Debug, Clone)]
pub enum ClientMessage {
    /// Identify the user to the server, optionally presenting a bearer token.
    Identify { user_id: UserId, token: Option<String> },
    /// Subscribe to a document; without a capability the subscription carries
    /// MLS handshake traffic only.
    Subscribe { doc_id: DocumentId, capability: Option<SubscribeCapability> },
    /// Register (or rotate) the per-document verification anchor.
    RegisterDocKey {
        doc_id: DocumentId,
        epoch: u64,
        public_key: Vec<u8>,
        proof: Vec<u8>,
        rotation_proof: Vec<u8>,
    },
    /// Unsubscribe from document updates.
    Unsubscribe { doc_id: DocumentId },
    /// Send an encrypted CRDT update.
    YrsUpdate { doc_id: DocumentId, encrypted: Vec<u8>, epoch: u64 },
    /// MLS handshake message (welcome, commit, etc.).
    MlsHandshake { doc_id: DocumentId, payload: Vec<u8>, message_type: MlsMessageType },
}

/// Messages sent from relay server to client.
#[derive(Debug, Clone)]
pub enum ServerMessage {
    /// Confirmation of successful identification.
    Identified { user_id: UserId },
    /// Confirmation of subscription.
    Subscribed { doc_id: DocumentId },
    /// Confirmation of unsubscription.
    Unsubscribed { doc_id: DocumentId },
    /// Forwarded encrypted CRDT update from another user.
    YrsUpdate { doc_id: DocumentId, from: UserId, encrypted: Vec<u8>, epoch: u64 },
    /// Forwarded MLS handshake message.
    MlsHandshake {
        doc_id: DocumentId,
        from: UserId,
        payload: Vec<u8>,
        message_type: MlsMessageType,
    },
    /// Error message.
    Error { code: ErrorCode, message: String },
}

/// Types of MLS handshake messages.
#[derive(Debug, Clone, Copy, PartialEq, Eq, Structural)]
pub enum MlsMessageType {
    /// Key package for joining a group.
    KeyPackage,
    /// Welcome message for new members.
    Welcome,
    /// Commit message for group changes.
    Commit,
    /// Application message.
    Application,
}

/// Error codes for server responses.
#[derive(Debug, Clone, Copy, PartialEq, Eq, Structural)]
pub enum ErrorCode {
    /// User not identified.
    NotIdentified,
    /// Document not found.
    DocumentNotFound,
    /// Not subscribed to document.
    NotSubscribed,
    /// Invalid message format.
    InvalidMessage,
    /// Internal server error.
    InternalError,
    /// Authentication failed (missing or invalid token).
    Unauthorized,
    /// A resource limit was exceeded.
    LimitExceeded,
    /// The session was replaced by a newer connection or closed to enforce a limit.
    SessionReplaced,
}

/// Invite for joining a collaborative document, as carried on the wire.
#[derive(Debug, Clone)]
pub struct Invite {
    /// Document identifier.
    pub doc_id: DocumentId,
    /// MLS welcome message for the joining member.
    pub welcome: Vec<u8>,
    /// MLS commit message existing group members must process.
    pub commit: Vec<u8>,
    /// MLS epoch at which this invite was created.
    pub epoch: u64,
    /// Relay server URL.
    pub relay_url: String,
}

/// The mathematical value of a [`ServerMessage`]: strings as character
/// sequences, byte buffers as byte sequences.
pub enum ServerMessageView {
    Identified { user_id: Seq<char> },
    Subscribed { doc_id: Seq<char> },
    Unsubscribed { doc_id: Seq<char> },
    YrsUpdate { doc_id: Seq<char>, from: Seq<char>, encrypted: Seq<u8>, epoch: u64 },
    MlsHandshake { doc_id: Seq<char>, from: Seq<char>, payload: Seq<u8>, message_type: MlsMessageType },
    Error { code: ErrorCode, message: Seq<char> },
}

impl View for ServerMessage {
    type V = ServerMessageView;

    open spec fn view(&self) -> ServerMessageView {
        match self {
            ServerMessage::Identified { user_id } => ServerMessageView::Identified { user_id: user_id@ },
            ServerMessage::Subscribed { doc_id } => ServerMessageView::Subscribed { doc_id: doc_id@ },
            ServerMessage::Unsubscribed { doc_id } => ServerMessageView::Unsubscribed { doc_id: doc_id@ },
            ServerMessage::YrsUpdate { doc_id, from, encrypted, epoch } => ServerMessageView::YrsUpdate {
                doc_id: doc_id@,
                from: from@,
                encrypted: encrypted@,
                epoch: *epoch,
            },
            ServerMessage::MlsHandshake { doc_id, from, payload, message_type } => ServerMessageView::MlsHandshake {
                doc_id: doc_id@,
                from: from@,
                payload: payload@,
                message_type: *message_type,
            },
            ServerMessage::Error { code, message } => ServerMessageView::Error { code: *code, message: message@ },
        }
    }
}

impl ServerMessage {
    /// A copy of this message with the same value.
    pub fn duplicate(&self) -> (r: ServerMessage)
        ensures
            r@ == self@,
    {
        match self {
            ServerMessage::Identified { user_id } => ServerMessage::Identified { user_id: user_id.clone() },
            ServerMessage::Subscribed { doc_id } => ServerMessage::Subscribed { doc_id: doc_id.clone() },
            ServerMessage::Unsubscribed { doc_id } => ServerMessage::Unsubscribed { doc_id: doc_id.clone() },
            ServerMessage::YrsUpdate { doc_id, from, encrypted, epoch } => ServerMessage::YrsUpdate {
                doc_id: doc_id.clone(),
                from: from.clone(),
                encrypted: crate::text::copy_bytes(encrypted.as_slice()),
                epoch: *epoch,
            },
            ServerMessage::MlsHandshake { doc_id, from, payload, message_type } => ServerMessage::MlsHandshake {
                doc_id: doc_id.clone(),
                from: from.clone(),
                payload: crate::text::copy_bytes(payload.as_slice()),
                message_type: *message_type,
            },
            ServerMessage::Error { code, message } => ServerMessage::Error { code: *code, message: message.clone() },
        }
    }
}

} // verus!
