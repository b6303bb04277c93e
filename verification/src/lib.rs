//! Verified core of a collaborative, end-to-end encrypted document system.

// Wire protocol, subscribe capabilities and their byte encodings.
pub mod capability;
pub mod proto;

// The relay: connection handling, routing, offline storage.
pub mod relay;
pub mod routing;
pub mod seqsum;
pub mod storage;

// Documents, MLS groups, encryption and at-rest persistence.
pub mod document;
pub mod encryption;
pub mod error;
pub mod mls;
pub mod persistence;
pub mod registry;

// Client-side state machines and command logic.
pub mod cli;
pub mod connection;

// Vault synchronisation and file-system events.
pub mod vault_manifest;
pub mod vault_sync;
pub mod watcher;

// Trusted interfaces to outside crates.
pub mod aead;
pub mod base64;
pub mod clock;
pub mod crdt;
pub mod ed25519;
pub mod mls_ops;

// Shared building blocks.
pub mod assoc;
pub mod bytes;
pub mod decimal;
pub mod text;
