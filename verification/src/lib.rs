//! Brongnal: an end-to-end encrypted messenger built on X3DH key agreement,
//! a ChaCha20-Poly1305 message envelope and the Gossamer key-transparency ledger.
//!
//! The cryptographic primitives come from the dalek and RustCrypto crates; the
//! protocol logic built on top of them (key agreement, envelopes, wire formats,
//! the ledger's rules, the stores and the checks of an attestation's claims) is
//! verified here. The network, the token signature of an attestation (which
//! needs the signer's keys from the network) and the message streams are left
//! to the application around this library.
pub mod crypto;
pub mod bytes;
pub mod keys;
pub mod aead;
pub mod bundle;
pub mod x3dh;
pub mod vtpm;
pub mod messages;
pub mod status;
pub mod proto;
pub mod gossamer;
pub mod gossamer_persistence;
pub mod gossamer_service;
pub mod mailbox;
pub mod brongnal;
pub mod text;
pub mod memory_gossamer;
pub mod client;
pub mod session;
pub mod attestation;
pub mod ratchet;
pub mod assoc;
pub mod mock_backend;
pub mod command;
pub mod memory_server;
pub mod history;
pub mod key_table;
pub mod memory_storage;
