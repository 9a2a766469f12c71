//! Verified decision logic of an SPDM responder: the CHUNK_GET large-response
//! transfer and the one-time initialisation of the shared certificate store.

pub mod wire;
pub mod chunk_get;
pub mod responder;
pub mod transfer;
pub mod init_system;
