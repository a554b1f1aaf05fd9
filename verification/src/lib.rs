//! The Pretty Simple File Sharing Protocol: packet formats, the server's
//! session logic and the client's decisions, with their contracts.
#![allow(unused_imports)]

pub mod protocol;

pub use crate::protocol::{
    ACK, AUTH, AUTH_NONE, AUTH_PASSWORD, AVAILABLE, BYE, CHUNK_LEN, CHUNK_RETRIES, HASH_TEXT_LEN, CLIENT_BUFFER_LEN, DATA_CHUNK, FAIL, FILE_INFO,
    FILE_METADATA, GET, GREET, HASH, HASH_CHUNK, NOTEXIST, REDIRECTED, SERVER_BUFFER_LEN, WAIT,
};
pub mod wire;
pub mod text;
pub mod digest;
pub mod index;
pub mod session;
pub mod client;
pub mod identity;
