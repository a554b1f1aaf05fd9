//! The message bytes of the protocol. Every packet starts with one of them.
use vstd::prelude::*;

verus! {

/// `0x11`: the first byte a client sends to the well-known port.
pub const GREET: u8 = 0x11;

/// `0x99 address`: the server's answer to a greeting; the rest of the packet
/// is the address, as text, of the ephemeral endpoint the session continues
/// on.
pub const REDIRECTED: u8 = 0x99;

/// `0x01 chunk_num(8 bytes) data`: one chunk of a file, at most `CHUNK_LEN`
/// bytes; all chunks but the last are full.
pub const DATA_CHUNK: u8 = 0x01;

/// `0x05 hash chunk_num(8 bytes)`: the hash of one chunk (`HASH_TEXT_LEN`
/// bytes of text), sent right after the chunk.
pub const HASH_CHUNK: u8 = 0x05;

/// `0x02 number_of_chunks(8 bytes) len(8 bytes) hash`: the server's answer to
/// a `GET` for a shared file: how many chunks it is sent in, its length in
/// bytes and its hash (`HASH_TEXT_LEN` bytes of text). The client answers
/// with the `GET` again to start the download.
pub const FILE_INFO: u8 = 0x02;

/// `0x03 len name`: a request for a file, `len` being one byte.
pub const GET: u8 = 0x03;

/// `0xAA`: acknowledgement of a login or of a listing entry; the first byte
/// of the answer to `AVAILABLE`; and, as `0xAA chunk_num(8 bytes)`, of a
/// chunk whose hash checked out, after which the next chunk is sent.
pub const ACK: u8 = 0xAA;

/// `0xFF`: refusal of a login; and, as `0xFF chunk_num(8 bytes)`, the report
/// that a chunk's hash did not check out, which the server answers by
/// sending the chunk again, up to `CHUNK_RETRIES` times, before it closes the
/// connection.
pub const FAIL: u8 = 0xFF;

/// `0x0B`: sent by the client once a download's full hash is verified, or to
/// end the session; sent by the server when it closes the connection on a
/// failed download.
pub const BYE: u8 = 0x0B;

/// `0x15`: the server is still preparing a file.
pub const WAIT: u8 = 0x15;

/// `0x44`: the requested file is not shared.
pub const NOTEXIST: u8 = 0x44;

/// `0xAB len(8 bytes) hash`: the hash of a whole file, sent after its last
/// chunk.
pub const HASH: u8 = 0xAB;

/// Server: `0xAD 0x00` (no login) or `0xAD 0x01` (username and password).
/// Client: `0xAD ulen username plen password`, each length one byte.
pub const AUTH: u8 = 0xAD;

/// `0xA2`: the client asks for the list of shared files. The server answers
/// `ACK count(8 bytes)` and then one `FILE_METADATA` packet per file.
pub const AVAILABLE: u8 = 0xA2;

/// `0x65 size(8 bytes) len(8 bytes) name`: one entry of the file list.
pub const FILE_METADATA: u8 = 0x65;

/// Size of the buffer the server receives commands into.
pub const SERVER_BUFFER_LEN: usize = 128;

/// Size of the buffer the client receives replies into.
pub const CLIENT_BUFFER_LEN: usize = 1024;

/// How many times the server sends a chunk again that the client reported
/// as failed.
pub const CHUNK_RETRIES: u8 = 3;

/// The login mode byte: no credentials needed.
pub const AUTH_NONE: u8 = 0x00;

/// The login mode byte: a username and a password are needed.
pub const AUTH_PASSWORD: u8 = 0x01;

/// Length in bytes of a hash as it is sent: 64 hexadecimal digits.
pub const HASH_TEXT_LEN: usize = 64;

/// Size of a chunk of file data: one megabyte.
pub const CHUNK_LEN: usize = 1048576;

} // verus!
