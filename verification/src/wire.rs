//! Packet formats: how each message of the protocol is laid out in bytes,
//! and the encoders and decoders both ends use.
use vstd::prelude::*;

use crate::protocol::{
    ACK, AUTH, AUTH_PASSWORD, CHUNK_LEN, DATA_CHUNK, FAIL, FILE_INFO, FILE_METADATA, GET, GREET,
    HASH, HASH_CHUNK, HASH_TEXT_LEN, NOTEXIST, REDIRECTED,
};
use crate::text::{decode_lossy, law_lossy_text_of_utf8, lossy_text};
use vstd::utf8::encode_utf8;

verus! {

/// The eight bytes of `v`, most significant first.
pub open spec fn be_bytes(v: u64) -> Seq<u8> {
    seq![
        (v >> 56) as u8,
        (v >> 48) as u8,
        (v >> 40) as u8,
        (v >> 32) as u8,
        (v >> 24) as u8,
        (v >> 16) as u8,
        (v >> 8) as u8,
        v as u8,
    ]
}

/// The number whose eight big-endian bytes start `b` at `at`.
pub open spec fn be_value(b: Seq<u8>, at: int) -> u64 {
    ((b[at] as u64) << 56) | ((b[at + 1] as u64) << 48) | ((b[at + 2] as u64) << 40) | ((b[at
        + 3] as u64) << 32) | ((b[at + 4] as u64) << 24) | ((b[at + 5] as u64) << 16) | ((b[at
        + 6] as u64) << 8) | (b[at + 7] as u64)
}

proof fn lemma_be_value_of_bytes(v: u64)
    ensures
        be_value(be_bytes(v), 0) == v,
{
    let b = be_bytes(v);
    let (b0, b1, b2, b3, b4, b5, b6, b7) = (b[0], b[1], b[2], b[3], b[4], b[5], b[6], b[7]);
    assert(((b0 as u64) << 56) | ((b1 as u64) << 48) | ((b2 as u64) << 40) | ((b3 as u64) << 32)
        | ((b4 as u64) << 24) | ((b5 as u64) << 16) | ((b6 as u64) << 8) | (b7 as u64) == v)
        by (bit_vector)
        requires
            b0 == (v >> 56) as u8,
            b1 == (v >> 48) as u8,
            b2 == (v >> 40) as u8,
            b3 == (v >> 32) as u8,
            b4 == (v >> 24) as u8,
            b5 == (v >> 16) as u8,
            b6 == (v >> 8) as u8,
            b7 == v as u8,
    ;
}

/// Reading eight big-endian bytes gives back the number they were made from,
/// wherever they stand in a packet.
pub proof fn lemma_be_roundtrip(pre: Seq<u8>, v: u64, post: Seq<u8>)
    ensures
        be_value(pre + be_bytes(v) + post, pre.len() as int) == v,
{
    let s = pre + be_bytes(v) + post;
    let k = pre.len() as int;
    assert(s.subrange(k, k + 8) =~= be_bytes(v));
    lemma_be_value_of_bytes(v);
    assert forall|i: int| 0 <= i < 8 implies s[k + i] == be_bytes(v)[i] by {
        assert(s.subrange(k, k + 8)[i] == s[k + i]);
    }
}

/// Writes `v` as eight big-endian bytes at the end of `out`.
fn push_be(out: &mut Vec<u8>, v: u64)
    ensures
        final(out)@ == old(out)@ + be_bytes(v),
{
    out.push((v >> 56) as u8);
    out.push((v >> 48) as u8);
    out.push((v >> 40) as u8);
    out.push((v >> 32) as u8);
    out.push((v >> 24) as u8);
    out.push((v >> 16) as u8);
    out.push((v >> 8) as u8);
    out.push(v as u8);
    assert(out@ =~= old(out)@ + be_bytes(v));
}

/// Reads the eight big-endian bytes of `buf` that start at `at`.
fn read_be(buf: &[u8], at: usize) -> (v: u64)
    requires
        at + 8 <= buf@.len(),
    ensures
        v == be_value(buf@, at as int),
{
    ((buf[at] as u64) << 56) | ((buf[at + 1] as u64) << 48) | ((buf[at + 2] as u64) << 40) | ((
    buf[at + 3] as u64) << 32) | ((buf[at + 4] as u64) << 24) | ((buf[at + 5] as u64) << 16) | ((
    buf[at + 6] as u64) << 8) | (buf[at + 7] as u64)
}


// ---------------------------------------------------------------------------
// Greeting and redirection
// ---------------------------------------------------------------------------

/// What the server makes of the first bytes a client sends.
#[derive(Clone, Copy, Debug, PartialEq, Eq, Structural)]
pub enum Greeting {
    /// Nothing was received.
    Empty,
    /// The first byte is not `GREET`.
    WrongMagic,
    /// A proper greeting: the client is redirected.
    Accepted,
}

/// The verdict on a greeting of which `received` bytes arrived in `buf`.
pub open spec fn greeting_spec(buf: Seq<u8>, received: usize) -> Greeting {
    if received == 0 {
        Greeting::Empty
    } else if buf[0] != GREET {
        Greeting::WrongMagic
    } else {
        Greeting::Accepted
    }
}

/// Judges the greeting of which `received` bytes were read into `buf`.
pub fn check_greeting(buf: &[u8], received: usize) -> (g: Greeting)
    requires
        received > 0 ==> buf@.len() >= 1,
    ensures
        g == greeting_spec(buf@, received),
        (g == Greeting::Accepted) == (received > 0 && buf@[0] == GREET),
        (g == Greeting::Empty) == (received == 0),
{
    if received == 0 {
        Greeting::Empty
    } else if buf[0] != GREET {
        Greeting::WrongMagic
    } else {
        Greeting::Accepted
    }
}

/// `REDIRECTED address`: the address text in UTF-8 after the message byte.
pub open spec fn redirect_packet_spec(address: Seq<char>) -> Seq<u8> {
    seq![REDIRECTED] + encode_utf8(address)
}

/// The address text a redirection of which `received` bytes arrived in
/// `buf` names: all that follows the first byte, read as text.
pub open spec fn redirect_address_spec(buf: Seq<u8>, received: int) -> Seq<char> {
    lossy_text(buf.subrange(1, received))
}

/// The packet that sends a client on to the endpoint at `address`.
pub fn redirect_packet(address: &String) -> (p: Vec<u8>)
    ensures
        p@ == redirect_packet_spec(address@),
{
    let mut p = Vec::new();
    p.push(REDIRECTED);
    append_all(&mut p, address.as_str().as_bytes());
    assert(p@ =~= redirect_packet_spec(address@));
    p
}

/// The address a redirection of which `received` bytes arrived in `buf`
/// names.
pub fn redirect_address(buf: &[u8], received: usize) -> (address: String)
    requires
        1 <= received <= buf@.len(),
    ensures
        address@ == redirect_address_spec(buf@, received as int),
{
    decode_lossy(copy_range(buf, 1, received).as_slice())
}

/// A client reads back the address the server's redirection names, once the
/// whole packet has arrived, whatever stale bytes follow it in the buffer.
pub proof fn law_redirect_roundtrip(address: Seq<char>, rest: Seq<u8>)
    ensures
        redirect_address_spec(
            redirect_packet_spec(address) + rest,
            redirect_packet_spec(address).len() as int,
        ) == address,
{
    let b = redirect_packet_spec(address) + rest;
    assert(b.subrange(1, redirect_packet_spec(address).len() as int) =~= encode_utf8(address));
    law_lossy_text_of_utf8(address);
}

/// `AUTH mode`: the server's login request; this server always asks for a
/// username and a password.
pub open spec fn auth_request_spec() -> Seq<u8> {
    seq![AUTH, AUTH_PASSWORD]
}

/// The server's login request.
pub fn auth_request() -> (p: Vec<u8>)
    ensures
        p@ == auth_request_spec(),
{
    let p = vec![AUTH, AUTH_PASSWORD];
    assert(p@ =~= auth_request_spec());
    p
}

// ---------------------------------------------------------------------------
// Login
// ---------------------------------------------------------------------------

/// `AUTH ulen username plen password`, each length one byte.
pub open spec fn auth_packet_spec(username: Seq<u8>, password: Seq<u8>) -> Seq<u8> {
    seq![AUTH, username.len() as u8] + username + seq![password.len() as u8] + password
}

/// Why a login packet was refused before the credentials were looked at.
#[derive(Clone, Copy, Debug, PartialEq, Eq, Structural)]
pub enum AuthFault {
    /// The first byte is not `AUTH`.
    NotAuthPacket,
    /// A length points past the end of the buffer.
    Malformed,
}

/// What the server reads out of a login packet in `buf`: the username and
/// the password bytes, or the fault.
pub open spec fn parse_auth_spec(buf: Seq<u8>) -> Result<(Seq<u8>, Seq<u8>), AuthFault> {
    if buf[0] != AUTH {
        Err(AuthFault::NotAuthPacket)
    } else {
        let username_end = buf[1] + 2;
        if username_end + 1 > buf.len() {
            Err(AuthFault::Malformed)
        } else {
            let password_start = username_end + 1;
            let password_end = buf[username_end] + password_start;
            if password_end > buf.len() {
                Err(AuthFault::Malformed)
            } else {
                Ok((buf.subrange(2, username_end), buf.subrange(password_start, password_end)))
            }
        }
    }
}

/// Copies `buf[from..to]`.
pub(crate) fn copy_range(buf: &[u8], from: usize, to: usize) -> (out: Vec<u8>)
    requires
        from <= to <= buf@.len(),
    ensures
        out@ == buf@.subrange(from as int, to as int),
{
    let mut out: Vec<u8> = Vec::new();
    let mut i: usize = from;
    while i < to
        invariant
            from <= i <= to <= buf@.len(),
            out@ == buf@.subrange(from as int, i as int),
        decreases to - i,
    {
        out.push(buf[i]);
        i = i + 1;
        assert(out@ =~= buf@.subrange(from as int, i as int));
    }
    out
}

/// Appends all of `data` to `out`.
fn append_all(out: &mut Vec<u8>, data: &[u8])
    ensures
        final(out)@ == old(out)@ + data@,
{
    let mut i: usize = 0;
    while i < data.len()
        invariant
            i <= data@.len(),
            out@ == old(out)@ + data@.subrange(0, i as int),
        decreases data.len() - i,
    {
        out.push(data[i]);
        i = i + 1;
        assert(out@ =~= old(out)@ + data@.subrange(0, i as int));
    }
    assert(data@.subrange(0, data@.len() as int) =~= data@);
}

/// The login packet a client sends.
pub fn auth_packet(username: &[u8], password: &[u8]) -> (p: Vec<u8>)
    requires
        username@.len() <= 255,
        password@.len() <= 255,
    ensures
        p@ == auth_packet_spec(username@, password@),
{
    let mut p = Vec::new();
    p.push(AUTH);
    p.push(username.len() as u8);
    append_all(&mut p, username);
    p.push(password.len() as u8);
    append_all(&mut p, password);
    assert(p@ =~= auth_packet_spec(username@, password@));
    p
}

/// Reads the username and password out of a login packet received into
/// `buf`.
pub fn parse_auth(buf: &[u8]) -> (r: Result<(Vec<u8>, Vec<u8>), AuthFault>)
    requires
        buf@.len() >= 2,
    ensures
        match r {
            Ok((u, p)) => parse_auth_spec(buf@) == Ok::<(Seq<u8>, Seq<u8>), AuthFault>((u@, p@)),
            Err(e) => parse_auth_spec(buf@) == Err::<(Seq<u8>, Seq<u8>), AuthFault>(e),
        },
{
    if buf[0] != AUTH {
        return Err(AuthFault::NotAuthPacket);
    }
    let username_end = buf[1] as usize + 2;
    if username_end + 1 > buf.len() {
        return Err(AuthFault::Malformed);
    }
    let password_start = username_end + 1;
    let password_end = buf[username_end] as usize + password_start;
    if password_end > buf.len() {
        return Err(AuthFault::Malformed);
    }
    let username = copy_range(buf, 2, username_end);
    let password = copy_range(buf, password_start, password_end);
    Ok((username, password))
}

/// The server reads back exactly the username and password a client packed,
/// whatever stale bytes follow the packet in its buffer.
pub proof fn law_auth_roundtrip(username: Seq<u8>, password: Seq<u8>, rest: Seq<u8>)
    requires
        username.len() <= 255,
        password.len() <= 255,
    ensures
        parse_auth_spec(auth_packet_spec(username, password) + rest) == Ok::<
            (Seq<u8>, Seq<u8>),
            AuthFault,
        >((username, password)),
{
    let b = auth_packet_spec(username, password) + rest;
    let ul = username.len() as int;
    let pl = password.len() as int;
    assert(b[1] == ul);
    assert(b[ul + 2] == pl);
    assert(b.subrange(2, ul + 2) =~= username);
    assert(b.subrange(ul + 3, ul + 3 + pl) =~= password);
}

// ---------------------------------------------------------------------------
// Requesting a file
// ---------------------------------------------------------------------------

/// `GET len name`; the length byte keeps only the low eight bits of the
/// name's length.
pub open spec fn get_packet_spec(name: Seq<u8>) -> Seq<u8> {
    seq![GET, (name.len() % 256) as u8] + name
}

/// Whether the name a `GET` in `buf` announces lies inside the buffer.
pub open spec fn get_name_fits(buf: Seq<u8>) -> bool {
    buf.len() >= 2 && 2 + buf[1] <= buf.len()
}

/// The name a `GET` in `buf` asks for.
pub open spec fn get_name_spec(buf: Seq<u8>) -> Seq<u8> {
    buf.subrange(2, 2 + buf[1])
}

/// The request a client sends for the file `name`.
pub fn get_packet(name: &[u8]) -> (p: Vec<u8>)
    ensures
        p@ == get_packet_spec(name@),
{
    let mut p = Vec::new();
    p.push(GET);
    p.push((name.len() % 256) as u8);
    append_all(&mut p, name);
    assert(p@ =~= get_packet_spec(name@));
    p
}

/// The file name a `GET` received into `buf` asks for.
pub fn get_name(buf: &[u8]) -> (name: Vec<u8>)
    requires
        get_name_fits(buf@),
    ensures
        name@ == get_name_spec(buf@),
{
    copy_range(buf, 2, 2 + buf[1] as usize)
}

/// A name of fewer than 256 bytes reaches the server unchanged.
pub proof fn law_get_roundtrip(name: Seq<u8>, rest: Seq<u8>)
    requires
        name.len() < 256,
    ensures
        get_name_fits(get_packet_spec(name) + rest),
        get_name_spec(get_packet_spec(name) + rest) == name,
{
    let b = get_packet_spec(name) + rest;
    assert(b[1] == name.len());
    assert(b.subrange(2, 2 + name.len() as int) =~= name);
}

/// The number of chunks of `CHUNK_LEN` bytes a file of `len` bytes is sent
/// in, the last one possibly short.
pub open spec fn chunk_count(len: nat) -> nat {
    ((len + (CHUNK_LEN - 1)) / (CHUNK_LEN as int)) as nat
}

/// `FILE_INFO chunks len hash`: the offer of a file of `len` bytes, sent in
/// `chunks` chunks, whose hash is `hash`.
pub open spec fn file_info_packet_spec(chunks: u64, len: u64, hash: Seq<char>) -> Seq<u8> {
    seq![FILE_INFO] + be_bytes(chunks) + be_bytes(len) + encode_utf8(hash)
}

/// The offer of a file of `len` bytes in `chunks` chunks, with its hash.
pub fn file_info_packet(chunks: u64, len: u64, hash: &String) -> (p: Vec<u8>)
    ensures
        p@ == file_info_packet_spec(chunks, len, hash@),
{
    let mut p = Vec::new();
    p.push(FILE_INFO);
    push_be(&mut p, chunks);
    push_be(&mut p, len);
    append_all(&mut p, hash.as_str().as_bytes());
    assert(p@ =~= file_info_packet_spec(chunks, len, hash@));
    p
}

/// The refusal of a request for a file that is not shared.
pub open spec fn not_exist_packet_spec() -> Seq<u8> {
    seq![NOTEXIST]
}

/// What a client makes of the answer to its `GET`.
#[derive(Clone, Debug, PartialEq, Eq)]
pub enum GetReply {
    /// The server does not share the file.
    Missing,
    /// The server offers the file: its number of chunks, its length and the
    /// bytes of its hash.
    Offered { chunks: u64, len: u64, hash: Vec<u8> },
}

/// Whether a client can read the answer to a `GET` in `buf`.
pub open spec fn get_reply_readable(buf: Seq<u8>) -> bool {
    buf.len() >= 1 && (buf[0] != NOTEXIST ==> buf.len() >= 17 + HASH_TEXT_LEN)
}

/// The answer to a `GET` in `buf` is a refusal.
pub open spec fn get_reply_missing(buf: Seq<u8>) -> bool {
    buf[0] == NOTEXIST
}

/// The hash bytes of an offer in `buf`.
pub open spec fn offer_hash_spec(buf: Seq<u8>) -> Seq<u8> {
    buf.subrange(17, 17 + HASH_TEXT_LEN)
}

/// Reads the answer to a `GET` received into `buf`: anything but `NOTEXIST`
/// is read as an offer.
pub fn read_get_reply(buf: &[u8]) -> (r: GetReply)
    requires
        get_reply_readable(buf@),
    ensures
        r is Missing <==> get_reply_missing(buf@),
        r matches GetReply::Offered { chunks, len, hash } ==> chunks == be_value(buf@, 1) && len
            == be_value(buf@, 9) && hash@ == offer_hash_spec(buf@),
{
    if buf[0] == NOTEXIST {
        GetReply::Missing
    } else {
        GetReply::Offered {
            chunks: read_be(buf, 1),
            len: read_be(buf, 9),
            hash: copy_range(buf, 17, 17 + HASH_TEXT_LEN),
        }
    }
}

/// A client reads back the chunk count, length and hash the server offered,
/// and a refusal as a refusal.
pub proof fn law_get_reply_roundtrip(chunks: u64, len: u64, hash: Seq<char>, rest: Seq<u8>)
    requires
        encode_utf8(hash).len() == HASH_TEXT_LEN,
    ensures
        get_reply_readable(file_info_packet_spec(chunks, len, hash) + rest),
        !get_reply_missing(file_info_packet_spec(chunks, len, hash) + rest),
        be_value(file_info_packet_spec(chunks, len, hash) + rest, 1) == chunks,
        be_value(file_info_packet_spec(chunks, len, hash) + rest, 9) == len,
        offer_hash_spec(file_info_packet_spec(chunks, len, hash) + rest) == encode_utf8(hash),
        get_reply_readable(not_exist_packet_spec() + rest),
        get_reply_missing(not_exist_packet_spec() + rest),
{
    let h = encode_utf8(hash);
    let b = file_info_packet_spec(chunks, len, hash) + rest;
    lemma_be_roundtrip(seq![FILE_INFO], chunks, be_bytes(len) + h + rest);
    assert(b =~= seq![FILE_INFO] + be_bytes(chunks) + (be_bytes(len) + h + rest));
    lemma_be_roundtrip(seq![FILE_INFO] + be_bytes(chunks), len, h + rest);
    assert(b =~= seq![FILE_INFO] + be_bytes(chunks) + be_bytes(len) + (h + rest));
    assert(b.subrange(17, 17 + HASH_TEXT_LEN) =~= h);
}

// ---------------------------------------------------------------------------
// Chunks of a file
// ---------------------------------------------------------------------------

/// `DATA_CHUNK k data`: chunk number `k` of a file.
pub open spec fn data_chunk_spec(k: u64, data: Seq<u8>) -> Seq<u8> {
    seq![DATA_CHUNK] + be_bytes(k) + data
}

/// `HASH_CHUNK hash k`: the hash text of chunk number `k`.
pub open spec fn hash_chunk_spec(hash: Seq<char>, k: u64) -> Seq<u8> {
    seq![HASH_CHUNK] + encode_utf8(hash) + be_bytes(k)
}

/// Chunk number `k`, `data`, followed by its hash `hash`: what the server
/// sends for one chunk.
pub fn chunk_message(k: u64, data: &[u8], hash: &String) -> (p: Vec<u8>)
    ensures
        p@ == data_chunk_spec(k, data@) + hash_chunk_spec(hash@, k),
{
    let mut p = Vec::new();
    p.push(DATA_CHUNK);
    push_be(&mut p, k);
    append_all(&mut p, data);
    p.push(HASH_CHUNK);
    append_all(&mut p, hash.as_str().as_bytes());
    push_be(&mut p, k);
    assert(p@ =~= data_chunk_spec(k, data@) + hash_chunk_spec(hash@, k));
    p
}

/// Reads a data chunk packet that fills `buf`: its number and its data, or
/// `None` when it does not start with `DATA_CHUNK`.
pub fn read_data_chunk(buf: &[u8]) -> (r: Option<(u64, Vec<u8>)>)
    requires
        buf@.len() >= 9,
    ensures
        r is Some <==> buf@[0] == DATA_CHUNK,
        r matches Some((k, data)) ==> k == be_value(buf@, 1) && data@ == buf@.subrange(
            9,
            buf@.len() as int,
        ),
{
    if buf[0] != DATA_CHUNK {
        None
    } else {
        Some((read_be(buf, 1), copy_range(buf, 9, buf.len())))
    }
}

/// Reads a chunk hash packet at the start of `buf`: the hash bytes and the
/// chunk number, or `None` when it does not start with `HASH_CHUNK`.
pub fn read_hash_chunk(buf: &[u8]) -> (r: Option<(Vec<u8>, u64)>)
    requires
        buf@.len() >= 1 + HASH_TEXT_LEN + 8,
    ensures
        r is Some <==> buf@[0] == HASH_CHUNK,
        r matches Some((hash, k)) ==> hash@ == buf@.subrange(1, 1 + HASH_TEXT_LEN) && k
            == be_value(buf@, 1 + HASH_TEXT_LEN),
{
    if buf[0] != HASH_CHUNK {
        None
    } else {
        Some((copy_range(buf, 1, 1 + HASH_TEXT_LEN), read_be(buf, 1 + HASH_TEXT_LEN)))
    }
}

/// A client reads back the number and data of a chunk, and the number and
/// hash bytes of its hash, from what the server sent for it.
pub proof fn law_chunk_message_roundtrip(k: u64, data: Seq<u8>, hash: Seq<char>)
    requires
        encode_utf8(hash).len() == HASH_TEXT_LEN,
    ensures
        ({
            let d = data_chunk_spec(k, data);
            let h = hash_chunk_spec(hash, k);
            &&& d[0] == DATA_CHUNK
            &&& be_value(d, 1) == k
            &&& d.subrange(9, d.len() as int) == data
            &&& h[0] == HASH_CHUNK
            &&& h.subrange(1, 1 + HASH_TEXT_LEN) == encode_utf8(hash)
            &&& be_value(h, 1 + HASH_TEXT_LEN) == k
        }),
{
    let d = data_chunk_spec(k, data);
    lemma_be_roundtrip(seq![DATA_CHUNK], k, data);
    assert(d.subrange(9, d.len() as int) =~= data);
    let e = encode_utf8(hash);
    let h = hash_chunk_spec(hash, k);
    lemma_be_roundtrip(seq![HASH_CHUNK] + e, k, Seq::empty());
    assert(h =~= seq![HASH_CHUNK] + e + be_bytes(k) + Seq::<u8>::empty());
    assert(h.subrange(1, 1 + HASH_TEXT_LEN) =~= e);
}

/// `ACK k` or `FAIL k`: the client's verdict on chunk `k`.
pub open spec fn chunk_reply_spec(ok: bool, k: u64) -> Seq<u8> {
    seq![if ok { ACK } else { FAIL }] + be_bytes(k)
}

/// The client's verdict on chunk `k`: `ACK` when its hash checked out.
pub fn chunk_reply(ok: bool, k: u64) -> (p: Vec<u8>)
    ensures
        p@ == chunk_reply_spec(ok, k),
{
    let mut p = Vec::new();
    p.push(if ok { ACK } else { FAIL });
    push_be(&mut p, k);
    assert(p@ =~= chunk_reply_spec(ok, k));
    p
}

/// The chunk number of a verdict in `buf`.
pub fn reply_chunk_number(buf: &[u8]) -> (k: u64)
    requires
        buf@.len() >= 9,
    ensures
        k == be_value(buf@, 1),
{
    read_be(buf, 1)
}

/// The server reads back the verdict and chunk number the client sent.
pub proof fn law_chunk_reply_roundtrip(ok: bool, k: u64, rest: Seq<u8>)
    ensures
        (chunk_reply_spec(ok, k) + rest)[0] == (if ok { ACK } else { FAIL }),
        be_value(chunk_reply_spec(ok, k) + rest, 1) == k,
{
    lemma_be_roundtrip(seq![if ok { ACK } else { FAIL }], k, rest);
    assert(chunk_reply_spec(ok, k) + rest =~= seq![if ok { ACK } else { FAIL }] + be_bytes(k)
        + rest);
}

// ---------------------------------------------------------------------------
// Listing the shared files
// ---------------------------------------------------------------------------

/// `ACK count`: the head of the answer to `AVAILABLE`.
pub open spec fn listing_head_spec(count: u64) -> Seq<u8> {
    seq![ACK] + be_bytes(count)
}

/// The head of the answer to `AVAILABLE`, announcing `count` files.
pub fn listing_head(count: u64) -> (p: Vec<u8>)
    ensures
        p@ == listing_head_spec(count),
{
    let mut p = Vec::new();
    p.push(ACK);
    push_be(&mut p, count);
    assert(p@ =~= listing_head_spec(count));
    p
}

/// The number of files the head of a listing in `buf` announces (the first
/// byte is not looked at).
pub fn listing_count(buf: &[u8]) -> (count: u64)
    requires
        buf@.len() >= 9,
    ensures
        count == be_value(buf@, 1),
{
    read_be(buf, 1)
}

/// A client reads back the number of files the server announced.
pub proof fn law_listing_count_roundtrip(count: u64, rest: Seq<u8>)
    ensures
        be_value(listing_head_spec(count) + rest, 1) == count,
{
    lemma_be_roundtrip(seq![ACK], count, rest);
    assert(listing_head_spec(count) + rest =~= seq![ACK] + be_bytes(count) + rest);
}

/// `FILE_METADATA size len name`: one entry of a listing.
pub open spec fn listing_entry_spec(size: u64, name: Seq<u8>) -> Seq<u8> {
    seq![FILE_METADATA] + be_bytes(size) + be_bytes(name.len() as u64) + name
}

/// One entry of a listing: a file of `size` bytes named `name`.
pub fn listing_entry(size: u64, name: &[u8]) -> (p: Vec<u8>)
    ensures
        p@ == listing_entry_spec(size, name@),
{
    let mut p = Vec::new();
    p.push(FILE_METADATA);
    push_be(&mut p, size);
    push_be(&mut p, name.len() as u64);
    append_all(&mut p, name);
    assert(p@ =~= listing_entry_spec(size, name@));
    p
}

/// A listing entry of which `received` bytes arrived in `buf`: its size and
/// name, or `None` when the name it announces runs past what arrived.
pub open spec fn read_listing_entry_spec(buf: Seq<u8>, received: int) -> Option<(u64, Seq<u8>)> {
    let len = be_value(buf, 9);
    if 17 + len > received {
        None
    } else {
        Some((be_value(buf, 1), buf.subrange(17, 17 + len)))
    }
}

/// Reads a listing entry of which `received` bytes arrived in `buf`.
pub fn read_listing_entry(buf: &[u8], received: usize) -> (r: Option<(u64, Vec<u8>)>)
    requires
        buf@.len() >= 17,
        received <= buf@.len(),
    ensures
        match r {
            Some((size, name)) => read_listing_entry_spec(buf@, received as int) == Some(
                (size, name@),
            ),
            None => read_listing_entry_spec(buf@, received as int) is None,
        },
{
    let len = read_be(buf, 9);
    if len > received as u64 || 17 > received - len as usize {
        None
    } else {
        let size = read_be(buf, 1);
        let name = copy_range(buf, 17, 17 + len as usize);
        Some((size, name))
    }
}

/// A client reads back the size and name of each entry the server listed,
/// once the whole entry has arrived.
pub proof fn law_listing_entry_roundtrip(size: u64, name: Seq<u8>, rest: Seq<u8>, received: int)
    requires
        name.len() <= u64::MAX,
        listing_entry_spec(size, name).len() <= received,
    ensures
        read_listing_entry_spec(listing_entry_spec(size, name) + rest, received) == Some(
            (size, name),
        ),
{
    let b = listing_entry_spec(size, name) + rest;
    lemma_be_roundtrip(seq![FILE_METADATA], size, be_bytes(name.len() as u64) + name + rest);
    assert(b =~= seq![FILE_METADATA] + be_bytes(size) + (be_bytes(name.len() as u64) + name
        + rest));
    lemma_be_roundtrip(seq![FILE_METADATA] + be_bytes(size), name.len() as u64, name + rest);
    assert(b =~= seq![FILE_METADATA] + be_bytes(size) + be_bytes(name.len() as u64) + (name
        + rest));
    assert(b.subrange(17, 17 + name.len() as int) =~= name);
}

// ---------------------------------------------------------------------------
// The hash of a transferred file
// ---------------------------------------------------------------------------

/// `HASH len hash`: the hash text `h` in UTF-8, after its length in bytes.
pub open spec fn hash_packet_spec(h: Seq<char>) -> Seq<u8> {
    seq![HASH] + be_bytes(encode_utf8(h).len() as u64) + encode_utf8(h)
}

/// The packet that carries the hash `h` of a file just sent.
pub fn hash_packet(h: &String) -> (p: Vec<u8>)
    ensures
        p@ == hash_packet_spec(h@),
{
    let bytes = h.as_str().as_bytes();
    let mut p = Vec::new();
    p.push(HASH);
    push_be(&mut p, bytes.len() as u64);
    append_all(&mut p, bytes);
    assert(p@ =~= hash_packet_spec(h@));
    p
}

/// What a client reads out of the packet after a download.
pub struct HashReply {
    /// Whether the packet starts with `HASH`.
    pub tagged: bool,
    /// The hash bytes it carries.
    pub digest: Vec<u8>,
}

/// Whether the hash a packet in `buf` announces lies inside the buffer.
pub open spec fn hash_reply_fits(buf: Seq<u8>) -> bool {
    buf.len() >= 9 && 9 + be_value(buf, 1) <= buf.len()
}

/// The hash bytes of a packet in `buf`.
pub open spec fn hash_reply_digest(buf: Seq<u8>) -> Seq<u8> {
    buf.subrange(9, 9 + be_value(buf, 1))
}

/// Whether the hash a packet in `buf` announces lies inside the buffer.
pub fn hash_reply_in_buffer(buf: &[u8]) -> (b: bool)
    ensures
        b == hash_reply_fits(buf@),
{
    if buf.len() < 9 {
        return false;
    }
    let len = read_be(buf, 1);
    len <= (buf.len() - 9) as u64
}

/// Reads the packet received into `buf` after a download.
pub fn read_hash_reply(buf: &[u8]) -> (r: HashReply)
    requires
        hash_reply_fits(buf@),
    ensures
        r.tagged == (buf@[0] == HASH),
        r.digest@ == hash_reply_digest(buf@),
{
    let len = read_be(buf, 1);
    let total: usize = buf.len();
    assert(9 + len <= total);
    let digest = copy_range(buf, 9, 9 + len as usize);
    HashReply { tagged: buf[0] == HASH, digest }
}

/// A client reads back, tagged as a hash, the UTF-8 bytes of the hash the
/// server sent.
pub proof fn law_hash_reply_roundtrip(h: Seq<char>, rest: Seq<u8>)
    requires
        encode_utf8(h).len() <= u64::MAX,
    ensures
        hash_reply_fits(hash_packet_spec(h) + rest),
        (hash_packet_spec(h) + rest)[0] == HASH,
        hash_reply_digest(hash_packet_spec(h) + rest) == encode_utf8(h),
{
    let e = encode_utf8(h);
    let b = hash_packet_spec(h) + rest;
    lemma_be_roundtrip(seq![HASH], e.len() as u64, e + rest);
    assert(b =~= seq![HASH] + be_bytes(e.len() as u64) + (e + rest));
    assert(b.subrange(9, 9 + e.len() as int) =~= e);
}

/// A greeting is accepted exactly when something arrived and its first byte
/// is `GREET` (0x11); nothing arriving is `Empty`; any other first byte is
/// `WrongMagic`.
pub proof fn law_greeting(buf: Seq<u8>, received: usize)
    requires
        received > 0 ==> buf.len() >= 1,
    ensures
        (greeting_spec(buf, received) == Greeting::Accepted) == (received > 0 && buf[0] == 0x11u8),
        (greeting_spec(buf, received) == Greeting::Empty) == (received == 0),
        (greeting_spec(buf, received) == Greeting::WrongMagic) == (received > 0 && buf[0]
            != 0x11u8),
{
}

} // verus!
