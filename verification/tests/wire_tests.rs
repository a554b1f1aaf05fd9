use psfsp::wire::{
    auth_packet, auth_request, check_greeting, chunk_message, chunk_reply, file_info_packet,
    get_name, get_packet, hash_packet, listing_count, listing_entry, listing_head, parse_auth,
    read_data_chunk, read_get_reply, read_hash_chunk, read_hash_reply, read_listing_entry,
    redirect_address, redirect_packet, reply_chunk_number, AuthFault, GetReply, Greeting,
};
use psfsp::{
    ACK, AUTH, AUTH_PASSWORD, DATA_CHUNK, FAIL, FILE_INFO, FILE_METADATA, GET, GREET, HASH,
    HASH_CHUNK, NOTEXIST, REDIRECTED,
};

fn in_buffer(packet: &[u8], len: usize, stale: u8) -> Vec<u8> {
    let mut b = vec![stale; len];
    b[..packet.len()].copy_from_slice(packet);
    b
}

#[test]
fn greeting_verdicts() {
    let buf = [GREET, 0, 0];
    assert_eq!(check_greeting(&buf, 0), Greeting::Empty);
    assert_eq!(check_greeting(&buf, 1), Greeting::Accepted);
    assert_eq!(check_greeting(&[0x12, 0], 2), Greeting::WrongMagic);
}

#[test]
fn redirect_carries_address_text() {
    let address = String::from("192.0.2.7:50123");
    let p = redirect_packet(&address);
    assert_eq!(p[0], REDIRECTED);
    assert_eq!(&p[1..], address.as_bytes());
    let buf = in_buffer(&p, 1024, 7);
    assert_eq!(redirect_address(&buf, p.len()), address);
    assert_eq!(redirect_address(&buf, 1), String::new());
}

#[test]
fn login_request_asks_for_password() {
    assert_eq!(auth_request(), vec![AUTH, AUTH_PASSWORD]);
}

#[test]
fn auth_packet_layout() {
    let p = auth_packet(b"bob", b"pw");
    assert_eq!(p, vec![AUTH, 3, b'b', b'o', b'b', 2, b'p', b'w']);
    assert_eq!(auth_packet(b"", b""), vec![AUTH, 0, 0]);
}

#[test]
fn auth_roundtrip_with_stale_bytes() {
    let p = auth_packet(b"alice", b"s3cret");
    let buf = in_buffer(&p, 128, 0x5a);
    assert_eq!(parse_auth(&buf), Ok((b"alice".to_vec(), b"s3cret".to_vec())));
}

#[test]
fn auth_faults() {
    let mut buf = vec![0u8; 128];
    buf[0] = GET;
    assert_eq!(parse_auth(&buf), Err(AuthFault::NotAuthPacket));
    // username runs to the end of the buffer
    let mut buf = vec![0u8; 128];
    buf[0] = AUTH;
    buf[1] = 126;
    assert_eq!(parse_auth(&buf), Err(AuthFault::Malformed));
    // username ends just in time for the password length byte
    buf[1] = 125;
    buf[127] = 0;
    assert_eq!(parse_auth(&buf), Ok((vec![0u8; 125], vec![])));
    // password runs past the end
    buf[1] = 100;
    buf[102] = 30;
    assert_eq!(parse_auth(&buf), Err(AuthFault::Malformed));
    buf[102] = 25;
    assert_eq!(parse_auth(&buf), Ok((vec![0u8; 100], vec![0u8; 25])));
}

#[test]
fn get_packet_roundtrip() {
    let p = get_packet(b"notes.txt");
    assert_eq!(p[0], GET);
    assert_eq!(p[1], 9);
    assert_eq!(get_name(&in_buffer(&p, 128, 1)), b"notes.txt".to_vec());
}

#[test]
fn get_packet_length_byte_wraps() {
    let name = vec![b'x'; 300];
    let p = get_packet(&name);
    assert_eq!(p.len(), 302);
    assert_eq!(p[1], 44);
}

#[test]
fn file_offer_roundtrip() {
    let hash = "ab".repeat(32);
    let p = file_info_packet(3, 0x0102030405060708, &hash);
    assert_eq!(p.len(), 1 + 8 + 8 + 64);
    assert_eq!(p[0], FILE_INFO);
    assert_eq!(&p[1..9], &3u64.to_be_bytes());
    assert_eq!(&p[9..17], &[1, 2, 3, 4, 5, 6, 7, 8]);
    assert_eq!(&p[17..], hash.as_bytes());
    assert_eq!(
        read_get_reply(&in_buffer(&p, 1024, 9)),
        GetReply::Offered { chunks: 3, len: 0x0102030405060708, hash: hash.as_bytes().to_vec() }
    );
    assert_eq!(read_get_reply(&in_buffer(&[NOTEXIST], 1024, 9)), GetReply::Missing);
    assert_eq!(read_get_reply(&[NOTEXIST]), GetReply::Missing);
}

#[test]
fn chunk_message_layout_and_roundtrip() {
    let hash = "0f".repeat(32);
    let p = chunk_message(2, b"data!", &hash);
    assert_eq!(p.len(), 1 + 8 + 5 + 1 + 64 + 8);
    assert_eq!(p[0], DATA_CHUNK);
    assert_eq!(&p[1..9], &2u64.to_be_bytes());
    assert_eq!(&p[9..14], b"data!");
    assert_eq!(p[14], HASH_CHUNK);
    assert_eq!(read_data_chunk(&p[..14]), Some((2, b"data!".to_vec())));
    assert_eq!(read_hash_chunk(&p[14..]), Some((hash.as_bytes().to_vec(), 2)));
    assert_eq!(read_data_chunk(&p[14..]), None);
    assert_eq!(read_hash_chunk(&p[..80]), None);
}

#[test]
fn chunk_verdicts() {
    let ok = chunk_reply(true, 7);
    assert_eq!(ok, vec![ACK, 0, 0, 0, 0, 0, 0, 0, 7]);
    let bad = chunk_reply(false, 258);
    assert_eq!(bad, vec![FAIL, 0, 0, 0, 0, 0, 0, 1, 2]);
    assert_eq!(reply_chunk_number(&in_buffer(&bad, 128, 0)), 258);
}

#[test]
fn listing_head_roundtrip() {
    let p = listing_head(3);
    assert_eq!(p, vec![ACK, 0, 0, 0, 0, 0, 0, 0, 3]);
    assert_eq!(listing_count(&in_buffer(&p, 1024, 0xff)), 3);
    assert_eq!(listing_count(&listing_head(u64::MAX)), u64::MAX);
}

#[test]
fn listing_entry_roundtrip() {
    let p = listing_entry(1536, b"a.bin");
    assert_eq!(p.len(), 22);
    assert_eq!(p[0], FILE_METADATA);
    assert_eq!(&p[1..9], &1536u64.to_be_bytes());
    assert_eq!(&p[9..17], &5u64.to_be_bytes());
    let buf = in_buffer(&p, 1024, 0);
    assert_eq!(read_listing_entry(&buf, 22), Some((1536, b"a.bin".to_vec())));
    assert_eq!(read_listing_entry(&buf, 1024), Some((1536, b"a.bin".to_vec())));
}

#[test]
fn listing_entry_cut_short() {
    let p = listing_entry(10, b"a.bin");
    let buf = in_buffer(&p, 1024, 0);
    assert_eq!(read_listing_entry(&buf, 21), None);
    assert_eq!(read_listing_entry(&buf, 0), None);
    let mut huge = buf.clone();
    huge[9..17].copy_from_slice(&u64::MAX.to_be_bytes());
    assert_eq!(read_listing_entry(&huge, 1024), None);
}

#[test]
fn hash_packet_roundtrip() {
    let h = String::from("00ff");
    let p = hash_packet(&h);
    assert_eq!(p, vec![HASH, 0, 0, 0, 0, 0, 0, 0, 4, b'0', b'0', b'f', b'f']);
    let r = read_hash_reply(&in_buffer(&p, 1024, 0x33));
    assert!(r.tagged);
    assert_eq!(r.digest, b"00ff".to_vec());
    let mut untagged = in_buffer(&p, 1024, 0x33);
    untagged[0] = ACK;
    assert!(!read_hash_reply(&untagged).tagged);
}
