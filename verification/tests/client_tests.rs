use psfsp::client::{
    digest_matches, download_confirmed, listing_item, login_accepted, login_required, menu_choice,
    Download, ListingItem, MenuChoice,
};
use psfsp::wire::listing_entry;
use psfsp::digest::content_hash;
use psfsp::wire::{hash_packet, read_hash_reply};
use psfsp::wire::chunk_message;
use psfsp::wire::{read_data_chunk, read_hash_chunk};
use psfsp::{ACK, AUTH, AUTH_NONE, AUTH_PASSWORD, CHUNK_LEN, FAIL};

#[test]
fn menu_entries() {
    assert_eq!(menu_choice(b"1"), Some(MenuChoice::ListFiles));
    assert_eq!(menu_choice(b"2"), Some(MenuChoice::Download));
    assert_eq!(menu_choice(b"3"), Some(MenuChoice::Exit));
    assert_eq!(menu_choice(b"4"), None);
    assert_eq!(menu_choice(b""), None);
    assert_eq!(menu_choice(b"12"), None);
}

#[test]
fn login_replies() {
    assert!(login_required(&[AUTH, AUTH_PASSWORD]));
    assert!(!login_required(&[AUTH, AUTH_NONE]));
    assert!(!login_required(&[ACK, AUTH_PASSWORD]));
    assert!(login_accepted(&[ACK, 9]));
    assert!(!login_accepted(&[FAIL]));
}

#[test]
fn content_hash_known_values() {
    assert_eq!(
        content_hash(b""),
        "af1349b9f5f9a1a6a0404dea36dcc9499bcb25c9adc112b7cc9a93cae41f3262"
    );
    let h = content_hash(b"abc");
    assert_eq!(h.len(), 64);
    assert!(h.chars().all(|c| c.is_ascii_digit() || ('a'..='f').contains(&c)));
    assert_ne!(h, content_hash(b"abd"));
    assert_ne!(h.as_bytes(), b"abc");
}

#[test]
fn download_check_end_to_end() {
    let data = b"some file content".to_vec();
    let sent = content_hash(&data);
    let mut buf = vec![0x77u8; 1024];
    let p = hash_packet(&sent);
    buf[..p.len()].copy_from_slice(&p);
    let reply = read_hash_reply(&buf);
    assert!(reply.tagged);
    assert!(digest_matches(&content_hash(&data), &reply.digest));
    assert!(!digest_matches(&content_hash(b"other content"), &reply.digest));
}

#[test]
fn digest_compare_reads_bytes_as_text() {
    assert!(digest_matches(&String::from("ab"), b"ab"));
    assert!(!digest_matches(&String::from("ab"), b"abc"));
    // invalid UTF-8 is read with U+FFFD in its place
    assert!(digest_matches(&String::from("a\u{FFFD}"), &[b'a', 0xff]));
    assert!(!digest_matches(&String::from("a"), &[b'a', 0xff]));
}

#[test]
fn download_expects_chunk_lengths() {
    let c = CHUNK_LEN as u64;
    let mut d = Download::new(2 * c + 10, 3);
    assert!(!d.is_complete());
    assert_eq!(d.next_chunk(), 0);
    assert_eq!(d.next_chunk_len(), CHUNK_LEN);
    d.advance(&vec![1u8; CHUNK_LEN]);
    assert_eq!(d.next_chunk_len(), CHUNK_LEN);
    d.advance(&vec![2u8; CHUNK_LEN]);
    assert_eq!(d.next_chunk(), 2);
    assert_eq!(d.next_chunk_len(), 10);
    d.advance(&[3u8; 10]);
    assert!(d.is_complete());
    assert_eq!(d.next_chunk_len(), 0);
    assert!(Download::new(0, 0).is_complete());
    let bogus = Download::new(5, u64::MAX);
    assert_eq!(bogus.next_chunk_len(), 5);
}

#[test]
fn chunk_check_against_server_message() {
    let data = b"hello chunk".to_vec();
    let hash = content_hash(&data);
    let msg = chunk_message(0, &data, &hash);
    let (k, got) = read_data_chunk(&msg[..9 + data.len()]).unwrap();
    let (h, hk) = read_hash_chunk(&msg[9 + data.len()..]).unwrap();
    let d = Download::new(data.len() as u64, 1);
    assert!(d.check_chunk(k, &got, hk, &h));
    assert!(!d.check_chunk(1, &got, hk, &h));
    assert!(!d.check_chunk(k, &got, 1, &h));
    assert!(!d.check_chunk(k, b"hello chunK", hk, &h));
    assert!(!Download::new(data.len() as u64 + 1, 1).check_chunk(k, &got, hk, &h));
}

#[test]
fn download_confirmation() {
    assert!(download_confirmed(b"y"));
    assert!(!download_confirmed(b"Y"));
    assert!(!download_confirmed(b"yes"));
    assert!(!download_confirmed(b""));
}

#[test]
fn listing_items() {
    let p = listing_entry(42, b"f");
    let mut buf = vec![0u8; 1024];
    buf[..p.len()].copy_from_slice(&p);
    assert_eq!(listing_item(&buf, 0), ListingItem::ConnectionLost);
    assert_eq!(listing_item(&buf, p.len() - 1), ListingItem::Malformed);
    assert_eq!(listing_item(&buf, p.len()), ListingItem::Entry { size: 42, name: b"f".to_vec() });
}
