use psfsp::digest::content_hash;
use psfsp::index::FileIndex;
use psfsp::session::{Action, Event, Phase, ServerSession, SessionError};
use psfsp::wire::{
    auth_packet, auth_request, chunk_message, chunk_reply, file_info_packet, get_packet,
    hash_packet, listing_entry, listing_head,
};
use psfsp::{ACK, AUTH, AVAILABLE, BYE, CHUNK_LEN, FAIL, NOTEXIST, SERVER_BUFFER_LEN};

fn buffer(packet: &[u8]) -> Vec<u8> {
    let mut b = vec![0xeeu8; SERVER_BUFFER_LEN];
    b[..packet.len()].copy_from_slice(packet);
    b
}

fn index() -> FileIndex {
    let mut idx = FileIndex::new();
    idx.insert(String::from("a.txt"));
    idx.insert(String::from("b.bin"));
    idx
}

fn session() -> ServerSession {
    ServerSession::new(index(), String::from("user"), String::from("pw"))
}

fn expect_send_receive(a: Action) -> Vec<u8> {
    match a {
        Action::SendThenReceive(p) => p,
        _ => panic!("expected a packet to send, then a read"),
    }
}

fn expect_reject(a: Action) -> (Option<Vec<u8>>, bool, SessionError) {
    match a {
        Action::Reject { reply, shutdown, error } => (reply, shutdown, error),
        _ => panic!("expected the session to end"),
    }
}

fn logged_in() -> ServerSession {
    let mut s = session();
    assert_eq!(expect_send_receive(s.step(Event::PeerChecked(true))), auth_request());
    let ev = Event::Received(buffer(&auth_packet(b"user", b"pw")));
    assert!(s.can_take(&ev));
    assert_eq!(expect_send_receive(s.step(ev)), vec![ACK]);
    assert_eq!(s.phase(), Phase::Ready);
    s
}

#[test]
fn foreign_peer_is_refused() {
    let mut s = session();
    assert_eq!(s.phase(), Phase::AwaitPeer);
    let (reply, shutdown, error) = expect_reject(s.step(Event::PeerChecked(false)));
    assert_eq!(reply, None);
    assert!(!shutdown);
    assert_eq!(error, SessionError::ForeignPeer);
    assert_eq!(s.phase(), Phase::Closed);
}

#[test]
fn good_login() {
    logged_in();
}

#[test]
fn wrong_password_is_failed_and_shut_down() {
    let mut s = session();
    s.step(Event::PeerChecked(true));
    let (reply, shutdown, error) =
        expect_reject(s.step(Event::Received(buffer(&auth_packet(b"user", b"nope")))));
    assert_eq!(reply, Some(vec![FAIL]));
    assert!(shutdown);
    assert_eq!(error, SessionError::BadCredentials);
    assert_eq!(s.phase(), Phase::Closed);
}

#[test]
fn login_faults() {
    let mut s = session();
    s.step(Event::PeerChecked(true));
    let (_, _, error) = expect_reject(s.step(Event::Received(buffer(&[GET_BYTE]))));
    assert_eq!(error, SessionError::NotAuthPacket);

    let mut s = session();
    s.step(Event::PeerChecked(true));
    let (_, _, error) = expect_reject(s.step(Event::Received(buffer(&[AUTH, 200]))));
    assert_eq!(error, SessionError::MalformedAuth);
}

const GET_BYTE: u8 = 0x03;

#[test]
fn unknown_file_is_answered_notexist() {
    let mut s = logged_in();
    let (reply, shutdown, error) =
        expect_reject(s.step(Event::Received(buffer(&get_packet(b"missing.txt")))));
    assert_eq!(reply, Some(vec![NOTEXIST]));
    assert!(!shutdown);
    assert_eq!(error, SessionError::NoSuchFile);
}

#[test]
fn invalid_command_ends_session() {
    let mut s = logged_in();
    let (_, _, error) = expect_reject(s.step(Event::Received(buffer(&[0x42]))));
    assert_eq!(error, SessionError::InvalidCommand);
    let (_, _, error) = expect_reject(s.step(Event::Sent));
    assert_eq!(error, SessionError::UnexpectedEvent);
}

#[test]
fn get_name_past_buffer_is_not_taken() {
    let s = logged_in();
    let mut b = buffer(&[GET_BYTE, 200]);
    b.truncate(SERVER_BUFFER_LEN);
    assert!(!s.can_take(&Event::Received(b)));
}

#[test]
fn bye_finishes() {
    let mut s = logged_in();
    assert!(matches!(s.step(Event::Received(buffer(&[BYE]))), Action::Finish));
    assert_eq!(s.phase(), Phase::Closed);
}

#[test]
fn listing_lists_every_file_with_its_size() {
    let mut s = logged_in();
    match s.step(Event::Received(buffer(&[AVAILABLE]))) {
        Action::Send(p) => assert_eq!(p, listing_head(2)),
        _ => panic!("expected the listing head"),
    }
    match s.step(Event::Sent) {
        Action::StatFile(n) => assert_eq!(n, "a.txt"),
        _ => panic!("expected a size lookup"),
    }
    assert_eq!(expect_send_receive(s.step(Event::FileSize(10))), listing_entry(10, b"a.txt"));
    match s.step(Event::Received(buffer(&[ACK]))) {
        Action::StatFile(n) => assert_eq!(n, "b.bin"),
        _ => panic!("expected a size lookup"),
    }
    assert_eq!(expect_send_receive(s.step(Event::FileSize(2048))), listing_entry(2048, b"b.bin"));
    assert!(matches!(s.step(Event::Received(buffer(&[ACK]))), Action::Receive));
    assert_eq!(s.phase(), Phase::Ready);
}

#[test]
fn listing_of_nothing() {
    let mut s = ServerSession::new(FileIndex::new(), String::from("u"), String::from("p"));
    s.step(Event::PeerChecked(true));
    s.step(Event::Received(buffer(&auth_packet(b"u", b"p"))));
    match s.step(Event::Received(buffer(&[AVAILABLE]))) {
        Action::Send(p) => assert_eq!(p, listing_head(0)),
        _ => panic!("expected the listing head"),
    }
    assert!(matches!(s.step(Event::Sent), Action::Receive));
    assert_eq!(s.phase(), Phase::Ready);
}

fn offered(s: &mut ServerSession, name: &[u8], content: &[u8]) -> Vec<u8> {
    match s.step(Event::Received(buffer(&get_packet(name)))) {
        Action::LoadFile(n) => assert_eq!(n.as_bytes(), name),
        _ => panic!("expected the file to be loaded"),
    }
    expect_send_receive(s.step(Event::Contents(content.to_vec())))
}

fn ack(k: u64) -> Event {
    Event::Received(buffer(&chunk_reply(true, k)))
}

fn nack(k: u64) -> Event {
    Event::Received(buffer(&chunk_reply(false, k)))
}

fn message(data: &[u8], k: u64) -> Vec<u8> {
    chunk_message(k, data, &content_hash(data))
}

#[test]
fn download_of_one_chunk() {
    let mut s = logged_in();
    let offer = offered(&mut s, b"b.bin", b"abcdef");
    assert_eq!(offer, file_info_packet(1, 6, &content_hash(b"abcdef")));
    assert_eq!(s.phase(), Phase::AwaitOfferReply { file: 1 });
    let again = buffer(&get_packet(b"b.bin"));
    assert_eq!(expect_send_receive(s.step(Event::Received(again))), message(b"abcdef", 0));
    assert_eq!(s.phase(), Phase::AwaitChunkAck { file: 1, chunk: 0, retries: 0 });
    let p = expect_send_receive(s.step(ack(0)));
    assert_eq!(p, hash_packet(&content_hash(b"abcdef")));
    assert_eq!(p.len(), 1 + 8 + 64);
    assert_eq!(s.phase(), Phase::Ready);
}

#[test]
fn download_of_two_chunks() {
    let content: Vec<u8> = (0..CHUNK_LEN + 5).map(|i| (i % 251) as u8).collect();
    let mut s = logged_in();
    let offer = offered(&mut s, b"a.txt", &content);
    assert_eq!(offer, file_info_packet(2, content.len() as u64, &content_hash(&content)));
    let again = buffer(&get_packet(b"a.txt"));
    assert_eq!(
        expect_send_receive(s.step(Event::Received(again))),
        message(&content[..CHUNK_LEN], 0)
    );
    assert_eq!(expect_send_receive(s.step(ack(0))), message(&content[CHUNK_LEN..], 1));
    assert_eq!(expect_send_receive(s.step(ack(1))), hash_packet(&content_hash(&content)));
    assert_eq!(s.phase(), Phase::Ready);
}

#[test]
fn download_of_empty_file() {
    let mut s = logged_in();
    let offer = offered(&mut s, b"a.txt", b"");
    assert_eq!(offer, file_info_packet(0, 0, &content_hash(b"")));
    let again = buffer(&get_packet(b"a.txt"));
    assert_eq!(expect_send_receive(s.step(Event::Received(again))), hash_packet(&content_hash(b"")));
    assert_eq!(s.phase(), Phase::Ready);
}

#[test]
fn refused_offer_and_wrong_verdict() {
    let mut s = logged_in();
    offered(&mut s, b"a.txt", b"xyz");
    let (reply, _, error) = expect_reject(s.step(Event::Received(buffer(&[FAIL]))));
    assert_eq!(reply, None);
    assert_eq!(error, SessionError::DownloadDenied);

    let mut s = logged_in();
    offered(&mut s, b"a.txt", b"xyz");
    s.step(Event::Received(buffer(&get_packet(b"a.txt"))));
    let (reply, _, error) = expect_reject(s.step(ack(5)));
    assert_eq!(reply, Some(vec![BYE]));
    assert_eq!(error, SessionError::DownloadAborted);
}

#[test]
fn failed_chunk_is_sent_again_three_times_then_bye() {
    let mut s = logged_in();
    offered(&mut s, b"a.txt", b"xyz");
    s.step(Event::Received(buffer(&get_packet(b"a.txt"))));
    for retries in 1..=3u8 {
        assert_eq!(expect_send_receive(s.step(nack(0))), message(b"xyz", 0));
        assert_eq!(s.phase(), Phase::AwaitChunkAck { file: 0, chunk: 0, retries });
    }
    let (reply, shutdown, error) = expect_reject(s.step(nack(0)));
    assert_eq!(reply, Some(vec![BYE]));
    assert!(!shutdown);
    assert_eq!(error, SessionError::DownloadAborted);
}

#[test]
fn resent_chunk_then_acknowledged() {
    let mut s = logged_in();
    offered(&mut s, b"a.txt", b"xyz");
    s.step(Event::Received(buffer(&get_packet(b"a.txt"))));
    assert_eq!(expect_send_receive(s.step(nack(0))), message(b"xyz", 0));
    assert_eq!(expect_send_receive(s.step(ack(0))), hash_packet(&content_hash(b"xyz")));
    assert_eq!(s.phase(), Phase::Ready);
}
