//! The server's side of a session, from the moment a redirected client has
//! connected: a state machine that takes the outcome of each piece of
//! outside work (a packet received, a file's size, a file's content) and
//! says what to do next. The program around it does the network and file
//! work.
use vstd::prelude::*;
use vstd::utf8::encode_utf8;

use crate::digest::{blake3_hex, content_hash};
use crate::index::FileIndex;
use crate::protocol::{ACK, AVAILABLE, BYE, CHUNK_LEN, CHUNK_RETRIES, FAIL, GET, NOTEXIST};
use crate::text::{decode_lossy, law_lossy_text_of_utf8, lossy_text};
use crate::wire::{
    auth_packet_spec, auth_request, auth_request_spec, be_bytes, be_value, chunk_count, chunk_message,
    copy_range, data_chunk_spec, file_info_packet, file_info_packet_spec, get_name, get_name_fits,
    get_name_spec, get_packet_spec, hash_chunk_spec, hash_packet, hash_packet_spec,
    law_auth_roundtrip, law_get_roundtrip, listing_entry, listing_entry_spec, listing_head,
    listing_head_spec, parse_auth, parse_auth_spec, reply_chunk_number, AuthFault,
};

verus! {

/// Why a session ended early.
#[derive(Clone, Copy, Debug, PartialEq, Eq, Structural)]
pub enum SessionError {
    /// The redirected connection came from another address than the greeting.
    ForeignPeer,
    /// The client did not answer the login request with a login packet.
    NotAuthPacket,
    /// A length in the login packet points past the end of the buffer.
    MalformedAuth,
    /// Wrong username or password.
    BadCredentials,
    /// The client asked for a file that is not shared.
    NoSuchFile,
    /// The client did not answer the offer of a file with `GET`.
    DownloadDenied,
    /// A chunk was reported failed once too often, or answered with neither
    /// `ACK` nor `FAIL` for its number.
    DownloadAborted,
    /// The client sent a command the server does not know.
    InvalidCommand,
    /// An event the session was not waiting for.
    UnexpectedEvent,
}

/// Where a session stands. A `file` is a position in the shared index; a
/// `chunk` is the number of a chunk of the file being sent.
#[derive(Clone, Copy, Debug, PartialEq, Eq, Structural)]
pub enum Phase {
    /// Waiting to learn whether the redirected peer is the one that greeted.
    AwaitPeer,
    /// The login request was sent; waiting for the login packet.
    AwaitAuth,
    /// Logged in; waiting for a command.
    Ready,
    /// The head of a listing is being sent.
    ListingHead,
    /// Waiting for the size of the listed file.
    ListingSize { file: usize },
    /// An entry was sent; waiting for the client's answer to it.
    ListingReply { file: usize },
    /// Waiting for the content of the requested file.
    Loading { file: usize },
    /// The file was offered; waiting for the client's `GET` that starts the
    /// download.
    AwaitOfferReply { file: usize },
    /// Chunk `chunk` was sent, and sent again `retries` times after the
    /// client reported it failed; waiting for the client's verdict.
    AwaitChunkAck { file: usize, chunk: usize, retries: u8 },
    /// The session is over.
    Closed,
}

/// The outcome of the outside work a session asked for.
pub enum Event {
    /// Whether the redirected peer has the address that greeted.
    PeerChecked(bool),
    /// The contents of the receive buffer after a read.
    Received(Vec<u8>),
    /// A packet was written.
    Sent,
    /// The size of a file, in bytes.
    FileSize(u64),
    /// The whole content of a file.
    Contents(Vec<u8>),
}

/// An [`Event`] with its bytes as sequences.
pub enum EventView {
    PeerChecked(bool),
    Received(Seq<u8>),
    Sent,
    FileSize(u64),
    Contents(Seq<u8>),
}

impl View for Event {
    type V = EventView;

    open spec fn view(&self) -> EventView {
        match self {
            Event::PeerChecked(b) => EventView::PeerChecked(*b),
            Event::Received(v) => EventView::Received(v@),
            Event::Sent => EventView::Sent,
            Event::FileSize(n) => EventView::FileSize(*n),
            Event::Contents(v) => EventView::Contents(v@),
        }
    }
}

/// The outside work a session asks for next.
pub enum Action {
    /// Write the packet; report `Sent`.
    Send(Vec<u8>),
    /// Write the packet, then read; report `Received`.
    SendThenReceive(Vec<u8>),
    /// Read; report `Received`.
    Receive,
    /// Look up the size of the shared file; report `FileSize`.
    StatFile(String),
    /// Read the whole shared file; report `Contents`.
    LoadFile(String),
    /// End the session: write `reply` if there is one, shut the connection
    /// down for writing if `shutdown`, and fail with `error`.
    Reject { reply: Option<Vec<u8>>, shutdown: bool, error: SessionError },
    /// End the session normally: close the connection.
    Finish,
}

/// An [`Action`] with its bytes and names as sequences.
pub enum ActionView {
    Send(Seq<u8>),
    SendThenReceive(Seq<u8>),
    Receive,
    StatFile(Seq<char>),
    LoadFile(Seq<char>),
    Reject { reply: Option<Seq<u8>>, shutdown: bool, error: SessionError },
    Finish,
}

impl View for Action {
    type V = ActionView;

    open spec fn view(&self) -> ActionView {
        match self {
            Action::Send(v) => ActionView::Send(v@),
            Action::SendThenReceive(v) => ActionView::SendThenReceive(v@),
            Action::Receive => ActionView::Receive,
            Action::StatFile(s) => ActionView::StatFile(s@),
            Action::LoadFile(s) => ActionView::LoadFile(s@),
            Action::Reject { reply, shutdown, error } => ActionView::Reject {
                reply: match reply {
                    Some(v) => Some(v@),
                    None => None,
                },
                shutdown: *shutdown,
                error: *error,
            },
            Action::Finish => ActionView::Finish,
        }
    }
}

/// Where chunk `k` starts in a file.
pub open spec fn chunk_start(k: int) -> int {
    k * (CHUNK_LEN as int)
}

/// Chunk `k` of `content`: `CHUNK_LEN` bytes from its start, fewer for the
/// last one.
pub open spec fn chunk_of(content: Seq<u8>, k: int) -> Seq<u8> {
    let s = chunk_start(k);
    content.subrange(
        s,
        if s + CHUNK_LEN < content.len() {
            s + CHUNK_LEN
        } else {
            content.len() as int
        },
    )
}

/// What the server sends for chunk `k` of `content`: the chunk, then its
/// hash.
pub open spec fn chunk_message_spec(content: Seq<u8>, k: int) -> Seq<u8> {
    data_chunk_spec(k as u64, chunk_of(content, k)) + hash_chunk_spec(
        blake3_hex(chunk_of(content, k)),
        k as u64,
    )
}

/// The offer of a file of content `content`.
pub open spec fn offer_spec(content: Seq<u8>) -> Seq<u8> {
    file_info_packet_spec(chunk_count(content.len()) as u64, content.len() as u64, blake3_hex(content))
}

/// The end of a download: the hash of the whole file is sent, and the
/// session waits for the next command.
pub open spec fn finish_download(content: Seq<u8>) -> (Phase, ActionView) {
    (Phase::Ready, ActionView::SendThenReceive(hash_packet_spec(blake3_hex(content))))
}

/// Every file a phase refers to is in an index of `n` files, and a chunk
/// being sent starts inside the content of `len` bytes.
pub open spec fn phase_wf(ph: Phase, n: nat, len: nat) -> bool {
    match ph {
        Phase::ListingSize { file } => file < n,
        Phase::ListingReply { file } => file < n,
        Phase::Loading { file } => file < n,
        Phase::AwaitOfferReply { file } => file < n,
        Phase::AwaitChunkAck { file, chunk, .. } => file < n && chunk_start(chunk as int) < len,
        _ => true,
    }
}

/// Ending the session with `error`, with no reply.
pub open spec fn fail(error: SessionError) -> (Phase, ActionView) {
    (Phase::Closed, ActionView::Reject { reply: None, shutdown: false, error })
}

/// Ending a download that failed: the server says `BYE` and closes.
pub open spec fn abort_download() -> (Phase, ActionView) {
    (
        Phase::Closed,
        ActionView::Reject {
            reply: Some(seq![BYE]),
            shutdown: false,
            error: SessionError::DownloadAborted,
        },
    )
}

/// Whether a session in `ph` can take `ev` (the server reads the first bytes
/// of its buffer, and the name of a `GET`, without looking at lengths).
pub open spec fn accepts(ph: Phase, ev: EventView) -> bool {
    match ev {
        EventView::Received(b) => match ph {
            Phase::AwaitAuth => b.len() >= 2,
            Phase::Ready => b.len() >= 1 && (b[0] == GET ==> get_name_fits(b)),
            Phase::AwaitOfferReply { .. } => b.len() >= 1,
            Phase::AwaitChunkAck { .. } => b.len() >= 9,
            _ => true,
        },
        _ => true,
    }
}

/// The answer to a login packet in `b`, for the configured `user` and `pass`.
pub open spec fn next_login(b: Seq<u8>, user: Seq<char>, pass: Seq<char>) -> (Phase, ActionView) {
    match parse_auth_spec(b) {
        Err(AuthFault::NotAuthPacket) => fail(SessionError::NotAuthPacket),
        Err(AuthFault::Malformed) => fail(SessionError::MalformedAuth),
        Ok((u, p)) => if lossy_text(u) == user && lossy_text(p) == pass {
            (Phase::Ready, ActionView::SendThenReceive(seq![ACK]))
        } else {
            (
                Phase::Closed,
                ActionView::Reject {
                    reply: Some(seq![FAIL]),
                    shutdown: true,
                    error: SessionError::BadCredentials,
                },
            )
        },
    }
}

/// The answer to a command in `b`, over the shared `names`.
pub open spec fn next_command(b: Seq<u8>, names: Seq<Seq<char>>) -> (Phase, ActionView) {
    if b[0] == GET {
        let name = lossy_text(get_name_spec(b));
        if names.contains(name) {
            (Phase::Loading { file: names.index_of(name) as usize }, ActionView::LoadFile(name))
        } else {
            (
                Phase::Closed,
                ActionView::Reject {
                    reply: Some(seq![NOTEXIST]),
                    shutdown: false,
                    error: SessionError::NoSuchFile,
                },
            )
        }
    } else if b[0] == AVAILABLE {
        (Phase::ListingHead, ActionView::Send(listing_head_spec(names.len() as u64)))
    } else if b[0] == BYE {
        (Phase::Closed, ActionView::Finish)
    } else {
        fail(SessionError::InvalidCommand)
    }
}

/// After the listing entry of file `i` was answered: the next file's size,
/// or back to waiting for commands.
pub open spec fn next_listed(i: int, names: Seq<Seq<char>>) -> (Phase, ActionView) {
    if i + 1 < names.len() {
        (Phase::ListingSize { file: (i + 1) as usize }, ActionView::StatFile(names[i + 1]))
    } else {
        (Phase::Ready, ActionView::Receive)
    }
}

/// After chunk `k` of `content` was acknowledged: the next chunk, or the
/// hash of the whole file after the last.
pub open spec fn next_chunk(file: usize, k: int, content: Seq<u8>) -> (Phase, ActionView) {
    if chunk_start(k + 1) < content.len() {
        (
            Phase::AwaitChunkAck { file, chunk: (k + 1) as usize, retries: 0 },
            ActionView::SendThenReceive(chunk_message_spec(content, k + 1)),
        )
    } else {
        finish_download(content)
    }
}

/// The client's verdict `b` on chunk `k`, sent `retries` times again already.
pub open spec fn next_verdict(
    file: usize,
    k: int,
    retries: u8,
    content: Seq<u8>,
    b: Seq<u8>,
) -> (Phase, ActionView) {
    if b[0] == ACK && be_value(b, 1) == k {
        next_chunk(file, k, content)
    } else if b[0] == FAIL && be_value(b, 1) == k && retries < CHUNK_RETRIES {
        (
            Phase::AwaitChunkAck { file, chunk: k as usize, retries: (retries + 1) as u8 },
            ActionView::SendThenReceive(chunk_message_spec(content, k)),
        )
    } else {
        abort_download()
    }
}

/// What a session in `ph`, holding the file `content` loaded last,
/// configured with `user`, `pass` and the shared `names`, does on `ev`: its
/// next phase and the work it asks for.
pub open spec fn next(
    ph: Phase,
    content: Seq<u8>,
    user: Seq<char>,
    pass: Seq<char>,
    names: Seq<Seq<char>>,
    ev: EventView,
) -> (Phase, ActionView) {
    match (ph, ev) {
        (Phase::AwaitPeer, EventView::PeerChecked(same)) => if same {
            (Phase::AwaitAuth, ActionView::SendThenReceive(auth_request_spec()))
        } else {
            fail(SessionError::ForeignPeer)
        },
        (Phase::AwaitAuth, EventView::Received(b)) => next_login(b, user, pass),
        (Phase::Ready, EventView::Received(b)) => next_command(b, names),
        (Phase::ListingHead, EventView::Sent) => if names.len() == 0 {
            (Phase::Ready, ActionView::Receive)
        } else {
            (Phase::ListingSize { file: 0 }, ActionView::StatFile(names[0]))
        },
        (Phase::ListingSize { file }, EventView::FileSize(size)) => (
            Phase::ListingReply { file },
            ActionView::SendThenReceive(listing_entry_spec(size, encode_utf8(names[file as int]))),
        ),
        (Phase::ListingReply { file }, EventView::Received(_)) => next_listed(file as int, names),
        (Phase::Loading { file }, EventView::Contents(d)) => (
            Phase::AwaitOfferReply { file },
            ActionView::SendThenReceive(offer_spec(d)),
        ),
        (Phase::AwaitOfferReply { file }, EventView::Received(b)) => if b[0] != GET {
            fail(SessionError::DownloadDenied)
        } else if content.len() == 0 {
            finish_download(content)
        } else {
            (
                Phase::AwaitChunkAck { file, chunk: 0, retries: 0 },
                ActionView::SendThenReceive(chunk_message_spec(content, 0)),
            )
        },
        (Phase::AwaitChunkAck { file, chunk, retries }, EventView::Received(b)) => next_verdict(
            file,
            chunk as int,
            retries,
            content,
            b,
        ),
        _ => fail(SessionError::UnexpectedEvent),
    }
}

/// The file content a session holds after `ev` in `ph`: a file just loaded
/// replaces the one held before.
pub open spec fn next_content(ph: Phase, content: Seq<u8>, ev: EventView) -> Seq<u8> {
    match (ph, ev) {
        (Phase::Loading { .. }, EventView::Contents(d)) => d,
        _ => content,
    }
}

/// One client's session on the server.
pub struct ServerSession {
    phase: Phase,
    content: Vec<u8>,
    index: FileIndex,
    username: String,
    password: String,
}

impl ServerSession {
    /// Where the session stands.
    pub closed spec fn phase_of(&self) -> Phase {
        self.phase
    }

    /// The content of the file loaded last.
    pub closed spec fn content_of(&self) -> Seq<u8> {
        self.content@
    }

    /// The names of the shared files.
    pub closed spec fn names(&self) -> Seq<Seq<char>> {
        self.index@
    }

    /// The username a client must give.
    pub closed spec fn user(&self) -> Seq<char> {
        self.username@
    }

    /// The password a client must give.
    pub closed spec fn pass(&self) -> Seq<char> {
        self.password@
    }

    /// The shared names are distinct and the phase refers only to them and
    /// to the loaded content.
    pub open spec fn wf(&self) -> bool {
        &&& self.names().no_duplicates()
        &&& phase_wf(self.phase_of(), self.names().len(), self.content_of().len())
    }

    /// A session that shares the files of `index` with whoever logs in as
    /// `username` with `password`, waiting to learn who connected.
    pub fn new(index: FileIndex, username: String, password: String) -> (s: ServerSession)
        requires
            index.wf(),
        ensures
            s.wf(),
            s.phase_of() == Phase::AwaitPeer,
            s.content_of() == Seq::<u8>::empty(),
            s.names() == index@,
            s.user() == username@,
            s.pass() == password@,
    {
        ServerSession { phase: Phase::AwaitPeer, content: Vec::new(), index, username, password }
    }

    /// Where the session stands.
    pub fn phase(&self) -> (ph: Phase)
        ensures
            ph == self.phase_of(),
    {
        self.phase
    }

    /// Whether the session can take `ev` now.
    pub fn can_take(&self, ev: &Event) -> (b: bool)
        ensures
            b == accepts(self.phase_of(), ev@),
    {
        match ev {
            Event::Received(b) => match self.phase {
                Phase::AwaitAuth => b.len() >= 2,
                Phase::Ready => b.len() >= 1 && (b[0] != GET || (b.len() >= 2 && 2 + (b[1] as usize)
                    <= b.len())),
                Phase::AwaitOfferReply { .. } => b.len() >= 1,
                Phase::AwaitChunkAck { .. } => b.len() >= 9,
                _ => true,
            },
            _ => true,
        }
    }

    /// What the server sends for chunk `k` of the loaded file.
    fn chunk_message_of(&self, k: usize) -> (p: Vec<u8>)
        requires
            chunk_start(k as int) < self.content_of().len(),
        ensures
            p@ == chunk_message_spec(self.content_of(), k as int),
    {
        let len = self.content.len();
        let start = k * CHUNK_LEN;
        let end = if len - start > CHUNK_LEN {
            start + CHUNK_LEN
        } else {
            len
        };
        let data = copy_range(self.content.as_slice(), start, end);
        let h = content_hash(data.as_slice());
        chunk_message(k as u64, data.as_slice(), &h)
    }

    /// The number of chunks `content` is sent in.
    fn chunks_of(content: &Vec<u8>) -> (n: u64)
        ensures
            n == chunk_count(content@.len()),
    {
        let len = content.len();
        let n = len / CHUNK_LEN + if len % CHUNK_LEN != 0 {
            1
        } else {
            0
        };
        proof {
            lemma_chunk_count(len as nat);
        }
        n as u64
    }

    /// Takes the outcome `ev` of the work last asked for, moves to the next
    /// phase and says what to do next.
    pub fn step(&mut self, ev: Event) -> (a: Action)
        requires
            old(self).wf(),
            accepts(old(self).phase_of(), ev@),
        ensures
            final(self).wf(),
            final(self).names() == old(self).names(),
            final(self).user() == old(self).user(),
            final(self).pass() == old(self).pass(),
            final(self).content_of() == next_content(
                old(self).phase_of(),
                old(self).content_of(),
                ev@,
            ),
            (final(self).phase_of(), a@) == next(
                old(self).phase_of(),
                old(self).content_of(),
                old(self).user(),
                old(self).pass(),
                old(self).names(),
                ev@,
            ),
    {
        let (ph, a): (Phase, Action) = match (self.phase, ev) {
            (Phase::AwaitPeer, Event::PeerChecked(same)) => {
                if same {
                    (Phase::AwaitAuth, Action::SendThenReceive(auth_request()))
                } else {
                    (Phase::Closed, reject(SessionError::ForeignPeer))
                }
            },
            (Phase::AwaitAuth, Event::Received(b)) => self.login(b.as_slice()),
            (Phase::Ready, Event::Received(b)) => self.command(b.as_slice()),
            (Phase::ListingHead, Event::Sent) => {
                if self.index.len() == 0 {
                    (Phase::Ready, Action::Receive)
                } else {
                    (Phase::ListingSize { file: 0 }, Action::StatFile(self.index.name(0)))
                }
            },
            (Phase::ListingSize { file }, Event::FileSize(size)) => {
                let name = self.index.name(file);
                let entry = listing_entry(size, name.as_str().as_bytes());
                (Phase::ListingReply { file }, Action::SendThenReceive(entry))
            },
            (Phase::ListingReply { file }, Event::Received(_)) => {
                let n = self.index.len();
                if file < n - 1 {
                    (
                        Phase::ListingSize { file: file + 1 },
                        Action::StatFile(self.index.name(file + 1)),
                    )
                } else {
                    (Phase::Ready, Action::Receive)
                }
            },
            (Phase::Loading { file }, Event::Contents(d)) => {
                let chunks = Self::chunks_of(&d);
                let h = content_hash(d.as_slice());
                let offer = file_info_packet(chunks, d.len() as u64, &h);
                self.content = d;
                (Phase::AwaitOfferReply { file }, Action::SendThenReceive(offer))
            },
            (Phase::AwaitOfferReply { file }, Event::Received(b)) => {
                if b[0] != GET {
                    (Phase::Closed, reject(SessionError::DownloadDenied))
                } else if self.content.len() == 0 {
                    self.finish_download()
                } else {
                    (
                        Phase::AwaitChunkAck { file, chunk: 0, retries: 0 },
                        Action::SendThenReceive(self.chunk_message_of(0)),
                    )
                }
            },
            (Phase::AwaitChunkAck { file, chunk, retries }, Event::Received(b)) => {
                let k = reply_chunk_number(b.as_slice());
                if b[0] == ACK && k == chunk as u64 {
                    let len = self.content.len();
                    if len - chunk * CHUNK_LEN > CHUNK_LEN {
                        (
                            Phase::AwaitChunkAck { file, chunk: chunk + 1, retries: 0 },
                            Action::SendThenReceive(self.chunk_message_of(chunk + 1)),
                        )
                    } else {
                        self.finish_download()
                    }
                } else if b[0] == FAIL && k == chunk as u64 && retries < CHUNK_RETRIES {
                    (
                        Phase::AwaitChunkAck { file, chunk, retries: retries + 1 },
                        Action::SendThenReceive(self.chunk_message_of(chunk)),
                    )
                } else {
                    let bye = vec![BYE];
                    assert(bye@ =~= seq![BYE]);
                    (
                        Phase::Closed,
                        Action::Reject {
                            reply: Some(bye),
                            shutdown: false,
                            error: SessionError::DownloadAborted,
                        },
                    )
                }
            },
            (_, _) => (Phase::Closed, reject(SessionError::UnexpectedEvent)),
        };
        self.phase = ph;
        a
    }

    /// The end of a download of the loaded file.
    fn finish_download(&self) -> (r: (Phase, Action))
        ensures
            (r.0, r.1@) == finish_download(self.content_of()),
    {
        let h = content_hash(self.content.as_slice());
        (Phase::Ready, Action::SendThenReceive(hash_packet(&h)))
    }

    /// The answer to the login packet in `b`.
    fn login(&self, b: &[u8]) -> (r: (Phase, Action))
        requires
            b@.len() >= 2,
        ensures
            (r.0, r.1@) == next_login(b@, self.user(), self.pass()),
    {
        match parse_auth(b) {
            Err(AuthFault::NotAuthPacket) => (Phase::Closed, reject(SessionError::NotAuthPacket)),
            Err(AuthFault::Malformed) => (Phase::Closed, reject(SessionError::MalformedAuth)),
            Ok((u, p)) => {
                let user = decode_lossy(u.as_slice());
                let pass = decode_lossy(p.as_slice());
                if user != self.username || pass != self.password {
                    let reply = vec![FAIL];
                    assert(reply@ =~= seq![FAIL]);
                    (
                        Phase::Closed,
                        Action::Reject {
                            reply: Some(reply),
                            shutdown: true,
                            error: SessionError::BadCredentials,
                        },
                    )
                } else {
                    let ack = vec![ACK];
                    assert(ack@ =~= seq![ACK]);
                    (Phase::Ready, Action::SendThenReceive(ack))
                }
            },
        }
    }

    /// The answer to the command in `b`.
    fn command(&self, b: &[u8]) -> (r: (Phase, Action))
        requires
            self.names().no_duplicates(),
            b@.len() >= 1,
            b@[0] == GET ==> get_name_fits(b@),
        ensures
            (r.0, r.1@) == next_command(b@, self.names()),
            phase_wf(r.0, self.names().len(), self.content_of().len()),
    {
        if b[0] == GET {
            let name = decode_lossy(get_name(b).as_slice());
            match self.index.position(&name) {
                Some(i) => (Phase::Loading { file: i }, Action::LoadFile(name)),
                None => {
                    let reply = vec![NOTEXIST];
                    assert(reply@ =~= seq![NOTEXIST]);
                    (
                        Phase::Closed,
                        Action::Reject {
                            reply: Some(reply),
                            shutdown: false,
                            error: SessionError::NoSuchFile,
                        },
                    )
                },
            }
        } else if b[0] == AVAILABLE {
            (Phase::ListingHead, Action::Send(listing_head(self.index.len() as u64)))
        } else if b[0] == BYE {
            (Phase::Closed, Action::Finish)
        } else {
            (Phase::Closed, reject(SessionError::InvalidCommand))
        }
    }
}

/// Ending the session with `error`, with no reply.
fn reject(error: SessionError) -> (a: Action)
    ensures
        a@ == fail(error).1,
{
    Action::Reject { reply: None, shutdown: false, error }
}

/// The number of chunks of a file is its length divided by `CHUNK_LEN`,
/// rounded up.
proof fn lemma_chunk_count(len: nat)
    ensures
        chunk_count(len) == len / (CHUNK_LEN as nat) + if len % (CHUNK_LEN as nat) != 0 {
            1nat
        } else {
            0nat
        },
{
    assert(chunk_count(len) == len / (CHUNK_LEN as nat) + if len % (CHUNK_LEN as nat) != 0 {
        1nat
    } else {
        0nat
    }) by (nonlinear_arith);
}

// ---------------------------------------------------------------------------
// Laws of the session
// ---------------------------------------------------------------------------

/// A phase in which a logged-in client is being served.
pub open spec fn serving(ph: Phase) -> bool {
    !(ph is AwaitPeer || ph is AwaitAuth || ph is Closed)
}

/// `ev` is a login packet whose username and password decode to `user` and
/// `pass`.
pub open spec fn good_login(ev: EventView, user: Seq<char>, pass: Seq<char>) -> bool {
    match ev {
        EventView::Received(b) => match parse_auth_spec(b) {
            Ok((u, p)) => lossy_text(u) == user && lossy_text(p) == pass,
            Err(_) => false,
        },
        _ => false,
    }
}

/// Work that reads a shared file.
pub open spec fn touches_file(a: ActionView) -> bool {
    a is StatFile || a is LoadFile
}

/// Nothing is served before a login with the right credentials: a step that
/// enters a serving phase starts from one, or is the login step itself with a
/// username and password that decode to the configured ones. A step from a
/// phase before login reads no file.
pub proof fn law_login_gate(
    ph: Phase,
    content: Seq<u8>,
    user: Seq<char>,
    pass: Seq<char>,
    names: Seq<Seq<char>>,
    ev: EventView,
)
    ensures
        serving(next(ph, content, user, pass, names, ev).0) ==> serving(ph) || (ph is AwaitAuth
            && good_login(ev, user, pass)),
        !serving(ph) ==> !touches_file(next(ph, content, user, pass, names, ev).1),
{
}

/// Only shared files are ever read: every file a step asks to look at or
/// load is in the index; and the session's phase stays well formed.
pub proof fn law_only_shared_files(
    ph: Phase,
    content: Seq<u8>,
    user: Seq<char>,
    pass: Seq<char>,
    names: Seq<Seq<char>>,
    ev: EventView,
)
    requires
        phase_wf(ph, names.len(), content.len()),
    ensures
        phase_wf(
            next(ph, content, user, pass, names, ev).0,
            names.len(),
            next_content(ph, content, ev).len(),
        ),
        match next(ph, content, user, pass, names, ev).1 {
            ActionView::StatFile(n) => names.contains(n),
            ActionView::LoadFile(n) => names.contains(n),
            _ => true,
        },
{
    match (ph, ev) {
        (Phase::Ready, EventView::Received(b)) => {
            if b.len() > 0 && b[0] == GET {
                let name = lossy_text(get_name_spec(b));
                if names.contains(name) {
                    let k = names.index_of(name);
                    assert(0 <= k < names.len() && names[k] == name);
                }
            }
        },
        (Phase::ListingHead, EventView::Sent) => {
            if names.len() > 0 {
                assert(names.contains(names[0]));
            }
        },
        (Phase::ListingReply { file }, EventView::Received(_)) => {
            if file + 1 < names.len() {
                assert(names.contains(names[file + 1]));
            }
        },
        _ => {},
    }
}

/// A client that packs its username and password text is let in exactly when
/// both equal the configured ones; otherwise it is answered `FAIL`, the
/// connection is shut down and the session fails. Stale bytes after the
/// packet in the buffer change nothing.
pub proof fn law_login(
    content: Seq<u8>,
    user: Seq<char>,
    pass: Seq<char>,
    names: Seq<Seq<char>>,
    u: Seq<char>,
    p: Seq<char>,
    rest: Seq<u8>,
)
    requires
        encode_utf8(u).len() <= 255,
        encode_utf8(p).len() <= 255,
    ensures
        ({
            let ev = EventView::Received(auth_packet_spec(encode_utf8(u), encode_utf8(p)) + rest);
            &&& accepts(Phase::AwaitAuth, ev)
            &&& if u == user && p == pass {
                next(Phase::AwaitAuth, content, user, pass, names, ev) == (
                    Phase::Ready,
                    ActionView::SendThenReceive(seq![ACK]),
                )
            } else {
                next(Phase::AwaitAuth, content, user, pass, names, ev) == (
                    Phase::Closed,
                    ActionView::Reject {
                        reply: Some(seq![FAIL]),
                        shutdown: true,
                        error: SessionError::BadCredentials,
                    },
                )
            }
        }),
{
    law_auth_roundtrip(encode_utf8(u), encode_utf8(p), rest);
    law_lossy_text_of_utf8(u);
    law_lossy_text_of_utf8(p);
}

/// A request for a file name (under 256 bytes) is answered by loading that
/// file when it is shared, and otherwise by `NOTEXIST` and the end of the
/// session.
pub proof fn law_get_request(
    content: Seq<u8>,
    user: Seq<char>,
    pass: Seq<char>,
    names: Seq<Seq<char>>,
    t: Seq<char>,
    rest: Seq<u8>,
)
    requires
        encode_utf8(t).len() < 256,
    ensures
        ({
            let ev = EventView::Received(get_packet_spec(encode_utf8(t)) + rest);
            &&& accepts(Phase::Ready, ev)
            &&& if names.contains(t) {
                next(Phase::Ready, content, user, pass, names, ev) == (
                    Phase::Loading { file: names.index_of(t) as usize },
                    ActionView::LoadFile(t),
                )
            } else {
                next(Phase::Ready, content, user, pass, names, ev) == (
                    Phase::Closed,
                    ActionView::Reject {
                        reply: Some(seq![NOTEXIST]),
                        shutdown: false,
                        error: SessionError::NoSuchFile,
                    },
                )
            }
        }),
{
    law_get_roundtrip(encode_utf8(t), rest);
    law_lossy_text_of_utf8(t);
}

/// A session that has ended does nothing more: every event is refused.
pub proof fn law_closed_is_final(
    content: Seq<u8>,
    user: Seq<char>,
    pass: Seq<char>,
    names: Seq<Seq<char>>,
    ev: EventView,
)
    ensures
        next(Phase::Closed, content, user, pass, names, ev) == fail(SessionError::UnexpectedEvent),
{
}

/// The chunks of `content` from `k` on, one after the other.
pub open spec fn chunks_from(content: Seq<u8>, k: int) -> Seq<u8>
    decreases content.len() + CHUNK_LEN - chunk_start(k),
{
    if k < 0 || chunk_start(k) >= content.len() {
        Seq::empty()
    } else {
        chunk_of(content, k) + chunks_from(content, k + 1)
    }
}

proof fn lemma_chunks_from(content: Seq<u8>, k: int)
    requires
        0 <= k,
        chunk_start(k) <= content.len(),
    ensures
        chunks_from(content, k) == content.subrange(chunk_start(k), content.len() as int),
    decreases content.len() + CHUNK_LEN - chunk_start(k),
{
    if chunk_start(k) == content.len() {
        assert(content.subrange(chunk_start(k), content.len() as int) =~= Seq::<u8>::empty());
    } else {
        let s = chunk_start(k);
        if s + CHUNK_LEN < content.len() {
            lemma_chunks_from(content, k + 1);
        } else {
            assert(chunks_from(content, k + 1) =~= Seq::<u8>::empty());
        }
        assert(chunk_of(content, k) + chunks_from(content, k + 1) =~= content.subrange(
            s,
            content.len() as int,
        ));
    }
}

/// The chunks a file is sent in make up the file: taken one after the other
/// they are its content; a chunk `k` is sent exactly when `k` is below the
/// chunk count that the offer announces; each is `CHUNK_LEN` bytes but the
/// last.
pub proof fn law_chunks_cover(content: Seq<u8>, k: int)
    requires
        0 <= k,
    ensures
        chunks_from(content, 0) == content,
        (chunk_start(k) < content.len()) == (k < chunk_count(content.len())),
        chunk_start(k + 1) < content.len() ==> chunk_of(content, k).len() == CHUNK_LEN,
{
    lemma_chunks_from(content, 0);
    assert(content.subrange(0, content.len() as int) =~= content);
    let len = content.len();
    assert((k * (CHUNK_LEN as int) < len) == (k < ((len + (CHUNK_LEN - 1)) / (CHUNK_LEN as int))))
        by (nonlinear_arith)
        requires
            0 <= k,
            0 <= len,
    ;
}

/// The client's verdict on the chunk being sent: `ACK` with its number moves
/// on to the next chunk, or to the hash of the whole file after the last;
/// `FAIL` with its number sends the same chunk again, up to `CHUNK_RETRIES`
/// times; a further failure, or anything else, makes the server say `BYE`
/// and close.
pub proof fn law_chunk_verdict(
    content: Seq<u8>,
    user: Seq<char>,
    pass: Seq<char>,
    names: Seq<Seq<char>>,
    file: usize,
    chunk: usize,
    retries: u8,
    b: Seq<u8>,
)
    requires
        b.len() >= 9,
    ensures
        ({
            let ph = Phase::AwaitChunkAck { file, chunk, retries };
            let ev = EventView::Received(b);
            &&& next_content(ph, content, ev) == content
            &&& next(ph, content, user, pass, names, ev) == if b[0] == ACK && be_value(b, 1)
                == chunk {
                if chunk_start(chunk + 1) < content.len() {
                    (
                        Phase::AwaitChunkAck { file, chunk: (chunk + 1) as usize, retries: 0 },
                        ActionView::SendThenReceive(chunk_message_spec(content, chunk + 1)),
                    )
                } else {
                    (
                        Phase::Ready,
                        ActionView::SendThenReceive(hash_packet_spec(blake3_hex(content))),
                    )
                }
            } else if b[0] == FAIL && be_value(b, 1) == chunk && retries < CHUNK_RETRIES {
                (
                    Phase::AwaitChunkAck { file, chunk, retries: (retries + 1) as u8 },
                    ActionView::SendThenReceive(chunk_message_spec(content, chunk as int)),
                )
            } else {
                (
                    Phase::Closed,
                    ActionView::Reject {
                        reply: Some(seq![BYE]),
                        shutdown: false,
                        error: SessionError::DownloadAborted,
                    },
                )
            }
        }),
{
}

/// What a session in `ph`, holding `content`, goes through on the events
/// `evs`, one after another: its last phase, the actions it asked for, and
/// the content it holds at the end.
pub open spec fn run(
    ph: Phase,
    content: Seq<u8>,
    user: Seq<char>,
    pass: Seq<char>,
    names: Seq<Seq<char>>,
    evs: Seq<EventView>,
) -> (Phase, Seq<ActionView>, Seq<u8>)
    decreases evs.len(),
{
    if evs.len() == 0 {
        (ph, Seq::empty(), content)
    } else {
        let (ph1, a) = next(ph, content, user, pass, names, evs[0]);
        let c1 = next_content(ph, content, evs[0]);
        let r = run(ph1, c1, user, pass, names, evs.drop_first());
        (r.0, seq![a] + r.1, r.2)
    }
}

/// Running two runs of events one after the other is running their
/// concatenation.
pub proof fn lemma_run_append(
    ph: Phase,
    content: Seq<u8>,
    user: Seq<char>,
    pass: Seq<char>,
    names: Seq<Seq<char>>,
    evs1: Seq<EventView>,
    evs2: Seq<EventView>,
)
    ensures
        ({
            let r1 = run(ph, content, user, pass, names, evs1);
            let r2 = run(r1.0, r1.2, user, pass, names, evs2);
            run(ph, content, user, pass, names, evs1 + evs2) == (r2.0, r1.1 + r2.1, r2.2)
        }),
    decreases evs1.len(),
{
    if evs1.len() == 0 {
        assert(evs1 + evs2 =~= evs2);
        let r2 = run(ph, content, user, pass, names, evs2);
        assert(Seq::<ActionView>::empty() + r2.1 =~= r2.1);
    } else {
        let (ph1, a) = next(ph, content, user, pass, names, evs1[0]);
        let c1 = next_content(ph, content, evs1[0]);
        assert((evs1 + evs2)[0] == evs1[0]);
        assert((evs1 + evs2).drop_first() =~= evs1.drop_first() + evs2);
        lemma_run_append(ph1, c1, user, pass, names, evs1.drop_first(), evs2);
        let mid = run(ph1, c1, user, pass, names, evs1.drop_first());
        let fin = run(mid.0, mid.2, user, pass, names, evs2);
        assert(seq![a] + (mid.1 + fin.1) =~= (seq![a] + mid.1) + fin.1);
    }
}

/// The events of a listing from file `i` on: each file's size, then the
/// client's answer to its entry.
pub open spec fn listing_events(sizes: Seq<u64>, replies: Seq<Seq<u8>>, i: int) -> Seq<EventView>
    decreases sizes.len() - i,
{
    if i < 0 || i >= sizes.len() {
        Seq::empty()
    } else {
        seq![EventView::FileSize(sizes[i]), EventView::Received(replies[i])] + listing_events(
            sizes,
            replies,
            i + 1,
        )
    }
}

/// What a session asks for after looking up `names[i]`: the entry of each
/// file from `i` on, with its size, each followed by the lookup of the next
/// file, or by a read of the next command after the last.
pub open spec fn listing_actions(names: Seq<Seq<char>>, sizes: Seq<u64>, i: int) -> Seq<ActionView>
    decreases names.len() - i,
{
    if i < 0 || i >= names.len() {
        Seq::empty()
    } else {
        seq![
            ActionView::SendThenReceive(listing_entry_spec(sizes[i], encode_utf8(names[i]))),
            if i + 1 < names.len() {
                ActionView::StatFile(names[i + 1])
            } else {
                ActionView::Receive
            },
        ] + listing_actions(names, sizes, i + 1)
    }
}

proof fn lemma_listing_from(
    content: Seq<u8>,
    user: Seq<char>,
    pass: Seq<char>,
    names: Seq<Seq<char>>,
    sizes: Seq<u64>,
    replies: Seq<Seq<u8>>,
    i: int,
)
    requires
        0 <= i < names.len(),
        sizes.len() == names.len(),
        replies.len() == names.len(),
        names.len() <= usize::MAX,
    ensures
        run(
            Phase::ListingSize { file: i as usize },
            content,
            user,
            pass,
            names,
            listing_events(sizes, replies, i),
        ) == (Phase::Ready, listing_actions(names, sizes, i), content),
    decreases names.len() - i,
{
    let evs = listing_events(sizes, replies, i);
    let e1 = evs.drop_first();
    let tail = listing_events(sizes, replies, i + 1);
    assert(e1.drop_first() =~= tail);
    assert(evs[0] == EventView::FileSize(sizes[i]));
    assert(e1[0] == EventView::Received(replies[i]));
    let after = if i + 1 < names.len() {
        ActionView::StatFile(names[i + 1])
    } else {
        ActionView::Receive
    };
    let ph_b = if i + 1 < names.len() {
        Phase::ListingSize { file: (i + 1) as usize }
    } else {
        Phase::Ready
    };
    assert(next(Phase::ListingReply { file: i as usize }, content, user, pass, names, e1[0]) == (
        ph_b,
        after,
    ));
    if i + 1 < names.len() {
        lemma_listing_from(content, user, pass, names, sizes, replies, i + 1);
    } else {
        assert(tail.len() == 0);
        assert(listing_actions(names, sizes, i + 1) =~= Seq::<ActionView>::empty());
    }
    assert(run(ph_b, content, user, pass, names, tail) == (Phase::Ready, listing_actions(
        names,
        sizes,
        i + 1,
    ), content));
    let r1 = run(Phase::ListingReply { file: i as usize }, content, user, pass, names, e1);
    assert(r1.0 == Phase::Ready);
    assert(r1.2 == content);
    assert(r1.1 =~= seq![after] + listing_actions(names, sizes, i + 1));
    let entry = ActionView::SendThenReceive(listing_entry_spec(sizes[i], encode_utf8(names[i])));
    assert(next(Phase::ListingSize { file: i as usize }, content, user, pass, names, evs[0]) == (
        Phase::ListingReply { file: i as usize },
        entry,
    ));
    let r0 = run(Phase::ListingSize { file: i as usize }, content, user, pass, names, evs);
    assert(r0.0 == Phase::Ready);
    assert(r0.2 == content);
    assert(r0.1 =~= seq![entry] + (seq![after] + listing_actions(names, sizes, i + 1)));
    assert(listing_actions(names, sizes, i) =~= seq![entry, after] + listing_actions(
        names,
        sizes,
        i + 1,
    ));
}

/// The answer to `AVAILABLE`: the head announces as many files as are shared;
/// then, for each shared file in the index's order, its size is looked up
/// and its entry (that size, its name) sent, and the answer to each entry is
/// read; after the last, the session waits for the next command.
pub proof fn law_listing(
    content: Seq<u8>,
    user: Seq<char>,
    pass: Seq<char>,
    names: Seq<Seq<char>>,
    command: Seq<u8>,
    sizes: Seq<u64>,
    replies: Seq<Seq<u8>>,
)
    requires
        command.len() >= 1,
        command[0] == AVAILABLE,
        sizes.len() == names.len(),
        replies.len() == names.len(),
        names.len() <= usize::MAX,
    ensures
        run(
            Phase::Ready,
            content,
            user,
            pass,
            names,
            seq![EventView::Received(command), EventView::Sent] + listing_events(sizes, replies, 0),
        ) == (
            Phase::Ready,
            seq![
                ActionView::Send(listing_head_spec(names.len() as u64)),
                if names.len() == 0 {
                    ActionView::Receive
                } else {
                    ActionView::StatFile(names[0])
                },
            ] + listing_actions(names, sizes, 0),
            content,
        ),
{
    let tail = listing_events(sizes, replies, 0);
    let evs = seq![EventView::Received(command), EventView::Sent] + tail;
    let e1 = evs.drop_first();
    assert(e1.drop_first() =~= tail);
    assert(evs[0] == EventView::Received(command));
    assert(e1[0] == EventView::Sent);
    let head = ActionView::Send(listing_head_spec(names.len() as u64));
    let first = if names.len() == 0 {
        ActionView::Receive
    } else {
        ActionView::StatFile(names[0])
    };
    let ph_b = if names.len() == 0 {
        Phase::Ready
    } else {
        Phase::ListingSize { file: 0 }
    };
    assert(next(Phase::Ready, content, user, pass, names, evs[0]) == (Phase::ListingHead, head));
    assert(next(Phase::ListingHead, content, user, pass, names, e1[0]) == (ph_b, first));
    if names.len() > 0 {
        lemma_listing_from(content, user, pass, names, sizes, replies, 0);
    } else {
        assert(tail.len() == 0);
        assert(listing_actions(names, sizes, 0) =~= Seq::<ActionView>::empty());
    }
    assert(run(ph_b, content, user, pass, names, tail) == (
        Phase::Ready,
        listing_actions(names, sizes, 0),
        content,
    ));
    let r1 = run(Phase::ListingHead, content, user, pass, names, e1);
    assert(r1.0 == Phase::Ready);
    assert(r1.2 == content);
    assert(r1.1 =~= seq![first] + listing_actions(names, sizes, 0));
    let r = run(Phase::Ready, content, user, pass, names, evs);
    assert(r.0 == Phase::Ready);
    assert(r.2 == content);
    assert(r.1 =~= seq![head, first] + listing_actions(names, sizes, 0));
}

/// The client's `ACK` of each chunk of `content` from `k` on.
pub open spec fn ack_events(content: Seq<u8>, k: int) -> Seq<EventView>
    decreases content.len() + CHUNK_LEN - chunk_start(k),
{
    if k < 0 || chunk_start(k) >= content.len() {
        Seq::empty()
    } else {
        seq![EventView::Received(crate::wire::chunk_reply_spec(true, k as u64))] + ack_events(
            content,
            k + 1,
        )
    }
}

/// What the server sends for each chunk of `content` from `k` on: the chunk
/// and its hash.
pub open spec fn chunk_sends(content: Seq<u8>, k: int) -> Seq<ActionView>
    decreases content.len() + CHUNK_LEN - chunk_start(k),
{
    if k < 0 || chunk_start(k) >= content.len() {
        Seq::empty()
    } else {
        seq![ActionView::SendThenReceive(chunk_message_spec(content, k))] + chunk_sends(
            content,
            k + 1,
        )
    }
}

proof fn lemma_acked_from(
    content: Seq<u8>,
    user: Seq<char>,
    pass: Seq<char>,
    names: Seq<Seq<char>>,
    file: usize,
    k: int,
    retries: u8,
)
    requires
        0 <= k,
        chunk_start(k) < content.len(),
        content.len() <= usize::MAX,
    ensures
        run(
            Phase::AwaitChunkAck { file, chunk: k as usize, retries },
            content,
            user,
            pass,
            names,
            ack_events(content, k),
        ) == (
            Phase::Ready,
            chunk_sends(content, k + 1) + seq![
                ActionView::SendThenReceive(hash_packet_spec(blake3_hex(content))),
            ],
            content,
        ),
    decreases content.len() + CHUNK_LEN - chunk_start(k),
{
    let evs = ack_events(content, k);
    let ack = crate::wire::chunk_reply_spec(true, k as u64);
    crate::wire::law_chunk_reply_roundtrip(true, k as u64, Seq::empty());
    assert(ack + Seq::<u8>::empty() =~= ack);
    assert(evs[0] == EventView::Received(ack));
    assert(evs.drop_first() =~= ack_events(content, k + 1));
    let hashed = ActionView::SendThenReceive(hash_packet_spec(blake3_hex(content)));
    let ph = Phase::AwaitChunkAck { file, chunk: k as usize, retries };
    if chunk_start(k + 1) < content.len() {
        lemma_acked_from(content, user, pass, names, file, k + 1, 0);
        let msg = ActionView::SendThenReceive(chunk_message_spec(content, k + 1));
        assert(next(ph, content, user, pass, names, evs[0]) == (
            Phase::AwaitChunkAck { file, chunk: (k + 1) as usize, retries: 0 },
            msg,
        ));
        let r = run(ph, content, user, pass, names, evs);
        assert(r.1 =~= seq![msg] + (chunk_sends(content, k + 2) + seq![hashed]));
        assert(chunk_sends(content, k + 1) =~= seq![msg] + chunk_sends(content, k + 2));
    } else {
        assert(ack_events(content, k + 1) =~= Seq::<EventView>::empty());
        assert(chunk_sends(content, k + 1) =~= Seq::<ActionView>::empty());
        assert(next(ph, content, user, pass, names, evs[0]) == (Phase::Ready, hashed));
        assert(run(Phase::Ready, content, user, pass, names, evs.drop_first()) == (
            Phase::Ready,
            Seq::<ActionView>::empty(),
            content,
        ));
        let r = run(ph, content, user, pass, names, evs);
        assert(r.1 =~= seq![hashed]);
    }
}

/// A download of a shared file whose chunks all check out: the server loads
/// the requested file and offers it (its chunk count, length and hash); once
/// the client asks for it again, it sends each chunk with its hash, the
/// next one after the client acknowledged the one before, and after the last
/// the hash of the whole file; then it waits for the next command.
pub proof fn law_download(
    held: Seq<u8>,
    user: Seq<char>,
    pass: Seq<char>,
    names: Seq<Seq<char>>,
    t: Seq<char>,
    rest: Seq<u8>,
    content: Seq<u8>,
    again: Seq<u8>,
)
    requires
        names.len() <= usize::MAX,
        content.len() <= usize::MAX,
        names.contains(t),
        encode_utf8(t).len() < 256,
        again.len() >= 1,
        again[0] == GET,
    ensures
        run(
            Phase::Ready,
            held,
            user,
            pass,
            names,
            seq![
                EventView::Received(get_packet_spec(encode_utf8(t)) + rest),
                EventView::Contents(content),
                EventView::Received(again),
            ] + ack_events(content, 0),
        ) == (
            Phase::Ready,
            seq![
                ActionView::LoadFile(t),
                ActionView::SendThenReceive(offer_spec(content)),
            ] + chunk_sends(content, 0) + seq![
                ActionView::SendThenReceive(hash_packet_spec(blake3_hex(content))),
            ],
            content,
        ),
{
    law_get_request(held, user, pass, names, t, rest);
    let k = names.index_of(t);
    assert(0 <= k < names.len() && names[k] == t);
    let f = k as usize;
    let pre = seq![
        EventView::Received(get_packet_spec(encode_utf8(t)) + rest),
        EventView::Contents(content),
        EventView::Received(again),
    ];
    let acks = ack_events(content, 0);
    let hashed = ActionView::SendThenReceive(hash_packet_spec(blake3_hex(content)));
    let load = ActionView::LoadFile(t);
    let offer = ActionView::SendThenReceive(offer_spec(content));
    let p1 = pre.drop_first();
    let p2 = p1.drop_first();
    assert(p2.drop_first() =~= Seq::<EventView>::empty());
    assert(pre[0] == EventView::Received(get_packet_spec(encode_utf8(t)) + rest));
    assert(p1[0] == EventView::Contents(content));
    assert(p2[0] == EventView::Received(again));
    assert(next(Phase::Ready, held, user, pass, names, pre[0]) == (Phase::Loading { file: f }, load));
    assert(next_content(Phase::Ready, held, pre[0]) == held);
    assert(next(Phase::Loading { file: f }, held, user, pass, names, p1[0]) == (
        Phase::AwaitOfferReply { file: f },
        offer,
    ));
    assert(next_content(Phase::Loading { file: f }, held, p1[0]) == content);
    if content.len() == 0 {
        assert(acks =~= Seq::<EventView>::empty());
        assert(chunk_sends(content, 0) =~= Seq::<ActionView>::empty());
        assert(next(Phase::AwaitOfferReply { file: f }, content, user, pass, names, p2[0]) == (
            Phase::Ready,
            hashed,
        ));
        assert(run(Phase::Ready, content, user, pass, names, p2.drop_first()) == (
            Phase::Ready,
            Seq::<ActionView>::empty(),
            content,
        ));
        let r2 = run(Phase::AwaitOfferReply { file: f }, content, user, pass, names, p2);
        assert(r2.1 =~= seq![hashed]);
        let r1 = run(Phase::Loading { file: f }, held, user, pass, names, p1);
        assert(r1.1 =~= seq![offer, hashed]);
        let r0 = run(Phase::Ready, held, user, pass, names, pre);
        assert(r0.1 =~= seq![load, offer, hashed]);
        assert(pre + acks =~= pre);
        assert(seq![load, offer] + chunk_sends(content, 0) + seq![hashed] =~= seq![
            load,
            offer,
            hashed,
        ]);
    } else {
        let first = ActionView::SendThenReceive(chunk_message_spec(content, 0));
        let ph0 = Phase::AwaitChunkAck { file: f, chunk: 0, retries: 0 };
        assert(next(Phase::AwaitOfferReply { file: f }, content, user, pass, names, p2[0]) == (
            ph0,
            first,
        ));
        assert(run(ph0, content, user, pass, names, p2.drop_first()) == (
            ph0,
            Seq::<ActionView>::empty(),
            content,
        ));
        let r2 = run(Phase::AwaitOfferReply { file: f }, content, user, pass, names, p2);
        assert(r2.0 == ph0);
        assert(r2.2 == content);
        assert(r2.1 =~= seq![first]);
        let r1 = run(Phase::Loading { file: f }, held, user, pass, names, p1);
        assert(r1.0 == ph0);
        assert(r1.2 == content);
        assert(r1.1 =~= seq![offer, first]);
        let r0 = run(Phase::Ready, held, user, pass, names, pre);
        assert(r0.0 == ph0);
        assert(r0.2 == content);
        assert(r0.1 =~= seq![load, offer, first]);
        lemma_acked_from(content, user, pass, names, f, 0, 0);
        lemma_run_append(Phase::Ready, held, user, pass, names, pre, acks);
        assert(chunk_sends(content, 0) =~= seq![first] + chunk_sends(content, 1));
        assert(seq![load, offer, first] + (chunk_sends(content, 1) + seq![hashed]) =~= seq![
            load,
            offer,
        ] + chunk_sends(content, 0) + seq![hashed]);
    }
}

/// A chunk the client keeps reporting as failed is sent four times in all;
/// then the server says `BYE` and closes.
pub proof fn law_chunk_gives_up(
    content: Seq<u8>,
    user: Seq<char>,
    pass: Seq<char>,
    names: Seq<Seq<char>>,
    file: usize,
    k: usize,
    rest: Seq<u8>,
)
    requires
        chunk_start(k as int) < content.len(),
    ensures
        ({
            let failed = EventView::Received(crate::wire::chunk_reply_spec(false, k as u64) + rest);
            let again = ActionView::SendThenReceive(chunk_message_spec(content, k as int));
            run(
                Phase::AwaitChunkAck { file, chunk: k, retries: 0 },
                content,
                user,
                pass,
                names,
                seq![failed, failed, failed, failed],
            ) == (Phase::Closed, seq![again, again, again, abort_download().1], content)
        }),
{
    let b = crate::wire::chunk_reply_spec(false, k as u64) + rest;
    crate::wire::law_chunk_reply_roundtrip(false, k as u64, rest);
    let failed = EventView::Received(b);
    let again = ActionView::SendThenReceive(chunk_message_spec(content, k as int));
    let stop = abort_download().1;
    let e = seq![failed, failed, failed, failed];
    let e1 = e.drop_first();
    let e2 = e1.drop_first();
    let e3 = e2.drop_first();
    assert(e3.drop_first() =~= Seq::<EventView>::empty());
    assert(e1[0] == failed && e2[0] == failed && e3[0] == failed && e[0] == failed);
    assert(run(Phase::Closed, content, user, pass, names, e3.drop_first()) == (
        Phase::Closed,
        Seq::<ActionView>::empty(),
        content,
    ));
    assert(next(Phase::AwaitChunkAck { file, chunk: k, retries: 3 }, content, user, pass, names, failed)
        == (Phase::Closed, stop));
    let r3 = run(Phase::AwaitChunkAck { file, chunk: k, retries: 3 }, content, user, pass, names, e3);
    assert(r3.1 =~= seq![stop]);
    let r2 = run(Phase::AwaitChunkAck { file, chunk: k, retries: 2 }, content, user, pass, names, e2);
    assert(r2.1 =~= seq![again, stop]);
    let r1 = run(Phase::AwaitChunkAck { file, chunk: k, retries: 1 }, content, user, pass, names, e1);
    assert(r1.1 =~= seq![again, again, stop]);
    let r0 = run(Phase::AwaitChunkAck { file, chunk: k, retries: 0 }, content, user, pass, names, e);
    assert(r0.1 =~= seq![again, again, again, stop]);
}

/// `ev` is a verdict on a chunk: `ACK` or `FAIL` with room for its number.
pub open spec fn is_verdict(ev: EventView) -> bool {
    match ev {
        EventView::Received(b) => b.len() >= 9 && (b[0] == ACK || b[0] == FAIL),
        _ => false,
    }
}

/// What a session may do while verdicts come in during a download: send a
/// chunk of the file with its hash, send the hash of the whole file, or end
/// the session.
pub open spec fn download_action(content: Seq<u8>, a: ActionView) -> bool {
    match a {
        ActionView::SendThenReceive(p) => p == hash_packet_spec(blake3_hex(content)) || exists|
            j: int,
        |
            0 <= j && chunk_start(j) < content.len() && p == #[trigger] chunk_message_spec(
                content,
                j,
            ),
        ActionView::Reject { .. } => true,
        _ => false,
    }
}

/// A phase a download can be in once it has started: waiting for the
/// verdict on a chunk of the file, back to waiting for commands, or over.
pub open spec fn download_phase(ph: Phase, content: Seq<u8>) -> bool {
    match ph {
        Phase::AwaitChunkAck { chunk, .. } => chunk_start(chunk as int) < content.len(),
        Phase::Ready => true,
        Phase::Closed => true,
        _ => false,
    }
}

/// Whatever mix of `ACK` and `FAIL` verdicts a client sends during a
/// download, for whatever chunk numbers, the server only ever sends chunks
/// of the file (each with its hash), the hash of the whole file, or ends the
/// session; it keeps the file's content; and it stays waiting on a chunk of
/// the file, back at the commands, or closed.
pub proof fn law_any_verdicts(
    ph: Phase,
    content: Seq<u8>,
    user: Seq<char>,
    pass: Seq<char>,
    names: Seq<Seq<char>>,
    evs: Seq<EventView>,
)
    requires
        download_phase(ph, content),
        content.len() <= usize::MAX,
        forall|i: int| 0 <= i < evs.len() ==> is_verdict(#[trigger] evs[i]),
    ensures
        ({
            let r = run(ph, content, user, pass, names, evs);
            &&& download_phase(r.0, content)
            &&& r.2 == content
            &&& forall|i: int| 0 <= i < r.1.len() ==> download_action(content, #[trigger] r.1[i])
        }),
    decreases evs.len(),
{
    if evs.len() > 0 {
        let ev = evs[0];
        assert(is_verdict(ev));
        let (ph1, a) = next(ph, content, user, pass, names, ev);
        assert(next_content(ph, content, ev) == content);
        match ph {
            Phase::AwaitChunkAck { file, chunk, retries } => {
                let k = chunk as int;
                if let EventView::Received(b) = ev {
                    if b[0] == ACK && be_value(b, 1) == k && chunk_start(k + 1) < content.len() {
                        assert(a == ActionView::SendThenReceive(chunk_message_spec(content, k + 1)));
                        assert(download_action(content, a));
                    } else if b[0] == FAIL && be_value(b, 1) == k && retries < CHUNK_RETRIES {
                        assert(a == ActionView::SendThenReceive(chunk_message_spec(content, k)));
                        assert(download_action(content, a));
                    }
                }
            },
            _ => {},
        }
        assert(download_action(content, a));
        assert(download_phase(ph1, content));
        let rest = evs.drop_first();
        assert forall|i: int| 0 <= i < rest.len() implies is_verdict(#[trigger] rest[i]) by {
            assert(rest[i] == evs[i + 1]);
        }
        law_any_verdicts(ph1, content, user, pass, names, rest);
        let r1 = run(ph1, content, user, pass, names, rest);
        let r = run(ph, content, user, pass, names, evs);
        assert(r.1 == seq![a] + r1.1);
        assert forall|i: int| 0 <= i < r.1.len() implies download_action(
            content,
            #[trigger] r.1[i],
        ) by {
            if i > 0 {
                assert(r.1[i] == r1.1[i - 1]);
            }
        }
    }
}

/// The offer announces, in its bytes 1 to 8, the number of chunks the file
/// is then sent in: a chunk `k` is sent exactly when `k` is below it, and it
/// is the length divided by `CHUNK_LEN`, rounded up; bytes 9 to 16 carry the
/// length.
pub proof fn law_offer_counts_chunks(content: Seq<u8>, k: int)
    requires
        content.len() <= u64::MAX,
        0 <= k,
    ensures
        be_value(offer_spec(content), 1) as int * (CHUNK_LEN as int) >= content.len(),
        be_value(offer_spec(content), 1) as int * (CHUNK_LEN as int) < content.len() + CHUNK_LEN,
        (chunk_start(k) < content.len()) == (k < be_value(offer_spec(content), 1)),
        be_value(offer_spec(content), 9) == content.len(),
{
    let len = content.len() as int;
    let n = chunk_count(content.len());
    assert(n <= len) by (nonlinear_arith)
        requires
            n == (len + (CHUNK_LEN - 1)) / (CHUNK_LEN as int),
            len >= 0,
    ;
    let h = encode_utf8(blake3_hex(content));
    crate::wire::lemma_be_roundtrip(seq![crate::protocol::FILE_INFO], n as u64, be_bytes(
        len as u64,
    ) + h);
    assert(offer_spec(content) =~= seq![crate::protocol::FILE_INFO] + be_bytes(n as u64) + (
    be_bytes(len as u64) + h));
    crate::wire::lemma_be_roundtrip(
        seq![crate::protocol::FILE_INFO] + be_bytes(n as u64),
        len as u64,
        h,
    );
    assert(offer_spec(content) =~= seq![crate::protocol::FILE_INFO] + be_bytes(n as u64)
        + be_bytes(len as u64) + h);
    law_chunks_cover(content, k);
    assert(n * (CHUNK_LEN as int) >= len && n * (CHUNK_LEN as int) < len + CHUNK_LEN) by (
    nonlinear_arith)
        requires
            n == (len + (CHUNK_LEN - 1)) / (CHUNK_LEN as int),
            len >= 0,
    ;
}

/// What the server sends for chunk `k` carries `k`: it starts with
/// `DATA_CHUNK` and the number `k`, then chunk `k` of the file, then
/// `HASH_CHUNK` and the hash text of that chunk, and it ends with the number
/// `k` again.
pub proof fn law_chunk_message_carries_number(content: Seq<u8>, k: int)
    requires
        0 <= k,
        chunk_start(k) < content.len(),
        content.len() <= u64::MAX,
    ensures
        ({
            let m = chunk_message_spec(content, k);
            let data = chunk_of(content, k);
            &&& m[0] == crate::protocol::DATA_CHUNK
            &&& be_value(m, 1) == k
            &&& m.subrange(9, 9 + data.len() as int) == data
            &&& m[9 + data.len() as int] == crate::protocol::HASH_CHUNK
            &&& m.subrange(10 + data.len() as int, m.len() - 8) == encode_utf8(blake3_hex(data))
            &&& be_value(m, m.len() - 8) == k
        }),
{
    let m = chunk_message_spec(content, k);
    let data = chunk_of(content, k);
    let e = encode_utf8(blake3_hex(data));
    assert(k <= content.len()) by (nonlinear_arith)
        requires
            k * (CHUNK_LEN as int) < content.len(),
            0 <= k,
    ;
    crate::wire::lemma_be_roundtrip(
        seq![crate::protocol::DATA_CHUNK],
        k as u64,
        data + hash_chunk_spec(blake3_hex(data), k as u64),
    );
    assert(m =~= seq![crate::protocol::DATA_CHUNK] + be_bytes(k as u64) + (data + hash_chunk_spec(
        blake3_hex(data),
        k as u64,
    )));
    let pre = data_chunk_spec(k as u64, data) + seq![crate::protocol::HASH_CHUNK] + e;
    crate::wire::lemma_be_roundtrip(pre, k as u64, Seq::empty());
    assert(m =~= pre + be_bytes(k as u64) + Seq::<u8>::empty());
    assert(m.subrange(9, 9 + data.len() as int) =~= data);
    assert(m.subrange(10 + data.len() as int, m.len() - 8) =~= e);
}

} // verus!
