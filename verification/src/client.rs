//! The client's decisions: what the user picked, whether a login is needed
//! and was accepted, how much of a download to read next, and whether a
//! downloaded file's hash checks out.
use vstd::prelude::*;
use vstd::utf8::encode_utf8;

use crate::digest::{blake3_hex, content_hash};
use crate::protocol::{ACK, AUTH, AUTH_PASSWORD, CHUNK_LEN, HASH};
use crate::session::{chunk_of, chunk_start};
use crate::wire::chunk_count;
use crate::text::{decode_lossy, law_lossy_text_of_utf8, lossy_text};
use crate::wire::{
    hash_packet_spec, hash_reply_digest, hash_reply_fits, law_hash_reply_roundtrip,
    read_listing_entry, read_listing_entry_spec,
};

verus! {

/// An entry of the client's menu.
#[derive(Clone, Copy, Debug, PartialEq, Eq, Structural)]
pub enum MenuChoice {
    /// `1`: list the shared files.
    ListFiles,
    /// `2`: download a file.
    Download,
    /// `3`: end the session.
    Exit,
}

/// The menu entry a (trimmed) input line picks, if any.
pub open spec fn menu_choice_spec(line: Seq<u8>) -> Option<MenuChoice> {
    if line == seq![0x31u8] {
        Some(MenuChoice::ListFiles)
    } else if line == seq![0x32u8] {
        Some(MenuChoice::Download)
    } else if line == seq![0x33u8] {
        Some(MenuChoice::Exit)
    } else {
        None
    }
}

/// The menu entry the trimmed input `line` picks; `None` asks again.
pub fn menu_choice(line: &[u8]) -> (c: Option<MenuChoice>)
    ensures
        c == menu_choice_spec(line@),
{
    if line.len() != 1 {
        proof {
            assert(line@ != seq![0x31u8] && line@ != seq![0x32u8] && line@ != seq![0x33u8]);
        }
        None
    } else if line[0] == 0x31u8 {
        assert(line@ =~= seq![0x31u8]);
        Some(MenuChoice::ListFiles)
    } else if line[0] == 0x32u8 {
        assert(line@ =~= seq![0x32u8]);
        Some(MenuChoice::Download)
    } else if line[0] == 0x33u8 {
        assert(line@ =~= seq![0x33u8]);
        Some(MenuChoice::Exit)
    } else {
        proof {
            assert(line@ != seq![0x31u8] && line@ != seq![0x32u8] && line@ != seq![0x33u8]) by {
                assert(seq![0x31u8][0] == 0x31u8);
                assert(seq![0x32u8][0] == 0x32u8);
                assert(seq![0x33u8][0] == 0x33u8);
            }
        }
        None
    }
}

/// Whether the server's first message in `reply` asks for a username and a
/// password.
pub fn login_required(reply: &[u8]) -> (b: bool)
    requires
        reply@.len() >= 2,
    ensures
        b == (reply@[0] == AUTH && reply@[1] == AUTH_PASSWORD),
{
    reply[0] == AUTH && reply[1] == AUTH_PASSWORD
}

/// Whether the server's answer in `reply` accepts the login.
pub fn login_accepted(reply: &[u8]) -> (b: bool)
    requires
        reply@.len() >= 1,
    ensures
        b == (reply@[0] == ACK),
{
    reply[0] == ACK
}

/// Whether the user's (trimmed) answer `line` confirms a download: exactly
/// `y`.
pub fn download_confirmed(line: &[u8]) -> (b: bool)
    ensures
        b == (line@ == seq![0x79u8]),
{
    if line.len() == 1 && line[0] == 0x79u8 {
        assert(line@ =~= seq![0x79u8]);
        true
    } else {
        proof {
            if line@ == seq![0x79u8] {
                assert(line@[0] == 0x79u8);
            }
        }
        false
    }
}

/// What the client makes of a read while it lists the shared files.
#[derive(Clone, Debug, PartialEq, Eq)]
pub enum ListingItem {
    /// Nothing arrived: the connection is lost.
    ConnectionLost,
    /// The entry's name runs past what arrived.
    Malformed,
    /// A file of `size` bytes named `name`.
    Entry { size: u64, name: Vec<u8> },
}

/// Reads the listing entry of which `received` bytes arrived in `buf`.
pub fn listing_item(buf: &[u8], received: usize) -> (r: ListingItem)
    requires
        buf@.len() >= 17,
        received <= buf@.len(),
    ensures
        r is ConnectionLost <==> received == 0,
        received > 0 ==> (r is Malformed <==> read_listing_entry_spec(buf@, received as int) is None),
        r matches ListingItem::Entry { size, name } ==> read_listing_entry_spec(buf@, received as int)
            == Some((size, name@)),
{
    if received == 0 {
        return ListingItem::ConnectionLost;
    }
    match read_listing_entry(buf, received) {
        Some((size, name)) => ListingItem::Entry { size, name },
        None => ListingItem::Malformed,
    }
}

/// Whether the hash bytes `received` from the server, read as text, are the
/// hash `local` the client computed of the downloaded file.
pub fn digest_matches(local: &String, received: &[u8]) -> (b: bool)
    ensures
        b == (lossy_text(received@) == local@),
{
    let theirs = decode_lossy(received);
    theirs == *local
}

/// A download checks out exactly when the hash text the client computed is
/// the one the server sent, whatever stale bytes follow the packet.
pub proof fn law_download_check(sent: Seq<char>, local: Seq<char>, rest: Seq<u8>)
    requires
        encode_utf8(sent).len() <= u64::MAX,
    ensures
        hash_reply_fits(hash_packet_spec(sent) + rest),
        (hash_packet_spec(sent) + rest)[0] == HASH,
        (lossy_text(hash_reply_digest(hash_packet_spec(sent) + rest)) == local) == (sent == local),
{
    law_hash_reply_roundtrip(sent, rest);
    law_lossy_text_of_utf8(sent);
}

/// The length of chunk `k` of a file of `len` bytes: `CHUNK_LEN` bytes, fewer
/// for the last, none past the end.
pub open spec fn chunk_len_spec(len: nat, k: nat) -> nat {
    if k * CHUNK_LEN >= len {
        0
    } else if len - k * CHUNK_LEN > CHUNK_LEN {
        CHUNK_LEN as nat
    } else {
        (len - k * CHUNK_LEN) as nat
    }
}

/// How many bytes of a file of `len` bytes come before chunk `k`.
pub open spec fn received_len_spec(len: nat, k: nat) -> nat {
    if k * CHUNK_LEN < len {
        (k * CHUNK_LEN) as nat
    } else {
        len
    }
}

/// The progress of a download of a file offered with its length and number
/// of chunks: the number of the next chunk expected, and the data of the
/// chunks taken so far.
pub struct Download {
    len: u64,
    chunks: u64,
    next: u64,
    accepted: Ghost<Seq<u8>>,
}

impl Download {
    /// The offered length.
    pub closed spec fn len_spec(&self) -> u64 {
        self.len
    }

    /// The offered number of chunks.
    pub closed spec fn chunks_spec(&self) -> u64 {
        self.chunks
    }

    /// The number of the next chunk expected.
    pub closed spec fn next_spec(&self) -> u64 {
        self.next
    }

    /// The data of the chunks taken so far, one after the other: what the
    /// client has saved.
    pub closed spec fn accepted_spec(&self) -> Seq<u8> {
        self.accepted@
    }

    /// No more chunks were taken than offered, and the data taken is as long
    /// as the chunks before the next one.
    pub open spec fn wf(&self) -> bool {
        &&& self.next_spec() <= self.chunks_spec()
        &&& self.accepted_spec().len() == received_len_spec(
            self.len_spec() as nat,
            self.next_spec() as nat,
        )
    }

    /// Whether the client checks a chunk as sound: it carries the number
    /// expected, in its data and in its hash, it is as long as that chunk of
    /// the offered file is, and its hash bytes, read as text, are the hash of
    /// its data.
    pub open spec fn chunk_sound(
        &self,
        number: u64,
        data: Seq<u8>,
        hash_number: u64,
        hash: Seq<u8>,
    ) -> bool {
        &&& number == self.next_spec()
        &&& hash_number == self.next_spec()
        &&& data.len() == chunk_len_spec(self.len_spec() as nat, self.next_spec() as nat)
        &&& lossy_text(hash) == blake3_hex(data)
    }

    /// A download of a file of `len` bytes offered in `chunks` chunks, none
    /// taken yet.
    pub fn new(len: u64, chunks: u64) -> (d: Download)
        ensures
            d.wf(),
            d.len_spec() == len,
            d.chunks_spec() == chunks,
            d.next_spec() == 0,
            d.accepted_spec() == Seq::<u8>::empty(),
    {
        Download { len, chunks, next: 0, accepted: Ghost(Seq::empty()) }
    }

    /// The number of the next chunk expected.
    pub fn next_chunk(&self) -> (k: u64)
        ensures
            k == self.next_spec(),
    {
        self.next
    }

    /// Whether all offered chunks were taken.
    pub fn is_complete(&self) -> (b: bool)
        requires
            self.wf(),
        ensures
            b == (self.next_spec() == self.chunks_spec()),
    {
        self.next >= self.chunks
    }

    /// How many data bytes the next chunk holds.
    pub fn next_chunk_len(&self) -> (n: usize)
        ensures
            n == chunk_len_spec(self.len_spec() as nat, self.next_spec() as nat),
            n <= CHUNK_LEN,
    {
        let c = CHUNK_LEN as u64;
        let q = self.len / c;
        if self.next > q {
            proof {
                let (k, len) = (self.next as int, self.len as int);
                assert(k * CHUNK_LEN >= len) by (nonlinear_arith)
                    requires
                        k > len / (CHUNK_LEN as int),
                        len >= 0,
                ;
            }
            0
        } else {
            proof {
                let (k, len) = (self.next as int, self.len as int);
                assert(k * CHUNK_LEN <= len) by (nonlinear_arith)
                    requires
                        0 <= k <= len / (CHUNK_LEN as int),
                        len >= 0,
                ;
            }
            let start = self.next * c;
            if start >= self.len {
                0
            } else if self.len - start > c {
                CHUNK_LEN
            } else {
                (self.len - start) as usize
            }
        }
    }

    /// Checks a received chunk: its number and data, and the number and hash
    /// bytes of its hash.
    pub fn check_chunk(&self, number: u64, data: &[u8], hash_number: u64, hash: &[u8]) -> (b:
        bool)
        ensures
            b == self.chunk_sound(number, data@, hash_number, hash@),
            b ==> lossy_text(hash@) == blake3_hex(data@),
            b ==> number == self.next_spec() && hash_number == self.next_spec(),
    {
        if number != self.next || hash_number != self.next || data.len() != self.next_chunk_len() {
            return false;
        }
        let theirs = decode_lossy(hash);
        let ours = content_hash(data);
        theirs == ours
    }

    /// Takes `data` as the next chunk: it is added to the data taken.
    pub fn advance(&mut self, data: &[u8])
        requires
            old(self).wf(),
            old(self).next_spec() < old(self).chunks_spec(),
            data@.len() == chunk_len_spec(old(self).len_spec() as nat, old(self).next_spec() as nat),
        ensures
            final(self).wf(),
            final(self).len_spec() == old(self).len_spec(),
            final(self).chunks_spec() == old(self).chunks_spec(),
            final(self).next_spec() == old(self).next_spec() + 1,
            final(self).accepted_spec() == old(self).accepted_spec() + data@,
    {
        self.next = self.next + 1;
        self.accepted = Ghost(self.accepted@ + data@);
    }
}

/// Each chunk the server sends of a file checks out at the client that
/// expects that chunk of an offer with the file's length.
pub proof fn law_chunk_check(d: Download, content: Seq<u8>, k: int)
    requires
        0 <= k,
        chunk_start(k) < content.len(),
        d.next_spec() == k,
        d.len_spec() == content.len(),
    ensures
        d.chunk_sound(
            k as u64,
            chunk_of(content, k),
            k as u64,
            encode_utf8(blake3_hex(chunk_of(content, k))),
        ),
{
    law_lossy_text_of_utf8(blake3_hex(chunk_of(content, k)));
}

/// The data a client takes, chunk after chunk, is the file: taking chunk
/// `k` of `content` after the chunks before it gives the chunks up to `k`;
/// and the chunks up to the offered count are the whole content.
pub proof fn law_reassembly(content: Seq<u8>, k: int)
    requires
        0 <= k,
        chunk_start(k) < content.len(),
    ensures
        content.subrange(0, received_len_spec(content.len(), k as nat) as int) + chunk_of(
            content,
            k,
        ) == content.subrange(0, received_len_spec(content.len(), (k + 1) as nat) as int),
        chunk_of(content, k).len() == chunk_len_spec(content.len(), k as nat),
        content.subrange(
            0,
            received_len_spec(content.len(), chunk_count(content.len())) as int,
        ) == content,
{
    let len = content.len() as int;
    let n = chunk_count(content.len()) as int;
    assert(n * (CHUNK_LEN as int) >= len) by (nonlinear_arith)
        requires
            n == (len + (CHUNK_LEN - 1)) / (CHUNK_LEN as int),
            len >= 0,
    ;
    assert(content.subrange(0, len) =~= content);
    assert(content.subrange(0, received_len_spec(content.len(), k as nat) as int) + chunk_of(
        content,
        k,
    ) =~= content.subrange(0, received_len_spec(content.len(), (k + 1) as nat) as int));
}

/// A chunk is accepted only if its hash checks out, whatever its length: a
/// chunk whose hash bytes, read as text, are not the BLAKE3 hash of its data
/// is refused; so is one that carries another number than the one expected,
/// in its data or in its hash; and one that is not as long as that chunk of
/// a file of the offered length.
pub proof fn law_chunk_refused(
    d: Download,
    number: u64,
    data: Seq<u8>,
    hash_number: u64,
    hash: Seq<u8>,
    content: Seq<u8>,
)
    requires
        d.len_spec() == content.len(),
        chunk_start(d.next_spec() as int) < content.len(),
    ensures
        lossy_text(hash) != blake3_hex(data) ==> !d.chunk_sound(number, data, hash_number, hash),
        number != d.next_spec() ==> !d.chunk_sound(number, data, hash_number, hash),
        hash_number != d.next_spec() ==> !d.chunk_sound(number, data, hash_number, hash),
        data.len() != chunk_of(content, d.next_spec() as int).len() ==> !d.chunk_sound(
            number,
            data,
            hash_number,
            hash,
        ),
{
    law_reassembly(content, d.next_spec() as int);
}

} // verus!
