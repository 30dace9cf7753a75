//! The storage that serves the pieces of a torrent from a CDN.

use vstd::prelude::*;
use vstd::string::*;

use crate::error::{ErrorKind, ErrorView, StorageError};
use crate::fetch::{FetchStep, RangeAttempt, RangeFetch};
use crate::fetch::{AttemptStage, AttemptView, StepView, fetch_start};
use crate::http::byte_range;
use crate::http::range_header;
use crate::layout::{PieceIndex, count_pieces};
use crate::layout::{law_piece_count_is_least, law_piece_extent, law_piece_takes_all_it_can};
use crate::layout::{piece_content, piece_count, piece_extent, piece_start};
use crate::text::push_decimal;
use crate::text::{decimal, writes};
use crate::text::law_decimal_reads_back;
use crate::text::{lemma_decimal_digits, lemma_decimal_injective, lemma_digits_then_other};

verus! {

/// How many requests the storage has under way at most.
pub const MAX_CONCURRENT_REQUESTS: usize = 8;

/// A read-only storage: piece `n` is the resource `piece_n.bin` below the base URL.
#[derive(Debug)]
pub struct CdnStorage {
    base_url: String,
    piece_length: usize,
    total_length: usize,
    num_pieces: usize,
}

/// What a [`CdnStorage`] serves.
pub struct StorageView {
    pub base_url: Seq<char>,
    pub piece_length: nat,
    pub total_length: nat,
}

impl View for CdnStorage {
    type V = StorageView;

    closed spec fn view(&self) -> StorageView {
        StorageView {
            base_url: self.base_url@,
            piece_length: self.piece_length as nat,
            total_length: self.total_length as nat,
        }
    }
}

impl StorageView {
    /// The number of pieces.
    pub open spec fn num_pieces(self) -> nat {
        piece_count(self.piece_length, self.total_length)
    }

    /// Whether `piece` has a size: it begins within the torrent or right at its end, and the
    /// torrent is not empty.
    pub open spec fn has_size(self, piece: nat) -> bool {
        self.total_length > 0 && piece_start(self.piece_length, piece) <= self.total_length
    }

    /// The number of bytes of `piece`.
    pub open spec fn piece_size(self, piece: nat) -> nat {
        piece_extent(self.piece_length, self.total_length, piece)
    }

    /// The URL of `piece`.
    pub open spec fn piece_url(self, piece: nat) -> Seq<char> {
        self.base_url + "/piece_"@ + decimal(piece) + ".bin"@
    }

    /// How many bytes a read into a buffer of `buffer_len` bytes asks for: as many as fit,
    /// of those that the piece has from `offset` on.
    pub open spec fn read_len(self, buffer_len: nat, piece: nat, offset: nat) -> nat {
        let size = self.piece_size(piece);
        if offset >= size {
            0
        } else if buffer_len < size - offset {
            buffer_len
        } else {
            (size - offset) as nat
        }
    }
}

/// What a read has to do.
#[derive(Debug)]
pub enum ReadPlan {
    /// There is nothing to read: the buffer takes no byte, or the piece has none left.
    Nothing,
    /// The bytes are fetched, beginning with this step.
    Fetch { fetch: RangeFetch, step: FetchStep },
}

/// What a read has done.
#[derive(Clone, Copy, Debug, PartialEq, Eq, Structural)]
pub struct ReadOutcome {
    /// How many bytes have been put into the buffer.
    pub copied: usize,
    /// By how much the counter of the bytes that were read goes up.
    pub counted: u64,
}

/// How many of `received` bytes go into a buffer of `capacity` bytes.
pub open spec fn copied_len(capacity: nat, received: nat) -> nat {
    if received < capacity {
        received
    } else {
        capacity
    }
}

/// The buffer after the bytes that came have been put at its front; the rest stays.
pub open spec fn filled(buffer: Seq<u8>, bytes: Seq<u8>) -> Seq<u8> {
    let copied = copied_len(buffer.len(), bytes.len()) as int;
    bytes.take(copied) + buffer.skip(copied)
}

/// The SHA-1 digest, as the `sha1` crate computes it.
pub uninterp spec fn sha1_digest(data: Seq<u8>) -> Seq<u8>;

/// `sha1::Sha1::digest`: the digest depends on the bytes alone, and has twenty bytes.
#[verifier::external_body]
fn sha1(data: &[u8]) -> (digest: [u8; 20])
    ensures
        digest@ == sha1_digest(data@),
{
    <sha1::Sha1 as sha1::Digest>::digest(data).into()
}

impl CdnStorage {
    #[verifier::type_invariant]
    spec fn well_formed(self) -> bool {
        &&& self.piece_length > 0
        &&& self.total_length + self.piece_length <= usize::MAX
        &&& self.num_pieces == piece_count(self.piece_length as nat, self.total_length as nat)
    }

    /// A storage for a torrent of `total_length` bytes in pieces of `piece_length` bytes.
    pub fn new(base_url: String, piece_length: usize, total_length: usize) -> (storage: CdnStorage)
        requires
            piece_length > 0,
            total_length + piece_length <= usize::MAX,
        ensures
            storage@ == (StorageView {
                base_url: base_url@,
                piece_length: piece_length as nat,
                total_length: total_length as nat,
            }),
    {
        let num_pieces = count_pieces(piece_length, total_length);
        CdnStorage { base_url, piece_length, total_length, num_pieces }
    }

    /// The URL of a piece.
    pub fn piece_url(&self, piece: &PieceIndex) -> (url: String)
        ensures
            url@ == self@.piece_url(*piece as nat),
    {
        let mut url = self.base_url.clone();
        url.append("/piece_");
        push_decimal(&mut url, *piece as u64);
        url.append(".bin");
        url
    }

    /// Whether a piece has a size.
    pub fn has_size(&self, piece: &PieceIndex) -> (known: bool)
        ensures
            known == self@.has_size(*piece as nat),
            self@.piece_length > 0,
    {
        proof {
            use_type_invariant(self);
        }
        if self.total_length == 0 {
            return false;
        }
        match piece.checked_mul(self.piece_length) {
            Some(start) => start <= self.total_length,
            None => false,
        }
    }

    /// The number of bytes of a piece.
    pub fn piece_size(&self, piece: &PieceIndex) -> (size: usize)
        requires
            self@.has_size(*piece as nat),
        ensures
            size == self@.piece_size(*piece as nat),
    {
        proof {
            use_type_invariant(self);
            law_piece_count_is_least(self.piece_length as nat, self.total_length as nat);
            if *piece < self.num_pieces {
                law_piece_extent(
                    self.piece_length as nat,
                    self.total_length as nat,
                    *piece as nat,
                );
            } else {
                assert(*piece * self.piece_length >= self.num_pieces * self.piece_length)
                    by (nonlinear_arith)
                    requires
                        *piece >= self.num_pieces,
                ;
            }
            if self.num_pieces == 0 {
                assert(self.num_pieces * self.piece_length == 0) by (nonlinear_arith)
                    requires
                        self.num_pieces == 0,
                ;
            }
        }
        if *piece < self.num_pieces - 1 {
            self.piece_length
        } else {
            self.total_length - *piece * self.piece_length
        }
    }

    /// One attempt at fetching `len` bytes of a piece from `offset` on.
    pub fn fetch_range_inner(&self, piece: &PieceIndex, offset: usize, len: usize) -> (attempt:
        RangeAttempt)
        requires
            1 <= offset + len <= usize::MAX,
        ensures
            attempt@ == (AttemptView {
                piece: *piece as nat,
                url: self@.piece_url(*piece as nat),
                range: range_header(offset as int, offset + len - 1),
                stage: AttemptStage::AwaitPermit,
            }),
    {
        let url = self.piece_url(piece);
        let range = byte_range(offset, len);
        RangeAttempt::new(*piece, url, range)
    }

    /// Fetches `len` bytes of a piece from `offset` on, with retries: the fetch, and its first
    /// step.
    pub fn fetch_range(&self, piece: &PieceIndex, offset: usize, len: usize) -> (started: (
        RangeFetch,
        FetchStep,
    ))
        requires
            1 <= offset + len <= usize::MAX,
        ensures
            started.0@ == fetch_start(
                *piece as nat,
                self@.piece_url(*piece as nat),
                range_header(offset as int, offset + len - 1),
            ),
            started.1@ == StepView::AcquirePermit,
    {
        RangeFetch::start(self.fetch_range_inner(piece, offset, len))
    }

    /// What it takes to read a piece from `offset` on into a buffer of `buffer_len` bytes.
    pub fn read(&self, buffer_len: usize, piece: &PieceIndex, offset: usize) -> (plan: ReadPlan)
        requires
            self@.has_size(*piece as nat),
        ensures
            self@.piece_length > 0,
            match plan {
                ReadPlan::Nothing => self@.read_len(
                    buffer_len as nat,
                    *piece as nat,
                    offset as nat,
                ) == 0,
                ReadPlan::Fetch { fetch, step } => {
                    let len = self@.read_len(buffer_len as nat, *piece as nat, offset as nat);
                    &&& len > 0
                    &&& fetch@ == fetch_start(
                        *piece as nat,
                        self@.piece_url(*piece as nat),
                        range_header(offset as int, offset + len - 1),
                    )
                    &&& step@ == StepView::AcquirePermit
                },
            },
    {
        proof {
            use_type_invariant(self);
        }
        let piece_size = self.piece_size(piece);
        if buffer_len == 0 {
            return ReadPlan::Nothing;
        }
        if offset >= piece_size {
            return ReadPlan::Nothing;
        }
        let available = piece_size - offset;
        let to_fetch = if buffer_len < available {
            buffer_len
        } else {
            available
        };
        let (fetch, step) = self.fetch_range(piece, offset, to_fetch);
        ReadPlan::Fetch { fetch, step }
    }

    /// Puts what a read has fetched into the buffer.
    pub fn finish_read(buffer: &mut [u8], fetched: Result<Vec<u8>, StorageError>) -> (outcome:
        Result<ReadOutcome, StorageError>)
        ensures
            match fetched {
                Ok(bytes) => {
                    &&& final(buffer)@ == filled(old(buffer)@, bytes@)
                    &&& outcome matches Ok(done)
                    &&& done.copied == copied_len(old(buffer)@.len(), bytes@.len())
                    &&& done.counted == done.copied
                },
                Err(error) => final(buffer)@ == old(buffer)@ && outcome == Err::<
                    ReadOutcome,
                    StorageError,
                >(error),
            },
    {
        match fetched {
            Ok(bytes) => {
                let copied = if bytes.len() < buffer.len() {
                    bytes.len()
                } else {
                    buffer.len()
                };
                let mut i: usize = 0;
                while i < copied
                    invariant
                        i <= copied,
                        copied == copied_len(old(buffer)@.len(), bytes@.len()),
                        buffer@ == bytes@.take(i as int) + old(buffer)@.skip(i as int),
                    decreases copied - i,
                {
                    buffer[i] = bytes[i];
                    i += 1;
                    assert(buffer@ =~= bytes@.take(i as int) + old(buffer)@.skip(i as int));
                }
                Ok(ReadOutcome { copied, counted: copied as u64 })
            },
            Err(error) => Err(error),
        }
    }

    /// Writing is not offered: no byte is written.
    pub fn write(&self, data: &[u8], piece: &PieceIndex, offset: usize) -> (written: Result<
        usize,
        StorageError,
    >)
        ensures
            written == Ok::<usize, StorageError>(0),
    {
        Ok(0)
    }

    /// Fetches a whole piece, for its SHA-1 digest.
    pub fn hash_v1(&self, piece: &PieceIndex) -> (started: (RangeFetch, FetchStep))
        requires
            self@.has_size(*piece as nat),
            self@.piece_size(*piece as nat) > 0,
        ensures
            started.0@ == fetch_start(
                *piece as nat,
                self@.piece_url(*piece as nat),
                range_header(0, self@.piece_size(*piece as nat) - 1),
            ),
            started.1@ == StepView::AcquirePermit,
    {
        let size = self.piece_size(piece);
        self.fetch_range(piece, 0, size)
    }

    /// The SHA-1 digest of a piece that has been fetched.
    pub fn finish_hash_v1(fetched: Result<Vec<u8>, StorageError>) -> (hash: Result<
        [u8; 20],
        StorageError,
    >)
        ensures
            match fetched {
                Ok(bytes) => hash matches Ok(digest) && digest@ == sha1_digest(bytes@),
                Err(error) => hash == Err::<[u8; 20], StorageError>(error),
            },
    {
        match fetched {
            Ok(bytes) => Ok(sha1(bytes.as_slice())),
            Err(error) => Err(error),
        }
    }

    /// Version 2 hashes are not offered.
    pub fn hash_v2(&self, piece: &PieceIndex) -> (hash: Result<[u8; 32], StorageError>)
        ensures
            hash matches Err(error) && error@ == (ErrorView {
                kind: ErrorKind::Unsupported,
                message: "v2 hashing not supported"@,
            }),
    {
        Err(
            StorageError {
                kind: ErrorKind::Unsupported,
                message: String::from_str("v2 hashing not supported"),
            },
        )
    }

    /// There is nothing to move: the storage has no files.
    pub fn move_storage(&self) -> (moved: Result<(), StorageError>)
        ensures
            moved == Ok::<(), StorageError>(()),
    {
        Ok(())
    }
}

/// Distinct pieces have distinct URLs.
pub proof fn law_piece_urls_are_distinct(storage: StorageView, piece1: nat, piece2: nat)
    requires
        storage.piece_url(piece1) == storage.piece_url(piece2),
    ensures
        piece1 == piece2,
{
    reveal_strlit(".bin");
    let stem = storage.base_url + "/piece_"@;
    let end = ".bin"@;
    lemma_decimal_digits(piece1);
    lemma_decimal_digits(piece2);
    assert(storage.piece_url(piece1).skip(stem.len() as int) =~= decimal(piece1) + end);
    assert(storage.piece_url(piece2).skip(stem.len() as int) =~= decimal(piece2) + end);
    lemma_digits_then_other(decimal(piece1), end, decimal(piece2), end);
    lemma_decimal_injective(piece1, piece2);
}

/// The URL of a piece names that piece: it is the base URL, `/piece_`, the number of the piece
/// in decimal, and `.bin`.
pub proof fn law_piece_url_names_the_piece(storage: StorageView, piece: nat)
    ensures
        ({
            let url = storage.piece_url(piece);
            let base = storage.base_url.len() as int;
            let end = url.len() - 4;
            &&& base + 7 < end
            &&& url.take(base) == storage.base_url
            &&& url.subrange(base, base + 7) == "/piece_"@
            &&& writes(url.subrange(base + 7, end), piece)
            &&& url.skip(end) == ".bin"@
        }),
{
    reveal_strlit("/piece_");
    reveal_strlit(".bin");
    law_decimal_reads_back(piece);
    let url = storage.piece_url(piece);
    let base = storage.base_url.len() as int;
    let end = url.len() - 4;
    assert(url.take(base) =~= storage.base_url);
    assert(url.subrange(base, base + 7) =~= "/piece_"@);
    assert(url.subrange(base + 7, end) =~= decimal(piece));
    assert(url.skip(end) =~= ".bin"@);
}

/// The storage can tell the size of a piece exactly where the torrent has bytes and does not
/// end before the piece begins. The piece is then as large as its length and the torrent allow.
pub proof fn law_piece_size_is_the_largest(storage: StorageView, piece: nat)
    ensures
        storage.has_size(piece) <==> storage.total_length > 0 && piece * storage.piece_length
            <= storage.total_length,
        storage.has_size(piece) ==> {
            let size = storage.piece_size(piece);
            &&& size <= storage.piece_length
            &&& piece * storage.piece_length + size <= storage.total_length
            &&& size == storage.piece_length || piece * storage.piece_length + size
                == storage.total_length
        },
{
    if piece * storage.piece_length <= storage.total_length {
        law_piece_takes_all_it_can(storage.piece_length, storage.total_length, piece);
    }
}

/// A read asks for as many bytes as it can. Within the piece it stops only where the buffer is
/// full, the piece ends or the torrent ends, and it goes beyond none of them; behind the end of
/// the piece it asks for nothing.
pub proof fn law_read_asks_for_all_it_can(
    storage: StorageView,
    buffer_len: nat,
    piece: nat,
    offset: nat,
)
    requires
        piece * storage.piece_length <= storage.total_length,
    ensures
        ({
            let len = storage.read_len(buffer_len, piece, offset);
            let position = piece * storage.piece_length + offset;
            if offset < storage.piece_length && position < storage.total_length {
                &&& len <= buffer_len
                &&& offset + len <= storage.piece_length
                &&& position + len <= storage.total_length
                &&& len == buffer_len || offset + len == storage.piece_length || position + len
                    == storage.total_length
                &&& len == buffer_len || offset + len == storage.piece_size(piece)
            } else {
                len == 0
            }
        }),
{
    law_piece_takes_all_it_can(storage.piece_length, storage.total_length, piece);
}

/// Two reads of a piece, one behind the other, ask for what one read asks for into a buffer as
/// large as both of theirs.
pub proof fn law_adjacent_reads_ask_for_what_one_does(
    storage: StorageView,
    buffer_len1: nat,
    buffer_len2: nat,
    piece: nat,
    offset: nat,
)
    ensures
        ({
            let len = storage.read_len(buffer_len1, piece, offset);
            len + storage.read_len(buffer_len2, piece, offset + len) == storage.read_len(
                buffer_len1 + buffer_len2,
                piece,
                offset,
            )
        }),
{
}

/// As many bytes are put into the buffer as it takes and as have come: none goes to waste
/// while there is room for it.
pub proof fn law_copy_is_as_long_as_it_can_be(capacity: nat, received: nat)
    ensures
        copied_len(capacity, received) <= capacity,
        copied_len(capacity, received) <= received,
        copied_len(capacity, received) == capacity || copied_len(capacity, received) == received,
{
}

/// Where the bytes that came are those of the torrent from `offset` of the piece on, the buffer
/// then holds, byte for byte, the torrent from there on, as far as the read goes; behind that
/// it is as it was.
pub proof fn law_buffer_holds_the_torrent(
    storage: StorageView,
    content: Seq<u8>,
    buffer: Seq<u8>,
    bytes: Seq<u8>,
    piece: nat,
    offset: nat,
)
    requires
        piece * storage.piece_length <= content.len(),
        storage.total_length == content.len(),
        bytes.len() == storage.read_len(buffer.len(), piece, offset),
        forall|i: int|
            0 <= i < bytes.len() ==> #[trigger] bytes[i] == content[piece * storage.piece_length
                + offset + i],
    ensures
        filled(buffer, bytes).len() == buffer.len(),
        forall|i: int|
            0 <= i < buffer.len() ==> #[trigger] filled(buffer, bytes)[i] == (if offset + i
                < storage.piece_length && piece * storage.piece_length + offset + i
                < content.len() {
                content[piece * storage.piece_length + offset + i]
            } else {
                buffer[i]
            }),
{
    law_read_asks_for_all_it_can(storage, buffer.len(), piece, offset);
    law_read_fills_the_front(buffer, bytes);
}

/// A read asks for no more bytes than the buffer takes, and for none that lie outside the
/// piece; it asks for none only where the buffer takes none or the piece has none left.
pub proof fn law_read_stays_within_the_piece(
    storage: StorageView,
    buffer_len: nat,
    piece: nat,
    offset: nat,
)
    ensures
        storage.read_len(buffer_len, piece, offset) <= buffer_len,
        offset <= storage.piece_size(piece) ==> offset + storage.read_len(
            buffer_len,
            piece,
            offset,
        ) <= storage.piece_size(piece),
        storage.read_len(buffer_len, piece, offset) == 0 <==> buffer_len == 0 || offset
            >= storage.piece_size(piece),
{
}

/// Every piece of the torrent has a size that the storage can tell, and one byte at least, so
/// that it can be read and hashed.
pub proof fn law_every_piece_can_be_hashed(storage: StorageView, piece: nat)
    requires
        storage.piece_length > 0,
        piece < storage.num_pieces(),
    ensures
        storage.has_size(piece),
        storage.piece_size(piece) > 0,
{
    law_piece_count_is_least(storage.piece_length, storage.total_length);
    law_piece_extent(storage.piece_length, storage.total_length, piece);
    assert(piece_start(storage.piece_length, piece) < storage.total_length);
}

/// A read changes the buffer only at its front: what is put there are the first bytes that
/// came, and what lies behind them stays.
pub proof fn law_read_fills_the_front(buffer: Seq<u8>, bytes: Seq<u8>)
    ensures
        filled(buffer, bytes).len() == buffer.len(),
        forall|i: int|
            0 <= i < buffer.len() ==> #[trigger] filled(buffer, bytes)[i] == (if i < bytes.len() {
                bytes[i]
            } else {
                buffer[i]
            }),
{
}

/// The bytes of `content` that the request of a read names: from `offset` of the piece on, as
/// many as the read asks for.
pub open spec fn requested_bytes(
    storage: StorageView,
    content: Seq<u8>,
    buffer_len: nat,
    piece: nat,
    offset: nat,
) -> Seq<u8> {
    piece_content(content, storage.piece_length, piece).subrange(
        offset as int,
        (offset + storage.read_len(buffer_len, piece, offset)) as int,
    )
}

/// Where the server answers with the bytes that the request names, a read puts the torrent's
/// own bytes into the buffer: byte `i` of the buffer is byte `offset + i` of the piece.
pub proof fn law_read_gives_the_bytes_of_the_piece(
    storage: StorageView,
    content: Seq<u8>,
    buffer: Seq<u8>,
    piece: nat,
    offset: nat,
)
    requires
        storage.piece_length > 0,
        storage.total_length == content.len(),
        piece < storage.num_pieces(),
        offset <= storage.piece_size(piece),
    ensures
        ({
            let bytes = requested_bytes(storage, content, buffer.len(), piece, offset);
            let len = storage.read_len(buffer.len(), piece, offset);
            let start = piece_start(storage.piece_length, piece);
            &&& copied_len(buffer.len(), bytes.len()) == len
            &&& filled(buffer, bytes) == content.subrange(
                (start + offset) as int,
                (start + offset + len) as int,
            ) + buffer.skip(len as int)
        }),
{
    law_piece_extent(storage.piece_length, storage.total_length, piece);
    let bytes = requested_bytes(storage, content, buffer.len(), piece, offset);
    let len = storage.read_len(buffer.len(), piece, offset);
    let start = piece_start(storage.piece_length, piece);
    assert(bytes =~= content.subrange((start + offset) as int, (start + offset + len) as int));
    assert(bytes.take(len as int) =~= bytes);
}

/// What successive reads of a piece give, each into a buffer of `buffer_len` bytes and each
/// from where the last one ended, until there is nothing left to read.
pub open spec fn read_from(
    storage: StorageView,
    content: Seq<u8>,
    buffer_len: nat,
    piece: nat,
    offset: nat,
) -> Seq<u8>
    decreases storage.piece_size(piece) - offset,
{
    let len = storage.read_len(buffer_len, piece, offset);
    if len == 0 {
        Seq::empty()
    } else {
        requested_bytes(storage, content, buffer_len, piece, offset) + read_from(
            storage,
            content,
            buffer_len,
            piece,
            offset + len,
        )
    }
}

proof fn lemma_read_from(
    storage: StorageView,
    content: Seq<u8>,
    buffer_len: nat,
    piece: nat,
    offset: nat,
)
    requires
        storage.piece_length > 0,
        storage.total_length == content.len(),
        piece < storage.num_pieces(),
        buffer_len > 0,
        offset <= storage.piece_size(piece),
    ensures
        read_from(storage, content, buffer_len, piece, offset) == piece_content(
            content,
            storage.piece_length,
            piece,
        ).skip(offset as int),
    decreases storage.piece_size(piece) - offset,
{
    law_piece_extent(storage.piece_length, storage.total_length, piece);
    let whole = piece_content(content, storage.piece_length, piece);
    let len = storage.read_len(buffer_len, piece, offset);
    if len > 0 {
        lemma_read_from(storage, content, buffer_len, piece, offset + len);
    }
    assert(read_from(storage, content, buffer_len, piece, offset) =~= whole.skip(offset as int));
}

/// Reading a piece from its start to its end gives the piece, whatever the size of the buffer.
pub proof fn law_reads_give_the_whole_piece(
    storage: StorageView,
    content: Seq<u8>,
    buffer_len: nat,
    piece: nat,
)
    requires
        storage.piece_length > 0,
        storage.total_length == content.len(),
        piece < storage.num_pieces(),
        buffer_len > 0,
    ensures
        read_from(storage, content, buffer_len, piece, 0) == piece_content(
            content,
            storage.piece_length,
            piece,
        ),
{
    lemma_read_from(storage, content, buffer_len, piece, 0);
    let whole = piece_content(content, storage.piece_length, piece);
    assert(whole.skip(0) =~= whole);
}

/// The range that the digest of a piece is taken over is the whole piece.
pub proof fn law_hash_covers_the_piece(storage: StorageView, content: Seq<u8>, piece: nat)
    requires
        storage.piece_length > 0,
        storage.total_length == content.len(),
        piece < storage.num_pieces(),
    ensures
        piece_content(content, storage.piece_length, piece).len() == storage.piece_size(piece),
        requested_bytes(storage, content, storage.piece_size(piece), piece, 0) == piece_content(
            content,
            storage.piece_length,
            piece,
        ),
{
    law_piece_extent(storage.piece_length, storage.total_length, piece);
    assert(requested_bytes(storage, content, storage.piece_size(piece), piece, 0)
        =~= piece_content(content, storage.piece_length, piece));
}

} // verus!
