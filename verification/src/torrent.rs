//! What the seeder takes from a torrent file.

use vstd::prelude::*;
use vstd::string::*;

use crate::layout::count_pieces;
use crate::layout::law_pieces_take_in_the_torrent;
use crate::layout::piece_count;
use crate::nesting::{MAX_NESTING, is_nesting_within};
use crate::nesting::nesting_within;

verus! {

/// The metadata of a torrent, as `fx_torrent` holds it.
#[verifier::external_type_specification]
#[verifier::external_body]
pub struct ExTorrentMetadata(fx_torrent::TorrentMetadata);

/// Why `fx_torrent` refuses a torrent file.
#[verifier::external_type_specification]
#[verifier::external_body]
pub struct ExTorrentError(fx_torrent::TorrentError);

/// What the info dictionary of a torrent says of its size.
#[derive(Debug)]
pub struct InfoSizes {
    /// The number of bytes of a piece.
    pub piece_length: u64,
    /// The number of bytes of each file.
    pub file_lengths: Vec<u64>,
}

/// A torrent file that has been parsed.
#[derive(Debug)]
pub struct ParsedTorrent {
    /// The metadata, for the session.
    pub metadata: fx_torrent::TorrentMetadata,
    /// The sizes, where the torrent has an info dictionary.
    pub info: Option<InfoSizes>,
}

/// The sum of `lengths`.
pub open spec fn sum(lengths: Seq<u64>) -> nat
    decreases lengths.len(),
{
    if lengths.len() == 0 {
        0
    } else {
        sum(lengths.drop_last()) + lengths.last() as nat
    }
}

/// What a torrent file says, as `fx_torrent` reads it: nothing where the file is no torrent;
/// else what [`metadata_contents`] has of it.
pub uninterp spec fn torrent_contents(bytes: Seq<u8>) -> Option<(Seq<u8>, Option<(u64, nat)>)>;

/// The SHA-1 info hash that metadata carries; and its piece length and the sum of its file
/// lengths, where it has an info dictionary.
pub uninterp spec fn metadata_contents(metadata: fx_torrent::TorrentMetadata) -> (
    Seq<u8>,
    Option<(u64, nat)>,
);

impl ParsedTorrent {
    /// The piece length and the length of the torrent, where it has an info dictionary.
    pub open spec fn sizes(self) -> Option<(u64, nat)> {
        match self.info {
            Some(info) => Some((info.piece_length, sum(info.file_lengths@))),
            None => None,
        }
    }
}

/// `fx_torrent::TorrentMetadata::try_from`, with the piece length of the info dictionary and
/// the lengths of its files, as `TorrentMetadataInfo::files` lists them, taken out. Claimed is
/// that these depend on the bytes alone: whether they are a torrent, and the info hash, the
/// piece length and the sum of the file lengths of the metadata; and that the sizes taken out
/// are those of the metadata. The order of the files, the error and the rest of the metadata
/// are not stated. The parser recurses once per level of nesting, so the nesting is bounded.
#[verifier::external_body]
fn parse_torrent(bytes: &[u8]) -> (parsed: Result<ParsedTorrent, fx_torrent::TorrentError>)
    requires
        nesting_within(bytes@, MAX_NESTING as nat),
    ensures
        match parsed {
            Ok(torrent) => {
                &&& torrent_contents(bytes@) == Some(metadata_contents(torrent.metadata))
                &&& metadata_contents(torrent.metadata).1 == torrent.sizes()
            },
            Err(_) => torrent_contents(bytes@) is None,
        },
{
    let metadata = fx_torrent::TorrentMetadata::try_from(bytes)?;
    let info = metadata.info.as_ref().map(|info| InfoSizes {
        piece_length: info.piece_length,
        file_lengths: info.files().iter().map(|file| file.length).collect(),
    });
    Ok(ParsedTorrent { metadata, info })
}

/// The layout of a torrent.
#[derive(Clone, Copy, Debug, PartialEq, Eq, Structural)]
pub struct TorrentLayout {
    pub piece_length: usize,
    pub total_length: usize,
    pub num_pieces: usize,
}

/// Whether a torrent of `total_length` bytes can be cut into pieces of `piece_length` bytes
/// on this machine.
pub open spec fn is_usable(piece_length: nat, total_length: nat) -> bool {
    piece_length > 0 && total_length + piece_length <= usize::MAX
}

impl TorrentLayout {
    /// Whether this is the layout of a torrent with these lengths.
    pub open spec fn describes(self, piece_length: nat, total_length: nat) -> bool {
        &&& self.piece_length == piece_length
        &&& self.total_length == total_length
        &&& self.num_pieces == piece_count(piece_length, total_length)
    }
}

proof fn lemma_sum_of_part(lengths: Seq<u64>, part: int)
    requires
        0 <= part <= lengths.len(),
    ensures
        sum(lengths.take(part)) <= sum(lengths),
    decreases lengths.len(),
{
    if part == lengths.len() {
        assert(lengths.take(part) =~= lengths);
    } else {
        lemma_sum_of_part(lengths.drop_last(), part);
        assert(lengths.drop_last().take(part) =~= lengths.take(part));
    }
}

/// The total length counts every file once: that of no file is zero, that of one file is its
/// length, and that of two lists of files, one behind the other, is that of the one and that of
/// the other together.
pub proof fn law_total_length_counts_every_file(first: Seq<u64>, second: Seq<u64>, file: u64)
    ensures
        sum(Seq::empty()) == 0,
        sum(seq![file]) == file,
        sum(first + second) == sum(first) + sum(second),
    decreases second.len(),
{
    assert(seq![file].drop_last() =~= Seq::<u64>::empty());
    assert(sum(Seq::<u64>::empty()) == 0);
    if second.len() == 0 {
        assert(first + second =~= first);
    } else {
        law_total_length_counts_every_file(first, second.drop_last(), file);
        assert((first + second).drop_last() =~= first + second.drop_last());
        assert((first + second).last() == second.last());
    }
}

/// The sizes of a torrent are those of its info dictionary: its piece length as it stands, and
/// the length of all its files.
pub proof fn law_sizes_are_those_of_the_info(parsed: ParsedTorrent)
    ensures
        parsed.sizes() is Some <==> parsed.info is Some,
        parsed.info matches Some(info) ==> parsed.sizes() == Some(
            (info.piece_length, sum(info.file_lengths@)),
        ),
{
}

/// A torrent is turned away only where its pieces have no length, or where its length and one
/// piece do not fit the machine. A layout gives back the lengths, and has as many pieces as it
/// takes to hold every byte, and not one more.
pub proof fn law_layout_holds_the_torrent(
    layout: TorrentLayout,
    piece_length: nat,
    total_length: nat,
)
    ensures
        is_usable(piece_length, total_length) <==> piece_length > 0 && total_length + piece_length
            <= usize::MAX,
        piece_length > 0 && layout.describes(piece_length, total_length) ==> {
            &&& layout.piece_length == piece_length
            &&& layout.total_length == total_length
            &&& layout.num_pieces * piece_length >= total_length
            &&& total_length > 0 ==> layout.num_pieces > 0 && (layout.num_pieces - 1)
                * piece_length < total_length
            &&& total_length == 0 ==> layout.num_pieces == 0
        },
{
    if piece_length > 0 {
        law_pieces_take_in_the_torrent(piece_length, total_length);
    }
}

/// The sum of the file lengths, where it fits into 64 bits.
fn total_length(file_lengths: &Vec<u64>) -> (total: Option<u64>)
    ensures
        total is Some <==> sum(file_lengths@) <= u64::MAX,
        total matches Some(t) ==> t == sum(file_lengths@),
{
    let mut total: u64 = 0;
    let mut i: usize = 0;
    while i < file_lengths.len()
        invariant
            i <= file_lengths@.len(),
            total == sum(file_lengths@.take(i as int)),
        decreases file_lengths@.len() - i,
    {
        proof {
            assert(file_lengths@.take(i + 1).drop_last() =~= file_lengths@.take(i as int));
            lemma_sum_of_part(file_lengths@, i + 1);
        }
        match total.checked_add(file_lengths[i]) {
            Some(t) => {
                total = t;
            },
            None => {
                return None;
            },
        }
        i += 1;
    }
    assert(file_lengths@.take(i as int) =~= file_lengths@);
    Some(total)
}

/// The layout of a torrent with these sizes, where it can be had.
pub fn torrent_layout(info: &InfoSizes) -> (layout: Option<TorrentLayout>)
    ensures
        layout is Some <==> is_usable(info.piece_length as nat, sum(info.file_lengths@)),
        layout matches Some(l) ==> l.describes(info.piece_length as nat, sum(info.file_lengths@)),
{
    let total: u64 = match total_length(&info.file_lengths) {
        Some(total) => total,
        None => {
            return None;
        },
    };
    if info.piece_length == 0 {
        return None;
    }
    match total.checked_add(info.piece_length) {
        Some(end) => {
            if end > usize::MAX as u64 {
                return None;
            }
            let piece_length: usize = info.piece_length as usize;
            let total_length: usize = total as usize;
            let num_pieces = count_pieces(piece_length, total_length);
            Some(TorrentLayout { piece_length, total_length, num_pieces })
        },
        None => None,
    }
}

/// A torrent that can be seeded.
#[derive(Debug)]
pub struct LoadedTorrent {
    /// The metadata, for the session.
    pub metadata: fx_torrent::TorrentMetadata,
    /// The layout, for the storage.
    pub layout: TorrentLayout,
}

/// Why a torrent cannot be seeded.
#[derive(Debug)]
pub enum LoadError {
    /// The file is nested too deep to be read.
    TooDeep,
    /// The file is no torrent.
    NoTorrent(fx_torrent::TorrentError),
    /// The torrent has no info dictionary.
    NoInfo,
    /// The torrent cannot be cut into pieces.
    NoLayout,
}

impl LoadError {
    /// What the error says, where it is not the parser's own.
    pub fn message(&self) -> (message: Option<String>)
        ensures
            match self {
                LoadError::TooDeep => message matches Some(m) && m@
                    == "torrent is nested too deep"@,
                LoadError::NoTorrent(_) => message is None,
                LoadError::NoInfo => message matches Some(m) && m@ == "torrent has no info dict"@,
                LoadError::NoLayout => message matches Some(m) && m@
                    == "torrent cannot be cut into pieces"@,
            },
    {
        match self {
            LoadError::TooDeep => Some(String::from_str("torrent is nested too deep")),
            LoadError::NoTorrent(_) => None,
            LoadError::NoInfo => Some(String::from_str("torrent has no info dict")),
            LoadError::NoLayout => Some(String::from_str("torrent cannot be cut into pieces")),
        }
    }
}

/// Takes the metadata and the layout from a torrent file that has been parsed.
pub fn seedable_torrent(parsed: ParsedTorrent) -> (loaded: Result<LoadedTorrent, LoadError>)
    ensures
        match parsed.sizes() {
            None => loaded matches Err(LoadError::NoInfo),
            Some((piece_length, total)) => if is_usable(piece_length as nat, total) {
                &&& loaded matches Ok(torrent)
                &&& torrent.metadata == parsed.metadata
                &&& torrent.layout.describes(piece_length as nat, total)
            } else {
                loaded matches Err(LoadError::NoLayout)
            },
        },
{
    match parsed.info {
        None => Err(LoadError::NoInfo),
        Some(info) => match torrent_layout(&info) {
            None => Err(LoadError::NoLayout),
            Some(layout) => Ok(LoadedTorrent { metadata: parsed.metadata, layout }),
        },
    }
}

/// Takes the metadata and the layout from the bytes of a torrent file.
pub fn load_torrent(bytes: &[u8]) -> (loaded: Result<LoadedTorrent, LoadError>)
    ensures
        if !nesting_within(bytes@, MAX_NESTING as nat) {
            loaded matches Err(LoadError::TooDeep)
        } else {
            match torrent_contents(bytes@) {
                None => loaded matches Err(LoadError::NoTorrent(_)),
                Some((_, None)) => loaded matches Err(LoadError::NoInfo),
                Some((info_hash, Some((piece_length, total)))) => if is_usable(
                    piece_length as nat,
                    total,
                ) {
                    &&& loaded matches Ok(torrent)
                    &&& metadata_contents(torrent.metadata) == (
                        info_hash,
                        Some((piece_length, total)),
                    )
                    &&& torrent.layout.describes(piece_length as nat, total)
                } else {
                    loaded matches Err(LoadError::NoLayout)
                },
            }
        },
{
    if !is_nesting_within(bytes, MAX_NESTING) {
        return Err(LoadError::TooDeep);
    }
    match parse_torrent(bytes) {
        Err(error) => Err(LoadError::NoTorrent(error)),
        Ok(parsed) => seedable_torrent(parsed),
    }
}

} // verus!
