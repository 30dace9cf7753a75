//! The operations of a seeding torrent, and the one that marks every piece as complete.

use vstd::prelude::*;

verus! {

/// The operations that a seeding torrent runs on each tick.
#[derive(Clone, Copy, Debug, PartialEq, Eq, Structural)]
pub enum SeedOperation {
    Stats,
    Trackers,
    DhtNodes,
    DhtPeers,
    LsdPeers,
    TrackerPeers,
    ConnectPeers { webseeds_enabled: bool },
    Metadata { retrieve_timeout_secs: Option<u64> },
    CreatePiecesAndFiles,
    SeedAllPieces,
}

/// The operations of a seeding torrent, in the order in which they run. No operation
/// validates files: the pieces are taken to be complete once they exist.
pub fn seed_operations() -> (operations: Vec<SeedOperation>)
    ensures
        operations@ == seq![
            SeedOperation::Stats,
            SeedOperation::Trackers,
            SeedOperation::DhtNodes,
            SeedOperation::DhtPeers,
            SeedOperation::LsdPeers,
            SeedOperation::TrackerPeers,
            (SeedOperation::ConnectPeers { webseeds_enabled: true }),
            (SeedOperation::Metadata { retrieve_timeout_secs: None }),
            SeedOperation::CreatePiecesAndFiles,
            SeedOperation::SeedAllPieces,
        ],
{
    vec![
        SeedOperation::Stats,
        SeedOperation::Trackers,
        SeedOperation::DhtNodes,
        SeedOperation::DhtPeers,
        SeedOperation::LsdPeers,
        SeedOperation::TrackerPeers,
        SeedOperation::ConnectPeers { webseeds_enabled: true },
        SeedOperation::Metadata { retrieve_timeout_secs: None },
        SeedOperation::CreatePiecesAndFiles,
        SeedOperation::SeedAllPieces,
    ]
}

/// What happened since the last step of the operation.
#[derive(Clone, Copy, Debug, PartialEq, Eq, Structural)]
pub enum SeedEvent {
    /// The torrent runs its operations.
    Tick,
    /// The torrent has `total` pieces.
    Counted { total: usize },
    /// Piece `piece` of `total` has been marked as complete.
    Completed { piece: usize, total: usize },
}

/// What is to be done next.
#[derive(Clone, Copy, Debug, PartialEq, Eq, Structural)]
pub enum SeedAction {
    /// Go on with the next operation of the torrent.
    Continue,
    /// Count the pieces of the torrent.
    CountPieces,
    /// Mark piece `piece` of `total` as complete.
    CompletePiece { piece: usize, total: usize },
}

/// Marks all pieces of a torrent as complete, once.
#[derive(Debug)]
pub struct SeedAllPiecesOperation {
    marked: bool,
}

impl View for SeedAllPiecesOperation {
    type V = bool;

    /// Whether the pieces have been marked.
    closed spec fn view(&self) -> bool {
        self.marked
    }
}

/// The step that follows `event`, and whether the pieces have been marked after it.
pub open spec fn seed_step(marked: bool, event: SeedEvent) -> (bool, SeedAction) {
    match event {
        SeedEvent::Tick => (
            marked,
            if marked {
                SeedAction::Continue
            } else {
                SeedAction::CountPieces
            },
        ),
        SeedEvent::Counted { total } => (
            marked,
            if total == 0 {
                SeedAction::Continue
            } else {
                SeedAction::CompletePiece { piece: 0, total }
            },
        ),
        SeedEvent::Completed { piece, total } => if piece + 1 < total {
            (marked, SeedAction::CompletePiece { piece: (piece + 1) as usize, total })
        } else {
            (true, SeedAction::Continue)
        },
    }
}

impl SeedAllPiecesOperation {
    /// An operation that has not marked the pieces yet.
    pub fn new() -> (operation: Self)
        ensures
            !operation@,
    {
        Self { marked: false }
    }

    /// The name of the operation.
    pub fn name(&self) -> (name: &'static str)
        ensures
            name@ == "SeedAllPieces"@,
    {
        "SeedAllPieces"
    }

    /// Takes the operation one step further.
    pub fn execute(&mut self, event: SeedEvent) -> (action: SeedAction)
        requires
            event matches SeedEvent::Completed { piece, total } ==> piece < total,
        ensures
            (final(self)@, action) == seed_step(old(self)@, event),
    {
        match event {
            SeedEvent::Tick => {
                if self.marked {
                    SeedAction::Continue
                } else {
                    SeedAction::CountPieces
                }
            },
            SeedEvent::Counted { total } => {
                if total == 0 {
                    SeedAction::Continue
                } else {
                    SeedAction::CompletePiece { piece: 0, total }
                }
            },
            SeedEvent::Completed { piece, total } => {
                if piece + 1 < total {
                    SeedAction::CompletePiece { piece: piece + 1, total }
                } else {
                    self.marked = true;
                    SeedAction::Continue
                }
            },
        }
    }
}

/// How far `event` is from the end of the pass, on a torrent with `total` pieces.
pub open spec fn remaining_steps(event: SeedEvent, total: usize) -> int {
    match event {
        SeedEvent::Tick => total + 2,
        SeedEvent::Counted { total: counted } => counted + 1,
        SeedEvent::Completed { piece, total: counted } => if piece < counted {
            counted - piece
        } else {
            0
        },
    }
}

/// One pass of the operation from `event` on, over a torrent with `total` pieces: whether the
/// pieces have been marked at its end, and the pieces that it marks, in order.
pub open spec fn seed_pass(marked: bool, event: SeedEvent, total: usize) -> (bool, Seq<usize>)
    decreases remaining_steps(event, total),
{
    let (after, action) = seed_step(marked, event);
    match action {
        SeedAction::Continue => (after, Seq::empty()),
        SeedAction::CountPieces => seed_pass(after, SeedEvent::Counted { total }, total),
        SeedAction::CompletePiece { piece, total: counted } => {
            let (end, rest) = seed_pass(
                after,
                SeedEvent::Completed { piece, total: counted },
                total,
            );
            (end, seq![piece] + rest)
        },
    }
}

/// All pieces of a torrent with `total` pieces, in ascending order.
pub open spec fn all_pieces(total: usize) -> Seq<usize> {
    Seq::new(total as nat, |i: int| i as usize)
}

proof fn lemma_pass_from_piece(piece: usize, total: usize)
    requires
        piece < total,
    ensures
        seed_pass(false, SeedEvent::Completed { piece, total }, total) == (
            true,
            all_pieces(total).skip(piece + 1),
        ),
    decreases total - piece,
{
    if piece + 1 < total {
        let next = (piece + 1) as usize;
        lemma_pass_from_piece(next, total);
        assert(seq![next] + all_pieces(total).skip(next + 1) =~= all_pieces(total).skip(piece + 1));
    } else {
        assert(all_pieces(total).skip(piece + 1) =~= Seq::<usize>::empty());
    }
}

/// The first pass that finds pieces marks each of them exactly once, in ascending order; a
/// pass that finds none marks nothing and leaves the operation as it was.
pub proof fn law_first_pass_marks_every_piece(total: usize)
    ensures
        seed_pass(false, SeedEvent::Tick, total) == (total > 0, all_pieces(total)),
{
    reveal_with_fuel(seed_pass, 3);
    if total > 0 {
        lemma_pass_from_piece(0, total);
        assert(seq![0usize] + all_pieces(total).skip(1) =~= all_pieces(total));
    } else {
        assert(all_pieces(total) =~= Seq::<usize>::empty());
    }
}

/// Once the pieces have been marked, a pass marks nothing and the operation stays as it is.
pub proof fn law_later_passes_mark_nothing(total: usize)
    ensures
        seed_pass(true, SeedEvent::Tick, total) == (true, Seq::<usize>::empty()),
{
}

/// No event makes the operation forget that it has marked the pieces.
pub proof fn law_marked_is_kept(event: SeedEvent)
    ensures
        seed_step(true, event).0,
{
}

/// Successive passes, where the torrent has `totals[k]` pieces at pass `k`: whether the pieces
/// have been marked after them, and the pieces that they mark, in order.
pub open spec fn seed_passes(marked: bool, totals: Seq<usize>) -> (bool, Seq<usize>)
    decreases totals.len(),
{
    if totals.len() == 0 {
        (marked, Seq::empty())
    } else {
        let (after, pieces) = seed_pass(marked, SeedEvent::Tick, totals.first());
        let (end, rest) = seed_passes(after, totals.drop_first());
        (end, pieces + rest)
    }
}

/// The first count that is not zero, or zero where there is none.
pub open spec fn first_count(totals: Seq<usize>) -> usize
    decreases totals.len(),
{
    if totals.len() == 0 {
        0
    } else if totals.first() > 0 {
        totals.first()
    } else {
        first_count(totals.drop_first())
    }
}

proof fn lemma_marked_passes(totals: Seq<usize>)
    ensures
        seed_passes(true, totals) == (true, Seq::<usize>::empty()),
    decreases totals.len(),
{
    if totals.len() > 0 {
        law_later_passes_mark_nothing(totals.first());
        lemma_marked_passes(totals.drop_first());
    }
}

/// However often the torrent runs the operation, and however the number of its pieces changes
/// in between, the pieces of the first pass that finds any are marked once and no others; and
/// the operation knows them as marked exactly where some pass has found any.
pub proof fn law_pieces_are_marked_once(totals: Seq<usize>)
    ensures
        seed_passes(false, totals) == (first_count(totals) > 0, all_pieces(first_count(totals))),
    decreases totals.len(),
{
    if totals.len() == 0 {
        assert(all_pieces(0) =~= Seq::<usize>::empty());
    } else {
        law_first_pass_marks_every_piece(totals.first());
        if totals.first() > 0 {
            lemma_marked_passes(totals.drop_first());
            assert(seed_passes(false, totals).1 =~= all_pieces(totals.first()));
        } else {
            law_pieces_are_marked_once(totals.drop_first());
            assert(seed_passes(false, totals).1 =~= seed_passes(false, totals.drop_first()).1);
        }
    }
}

/// A torrent that has no pieces in the passes before, and then has some, gets each of them marked
/// in that pass: as many marks as there are pieces, in the order of their numbers. No later pass
/// marks any, however many pieces there are then.
pub proof fn law_each_piece_is_marked_in_its_turn(totals: Seq<usize>, found: int)
    requires
        0 <= found < totals.len(),
        totals[found] > 0,
        forall|k: int| 0 <= k < found ==> #[trigger] totals[k] == 0,
    ensures
        seed_passes(false, totals).0,
        seed_passes(false, totals).1.len() == totals[found],
        forall|i: int|
            0 <= i < totals[found] ==> #[trigger] seed_passes(false, totals).1[i] == i,
{
    law_pieces_are_marked_once(totals);
    lemma_first_count(totals, found);
}

proof fn lemma_first_count(totals: Seq<usize>, found: int)
    requires
        0 <= found < totals.len(),
        totals[found] > 0,
        forall|k: int| 0 <= k < found ==> #[trigger] totals[k] == 0,
    ensures
        first_count(totals) == totals[found],
    decreases found,
{
    if found > 0 {
        assert(totals[0] == 0);
        assert forall|k: int| 0 <= k < found - 1 implies #[trigger] totals.drop_first()[k] == 0 by {
            assert(totals[k + 1] == 0);
        }
        lemma_first_count(totals.drop_first(), found - 1);
    }
}

/// While the torrent has no pieces, nothing is marked and the operation keeps looking.
pub proof fn law_nothing_is_marked_without_pieces(totals: Seq<usize>)
    requires
        forall|k: int| 0 <= k < totals.len() ==> #[trigger] totals[k] == 0,
    ensures
        !seed_passes(false, totals).0,
        seed_passes(false, totals).1.len() == 0,
    decreases totals.len(),
{
    if totals.len() > 0 {
        assert(totals[0] == 0);
        law_first_pass_marks_every_piece(0);
        assert forall|k: int| 0 <= k < totals.len() - 1 implies #[trigger] totals.drop_first()[k]
            == 0 by {
            assert(totals[k + 1] == 0);
        }
        law_nothing_is_marked_without_pieces(totals.drop_first());
    }
}

/// Each step of a pass leads to the next: a tick to the count, unless the pieces have been
/// marked; a count to the first piece, if there is one; a piece to the one behind it; and the
/// last piece to the end of the pass, where they count as marked, and nowhere else.
pub proof fn law_pass_goes_from_piece_to_piece(marked: bool, piece: usize, total: usize)
    ensures
        seed_step(true, SeedEvent::Tick).1 == SeedAction::Continue,
        seed_step(false, SeedEvent::Tick).1 == SeedAction::CountPieces,
        seed_step(marked, SeedEvent::Tick).0 == marked,
        seed_step(marked, SeedEvent::Counted { total }).0 == marked,
        total == 0 <==> seed_step(marked, SeedEvent::Counted { total }).1 == SeedAction::Continue,
        total > 0 ==> seed_step(marked, SeedEvent::Counted { total }).1
            == (SeedAction::CompletePiece { piece: 0, total }),
        piece < total - 1 ==> {
            let (after, action) = seed_step(marked, SeedEvent::Completed { piece, total });
            &&& after == marked
            &&& action matches SeedAction::CompletePiece { piece: next, total: counted }
            &&& next == piece + 1 && counted == total
        },
        piece == total - 1 ==> seed_step(marked, SeedEvent::Completed { piece, total }) == (
            true,
            SeedAction::Continue,
        ),
{
}

} // verus!
