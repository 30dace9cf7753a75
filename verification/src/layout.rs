//! How a torrent is cut into pieces: all of one length but the last, which may be shorter.

use vstd::prelude::*;
use vstd::arithmetic::div_mod::{
    lemma_fundamental_div_mod,
    lemma_fundamental_div_mod_converse,
};
use vstd::arithmetic::mul::lemma_mul_inequality;

verus! {

/// The number of a piece, counted from zero.
pub type PieceIndex = usize;

/// How many pieces of `piece_length` bytes it takes to hold `total_length` bytes.
pub open spec fn piece_count(piece_length: nat, total_length: nat) -> nat
    recommends
        piece_length > 0,
{
    ((total_length + piece_length - 1) / piece_length as int) as nat
}

/// How many bytes lie before piece `piece`.
pub open spec fn piece_start(piece_length: nat, piece: nat) -> nat {
    piece * piece_length
}

/// How many bytes piece `piece` holds: a full piece, or what is left of the torrent.
pub open spec fn piece_extent(piece_length: nat, total_length: nat, piece: nat) -> nat
    recommends
        piece_start(piece_length, piece) <= total_length,
{
    let left = total_length - piece_start(piece_length, piece);
    (if left < piece_length {
        left
    } else {
        piece_length as int
    }) as nat
}

/// How many bytes the pieces before piece `piece` hold together.
pub open spec fn extent_sum(piece_length: nat, total_length: nat, piece: nat) -> nat
    decreases piece,
{
    if piece == 0 {
        0
    } else {
        extent_sum(piece_length, total_length, (piece - 1) as nat) + piece_extent(
            piece_length,
            total_length,
            (piece - 1) as nat,
        )
    }
}

/// The pieces are just enough: together they can hold the torrent, and one fewer could not.
pub proof fn law_piece_count_is_least(piece_length: nat, total_length: nat)
    requires
        piece_length > 0,
    ensures
        total_length <= piece_start(piece_length, piece_count(piece_length, total_length)),
        forall|fewer: nat|
            fewer < piece_count(piece_length, total_length) ==> #[trigger] piece_start(
                piece_length,
                fewer,
            ) < total_length,
{
    let n = piece_count(piece_length, total_length);
    let p = piece_length as int;
    let top = total_length + piece_length - 1;
    lemma_fundamental_div_mod(top, p);
    assert(p * (top / p) == n * p) by (nonlinear_arith)
        requires
            n == top / p,
    ;
    assert forall|fewer: nat| fewer < n implies #[trigger] piece_start(piece_length, fewer)
        < total_length by {
        lemma_mul_inequality(fewer as int, n - 1, p);
        assert((n - 1) * p == n * p - p) by (nonlinear_arith);
    }
}

/// The number of pieces in plain arithmetic: so many full pieces take in every byte of the
/// torrent, one fewer would not, and a torrent without bytes has no piece.
pub proof fn law_pieces_take_in_the_torrent(piece_length: nat, total_length: nat)
    requires
        piece_length > 0,
    ensures
        piece_count(piece_length, total_length) * piece_length >= total_length,
        piece_count(piece_length, total_length) > 0 ==> (piece_count(piece_length, total_length)
            - 1) * piece_length < total_length,
        piece_count(piece_length, total_length) == 0 <==> total_length == 0,
{
    law_piece_count_is_least(piece_length, total_length);
    let n = piece_count(piece_length, total_length);
    if n > 0 {
        assert(piece_start(piece_length, (n - 1) as nat) < total_length);
    } else {
        assert(n * piece_length == 0) by (nonlinear_arith)
            requires
                n == 0,
        ;
    }
}

/// The bytes of a piece in plain arithmetic: they begin where as many full pieces end as come
/// before it, they are no more than a full piece, none lies outside the torrent, and none is
/// left out: the piece is full, or it ends with the torrent.
pub proof fn law_piece_takes_all_it_can(piece_length: nat, total_length: nat, piece: nat)
    requires
        piece * piece_length <= total_length,
    ensures
        piece_start(piece_length, piece) == piece * piece_length,
        piece_extent(piece_length, total_length, piece) <= piece_length,
        piece * piece_length + piece_extent(piece_length, total_length, piece) <= total_length,
        piece_extent(piece_length, total_length, piece) == piece_length || piece * piece_length
            + piece_extent(piece_length, total_length, piece) == total_length,
{
}

/// Every piece of the torrent holds at least one byte and at most a full piece, lies within
/// the torrent, and is full unless it is the last.
pub proof fn law_piece_extent(piece_length: nat, total_length: nat, piece: nat)
    requires
        piece_length > 0,
        piece < piece_count(piece_length, total_length),
    ensures
        1 <= piece_extent(piece_length, total_length, piece) <= piece_length,
        piece_start(piece_length, piece) + piece_extent(piece_length, total_length, piece)
            <= total_length,
        piece + 1 < piece_count(piece_length, total_length) ==> piece_extent(
            piece_length,
            total_length,
            piece,
        ) == piece_length && piece_start(piece_length, piece) + piece_length == piece_start(
            piece_length,
            piece + 1,
        ),
        piece + 1 == piece_count(piece_length, total_length) ==> piece_start(piece_length, piece)
            + piece_extent(piece_length, total_length, piece) == total_length,
{
    law_piece_count_is_least(piece_length, total_length);
    assert(piece_start(piece_length, piece) < total_length);
    assert((piece + 1) * piece_length == piece * piece_length + piece_length) by (nonlinear_arith);
    assert(piece_start(piece_length, piece + 1) == piece_start(piece_length, piece)
        + piece_length);
    if piece + 1 < piece_count(piece_length, total_length) {
        assert(piece_start(piece_length, piece + 1) < total_length);
    }
}

proof fn lemma_extent_sum(piece_length: nat, total_length: nat, piece: nat)
    requires
        piece_length > 0,
        piece <= piece_count(piece_length, total_length),
    ensures
        extent_sum(piece_length, total_length, piece) == (if piece < piece_count(
            piece_length,
            total_length,
        ) {
            piece_start(piece_length, piece)
        } else {
            total_length
        }),
    decreases piece,
{
    law_piece_count_is_least(piece_length, total_length);
    if piece == 0 {
        assert(piece_start(piece_length, 0) == 0);
    } else {
        lemma_extent_sum(piece_length, total_length, (piece - 1) as nat);
        law_piece_extent(piece_length, total_length, (piece - 1) as nat);
    }
}

/// The pieces hold the whole torrent, each byte once: their lengths add up to its length.
pub proof fn law_pieces_add_up(piece_length: nat, total_length: nat)
    requires
        piece_length > 0,
    ensures
        extent_sum(piece_length, total_length, piece_count(piece_length, total_length))
            == total_length,
{
    lemma_extent_sum(piece_length, total_length, piece_count(piece_length, total_length));
}

/// Every byte of the torrent lies in exactly one piece.
pub proof fn law_byte_lies_in_one_piece(
    piece_length: nat,
    total_length: nat,
    position: nat,
    piece: nat,
    offset: nat,
)
    requires
        piece_length > 0,
        position < total_length,
    ensures
        (piece < piece_count(piece_length, total_length) && offset < piece_extent(
            piece_length,
            total_length,
            piece,
        ) && piece_start(piece_length, piece) + offset == position) <==> (piece == position
            / piece_length && offset == position % piece_length),
{
    let p = piece_length as int;
    lemma_fundamental_div_mod(position as int, p);
    let q = (position / piece_length) as int;
    let r = (position % piece_length) as int;
    assert(q * p + r == position) by (nonlinear_arith)
        requires
            position == p * q + r,
    ;
    law_piece_count_is_least(piece_length, total_length);
    let n = piece_count(piece_length, total_length);
    if piece == q && offset == r {
        if piece >= n {
            lemma_mul_inequality(n as int, piece as int, p);
            assert(piece_start(piece_length, n) <= piece_start(piece_length, piece));
        }
    }
    if piece < n && offset < piece_extent(piece_length, total_length, piece) && piece_start(
        piece_length,
        piece,
    ) + offset == position {
        law_piece_extent(piece_length, total_length, piece);
        lemma_fundamental_div_mod_converse(position as int, p, piece as int, offset as int);
    }
}

/// The bytes of piece `piece`, where `content` is the whole torrent.
pub open spec fn piece_content(content: Seq<u8>, piece_length: nat, piece: nat) -> Seq<u8> {
    content.subrange(
        piece_start(piece_length, piece) as int,
        (piece_start(piece_length, piece) + piece_extent(piece_length, content.len(), piece)) as int,
    )
}

/// The bytes of the pieces before piece `piece`, one piece after the other.
pub open spec fn pieces_joined(content: Seq<u8>, piece_length: nat, piece: nat) -> Seq<u8>
    decreases piece,
{
    if piece == 0 {
        Seq::empty()
    } else {
        pieces_joined(content, piece_length, (piece - 1) as nat) + piece_content(
            content,
            piece_length,
            (piece - 1) as nat,
        )
    }
}

proof fn lemma_pieces_joined(content: Seq<u8>, piece_length: nat, piece: nat)
    requires
        piece_length > 0,
        piece <= piece_count(piece_length, content.len()),
    ensures
        extent_sum(piece_length, content.len(), piece) <= content.len(),
        pieces_joined(content, piece_length, piece) == content.take(
            extent_sum(piece_length, content.len(), piece) as int,
        ),
    decreases piece,
{
    lemma_extent_sum(piece_length, content.len(), piece);
    law_piece_count_is_least(piece_length, content.len());
    if piece > 0 {
        let before = (piece - 1) as nat;
        lemma_pieces_joined(content, piece_length, before);
        lemma_extent_sum(piece_length, content.len(), before);
        law_piece_extent(piece_length, content.len(), before);
    }
    assert(pieces_joined(content, piece_length, piece) =~= content.take(
        extent_sum(piece_length, content.len(), piece) as int,
    ));
}

/// The pieces, one after the other, are the torrent.
pub proof fn law_pieces_make_the_torrent(content: Seq<u8>, piece_length: nat)
    requires
        piece_length > 0,
    ensures
        pieces_joined(content, piece_length, piece_count(piece_length, content.len())) == content,
{
    let n = piece_count(piece_length, content.len());
    lemma_pieces_joined(content, piece_length, n);
    law_pieces_add_up(piece_length, content.len());
    assert(content.take(content.len() as int) =~= content);
}

/// The number of pieces of a torrent.
pub fn count_pieces(piece_length: usize, total_length: usize) -> (count: usize)
    requires
        piece_length > 0,
        total_length + piece_length <= usize::MAX,
    ensures
        count == piece_count(piece_length as nat, total_length as nat),
{
    (total_length + piece_length - 1) / piece_length
}

} // verus!
