use vstd::prelude::*;

use crate::bitboard::BitBoards;
use crate::piece::{
    lemma_index_round_trip, spec_index, spec_piece_of_index, Piece, PieceMove, Player, COLOUR_AMT,
};

verus! {

/// Side length of the board.
pub const BOARD_SIZE: usize = 8;

/// A square of the board. `file` counts rows and `rank` counts columns; a
/// well-formed position has both below `BOARD_SIZE`.
#[derive(Clone, Copy, Debug, PartialEq, Eq, Structural, Hash)]
pub struct TilePos {
    pub file: usize,
    pub rank: usize,
}

/// Whether `(file, rank)` lies on the board.
pub open spec fn on_board(file: int, rank: int) -> bool {
    0 <= file < BOARD_SIZE && 0 <= rank < BOARD_SIZE
}

/// Index of a square in an occupancy set.
pub open spec fn square_index(file: int, rank: int) -> int {
    file * 8 + rank
}

impl TilePos {
    /// Both components lie on the board.
    pub open spec fn wf(self) -> bool {
        on_board(self.file as int, self.rank as int)
    }

    /// Index of this square in an occupancy set.
    pub open spec fn sq(self) -> int {
        square_index(self.file as int, self.rank as int)
    }

    /// The square at `(file, rank)`.
    pub fn new(file: usize, rank: usize) -> (r: Self)
        requires
            on_board(file as int, rank as int),
        ensures
            r.file == file,
            r.rank == rank,
            r.wf(),
    {
        TilePos { file, rank }
    }
}

/// Square indices are distinct for distinct squares.
pub proof fn lemma_square_index(f1: int, r1: int, f2: int, r2: int)
    requires
        on_board(f1, r1),
        on_board(f2, r2),
    ensures
        0 <= square_index(f1, r1) < 64,
        square_index(f1, r1) == square_index(f2, r2) <==> (f1 == f2 && r1 == r2),
{
}

/// The state of a game: piece placement, side to move, castling rights,
/// en-passant target, move counters and the log of applied moves.
#[derive(Clone, Debug)]
pub struct Board {
    pub positions: BitBoards,
    pub player: Player,
    pub castling_rights: [(bool, bool); COLOUR_AMT],
    pub en_passant_on_last_move: Option<TilePos>,
    pub half_move_counter: usize,
    pub full_move_counter: usize,
    pub move_history: Vec<PieceMove>,
}

impl BitBoards {
    /// The first piece, in occupancy-set order from set `k` on, whose set holds square `sq`.
    pub open spec fn first_piece(&self, sq: int, k: int) -> Piece
        decreases 12 - k,
    {
        if k >= 12 || k < 0 {
            Piece::Empty
        } else if self.bit(k, sq) {
            spec_piece_of_index(k)
        } else {
            self.first_piece(sq, k + 1)
        }
    }

    /// No square is held by two occupancy sets.
    pub open spec fn disjoint(&self) -> bool {
        forall|k1: int, k2: int, sq: int|
            0 <= k1 < 12 && 0 <= k2 < 12 && 0 <= sq < 64 && self.bit(k1, sq) && self.bit(k2, sq)
                ==> k1 == k2
    }
}

/// `first_piece` reads nothing but the bits of the square.
proof fn lemma_first_piece_same_bits(a: BitBoards, b: BitBoards, sq: int, k: int)
    requires
        0 <= k <= 12,
        forall|k2: int| k <= k2 < 12 ==> a.bit(k2, sq) == b.bit(k2, sq),
    ensures
        a.first_piece(sq, k) == b.first_piece(sq, k),
    decreases 12 - k,
{
    if k < 12 {
        lemma_first_piece_same_bits(a, b, sq, k + 1);
    }
}

/// Where the square is held exactly by the set of `p`, `first_piece` finds `p`.
pub(crate) proof fn lemma_first_piece_pattern(a: BitBoards, sq: int, k: int, p: Piece)
    requires
        0 <= k <= 12,
        forall|k2: int| k <= k2 < 12 ==> a.bit(k2, sq) == (spec_piece_of_index(k2) == p),
    ensures
        a.first_piece(sq, k) == (if k <= spec_index(p) {
            p
        } else {
            Piece::Empty
        }),
    decreases 12 - k,
{
    if k < 12 {
        lemma_first_piece_pattern(a, sq, k + 1, p);
    }
}

/// Where only set `k0` holds the square, `first_piece` finds its piece.
proof fn lemma_first_piece_single(a: BitBoards, sq: int, k: int, k0: int)
    requires
        0 <= k <= k0 < 12,
        a.bit(k0, sq),
        forall|k2: int| k <= k2 < 12 && k2 != k0 ==> !a.bit(k2, sq),
    ensures
        a.first_piece(sq, k) == spec_piece_of_index(k0),
    decreases 12 - k,
{
    if k < k0 {
        lemma_first_piece_single(a, sq, k + 1, k0);
    }
}

/// Everything but the piece placement is the same on `a` and `b`.
pub open spec fn same_state_but_placement(a: Board, b: Board) -> bool {
    &&& a.player == b.player
    &&& a.castling_rights == b.castling_rights
    &&& a.en_passant_on_last_move == b.en_passant_on_last_move
    &&& a.half_move_counter == b.half_move_counter
    &&& a.full_move_counter == b.full_move_counter
    &&& a.move_history == b.move_history
}

/// `after` is `before` with `piece` placed on `tile_pos`: that square holds `piece` and
/// is set in its occupancy set only, every other square is as it was.
pub open spec fn set_piece_post(before: Board, after: Board, tile_pos: TilePos, piece: Piece) -> bool {
    &&& after.wf()
    &&& after.squares() == before.squares().update(tile_pos.sq(), piece)
    &&& forall|k: int|
        0 <= k < 12 ==> after.positions.bit(k, tile_pos.sq()) == (spec_piece_of_index(k) == piece)
    &&& same_state_but_placement(before, after)
}

/// `after` is `before` with the piece on `m.from` moved to `m.to`, replacing what stood there.
pub open spec fn move_piece_post(before: Board, after: Board, m: PieceMove) -> bool {
    &&& after.wf()
    &&& after.squares() == before.squares().update(m.from.sq(), Piece::Empty).update(
        m.to.sq(),
        before.squares()[m.from.sq()],
    )
    &&& same_state_but_placement(before, after)
}

/// Placing a non-empty piece and reading the square back gives that piece; the square is
/// set in that piece's occupancy set and in no other.
pub proof fn lemma_set_then_get(before: Board, after: Board, pos: TilePos, kind: Piece)
    requires
        before.wf(),
        pos.wf(),
        kind != Piece::Empty,
        set_piece_post(before, after, pos, kind),
    ensures
        after.piece_at(pos.file as int, pos.rank as int) == kind,
        after.occupied(kind, pos),
        forall|k: Piece| k != kind && k != Piece::Empty ==> !after.occupied(k, pos),
{
    assert(after.squares()[pos.sq()] == kind);
    lemma_index_round_trip(kind);
    assert forall|k: Piece| k != kind && k != Piece::Empty implies !after.occupied(k, pos) by {
        lemma_index_round_trip(k);
    }
}

/// Moving between two distinct squares leaves the moved piece on the destination and
/// the source empty.
pub proof fn lemma_move_then_get(before: Board, after: Board, m: PieceMove)
    requires
        before.wf(),
        m.from.wf(),
        m.to.wf(),
        m.from != m.to,
        move_piece_post(before, after, m),
    ensures
        after.piece_at(m.to.file as int, m.to.rank as int) == before.piece_at(
            m.from.file as int,
            m.from.rank as int,
        ),
        after.piece_at(m.from.file as int, m.from.rank as int) == Piece::Empty,
{
    lemma_square_index(m.from.file as int, m.from.rank as int, m.to.file as int, m.to.rank as int);
    assert(after.squares()[m.to.sq()] == after.piece_at_sq(m.to.sq()));
    assert(after.squares()[m.from.sq()] == after.piece_at_sq(m.from.sq()));
    assert(before.squares()[m.from.sq()] == before.piece_at_sq(m.from.sq()));
}

impl Board {
    /// No square holds two pieces, and the en-passant target lies on the board.
    pub open spec fn wf(&self) -> bool {
        &&& self.positions.disjoint()
        &&& (self.en_passant_on_last_move matches Option::Some(t) ==> t.wf())
    }

    /// The piece on the square with index `sq`.
    pub open spec fn piece_at_sq(&self, sq: int) -> Piece {
        self.positions.first_piece(sq, 0)
    }

    /// The piece at `(file, rank)`; `Empty` off the board.
    pub open spec fn piece_at(&self, file: int, rank: int) -> Piece {
        if on_board(file, rank) {
            self.piece_at_sq(square_index(file, rank))
        } else {
            Piece::Empty
        }
    }

    /// The piece placement, as the 64 squares in index order.
    pub open spec fn squares(&self) -> Seq<Piece> {
        Seq::new(64, |sq: int| self.piece_at_sq(sq))
    }

    /// Whether occupancy set of the non-empty piece `k` holds `pos`.
    pub open spec fn occupied(&self, k: Piece, pos: TilePos) -> bool {
        self.positions.bit(spec_index(k), pos.sq())
    }

    /// The castling rights of `player`, as (kingside, queenside).
    pub open spec fn spec_castling(&self, player: Player) -> (bool, bool) {
        match player {
            Player::White => self.castling_rights@[0],
            Player::Black => self.castling_rights@[1],
        }
    }

    /// The piece at `tile_pos`: the first occupancy set, in set order, that holds the square.
    pub fn get_piece(&self, tile_pos: TilePos) -> (r: Piece)
        requires
            tile_pos.wf(),
        ensures
            r == self.piece_at(tile_pos.file as int, tile_pos.rank as int),
    {
        let sq = tile_pos.file * BOARD_SIZE + tile_pos.rank;
        let mut k: usize = 0;
        while k < 12
            invariant
                0 <= k <= 12,
                tile_pos.wf(),
                sq == tile_pos.sq(),
                0 <= sq < 64,
                self.positions.first_piece(sq as int, 0) == self.positions.first_piece(
                    sq as int,
                    k as int,
                ),
            decreases 12 - k,
        {
            if self.positions.get_bit(k, sq) {
                return Piece::from(k);
            }
            k = k + 1;
        }
        Piece::Empty
    }

    /// Places `piece` at `tile_pos` (or empties it for `Empty`): the square is set in the
    /// occupancy set of `piece` and cleared in all others.
    pub fn set_piece(&mut self, tile_pos: TilePos, piece: Piece)
        requires
            old(self).wf(),
            tile_pos.wf(),
        ensures
            set_piece_post(*old(self), *final(self), tile_pos, piece),
    {
        let sq = tile_pos.file * BOARD_SIZE + tile_pos.rank;
        let ghost old_pos = self.positions;
        let mut k: usize = 0;
        while k < 12
            invariant
                0 <= k <= 12,
                sq == tile_pos.sq(),
                0 <= sq < 64,
                forall|k2: int, sq2: int|
                    0 <= k2 < 12 && 0 <= sq2 < 64 ==> self.positions.bit(k2, sq2) == (if sq2
                        == sq && k2 < k {
                        spec_piece_of_index(k2) == piece
                    } else {
                        old_pos.bit(k2, sq2)
                    }),
                self.player == old(self).player,
                self.castling_rights == old(self).castling_rights,
                self.en_passant_on_last_move == old(self).en_passant_on_last_move,
                self.half_move_counter == old(self).half_move_counter,
                self.full_move_counter == old(self).full_move_counter,
                self.move_history == old(self).move_history,
            decreases 12 - k,
        {
            let here = Piece::from(k);
            self.positions.set_bit(k, sq, here == piece);
            k = k + 1;
        }
        proof {
            let newp = self.positions;
            assert forall|k1: int, k2: int, s: int|
                0 <= k1 < 12 && 0 <= k2 < 12 && 0 <= s < 64 && newp.bit(k1, s) && newp.bit(
                    k2,
                    s,
                ) implies k1 == k2 by {
                if s != sq {
                    assert(old_pos.bit(k1, s) && old_pos.bit(k2, s));
                }
            }
            assert forall|s: int| 0 <= s < 64 implies self.piece_at_sq(s) == old(
                self,
            ).squares().update(sq as int, piece)[s] by {
                if s == sq {
                    lemma_first_piece_pattern(newp, s, 0, piece);
                } else {
                    lemma_first_piece_same_bits(newp, old_pos, s, 0);
                }
            }
            assert(self.squares() =~= old(self).squares().update(sq as int, piece));
        }
    }

    /// Moves whatever stands on `piece_move.from` to `piece_move.to`, replacing what stood
    /// there, and empties `from`. Nothing else changes: neither the side to move, nor the
    /// en-passant target, nor the counters, nor the move log.
    pub fn move_piece(&mut self, piece_move: PieceMove)
        requires
            old(self).wf(),
            piece_move.from.wf(),
            piece_move.to.wf(),
        ensures
            move_piece_post(*old(self), *final(self), piece_move),
    {
        let moved_piece = self.get_piece(piece_move.from);
        self.set_piece(piece_move.from, Piece::Empty);
        self.set_piece(piece_move.to, moved_piece);
    }

    /// The side to move.
    pub fn get_player(&self) -> (r: Player)
        ensures
            r == self.player,
    {
        self.player
    }

    /// The side that moves after the current one.
    pub fn get_next_player(&self) -> (r: Player)
        ensures
            r == self.player.spec_opponent(),
    {
        self.player.opponent()
    }

    /// Hands the move to the other side.
    pub fn next_player(&mut self)
        ensures
            final(self).player == old(self).player.spec_opponent(),
            final(self).positions == old(self).positions,
            final(self).castling_rights == old(self).castling_rights,
            final(self).en_passant_on_last_move == old(self).en_passant_on_last_move,
            final(self).half_move_counter == old(self).half_move_counter,
            final(self).full_move_counter == old(self).full_move_counter,
            final(self).move_history == old(self).move_history,
    {
        self.player = self.get_next_player();
    }

    /// The castling rights of `player`, as (kingside, queenside).
    pub fn castling_rights(&self, player: Player) -> (r: (bool, bool))
        ensures
            r == self.spec_castling(player),
    {
        match player {
            Player::White => self.castling_rights[0],
            Player::Black => self.castling_rights[1],
        }
    }
}

/// The white back rank, by column: rook, knight, bishop, queen, king, bishop, knight, rook.
pub open spec fn back_rank(rank: int, white: bool) -> Piece {
    if rank == 0 || rank == 7 {
        if white { Piece::WRook } else { Piece::BRook }
    } else if rank == 1 || rank == 6 {
        if white { Piece::WKnight } else { Piece::BKnight }
    } else if rank == 2 || rank == 5 {
        if white { Piece::WBishop } else { Piece::BBishop }
    } else if rank == 3 {
        if white { Piece::WQueen } else { Piece::BQueen }
    } else {
        if white { Piece::WKing } else { Piece::BKing }
    }
}

/// The standard starting layout: white's back rank on row 0 and its pawns on row 1,
/// black's pawns on row `BOARD_SIZE - 2` and its back rank on row `BOARD_SIZE - 1`.
pub open spec fn standard_piece(file: int, rank: int) -> Piece {
    if file == 0 {
        back_rank(rank, true)
    } else if file == 1 {
        Piece::WPawn
    } else if file == 6 {
        Piece::BPawn
    } else if file == 7 {
        back_rank(rank, false)
    } else {
        Piece::Empty
    }
}

impl Board {
    /// An empty board, white to move, no castling rights, no en-passant target,
    /// counters at 0 and 1, no moves logged.
    pub fn empty() -> (r: Board)
        ensures
            r.wf(),
            forall|sq: int| 0 <= sq < 64 ==> r.piece_at_sq(sq) == Piece::Empty,
            r.player == Player::White,
            r.castling_rights@ == seq![(false, false), (false, false)],
            r.en_passant_on_last_move is None,
            r.half_move_counter == 0,
            r.full_move_counter == 1,
            r.move_history@.len() == 0,
    {
        let board = Board {
            positions: BitBoards::new(),
            player: Player::White,
            castling_rights: [(false, false); COLOUR_AMT],
            en_passant_on_last_move: None,
            half_move_counter: 0,
            full_move_counter: 1,
            move_history: Vec::new(),
        };
        proof {
            assert forall|sq: int| 0 <= sq < 64 implies board.piece_at_sq(sq) == Piece::Empty by {
                lemma_first_piece_pattern(board.positions, sq, 0, Piece::Empty);
            }
            assert(board.castling_rights@ =~= seq![(false, false), (false, false)]);
        }
        board
    }

    /// The standard starting position: the layout of `standard_piece`, white to move,
    /// every castling right held, no en-passant target, counters at 0 and 1.
    pub fn standard() -> (r: Board)
        ensures
            r.wf(),
            forall|f: int, k: int| on_board(f, k) ==> r.piece_at(f, k) == standard_piece(f, k),
            r.player == Player::White,
            r.castling_rights@ == seq![(true, true), (true, true)],
            r.en_passant_on_last_move is None,
            r.half_move_counter == 0,
            r.full_move_counter == 1,
            r.move_history@.len() == 0,
    {
        let mut board = Board::empty();
        let white = [
            Piece::WRook,
            Piece::WKnight,
            Piece::WBishop,
            Piece::WQueen,
            Piece::WKing,
            Piece::WBishop,
            Piece::WKnight,
            Piece::WRook,
        ];
        let black = [
            Piece::BRook,
            Piece::BKnight,
            Piece::BBishop,
            Piece::BQueen,
            Piece::BKing,
            Piece::BBishop,
            Piece::BKnight,
            Piece::BRook,
        ];
        assert(forall|k: int| 0 <= k < 8 ==> white@[k] == back_rank(k, true));
        assert(forall|k: int| 0 <= k < 8 ==> black@[k] == back_rank(k, false));
        let mut rank: usize = 0;
        while rank < BOARD_SIZE
            invariant
                rank <= BOARD_SIZE,
                board.wf(),
                forall|k: int| 0 <= k < 8 ==> white@[k] == back_rank(k, true),
                forall|k: int| 0 <= k < 8 ==> black@[k] == back_rank(k, false),
                forall|f: int, k: int|
                    on_board(f, k) ==> board.piece_at(f, k) == (if k < rank {
                        standard_piece(f, k)
                    } else {
                        Piece::Empty
                    }),
                board.player == Player::White,
                board.castling_rights@ == seq![(false, false), (false, false)],
                board.en_passant_on_last_move is None,
                board.half_move_counter == 0,
                board.full_move_counter == 1,
                board.move_history@.len() == 0,
            decreases BOARD_SIZE - rank,
        {
            let ghost before = board;
            board.set_piece(TilePos::new(0, rank), white[rank]);
            board.set_piece(TilePos::new(1, rank), Piece::WPawn);
            board.set_piece(TilePos::new(BOARD_SIZE - 2, rank), Piece::BPawn);
            board.set_piece(TilePos::new(BOARD_SIZE - 1, rank), black[rank]);
            proof {
                assert forall|f: int, k: int| on_board(f, k) implies board.piece_at(f, k) == (if k
                    < rank + 1 {
                    standard_piece(f, k)
                } else {
                    Piece::Empty
                }) by {
                    lemma_square_index(f, k, 0, rank as int);
                    lemma_square_index(f, k, 1, rank as int);
                    lemma_square_index(f, k, 6, rank as int);
                    lemma_square_index(f, k, 7, rank as int);
                    assert(board.piece_at(f, k) == board.squares()[square_index(f, k)]);
                    assert(before.piece_at(f, k) == before.squares()[square_index(f, k)]);
                }
            }
            rank = rank + 1;
        }
        board.castling_rights = [(true, true); COLOUR_AMT];
        proof {
            assert(board.castling_rights@ =~= seq![(true, true), (true, true)]);
        }
        board
    }
}

impl Default for Board {
    /// The standard starting position.
    fn default() -> (r: Board)
        ensures
            r.wf(),
            forall|f: int, k: int| on_board(f, k) ==> r.piece_at(f, k) == standard_piece(f, k),
            r.player == Player::White,
            r.castling_rights@ == seq![(true, true), (true, true)],
            r.en_passant_on_last_move is None,
            r.half_move_counter == 0,
            r.full_move_counter == 1,
            r.move_history@.len() == 0,
    {
        Board::standard()
    }
}

} // verus!
