use vstd::prelude::*;

use crate::board::{on_board, Board, TilePos, BOARD_SIZE};
use crate::piece::{spec_player, Piece, Player};

verus! {

/// The square `(file, rank)`, for coordinates on the board.
pub open spec fn tile(file: int, rank: int) -> TilePos {
    TilePos { file: file as usize, rank: rank as usize }
}

/// Whether `a` and `b` belong to different players (an empty square belongs to none).
pub open spec fn differ(a: Piece, b: Piece) -> bool {
    spec_player(a) != spec_player(b)
}

/// Whether the players of `a` and `b` differ.
fn players_differ(a: Piece, b: Piece) -> (r: bool)
    ensures
        r == differ(a, b),
{
    match (a.to_player(), b.to_player()) {
        (Some(Player::White), Some(Player::White)) => false,
        (Some(Player::Black), Some(Player::Black)) => false,
        (None, None) => false,
        _ => true,
    }
}

/// The four orthogonal unit directions, in generation order.
pub open spec fn orthogonal_dirs() -> Seq<(int, int)> {
    seq![(1, 0), (0, 1), (-1, 0), (0, -1)]
}

/// The four diagonal unit directions, in generation order.
pub open spec fn diagonal_dirs() -> Seq<(int, int)> {
    seq![(1, 1), (1, -1), (-1, 1), (-1, -1)]
}

/// The eight knight offsets, in generation order.
pub open spec fn knight_offsets() -> Seq<(int, int)> {
    seq![(-2, -1), (-2, 1), (-1, -2), (-1, 2), (1, -2), (1, 2), (2, -1), (2, 1)]
}

/// The eight king offsets, in generation order.
pub open spec fn king_offsets() -> Seq<(int, int)> {
    seq![(-1, -1), (-1, 0), (-1, 1), (0, -1), (0, 1), (1, -1), (1, 0), (1, 1)]
}

/// Starting rank check for a pawn's double step: file 1 for white, `BOARD_SIZE - 2` for black.
pub open spec fn spec_double_pawn_move(piece: Piece, from: TilePos) -> bool {
    (spec_player(piece) == Some(Player::White) && from.file == 1) || (spec_player(piece)
        == Some(Player::Black) && from.file == BOARD_SIZE - 2)
}

/// Forward direction of a pawn along the file axis: +1 for white, -1 otherwise.
pub open spec fn spec_vertical_dir(piece: Piece) -> int {
    if spec_player(piece) == Some(Player::White) {
        1
    } else {
        -1
    }
}

impl Board {
    /// The squares a piece of `piece` sliding from `(file, rank)` along `(df, dr)` reaches
    /// in at most `n` steps: empty squares up to the first occupied one, which is included
    /// only if it holds a piece of another player.
    pub open spec fn ray(&self, piece: Piece, file: int, rank: int, df: int, dr: int, n: nat) -> Seq<
        TilePos,
    >
        decreases n,
    {
        let f = file + df;
        let r = rank + dr;
        if n == 0 || !on_board(f, r) {
            seq![]
        } else if self.piece_at(f, r) != Piece::Empty {
            if differ(self.piece_at(f, r), piece) {
                seq![tile(f, r)]
            } else {
                seq![]
            }
        } else {
            seq![tile(f, r)] + self.ray(piece, f, r, df, dr, (n - 1) as nat)
        }
    }

    /// The rays from `from` along each of `dirs`, one after the other.
    pub open spec fn rays(&self, from: TilePos, dirs: Seq<(int, int)>) -> Seq<TilePos>
        decreases dirs.len(),
    {
        if dirs.len() == 0 {
            seq![]
        } else {
            self.rays(from, dirs.drop_last()) + self.ray(
                self.piece_at(from.file as int, from.rank as int),
                from.file as int,
                from.rank as int,
                dirs.last().0,
                dirs.last().1,
                (BOARD_SIZE - 1) as nat,
            )
        }
    }

    /// The square at offset `(df, dr)` from `from`, if it is on the board and holds no
    /// piece of the player of the piece on `from`.
    pub open spec fn step(&self, from: TilePos, df: int, dr: int) -> Seq<TilePos> {
        let f = from.file + df;
        let r = from.rank + dr;
        if on_board(f, r) && (self.piece_at(f, r) == Piece::Empty || differ(
            self.piece_at(f, r),
            self.piece_at(from.file as int, from.rank as int),
        )) {
            seq![tile(f, r)]
        } else {
            seq![]
        }
    }

    /// The steps from `from` by each of `offs`, one after the other.
    pub open spec fn steps(&self, from: TilePos, offs: Seq<(int, int)>) -> Seq<TilePos>
        decreases offs.len(),
    {
        if offs.len() == 0 {
            seq![]
        } else {
            self.steps(from, offs.drop_last()) + self.step(from, offs.last().0, offs.last().1)
        }
    }

    /// Pawn moves from `from`: the single step forward onto an empty square, the two
    /// diagonal captures of pieces of the other player, the en-passant target when it lies
    /// one file aside and one step forward in rank, and the double step from the starting
    /// file when both squares ahead are empty.
    pub open spec fn pawn_moves(&self, from: TilePos) -> Seq<TilePos> {
        let file = from.file as int;
        let rank = from.rank as int;
        let piece = self.piece_at(file, rank);
        let d = spec_vertical_dir(piece);
        let f1 = file + d;
        let single = if on_board(f1, rank) && self.piece_at(f1, rank) == Piece::Empty {
            seq![tile(f1, rank)]
        } else {
            seq![]
        };
        let left = self.pawn_capture(piece, f1, rank - 1);
        let right = self.pawn_capture(piece, f1, rank + 1);
        let passant = match self.en_passant_on_last_move {
            Some(t) => if (t.file - file == 1 || t.file - file == -1) && t.rank - rank == d {
                seq![t]
            } else {
                seq![]
            },
            None => seq![],
        };
        let f2 = file + 2 * d;
        let double = if spec_double_pawn_move(piece, from) && on_board(f1, rank)
            && self.piece_at(f1, rank) == Piece::Empty && self.piece_at(f2, rank) == Piece::Empty {
            seq![tile(f2, rank)]
        } else {
            seq![]
        };
        single + left + right + passant + double
    }

    /// A pawn of `piece` capturing on `(f, r)`: the square is on the board and holds a piece
    /// of the other player.
    pub open spec fn pawn_capture(&self, piece: Piece, f: int, r: int) -> Seq<TilePos> {
        if on_board(f, r) && piece != Piece::Empty && self.piece_at(f, r) != Piece::Empty
            && differ(self.piece_at(f, r), piece) {
            seq![tile(f, r)]
        } else {
            seq![]
        }
    }

    /// Appends the ray from `from` along `(df, dr)`.
    fn push_ray(&self, from: TilePos, df: isize, dr: isize, positions: &mut Vec<TilePos>)
        requires
            self.wf(),
            from.wf(),
            -1 <= df <= 1,
            -1 <= dr <= 1,
        ensures
            final(positions)@ == old(positions)@ + self.ray(
                self.piece_at(from.file as int, from.rank as int),
                from.file as int,
                from.rank as int,
                df as int,
                dr as int,
                (BOARD_SIZE - 1) as nat,
            ),
    {
        let piece = self.get_piece(from);
        let ghost target = old(positions)@ + self.ray(
            piece,
            from.file as int,
            from.rank as int,
            df as int,
            dr as int,
            (BOARD_SIZE - 1) as nat,
        );
        let mut f = from.file as isize;
        let mut r = from.rank as isize;
        let mut n: usize = BOARD_SIZE - 1;
        while n > 0
            invariant
                self.wf(),
                -1 <= df <= 1,
                -1 <= dr <= 1,
                on_board(f as int, r as int),
                n <= BOARD_SIZE - 1,
                positions@ + self.ray(piece, f as int, r as int, df as int, dr as int, n as nat)
                    == target,
            decreases n,
        {
            let nf = f + df;
            let nr = r + dr;
            if nf >= 0 && nf < 8 && nr >= 0 && nr < 8 {
                let new_pos = TilePos::new(nf as usize, nr as usize);
                let captured = self.get_piece(new_pos);
                if captured != Piece::Empty {
                    if players_differ(captured, piece) {
                        positions.push(new_pos);
                    }
                    n = 0;
                } else {
                    positions.push(new_pos);
                    assert(positions@ + self.ray(
                        piece,
                        nf as int,
                        nr as int,
                        df as int,
                        dr as int,
                        (n - 1) as nat,
                    ) =~= target);
                    f = nf;
                    r = nr;
                    n = n - 1;
                }
            } else {
                n = 0;
            }
        }
    }

    /// Appends the step from `from` by `(df, dr)`.
    fn push_step(&self, from: TilePos, df: isize, dr: isize, positions: &mut Vec<TilePos>)
        requires
            self.wf(),
            from.wf(),
            -2 <= df <= 2,
            -2 <= dr <= 2,
        ensures
            final(positions)@ == old(positions)@ + self.step(from, df as int, dr as int),
    {
        let f = from.file as isize + df;
        let r = from.rank as isize + dr;
        if f >= 0 && f < 8 && r >= 0 && r < 8 {
            let new_pos = TilePos::new(f as usize, r as usize);
            let captured = self.get_piece(new_pos);
            if captured == Piece::Empty || players_differ(captured, self.get_piece(from)) {
                positions.push(new_pos);
            }
        }
    }

    /// Moves of a rook from `from`: the rays along the four orthogonal directions.
    pub fn get_orthogonal_moves(&self, from: TilePos) -> (r: Vec<TilePos>)
        requires
            self.wf(),
            from.wf(),
        ensures
            r@ == self.rays(from, orthogonal_dirs()),
    {
        let mut positions = Vec::new();
        self.push_ray(from, 1, 0, &mut positions);
        self.push_ray(from, 0, 1, &mut positions);
        self.push_ray(from, -1, 0, &mut positions);
        self.push_ray(from, 0, -1, &mut positions);
        proof {
            let d = orthogonal_dirs();
            reveal_with_fuel(Board::rays, 5);
            assert(d.drop_last() =~= d.take(3));
            assert(d.take(3).drop_last() =~= d.take(2));
            assert(d.take(2).drop_last() =~= d.take(1));
            assert(d.take(1).drop_last() =~= Seq::<(int, int)>::empty());
            assert(positions@ =~= self.rays(from, d));
        }
        positions
    }

    /// Moves of a bishop from `from`: the rays along the four diagonal directions.
    pub fn get_diagonal_moves(&self, from: TilePos) -> (r: Vec<TilePos>)
        requires
            self.wf(),
            from.wf(),
        ensures
            r@ == self.rays(from, diagonal_dirs()),
    {
        let mut positions = Vec::new();
        self.push_ray(from, 1, 1, &mut positions);
        self.push_ray(from, 1, -1, &mut positions);
        self.push_ray(from, -1, 1, &mut positions);
        self.push_ray(from, -1, -1, &mut positions);
        proof {
            let d = diagonal_dirs();
            reveal_with_fuel(Board::rays, 5);
            assert(d.drop_last() =~= d.take(3));
            assert(d.take(3).drop_last() =~= d.take(2));
            assert(d.take(2).drop_last() =~= d.take(1));
            assert(d.take(1).drop_last() =~= Seq::<(int, int)>::empty());
            assert(positions@ =~= self.rays(from, d));
        }
        positions
    }

    /// Moves of a queen from `from`: the orthogonal moves followed by the diagonal ones.
    pub fn get_ortho_diagonal_moves(&self, from: TilePos) -> (r: Vec<TilePos>)
        requires
            self.wf(),
            from.wf(),
        ensures
            r@ == self.rays(from, orthogonal_dirs()) + self.rays(from, diagonal_dirs()),
    {
        let mut positions = self.get_orthogonal_moves(from);
        let mut diagonal = self.get_diagonal_moves(from);
        positions.append(&mut diagonal);
        positions
    }

    /// Moves of a knight from `from`: each of the eight knight offsets that stays on the
    /// board and does not land on a piece of the same player.
    pub fn get_knight_moves(&self, from: TilePos) -> (r: Vec<TilePos>)
        requires
            self.wf(),
            from.wf(),
        ensures
            r@ == self.steps(from, knight_offsets()),
    {
        let mut positions = Vec::new();
        self.push_step(from, -2, -1, &mut positions);
        self.push_step(from, -2, 1, &mut positions);
        self.push_step(from, -1, -2, &mut positions);
        self.push_step(from, -1, 2, &mut positions);
        self.push_step(from, 1, -2, &mut positions);
        self.push_step(from, 1, 2, &mut positions);
        self.push_step(from, 2, -1, &mut positions);
        self.push_step(from, 2, 1, &mut positions);
        proof {
            let o = knight_offsets();
            assert(o.take(0) =~= Seq::<(int, int)>::empty());
            assert forall|i: int| 0 < i <= 8 implies o.take(i).drop_last() =~= o.take(i - 1) by {}
            assert(o.take(8) =~= o);
            reveal_with_fuel(Board::steps, 9);
            assert(positions@ =~= self.steps(from, o.take(8)));
        }
        positions
    }

    /// Moves of a king from `from`, castling aside: each adjacent square that does not hold
    /// a piece of the same player.
    pub fn get_king_moves(&self, from: TilePos) -> (r: Vec<TilePos>)
        requires
            self.wf(),
            from.wf(),
        ensures
            r@ == self.steps(from, king_offsets()),
    {
        let mut positions = Vec::new();
        self.push_step(from, -1, -1, &mut positions);
        self.push_step(from, -1, 0, &mut positions);
        self.push_step(from, -1, 1, &mut positions);
        self.push_step(from, 0, -1, &mut positions);
        self.push_step(from, 0, 1, &mut positions);
        self.push_step(from, 1, -1, &mut positions);
        self.push_step(from, 1, 0, &mut positions);
        self.push_step(from, 1, 1, &mut positions);
        proof {
            let o = king_offsets();
            assert(o.take(0) =~= Seq::<(int, int)>::empty());
            assert forall|i: int| 0 < i <= 8 implies o.take(i).drop_last() =~= o.take(i - 1) by {}
            assert(o.take(8) =~= o);
            reveal_with_fuel(Board::steps, 9);
            assert(positions@ =~= self.steps(from, o.take(8)));
        }
        positions
    }
    /// Appends the capture of a pawn of `piece` on `(f, r)`.
    fn push_pawn_capture(&self, piece: Piece, f: isize, r: isize, positions: &mut Vec<TilePos>)
        requires
            self.wf(),
            -1 <= f <= 8,
            -1 <= r <= 8,
        ensures
            final(positions)@ == old(positions)@ + self.pawn_capture(piece, f as int, r as int),
    {
        if f >= 0 && f < 8 && r >= 0 && r < 8 && piece != Piece::Empty {
            let new_pos = TilePos::new(f as usize, r as usize);
            let captured = self.get_piece(new_pos);
            if captured != Piece::Empty && players_differ(captured, piece) {
                positions.push(new_pos);
            }
        }
    }

    /// Moves of a pawn from `from`: see `pawn_moves`. Promotion is not generated.
    pub fn get_pawn_moves(&self, from: TilePos) -> (r: Vec<TilePos>)
        requires
            self.wf(),
            from.wf(),
        ensures
            r@ == self.pawn_moves(from),
    {
        let piece = self.get_piece(from);
        let vertical_dir = Board::get_vertical_dir(piece);
        let file = from.file as isize;
        let rank = from.rank as isize;
        let mut positions = Vec::new();

        let forward = file + vertical_dir;
        if forward >= 0 && forward < 8 {
            let new_pos = TilePos::new(forward as usize, from.rank);
            if self.get_piece(new_pos) == Piece::Empty {
                positions.push(new_pos);
            }
        }
        self.push_pawn_capture(piece, forward, rank - 1, &mut positions);
        self.push_pawn_capture(piece, forward, rank + 1, &mut positions);

        if let Some(passant_tile) = self.en_passant_on_last_move {
            let file_diff = passant_tile.file as isize - file;
            let rank_diff = passant_tile.rank as isize - rank;
            if (file_diff == 1 || file_diff == -1) && rank_diff == vertical_dir {
                positions.push(passant_tile);
            }
        }

        if Board::double_pawn_move_check(piece, from) {
            let between = TilePos::new(forward as usize, from.rank);
            let new_pos = TilePos::new((file + 2 * vertical_dir) as usize, from.rank);
            if self.get_piece(between) == Piece::Empty && self.get_piece(new_pos) == Piece::Empty {
                positions.push(new_pos);
            }
        }
        proof {
            let p = self.pawn_moves(from);
            assert(positions@ =~= p);
        }
        positions
    }

    /// Whether a pawn of `piece` on `from` stands on its starting file and may step twice.
    pub fn double_pawn_move_check(piece: Piece, from: TilePos) -> (r: bool)
        ensures
            r == spec_double_pawn_move(piece, from),
    {
        (piece.is_white() && from.file == 1) || (piece.is_black() && from.file == BOARD_SIZE - 2)
    }

    /// Forward direction of a pawn of `piece` along the file axis.
    pub fn get_vertical_dir(piece: Piece) -> (r: isize)
        ensures
            r as int == spec_vertical_dir(piece),
    {
        if piece.is_white() {
            1
        } else {
            -1
        }
    }
}

/// The square `j` steps from `(file, rank)` along `(df, dr)`, as a row index.
pub open spec fn along(x: int, d: int, j: int) -> int {
    x + j * d
}

/// One step further from `x` is `j` steps from the next square.
proof fn lemma_along_shift(x: int, d: int, j: int)
    ensures
        along(x, d, j + 1) == along(x + d, d, j),
        along(x, d, 1) == x + d,
{
    assert(x + (j + 1) * d == (x + d) + j * d) by (nonlinear_arith);
}

/// Moving away from the board by unit steps never comes back onto it.
proof fn lemma_along_leaves(x: int, d: int, j: int)
    requires
        0 <= x < BOARD_SIZE,
        -1 <= d <= 1,
        !(0 <= x + d < BOARD_SIZE),
        j >= 1,
    ensures
        !(0 <= along(x, d, j) < BOARD_SIZE),
{
    if d == 1 {
        assert(j * d == j) by (nonlinear_arith)
            requires
                d == 1,
        ;
    } else if d == -1 {
        assert(j * d == -j) by (nonlinear_arith)
            requires
                d == -1,
        ;
    }
}

impl Board {
    /// The piece `j` steps from `(file, rank)` along `(df, dr)`.
    pub open spec fn piece_along(&self, file: int, rank: int, df: int, dr: int, j: int) -> Piece {
        self.piece_at(along(file, df, j), along(rank, dr, j))
    }

    /// `t` is the square `k` steps from `(file, rank)` along `(df, dr)`; it is on the
    /// board, every square before it is empty, and it is empty or holds a piece of a
    /// player other than that of `piece`.
    pub open spec fn ray_hit(
        &self,
        piece: Piece,
        file: int,
        rank: int,
        df: int,
        dr: int,
        k: int,
        t: TilePos,
    ) -> bool {
        let f = along(file, df, k);
        let r = along(rank, dr, k);
        &&& on_board(f, r)
        &&& t == tile(f, r)
        &&& forall|j: int| 1 <= j < k ==> #[trigger] self.piece_along(file, rank, df, dr, j) == Piece::Empty
        &&& (self.piece_at(f, r) == Piece::Empty || differ(self.piece_at(f, r), piece))
    }
}

/// A sliding piece reaches exactly the squares `k <= n` steps along its direction that
/// are on the board, have only empty squares before them, and are empty or hold a piece
/// of another player. So on an otherwise empty board the ray runs to the edge; a piece of
/// another player at distance `k` ends it on that square; a piece of the same player at
/// distance `k` ends it just before.
pub proof fn lemma_ray_members(
    b: Board,
    piece: Piece,
    file: int,
    rank: int,
    df: int,
    dr: int,
    n: nat,
    t: TilePos,
)
    requires
        on_board(file, rank),
        -1 <= df <= 1,
        -1 <= dr <= 1,
    ensures
        b.ray(piece, file, rank, df, dr, n).contains(t) <==> exists|k: int|
            1 <= k <= n && #[trigger] b.ray_hit(piece, file, rank, df, dr, k, t),
    decreases n,
{
    broadcast use vstd::seq_lib::group_seq_properties;

    let f1 = file + df;
    let r1 = rank + dr;
    lemma_along_shift(file, df, 0);
    lemma_along_shift(rank, dr, 0);
    if n == 0 {
    } else if !on_board(f1, r1) {
        assert forall|k: int| 1 <= k <= n implies !b.ray_hit(piece, file, rank, df, dr, k, t) by {
            if !(0 <= f1 < BOARD_SIZE) {
                lemma_along_leaves(file, df, k);
            } else {
                lemma_along_leaves(rank, dr, k);
            }
        }
    } else if b.piece_at(f1, r1) != Piece::Empty {
        assert forall|k: int| 2 <= k <= n implies !b.ray_hit(piece, file, rank, df, dr, k, t) by {
            assert(b.piece_along(file, rank, df, dr, 1) != Piece::Empty);
        }
        if b.ray(piece, file, rank, df, dr, n).contains(t) {
            assert(b.ray_hit(piece, file, rank, df, dr, 1, t));
        }
    } else {
        let rest = b.ray(piece, f1, r1, df, dr, (n - 1) as nat);
        lemma_ray_members(b, piece, f1, r1, df, dr, (n - 1) as nat, t);
        assert(b.ray(piece, file, rank, df, dr, n) == seq![tile(f1, r1)] + rest);
        assert forall|k: int| 1 <= k < n implies b.ray_hit(piece, file, rank, df, dr, k + 1, t)
            == b.ray_hit(piece, f1, r1, df, dr, k, t) by {
            lemma_along_shift(file, df, k);
            lemma_along_shift(rank, dr, k);
            assert forall|j: int| 1 <= j < k implies b.piece_along(file, rank, df, dr, j + 1)
                == b.piece_along(f1, r1, df, dr, j) by {
                lemma_along_shift(file, df, j);
                lemma_along_shift(rank, dr, j);
            }
            if b.ray_hit(piece, f1, r1, df, dr, k, t) {
                assert forall|j: int| 1 <= j < k + 1 implies #[trigger] b.piece_along(
                    file,
                    rank,
                    df,
                    dr,
                    j,
                ) == Piece::Empty by {
                    if j > 1 {
                        assert(b.piece_along(file, rank, df, dr, (j - 1) + 1) == b.piece_along(
                            f1,
                            r1,
                            df,
                            dr,
                            j - 1,
                        ));
                    }
                }
            }
            if b.ray_hit(piece, file, rank, df, dr, k + 1, t) {
                assert forall|j: int| 1 <= j < k implies #[trigger] b.piece_along(
                    f1,
                    r1,
                    df,
                    dr,
                    j,
                ) == Piece::Empty by {
                    assert(b.piece_along(file, rank, df, dr, j + 1) == Piece::Empty);
                }
            }
        }
        if b.ray(piece, file, rank, df, dr, n).contains(t) {
            if t == tile(f1, r1) {
                assert(b.ray_hit(piece, file, rank, df, dr, 1, t));
            } else {
                assert(rest.contains(t));
                let k = choose|k: int| 1 <= k <= n - 1 && #[trigger] b.ray_hit(piece, f1, r1, df, dr, k, t);
                assert(b.ray_hit(piece, file, rank, df, dr, k + 1, t));
            }
        }
        if exists|k: int| 1 <= k <= n && #[trigger] b.ray_hit(piece, file, rank, df, dr, k, t) {
            let k = choose|k: int| 1 <= k <= n && #[trigger] b.ray_hit(piece, file, rank, df, dr, k, t);
            if k == 1 {
                assert(t == tile(f1, r1));
                assert((seq![tile(f1, r1)] + rest)[0] == t);
            } else {
                assert(b.ray_hit(piece, file, rank, df, dr, (k - 1) + 1, t));
                assert(b.ray_hit(piece, f1, r1, df, dr, k - 1, t));
                assert(rest.contains(t));
            }
        }
    }
}

/// The sliding moves along a list of directions are the squares of the ray along one of
/// them; with `lemma_ray_members` this describes `get_orthogonal_moves`,
/// `get_diagonal_moves` and `get_ortho_diagonal_moves` square by square.
pub proof fn lemma_rays_members(b: Board, from: TilePos, dirs: Seq<(int, int)>, t: TilePos)
    ensures
        b.rays(from, dirs).contains(t) <==> exists|i: int|
            0 <= i < dirs.len() && #[trigger] b.ray(
                b.piece_at(from.file as int, from.rank as int),
                from.file as int,
                from.rank as int,
                dirs[i].0,
                dirs[i].1,
                (BOARD_SIZE - 1) as nat,
            ).contains(t),
    decreases dirs.len(),
{
    broadcast use vstd::seq_lib::group_seq_properties;

    let p = b.piece_at(from.file as int, from.rank as int);
    let f = from.file as int;
    let r = from.rank as int;
    let n = (BOARD_SIZE - 1) as nat;
    if dirs.len() > 0 {
        let init = dirs.drop_last();
        lemma_rays_members(b, from, init, t);
        assert forall|i: int| 0 <= i < init.len() implies init[i] == dirs[i] by {}
        if b.rays(from, dirs).contains(t) {
            if b.rays(from, init).contains(t) {
                let i = choose|i: int|
                    0 <= i < init.len() && #[trigger] b.ray(p, f, r, init[i].0, init[i].1, n).contains(t);
                assert(b.ray(p, f, r, dirs[i].0, dirs[i].1, n).contains(t));
            } else {
                let last = dirs.len() - 1;
                assert(b.ray(p, f, r, dirs[last].0, dirs[last].1, n).contains(t));
            }
        }
        if exists|i: int|
            0 <= i < dirs.len() && #[trigger] b.ray(p, f, r, dirs[i].0, dirs[i].1, n).contains(t) {
            let i = choose|i: int|
                0 <= i < dirs.len() && #[trigger] b.ray(p, f, r, dirs[i].0, dirs[i].1, n).contains(t);
            if i < init.len() {
                assert(b.ray(p, f, r, init[i].0, init[i].1, n).contains(t));
            }
        }
    }
}

/// A product with a unit factor is the other factor, its negation, or zero.
proof fn lemma_mul_unit(x: int, c: int)
    requires
        -1 <= c <= 1,
    ensures
        x * c == (if c == 1 {
            x
        } else if c == -1 {
            -x
        } else {
            0
        }),
{
    if c == 1 {
        assert(x * c == x) by (nonlinear_arith)
            requires
                c == 1,
        ;
    } else if c == -1 {
        assert(x * c == -x) by (nonlinear_arith)
            requires
                c == -1,
        ;
    } else {
        assert(x * c == 0) by (nonlinear_arith)
            requires
                c == 0,
        ;
    }
}

/// The four orthogonal or the four diagonal directions.
pub open spec fn sliding_dirs(dirs: Seq<(int, int)>) -> bool {
    dirs == orthogonal_dirs() || dirs == diagonal_dirs()
}

/// Two squares reached by at least one step along directions of one family coincide only
/// for the same direction and the same number of steps.
proof fn lemma_dir_unique(dirs: Seq<(int, int)>, x: int, y: int, i: int, k: int, i2: int, k2: int)
    requires
        sliding_dirs(dirs),
        0 <= i < 4,
        0 <= i2 < 4,
        k >= 1,
        k2 >= 1,
        along(x, dirs[i].0, k) == along(x, dirs[i2].0, k2),
        along(y, dirs[i].1, k) == along(y, dirs[i2].1, k2),
    ensures
        i == i2,
        k == k2,
{
    lemma_mul_unit(k, dirs[i].0);
    lemma_mul_unit(k, dirs[i].1);
    lemma_mul_unit(k2, dirs[i2].0);
    lemma_mul_unit(k2, dirs[i2].1);
}

/// A square on the board, at least one step away along a unit direction, is at most
/// `BOARD_SIZE - 1` steps away.
proof fn lemma_steps_bounded(dirs: Seq<(int, int)>, from: TilePos, i: int, j: int)
    requires
        sliding_dirs(dirs),
        from.wf(),
        0 <= i < 4,
        j >= 1,
        on_board(along(from.file as int, dirs[i].0, j), along(from.rank as int, dirs[i].1, j)),
    ensures
        j <= BOARD_SIZE - 1,
{
    lemma_mul_unit(j, dirs[i].0);
    lemma_mul_unit(j, dirs[i].1);
}

/// A square `j` steps from `from` along one of the four sliding directions is among the
/// sliding moves exactly when every square before it is empty and it is empty or holds a
/// piece of another player than the one on `from`.
pub proof fn lemma_slide_square(b: Board, from: TilePos, dirs: Seq<(int, int)>, i: int, j: int)
    requires
        from.wf(),
        sliding_dirs(dirs),
        0 <= i < 4,
        j >= 1,
        on_board(along(from.file as int, dirs[i].0, j), along(from.rank as int, dirs[i].1, j)),
    ensures
        ({
            let f = from.file as int;
            let r = from.rank as int;
            let t = tile(along(f, dirs[i].0, j), along(r, dirs[i].1, j));
            b.rays(from, dirs).contains(t) <==> b.ray_hit(
                b.piece_at(f, r),
                f,
                r,
                dirs[i].0,
                dirs[i].1,
                j,
                t,
            )
        }),
{
    let f = from.file as int;
    let r = from.rank as int;
    let p = b.piece_at(f, r);
    let n = (BOARD_SIZE - 1) as nat;
    let t = tile(along(f, dirs[i].0, j), along(r, dirs[i].1, j));
    assert(forall|m: int| 0 <= m < 4 ==> -1 <= #[trigger] dirs[m].0 <= 1 && -1 <= dirs[m].1 <= 1);
    lemma_rays_members(b, from, dirs, t);
    lemma_steps_bounded(dirs, from, i, j);
    if b.ray_hit(p, f, r, dirs[i].0, dirs[i].1, j, t) {
        lemma_ray_members(b, p, f, r, dirs[i].0, dirs[i].1, n, t);
        assert(b.ray(p, f, r, dirs[i].0, dirs[i].1, n).contains(t));
    }
    if b.rays(from, dirs).contains(t) {
        let i2 = choose|i2: int|
            0 <= i2 < dirs.len() && #[trigger] b.ray(p, f, r, dirs[i2].0, dirs[i2].1, n).contains(t);
        lemma_ray_members(b, p, f, r, dirs[i2].0, dirs[i2].1, n, t);
        let k2 = choose|k2: int|
            1 <= k2 <= n && #[trigger] b.ray_hit(p, f, r, dirs[i2].0, dirs[i2].1, k2, t);
        lemma_dir_unique(dirs, f, r, i, j, i2, k2);
    }
}

/// A piece `k` steps from `from` along one of the four sliding directions, with only
/// empty squares before it, ends that direction: the squares before it are moves, its own
/// square is a move exactly when it holds a piece of another player, and no square beyond
/// it is a move.
pub proof fn lemma_slide_blocked(
    b: Board,
    from: TilePos,
    dirs: Seq<(int, int)>,
    i: int,
    k: int,
    j: int,
)
    requires
        from.wf(),
        sliding_dirs(dirs),
        0 <= i < 4,
        1 <= k,
        1 <= j,
        on_board(along(from.file as int, dirs[i].0, j), along(from.rank as int, dirs[i].1, j)),
        on_board(along(from.file as int, dirs[i].0, k), along(from.rank as int, dirs[i].1, k)),
        forall|m: int|
            1 <= m < k ==> #[trigger] b.piece_along(
                from.file as int,
                from.rank as int,
                dirs[i].0,
                dirs[i].1,
                m,
            ) == Piece::Empty,
        b.piece_along(from.file as int, from.rank as int, dirs[i].0, dirs[i].1, k) != Piece::Empty,
    ensures
        ({
            let f = from.file as int;
            let r = from.rank as int;
            let t = tile(along(f, dirs[i].0, j), along(r, dirs[i].1, j));
            let blocker = b.piece_along(f, r, dirs[i].0, dirs[i].1, k);
            &&& j < k ==> b.rays(from, dirs).contains(t)
            &&& j == k ==> (b.rays(from, dirs).contains(t) <==> differ(blocker, b.piece_at(f, r)))
            &&& j > k ==> !b.rays(from, dirs).contains(t)
        }),
{
    let f = from.file as int;
    let r = from.rank as int;
    let t = tile(along(f, dirs[i].0, j), along(r, dirs[i].1, j));
    lemma_slide_square(b, from, dirs, i, j);
    if j < k {
        assert(b.piece_along(f, r, dirs[i].0, dirs[i].1, j) == Piece::Empty);
        assert(b.ray_hit(b.piece_at(f, r), f, r, dirs[i].0, dirs[i].1, j, t));
    }
    if j > k {
        assert(!b.ray_hit(b.piece_at(f, r), f, r, dirs[i].0, dirs[i].1, j, t));
    }
}

/// A square is among the steps by `offs` exactly when the step by one of the offsets reaches it.
proof fn lemma_steps_members(b: Board, from: TilePos, offs: Seq<(int, int)>, t: TilePos)
    ensures
        b.steps(from, offs).contains(t) <==> exists|i: int|
            0 <= i < offs.len() && #[trigger] b.step(from, offs[i].0, offs[i].1).contains(t),
    decreases offs.len(),
{
    broadcast use vstd::seq_lib::group_seq_properties;

    if offs.len() > 0 {
        let init = offs.drop_last();
        lemma_steps_members(b, from, init, t);
        assert forall|i: int| 0 <= i < init.len() implies init[i] == offs[i] by {}
        if b.steps(from, offs).contains(t) {
            if b.steps(from, init).contains(t) {
                let i = choose|i: int|
                    0 <= i < init.len() && #[trigger] b.step(from, init[i].0, init[i].1).contains(t);
                assert(b.step(from, offs[i].0, offs[i].1).contains(t));
            } else {
                assert(b.step(from, offs[offs.len() - 1].0, offs[offs.len() - 1].1).contains(t));
            }
        }
        if exists|i: int|
            0 <= i < offs.len() && #[trigger] b.step(from, offs[i].0, offs[i].1).contains(t) {
            let i = choose|i: int|
                0 <= i < offs.len() && #[trigger] b.step(from, offs[i].0, offs[i].1).contains(t);
            if i < init.len() {
                assert(b.step(from, init[i].0, init[i].1).contains(t));
            }
        }
    }
}

/// A king reaches an adjacent square on the board exactly when it is empty or holds a
/// piece of another player: squares held by its own side are left out, squares held by
/// the other side are included.
pub proof fn lemma_king_adjacent(b: Board, from: TilePos, df: int, dr: int)
    requires
        from.wf(),
        -1 <= df <= 1,
        -1 <= dr <= 1,
        !(df == 0 && dr == 0),
        on_board(from.file + df, from.rank + dr),
    ensures
        ({
            let f = from.file + df;
            let r = from.rank + dr;
            b.steps(from, king_offsets()).contains(tile(f, r)) <==> (b.piece_at(f, r)
                == Piece::Empty || differ(b.piece_at(f, r), b.piece_at(from.file as int, from.rank as int)))
        }),
{
    let f = from.file + df;
    let r = from.rank + dr;
    let o = king_offsets();
    lemma_steps_members(b, from, o, tile(f, r));
    let i = if df == -1 {
        if dr == -1 { 0int } else if dr == 0 { 1 } else { 2 }
    } else if df == 0 {
        if dr == -1 { 3int } else { 4 }
    } else {
        if dr == -1 { 5int } else if dr == 0 { 6 } else { 7 }
    };
    assert(o[i] == (df, dr));
    if b.piece_at(f, r) == Piece::Empty || differ(b.piece_at(f, r), b.piece_at(from.file as int, from.rank as int)) {
        assert(b.step(from, o[i].0, o[i].1)[0] == tile(f, r));
        assert(b.step(from, o[i].0, o[i].1).contains(tile(f, r)));
    }
    if b.steps(from, o).contains(tile(f, r)) {
        let j = choose|j: int| 0 <= j < o.len() && #[trigger] b.step(from, o[j].0, o[j].1).contains(tile(f, r));
        let s = b.step(from, o[j].0, o[j].1);
        assert(s.len() > 0);
        assert(s[0] == tile(f, r));
        assert(o[j] == (df, dr));
    }
}

/// Distinct offsets from a square on the board give distinct steps, so no square is
/// generated twice.
proof fn lemma_steps_distinct(b: Board, from: TilePos, offs: Seq<(int, int)>)
    requires
        from.wf(),
        offs.no_duplicates(),
    ensures
        b.steps(from, offs).no_duplicates(),
    decreases offs.len(),
{
    broadcast use vstd::seq_lib::group_seq_properties;

    if offs.len() > 0 {
        let init = offs.drop_last();
        let last = offs.last();
        assert(init.no_duplicates());
        lemma_steps_distinct(b, from, init);
        let a = b.steps(from, init);
        let c = b.step(from, last.0, last.1);
        if c.len() > 0 {
            let t = c[0];
            if a.contains(t) {
                lemma_steps_members(b, from, init, t);
                let i = choose|i: int|
                    0 <= i < init.len() && #[trigger] b.step(from, init[i].0, init[i].1).contains(t);
                assert(b.step(from, init[i].0, init[i].1)[0] == t);
                assert(init[i] == offs[i]);
                assert(offs[i] == offs[offs.len() - 1]);
            }
            assert forall|x: int, y: int|
                0 <= x < (a + c).len() && 0 <= y < (a + c).len() && x != y implies (a + c)[x] != (a
                    + c)[y] by {
                if x < a.len() && y < a.len() {
                } else if x < a.len() {
                    assert((a + c)[x] == a[x]);
                } else if y < a.len() {
                    assert((a + c)[y] == a[y]);
                }
            }
        } else {
            assert(a + c =~= a);
        }
    }
}

/// Every king move is a square adjacent to `from`, on the board, that is empty or holds a
/// piece of another player; no square is generated twice.
pub proof fn lemma_king_moves_adjacent_only(b: Board, from: TilePos, t: TilePos)
    requires
        from.wf(),
    ensures
        b.steps(from, king_offsets()).no_duplicates(),
        b.steps(from, king_offsets()).contains(t) ==> exists|df: int, dr: int|
            {
                &&& -1 <= df <= 1
                &&& -1 <= dr <= 1
                &&& !(df == 0 && dr == 0)
                &&& on_board(from.file + df, from.rank + dr)
                &&& #[trigger] tile(from.file + df, from.rank + dr) == t
                &&& (b.piece_at(from.file + df, from.rank + dr) == Piece::Empty || differ(
                    b.piece_at(from.file + df, from.rank + dr),
                    b.piece_at(from.file as int, from.rank as int),
                ))
            },
{
    let o = king_offsets();
    assert(forall|m: int|
        0 <= m < 8 ==> -1 <= #[trigger] o[m].0 <= 1 && -1 <= o[m].1 <= 1 && !(o[m].0 == 0
            && o[m].1 == 0));
    assert(o.no_duplicates());
    lemma_steps_distinct(b, from, o);
    lemma_steps_members(b, from, o, t);
    if b.steps(from, o).contains(t) {
        let i = choose|i: int| 0 <= i < o.len() && #[trigger] b.step(from, o[i].0, o[i].1).contains(t);
        let s = b.step(from, o[i].0, o[i].1);
        assert(s.len() > 0);
        assert(s[0] == t);
        assert(tile(from.file + o[i].0, from.rank + o[i].1) == t);
    }
}

/// The double step of a pawn (two squares forward along the file axis) is generated
/// exactly when the pawn stands on the starting file of its colour and both squares ahead
/// of it are empty.
pub proof fn lemma_pawn_double_step(b: Board, from: TilePos)
    requires
        from.wf(),
        on_board(
            from.file + 2 * spec_vertical_dir(b.piece_at(from.file as int, from.rank as int)),
            from.rank as int,
        ),
    ensures
        ({
            let piece = b.piece_at(from.file as int, from.rank as int);
            let d = spec_vertical_dir(piece);
            let t = tile(from.file + 2 * d, from.rank as int);
            b.pawn_moves(from).contains(t) <==> spec_double_pawn_move(piece, from) && b.piece_at(
                from.file + d,
                from.rank as int,
            ) == Piece::Empty && b.piece_at(from.file + 2 * d, from.rank as int) == Piece::Empty
        }),
{
    broadcast use vstd::seq_lib::group_seq_properties;

    let file = from.file as int;
    let rank = from.rank as int;
    let piece = b.piece_at(file, rank);
    let d = spec_vertical_dir(piece);
    let t = tile(file + 2 * d, rank);
    let f1 = file + d;
    let single = if on_board(f1, rank) && b.piece_at(f1, rank) == Piece::Empty {
        seq![tile(f1, rank)]
    } else {
        seq![]
    };
    let left = b.pawn_capture(piece, f1, rank - 1);
    let right = b.pawn_capture(piece, f1, rank + 1);
    let passant = match b.en_passant_on_last_move {
        Some(e) => if (e.file - file == 1 || e.file - file == -1) && e.rank - rank == d {
            seq![e]
        } else {
            seq![]
        },
        None => seq![],
    };
    let double = if spec_double_pawn_move(piece, from) && on_board(f1, rank) && b.piece_at(
        f1,
        rank,
    ) == Piece::Empty && b.piece_at(file + 2 * d, rank) == Piece::Empty {
        seq![tile(file + 2 * d, rank)]
    } else {
        seq![]
    };
    assert(b.pawn_moves(from) == single + left + right + passant + double);
    assert(!single.contains(t));
    assert(!left.contains(t));
    assert(!right.contains(t));
    assert(!passant.contains(t));
    if double.len() > 0 {
        assert(double[0] == t);
    }
}

/// With an en-passant target one step forward in rank from a pawn, the pawn is offered
/// the target when it stands one file aside, and not when it stands two files aside.
pub proof fn lemma_en_passant_target(b: Board, from: TilePos, t: TilePos)
    requires
        b.wf(),
        from.wf(),
        b.en_passant_on_last_move == Some(t),
        t.rank - from.rank == spec_vertical_dir(b.piece_at(from.file as int, from.rank as int)),
    ensures
        (t.file - from.file == 1 || t.file - from.file == -1) ==> b.pawn_moves(from).contains(t),
        (t.file - from.file == 2 || t.file - from.file == -2) ==> !b.pawn_moves(from).contains(t),
{
    broadcast use vstd::seq_lib::group_seq_properties;

    let file = from.file as int;
    let rank = from.rank as int;
    let piece = b.piece_at(file, rank);
    let d = spec_vertical_dir(piece);
    let f1 = file + d;
    let single = if on_board(f1, rank) && b.piece_at(f1, rank) == Piece::Empty {
        seq![tile(f1, rank)]
    } else {
        seq![]
    };
    let left = b.pawn_capture(piece, f1, rank - 1);
    let right = b.pawn_capture(piece, f1, rank + 1);
    let passant = if (t.file - file == 1 || t.file - file == -1) && t.rank - rank == d {
        seq![t]
    } else {
        seq![]
    };
    let double = if spec_double_pawn_move(piece, from) && on_board(f1, rank) && b.piece_at(
        f1,
        rank,
    ) == Piece::Empty && b.piece_at(file + 2 * d, rank) == Piece::Empty {
        seq![tile(file + 2 * d, rank)]
    } else {
        seq![]
    };
    assert(b.pawn_moves(from) == single + left + right + passant + double);
    if t.file - file == 1 || t.file - file == -1 {
        assert(passant[0] == t);
        assert((single + left + right + passant).contains(t));
    }
    if t.file - file == 2 || t.file - file == -2 {
        assert(!single.contains(t));
        assert(!left.contains(t));
        assert(!right.contains(t));
        assert(!passant.contains(t));
        assert(!double.contains(t));
    }
}

} // verus!
