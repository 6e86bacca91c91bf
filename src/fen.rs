use vstd::prelude::*;

use crate::board::{Board, TilePos, BOARD_SIZE};
use crate::piece::{spec_from_algebraic, Piece, Player};

verus! {

/// Why a position description was rejected; each variant carries the offending text.
#[derive(Clone, Copy, Debug, PartialEq, Eq, Structural)]
pub enum FenError {
    /// A character of the placement section that is neither the letter of a piece, a
    /// digit `1`-`8`, `/` nor a space.
    InvalidPiece(char),
    /// A piece letter whose square would lie off the board.
    PieceOffBoard(char),
    /// A character of the side-to-move section other than `w`, `b` or a space.
    InvalidPlayer(char),
    /// A character of the castling section other than `K`, `Q`, `k`, `q`, `-` or a space.
    InvalidCastling(char),
    /// An en-passant token that is not a file letter `a`-`h` followed by a rank digit
    /// `0`-`7`; the second character is absent at the end of the text.
    InvalidEnPassant(char, Option<char>),
}

/// The parser's state: the section being read, the placement cursors and the position so far.
pub struct FenState {
    pub section: int,
    pub file: int,
    pub rank: int,
    pub squares: Seq<Piece>,
    pub player: Player,
    pub castling: Seq<(bool, bool)>,
    pub en_passant: Option<TilePos>,
}

/// A placement cursor that has run past the board stays just past it.
pub open spec fn cursor(x: int) -> int {
    if x > BOARD_SIZE {
        BOARD_SIZE as int
    } else {
        x
    }
}

/// The state before the first character: an empty board, white to move, no castling
/// rights, no en-passant target.
pub open spec fn fen_start() -> FenState {
    FenState {
        section: 0,
        file: 0,
        rank: 0,
        squares: Seq::new(64, |i: int| Piece::Empty),
        player: Player::White,
        castling: seq![(false, false), (false, false)],
        en_passant: None,
    }
}

/// Reads `s` from index `i` on in state `st`. Sections are separated by spaces:
/// placement (a digit skips squares, `/` starts the next row, a piece letter places a
/// piece at row `BOARD_SIZE - 1 - file`, column `rank`), side to move, castling rights,
/// and the en-passant target; reading stops after the fourth section.
pub open spec fn fen_run(s: Seq<char>, i: int, st: FenState) -> Result<FenState, FenError>
    decreases s.len() - i,
{
    if i < 0 || i >= s.len() || st.section < 0 || st.section >= 4 {
        Ok(st)
    } else {
        let c = s[i];
        if c == ' ' {
            fen_run(s, i + 1, FenState { section: st.section + 1, ..st })
        } else if st.section == 0 {
            if c == '/' {
                fen_run(s, i + 1, FenState { file: cursor(st.file + 1), rank: 0, ..st })
            } else if '1' <= c && c <= '8' {
                fen_run(
                    s,
                    i + 1,
                    FenState { rank: cursor(st.rank + (c as int - '0' as int)), ..st },
                )
            } else {
                match spec_from_algebraic(c) {
                    Some(p) => if p == Piece::Empty {
                        Err(FenError::InvalidPiece(c))
                    } else if st.file < BOARD_SIZE && st.rank < BOARD_SIZE {
                        let sq = (BOARD_SIZE - 1 - st.file) * 8 + st.rank;
                        fen_run(
                            s,
                            i + 1,
                            FenState {
                                squares: st.squares.update(sq, p),
                                rank: st.rank + 1,
                                ..st
                            },
                        )
                    } else {
                        Err(FenError::PieceOffBoard(c))
                    },
                    None => Err(FenError::InvalidPiece(c)),
                }
            }
        } else if st.section == 1 {
            if c == 'w' {
                fen_run(s, i + 1, FenState { player: Player::White, ..st })
            } else if c == 'b' {
                fen_run(s, i + 1, FenState { player: Player::Black, ..st })
            } else {
                Err(FenError::InvalidPlayer(c))
            }
        } else if st.section == 2 {
            if c == 'K' {
                fen_run(
                    s,
                    i + 1,
                    FenState { castling: st.castling.update(0, (true, st.castling[0].1)), ..st },
                )
            } else if c == 'Q' {
                fen_run(
                    s,
                    i + 1,
                    FenState { castling: st.castling.update(0, (st.castling[0].0, true)), ..st },
                )
            } else if c == 'k' {
                fen_run(
                    s,
                    i + 1,
                    FenState { castling: st.castling.update(1, (true, st.castling[1].1)), ..st },
                )
            } else if c == 'q' {
                fen_run(
                    s,
                    i + 1,
                    FenState { castling: st.castling.update(1, (st.castling[1].0, true)), ..st },
                )
            } else if c == '-' {
                fen_run(
                    s,
                    i + 1,
                    FenState { castling: seq![(false, false), (false, false)], ..st },
                )
            } else {
                Err(FenError::InvalidCastling(c))
            }
        } else {
            if c == '-' {
                fen_run(s, i + 1, FenState { en_passant: None, ..st })
            } else if i + 1 < s.len() && 'a' <= c && c <= 'h' && '0' <= s[i + 1] && s[i + 1]
                <= '7' {
                let t = TilePos {
                    file: (c as int - 'a' as int) as usize,
                    rank: (s[i + 1] as int - '0' as int) as usize,
                };
                fen_run(s, i + 2, FenState { en_passant: Some(t), ..st })
            } else {
                Err(
                    FenError::InvalidEnPassant(
                        c,
                        if i + 1 < s.len() {
                            Some(s[i + 1])
                        } else {
                            None
                        },
                    ),
                )
            }
        }
    }
}

/// The outcome of reading the whole description `s`.
pub open spec fn parse_fen(s: Seq<char>) -> Result<FenState, FenError> {
    fen_run(s, 0, fen_start())
}

/// Whether `c` may stand in the placement section: `/`, a digit `1`-`8`, or the letter of
/// a piece.
pub open spec fn is_placement_char(c: char) -> bool {
    c == '/' || ('1' <= c && c <= '8') || (spec_from_algebraic(c) matches Some(p) && p
        != Piece::Empty)
}

/// Reading placement characters up to index `i`, where a character that does not belong
/// there stands, ends in an error.
proof fn lemma_fen_run_placement(s: Seq<char>, i: int, j: int, st: FenState)
    requires
        0 <= j <= i < s.len(),
        st.section == 0,
        forall|m: int| 0 <= m < i ==> is_placement_char(#[trigger] s[m]),
        !is_placement_char(s[i]),
        s[i] != ' ',
    ensures
        fen_run(s, j, st) == Err::<FenState, FenError>(FenError::InvalidPiece(s[i])) || fen_run(
            s,
            j,
            st,
        ) matches Err(FenError::PieceOffBoard(_)),
    decreases i - j,
{
    let c = s[j];
    if j < i {
        assert(is_placement_char(c));
        if c == '/' {
            lemma_fen_run_placement(s, i, j + 1, FenState { file: cursor(st.file + 1), rank: 0, ..st });
        } else if '1' <= c && c <= '8' {
            lemma_fen_run_placement(
                s,
                i,
                j + 1,
                FenState { rank: cursor(st.rank + (c as int - '0' as int)), ..st },
            );
        } else {
            let p = spec_from_algebraic(c)->Some_0;
            if st.file < BOARD_SIZE && st.rank < BOARD_SIZE {
                let sq = (BOARD_SIZE - 1 - st.file) * 8 + st.rank;
                lemma_fen_run_placement(
                    s,
                    i,
                    j + 1,
                    FenState { squares: st.squares.update(sq, p), rank: st.rank + 1, ..st },
                );
            }
        }
    }
}

/// A description whose placement section holds, after any run of placement characters, a
/// character that is neither a placement character nor a space is rejected: the error
/// names that character, unless a piece before it was already placed off the board. No
/// position is made from it (see `Board::from_fen`).
pub proof fn lemma_fen_invalid_placement(s: Seq<char>, i: int)
    requires
        0 <= i < s.len(),
        forall|m: int| 0 <= m < i ==> is_placement_char(#[trigger] s[m]),
        !is_placement_char(s[i]),
        s[i] != ' ',
    ensures
        parse_fen(s) is Err,
        parse_fen(s) == Err::<FenState, FenError>(FenError::InvalidPiece(s[i])) || parse_fen(s) matches Err(
            FenError::PieceOffBoard(_),
        ),
{
    lemma_fen_run_placement(s, i, 0, fen_start());
}

impl Board {
    /// The parser state that this board and the given section and cursors make up.
    pub open spec fn fen_state(&self, section: int, file: int, rank: int) -> FenState {
        FenState {
            section,
            file,
            rank,
            squares: self.squares(),
            player: self.player,
            castling: self.castling_rights@,
            en_passant: self.en_passant_on_last_move,
        }
    }

    /// This board holds what `st` describes, with fresh counters and an empty move log.
    pub open spec fn holds_fen_state(&self, st: FenState) -> bool {
        &&& self.wf()
        &&& self.squares() == st.squares
        &&& self.player == st.player
        &&& self.castling_rights@ == st.castling
        &&& self.en_passant_on_last_move == st.en_passant
        &&& self.half_move_counter == 0
        &&& self.full_move_counter == 1
        &&& self.move_history@.len() == 0
    }

    /// Builds a position from a Forsyth-Edwards style description: placement, side to
    /// move, castling rights and en-passant target. The move clocks that may follow are
    /// not read: the half-move counter starts at 0 and the full-move counter at 1.
    /// On a malformed description the error names the offending text and no board is made.
    pub fn from_fen(fen: &str) -> (r: Result<Board, FenError>)
        ensures
            r is Ok <==> parse_fen(fen@) is Ok,
            r matches Err(e) ==> parse_fen(fen@) == Err::<FenState, FenError>(e),
            r matches Ok(b) ==> b.holds_fen_state(parse_fen(fen@)->Ok_0),
    {
        let mut board = Board::empty();
        proof {
            assert(board.squares() =~= fen_start().squares);
        }
        let n = fen.unicode_len();
        let mut i: usize = 0;
        let mut section: usize = 0;
        let mut file: usize = 0;
        let mut rank: usize = 0;
        while i < n && section < 4
            invariant
                n == fen@.len(),
                i <= n,
                section <= 4,
                file <= BOARD_SIZE,
                rank <= BOARD_SIZE,
                board.wf(),
                board.castling_rights@.len() == 2,
                board.half_move_counter == 0,
                board.full_move_counter == 1,
                board.move_history@.len() == 0,
                fen_run(fen@, i as int, board.fen_state(section as int, file as int, rank as int))
                    == parse_fen(fen@),
            decreases n - i,
        {
            let c = fen.get_char(i);
            let ghost st = board.fen_state(section as int, file as int, rank as int);
            if c == ' ' {
                section = section + 1;
                i = i + 1;
                assert(board.squares() =~= st.squares);
            } else if section == 0 {
                if c == '/' {
                    file = if file >= BOARD_SIZE {
                        BOARD_SIZE
                    } else {
                        file + 1
                    };
                    rank = 0;
                    i = i + 1;
                    assert(board.squares() =~= st.squares);
                } else if '1' <= c && c <= '8' {
                    let d = (c as u32 - '0' as u32) as usize;
                    rank = if rank + d > BOARD_SIZE {
                        BOARD_SIZE
                    } else {
                        rank + d
                    };
                    i = i + 1;
                    assert(board.squares() =~= st.squares);
                } else {
                    match Piece::from_algebraic(c) {
                        Some(piece) => {
                            if piece == Piece::Empty {
                                return Err(FenError::InvalidPiece(c));
                            } else if file < BOARD_SIZE && rank < BOARD_SIZE {
                                let tile_pos = TilePos::new(BOARD_SIZE - 1 - file, rank);
                                board.set_piece(tile_pos, piece);
                                rank = rank + 1;
                                i = i + 1;
                            } else {
                                return Err(FenError::PieceOffBoard(c));
                            }
                        },
                        None => {
                            return Err(FenError::InvalidPiece(c));
                        },
                    }
                }
            } else if section == 1 {
                if c == 'w' {
                    board.player = Player::White;
                } else if c == 'b' {
                    board.player = Player::Black;
                } else {
                    return Err(FenError::InvalidPlayer(c));
                }
                i = i + 1;
                assert(board.squares() =~= st.squares);
            } else if section == 2 {
                if c == 'K' {
                    board.castling_rights[0] = (true, board.castling_rights[0].1);
                } else if c == 'Q' {
                    board.castling_rights[0] = (board.castling_rights[0].0, true);
                } else if c == 'k' {
                    board.castling_rights[1] = (true, board.castling_rights[1].1);
                } else if c == 'q' {
                    board.castling_rights[1] = (board.castling_rights[1].0, true);
                } else if c == '-' {
                    board.castling_rights = [(false, false); 2];
                } else {
                    return Err(FenError::InvalidCastling(c));
                }
                proof {
                    assert(board.castling_rights@ =~= fen_run_castling(st, c));
                }
                i = i + 1;
                assert(board.squares() =~= st.squares);
            } else {
                if c == '-' {
                    board.en_passant_on_last_move = None;
                    i = i + 1;
                    assert(board.squares() =~= st.squares);
                } else {
                    let next = if i + 1 < n {
                        Some(fen.get_char(i + 1))
                    } else {
                        None
                    };
                    match next {
                        Some(digit) => {
                            if 'a' <= c && c <= 'h' && '0' <= digit && digit <= '7' {
                                board.en_passant_on_last_move = Some(
                                    TilePos::new(
                                        (c as u32 - 'a' as u32) as usize,
                                        (digit as u32 - '0' as u32) as usize,
                                    ),
                                );
                                i = i + 2;
                                assert(board.squares() =~= st.squares);
                            } else {
                                return Err(FenError::InvalidEnPassant(c, next));
                            }
                        },
                        None => {
                            return Err(FenError::InvalidEnPassant(c, next));
                        },
                    }
                }
            }
        }
        Ok(board)
    }
}

/// The castling rights after reading `c` in the castling section.
pub open spec fn fen_run_castling(st: FenState, c: char) -> Seq<(bool, bool)> {
    if c == 'K' {
        st.castling.update(0, (true, st.castling[0].1))
    } else if c == 'Q' {
        st.castling.update(0, (st.castling[0].0, true))
    } else if c == 'k' {
        st.castling.update(1, (true, st.castling[1].1))
    } else if c == 'q' {
        st.castling.update(1, (st.castling[1].0, true))
    } else {
        seq![(false, false), (false, false)]
    }
}

} // verus!
