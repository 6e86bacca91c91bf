use vstd::prelude::*;
use vstd::string::StringExecFns;

use crate::board::{Board, TilePos, BOARD_SIZE};
use crate::fen::FenError;
use crate::piece::{spec_algebraic, Player};

verus! {

/// Relies on std's `FromIterator<char>` for `String`: the string holds the characters in
/// order.
#[verifier::external_body]
fn string_from_chars(chars: &Vec<char>) -> (r: String)
    ensures
        r@ == chars@,
{
    chars.iter().collect()
}

/// The algebraic name of a square: the letter `a + file` followed by the digit `rank + 1`.
pub open spec fn spec_square_name(t: TilePos) -> Seq<char> {
    seq![('a' as int + t.file) as char, ('1' as int + t.rank) as char]
}

impl TilePos {
    /// The algebraic name of this square, such as `e4`.
    pub fn to_algebraic(&self) -> (r: String)
        requires
            self.wf(),
        ensures
            r@ == spec_square_name(*self),
    {
        // 97 is the code of 'a', 49 that of '1'
        let mut chars: Vec<char> = Vec::new();
        chars.push(((97u8 + self.file as u8) as char));
        chars.push(((49u8 + self.rank as u8) as char));
        string_from_chars(&chars)
    }
}

/// The glyphs of row `file`, by column, followed by a line break.
pub open spec fn spec_row_text(b: Board, file: int) -> Seq<char> {
    Seq::new(BOARD_SIZE as nat, |rank: int| spec_algebraic(b.piece_at(file, rank))) + seq!['\n']
}

/// The first `n` rows of the board text, from the last row down.
pub open spec fn spec_rows_text(b: Board, n: int) -> Seq<char>
    decreases n,
{
    if n <= 0 {
        seq![]
    } else {
        spec_rows_text(b, n - 1) + spec_row_text(b, BOARD_SIZE - n)
    }
}

/// The first line of the rendering: the side to move.
pub open spec fn spec_player_line(p: Player) -> Seq<char> {
    match p {
        Player::White => "Current Player: White\n"@,
        Player::Black => "Current Player: Black\n"@,
    }
}

impl Board {
    /// A rendering of the position: a line naming the side to move, then one line per
    /// row from the last to the first, each the algebraic letters of its squares by column
    /// (`-` for an empty square).
    pub fn render(&self) -> (r: String)
        requires
            self.wf(),
        ensures
            r@ == spec_player_line(self.player) + spec_rows_text(*self, BOARD_SIZE as int),
    {
        let mut chars: Vec<char> = Vec::new();
        let mut n: usize = 0;
        while n < BOARD_SIZE
            invariant
                n <= BOARD_SIZE,
                self.wf(),
                chars@ == spec_rows_text(*self, n as int),
            decreases BOARD_SIZE - n,
        {
            let file = BOARD_SIZE - 1 - n;
            let ghost start = chars@;
            let mut rank: usize = 0;
            while rank < BOARD_SIZE
                invariant
                    rank <= BOARD_SIZE,
                    file < BOARD_SIZE,
                    self.wf(),
                    chars@ == start + Seq::new(
                        rank as nat,
                        |k: int| spec_algebraic(self.piece_at(file as int, k)),
                    ),
                decreases BOARD_SIZE - rank,
            {
                let glyph = self.get_piece(TilePos::new(file, rank)).to_algebraic();
                chars.push(glyph);
                proof {
                    assert(chars@ =~= start + Seq::new(
                        (rank + 1) as nat,
                        |k: int| spec_algebraic(self.piece_at(file as int, k)),
                    ));
                }
                rank = rank + 1;
            }
            chars.push('\n');
            proof {
                assert(chars@ =~= spec_rows_text(*self, n + 1));
            }
            n = n + 1;
        }
        let mut text = match self.player {
            Player::White => String::from_str("Current Player: White\n"),
            Player::Black => String::from_str("Current Player: Black\n"),
        };
        let rows = string_from_chars(&chars);
        text.append(rows.as_str());
        text
    }
}

/// The message of a parse error: the description that was read, then the offending
/// text and what was wrong with it.
pub open spec fn spec_fen_message(e: FenError, fen: Seq<char>) -> Seq<char> {
    let head = "Could not create board using FEN string "@ + fen + ":\n"@;
    match e {
        FenError::InvalidPiece(c) => head + seq![c] + " is not algebraic notation for any piece"@,
        FenError::PieceOffBoard(c) => head + seq![c] + " would be placed off the board"@,
        FenError::InvalidPlayer(c) => head + seq![c] + " is not a valid player"@,
        FenError::InvalidCastling(c) => head + seq![c]
            + " does not provide valid castling rights information"@,
        FenError::InvalidEnPassant(c, next) => head + (match next {
            Some(d) => seq![c, d],
            None => seq![c],
        }) + " is not a valid en passant square"@,
    }
}

impl FenError {
    /// A readable account of this error for the description `fen`.
    pub fn message(&self, fen: &str) -> (r: String)
        ensures
            r@ == spec_fen_message(*self, fen@),
    {
        let mut text = String::from_str("Could not create board using FEN string ");
        text.append(fen);
        text.append(":\n");
        let mut token: Vec<char> = Vec::new();
        match self {
            FenError::InvalidEnPassant(c, next) => {
                token.push(*c);
                if let Some(d) = next {
                    token.push(*d);
                }
            },
            FenError::InvalidPiece(c) | FenError::PieceOffBoard(c) | FenError::InvalidPlayer(c)
            | FenError::InvalidCastling(c) => {
                token.push(*c);
            },
        }
        let token_text = string_from_chars(&token);
        text.append(token_text.as_str());
        match self {
            FenError::InvalidPiece(_) => text.append(" is not algebraic notation for any piece"),
            FenError::PieceOffBoard(_) => text.append(" would be placed off the board"),
            FenError::InvalidPlayer(_) => text.append(" is not a valid player"),
            FenError::InvalidCastling(_) => text.append(
                " does not provide valid castling rights information",
            ),
            FenError::InvalidEnPassant(_, _) => text.append(" is not a valid en passant square"),
        }
        proof {
            assert(token@ =~= (match *self {
                FenError::InvalidEnPassant(c, next) => match next {
                    Some(d) => seq![c, d],
                    None => seq![c],
                },
                FenError::InvalidPiece(c) => seq![c],
                FenError::PieceOffBoard(c) => seq![c],
                FenError::InvalidPlayer(c) => seq![c],
                FenError::InvalidCastling(c) => seq![c],
            }));
        }
        text
    }
}

} // verus!
