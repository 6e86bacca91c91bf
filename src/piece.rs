use vstd::prelude::*;

use crate::board::TilePos;

verus! {

/// Number of distinct piece types per colour.
pub const PIECE_AMT: usize = 6;

/// Number of colours (players).
pub const COLOUR_AMT: usize = 2;

/// A move of the piece on `from` to `to`.
#[derive(Clone, Copy, Debug, PartialEq, Eq, Structural)]
pub struct PieceMove {
    pub from: TilePos,
    pub to: TilePos,
}

/// One of the two players.
#[derive(Clone, Copy, Debug, PartialEq, Eq, Structural)]
pub enum Player {
    White,
    Black,
}

impl Player {
    /// The other player.
    pub open spec fn spec_opponent(self) -> Player {
        match self {
            Player::White => Player::Black,
            Player::Black => Player::White,
        }
    }

    /// The other player.
    pub fn opponent(self) -> (r: Player)
        ensures
            r == self.spec_opponent(),
            r != self,
    {
        match self {
            Player::White => Player::Black,
            Player::Black => Player::White,
        }
    }
}

/// The content of a square: no piece, or one of six piece types in one of two colours.
#[derive(Clone, Copy, Debug, PartialEq, Eq, Structural)]
pub enum Piece {
    Empty,
    WQueen,
    WKing,
    WRook,
    WKnight,
    WBishop,
    WPawn,
    BQueen,
    BKing,
    BRook,
    BKnight,
    BBishop,
    BPawn,
}

/// Packed numeric encoding of a piece: the piece type in the low three bits
/// (1 to 6) and the colour in bit 3 (set for black); `None` is 0.
pub open spec fn spec_code(p: Piece) -> u8 {
    match p {
        Piece::Empty => 0,
        Piece::WQueen => 1,
        Piece::WKing => 2,
        Piece::WRook => 3,
        Piece::WKnight => 4,
        Piece::WBishop => 5,
        Piece::WPawn => 6,
        Piece::BQueen => 9,
        Piece::BKing => 10,
        Piece::BRook => 11,
        Piece::BKnight => 12,
        Piece::BBishop => 13,
        Piece::BPawn => 14,
    }
}

/// Index of a non-empty piece among the twelve occupancy sets:
/// white queen, king, rook, knight, bishop, pawn, then the same for black.
pub open spec fn spec_index(p: Piece) -> int {
    match p {
        Piece::Empty => -1,
        Piece::WQueen => 0,
        Piece::WKing => 1,
        Piece::WRook => 2,
        Piece::WKnight => 3,
        Piece::WBishop => 4,
        Piece::WPawn => 5,
        Piece::BQueen => 6,
        Piece::BKing => 7,
        Piece::BRook => 8,
        Piece::BKnight => 9,
        Piece::BBishop => 10,
        Piece::BPawn => 11,
    }
}

/// The non-empty piece stored in occupancy set `i`, `None` outside `0..12`.
pub open spec fn spec_piece_of_index(i: int) -> Piece {
    if i == 0 {
        Piece::WQueen
    } else if i == 1 {
        Piece::WKing
    } else if i == 2 {
        Piece::WRook
    } else if i == 3 {
        Piece::WKnight
    } else if i == 4 {
        Piece::WBishop
    } else if i == 5 {
        Piece::WPawn
    } else if i == 6 {
        Piece::BQueen
    } else if i == 7 {
        Piece::BKing
    } else if i == 8 {
        Piece::BRook
    } else if i == 9 {
        Piece::BKnight
    } else if i == 10 {
        Piece::BBishop
    } else if i == 11 {
        Piece::BPawn
    } else {
        Piece::Empty
    }
}

/// A non-empty piece has an index in `0..12`, and that index leads back to it.
pub proof fn lemma_index_round_trip(p: Piece)
    requires
        p != Piece::Empty,
    ensures
        0 <= spec_index(p) < 12,
        spec_piece_of_index(spec_index(p)) == p,
{
}

/// The player owning a piece; `None` for an empty square.
pub open spec fn spec_player(p: Piece) -> Option<Player> {
    match p {
        Piece::Empty => Option::None,
        Piece::WQueen | Piece::WKing | Piece::WRook | Piece::WKnight | Piece::WBishop
        | Piece::WPawn => Option::Some(Player::White),
        _ => Option::Some(Player::Black),
    }
}

/// The algebraic letter of a piece: upper case for white, lower case for black, `-` for none.
pub open spec fn spec_algebraic(p: Piece) -> char {
    match p {
        Piece::Empty => '-',
        Piece::WPawn => 'P',
        Piece::WKnight => 'N',
        Piece::WBishop => 'B',
        Piece::WRook => 'R',
        Piece::WQueen => 'Q',
        Piece::WKing => 'K',
        Piece::BPawn => 'p',
        Piece::BKnight => 'n',
        Piece::BBishop => 'b',
        Piece::BRook => 'r',
        Piece::BQueen => 'q',
        Piece::BKing => 'k',
    }
}

/// The piece whose algebraic letter is `c`, if any.
pub open spec fn spec_from_algebraic(c: char) -> Option<Piece> {
    if c == '-' {
        Option::Some(Piece::Empty)
    } else if c == 'P' {
        Option::Some(Piece::WPawn)
    } else if c == 'N' {
        Option::Some(Piece::WKnight)
    } else if c == 'B' {
        Option::Some(Piece::WBishop)
    } else if c == 'R' {
        Option::Some(Piece::WRook)
    } else if c == 'Q' {
        Option::Some(Piece::WQueen)
    } else if c == 'K' {
        Option::Some(Piece::WKing)
    } else if c == 'p' {
        Option::Some(Piece::BPawn)
    } else if c == 'n' {
        Option::Some(Piece::BKnight)
    } else if c == 'b' {
        Option::Some(Piece::BBishop)
    } else if c == 'r' {
        Option::Some(Piece::BRook)
    } else if c == 'q' {
        Option::Some(Piece::BQueen)
    } else if c == 'k' {
        Option::Some(Piece::BKing)
    } else {
        Option::None
    }
}

impl Piece {
    /// The packed encoding (see `spec_code`).
    pub fn code(self) -> (r: u8)
        ensures
            r == spec_code(self),
    {
        match self {
            Piece::Empty => 0,
            Piece::WQueen => 1,
            Piece::WKing => 2,
            Piece::WRook => 3,
            Piece::WKnight => 4,
            Piece::WBishop => 5,
            Piece::WPawn => 6,
            Piece::BQueen => 9,
            Piece::BKing => 10,
            Piece::BRook => 11,
            Piece::BKnight => 12,
            Piece::BBishop => 13,
            Piece::BPawn => 14,
        }
    }

    /// Whether this is a white piece: the colour bit of the code is clear and
    /// the square is not empty.
    pub fn is_white(self) -> (r: bool)
        ensures
            r == (spec_player(self) == Option::Some(Player::White)),
    {
        let c = self.code();
        let bit = (c >> 3u8) & 1u8;
        assert(bit == 0 <==> (c == 0 || (1 <= c <= 6))) by (bit_vector)
            requires
                bit == (c >> 3u8) & 1u8,
                c <= 6 || 9 <= c <= 14,
        ;
        bit == 0 && self != Piece::Empty
    }

    /// Whether this is a black piece: the colour bit of the code is set.
    pub fn is_black(self) -> (r: bool)
        ensures
            r == (spec_player(self) == Option::Some(Player::Black)),
    {
        let c = self.code();
        let bit = (c >> 3u8) & 1u8;
        assert(bit == 1 <==> 9 <= c <= 14) by (bit_vector)
            requires
                bit == (c >> 3u8) & 1u8,
                c <= 6 || 9 <= c <= 14,
        ;
        bit == 1
    }

    /// The player owning this piece, `None` for an empty square.
    pub fn to_player(self) -> (r: Option<Player>)
        ensures
            r == spec_player(self),
    {
        if self.is_white() {
            Some(Player::White)
        } else if self.is_black() {
            Some(Player::Black)
        } else {
            None
        }
    }

    /// The algebraic letter of this piece.
    pub fn to_algebraic(&self) -> (r: char)
        ensures
            r == spec_algebraic(*self),
    {
        match self {
            Piece::Empty => '-',
            Piece::WPawn => 'P',
            Piece::WKnight => 'N',
            Piece::WBishop => 'B',
            Piece::WRook => 'R',
            Piece::WQueen => 'Q',
            Piece::WKing => 'K',
            Piece::BPawn => 'p',
            Piece::BKnight => 'n',
            Piece::BBishop => 'b',
            Piece::BRook => 'r',
            Piece::BQueen => 'q',
            Piece::BKing => 'k',
        }
    }

    /// The piece whose algebraic letter is `chr`; `None` for any other character.
    pub fn from_algebraic(chr: char) -> (r: Option<Self>)
        ensures
            r == spec_from_algebraic(chr),
            r matches Option::Some(p) ==> spec_algebraic(p) == chr,
    {
        match chr {
            '-' => Some(Piece::Empty),
            'P' => Some(Piece::WPawn),
            'N' => Some(Piece::WKnight),
            'B' => Some(Piece::WBishop),
            'R' => Some(Piece::WRook),
            'Q' => Some(Piece::WQueen),
            'K' => Some(Piece::WKing),
            'p' => Some(Piece::BPawn),
            'n' => Some(Piece::BKnight),
            'b' => Some(Piece::BBishop),
            'r' => Some(Piece::BRook),
            'q' => Some(Piece::BQueen),
            'k' => Some(Piece::BKing),
            _ => None,
        }
    }
}

impl From<Piece> for usize {
    /// The occupancy-set index of a non-empty piece; 12, one past the last set, for `Empty`.
    fn from(value: Piece) -> (r: usize)
        ensures
            r as int == (if value == Piece::Empty { 12 } else { spec_index(value) }),
    {
        if value == Piece::Empty {
            return 12;
        }
        let c = value.code() as usize;
        let black: usize = if value.is_black() { 1 } else { 0 };
        c - 1 - 2 * black
    }
}

impl vstd::std_specs::convert::FromSpecImpl<Piece> for usize {
    open spec fn obeys_from_spec() -> bool {
        true
    }

    open spec fn from_spec(v: Piece) -> usize {
        if v == Piece::Empty {
            12
        } else {
            spec_index(v) as usize
        }
    }
}

impl From<usize> for Piece {
    /// The piece of occupancy set `value`; `Empty` for an index past the last set.
    fn from(value: usize) -> (r: Piece)
        ensures
            r == spec_piece_of_index(value as int),
    {
        match value {
            0 => Piece::WQueen,
            1 => Piece::WKing,
            2 => Piece::WRook,
            3 => Piece::WKnight,
            4 => Piece::WBishop,
            5 => Piece::WPawn,
            6 => Piece::BQueen,
            7 => Piece::BKing,
            8 => Piece::BRook,
            9 => Piece::BKnight,
            10 => Piece::BBishop,
            11 => Piece::BPawn,
            _ => Piece::Empty,
        }
    }
}

impl vstd::std_specs::convert::FromSpecImpl<usize> for Piece {
    open spec fn obeys_from_spec() -> bool {
        true
    }

    open spec fn from_spec(v: usize) -> Piece {
        spec_piece_of_index(v as int)
    }
}

} // verus!
