use chess_core::board::{Board, TilePos};
use chess_core::piece::{Piece, PieceMove, Player};

const ALL: [Piece; 12] = [
    Piece::WQueen,
    Piece::WKing,
    Piece::WRook,
    Piece::WKnight,
    Piece::WBishop,
    Piece::WPawn,
    Piece::BQueen,
    Piece::BKing,
    Piece::BRook,
    Piece::BKnight,
    Piece::BBishop,
    Piece::BPawn,
];

#[test]
fn set_then_get_returns_the_piece() {
    let mut board = Board::default();
    for file in 0..8 {
        for rank in 0..8 {
            for kind in ALL {
                let pos = TilePos::new(file, rank);
                board.set_piece(pos, kind);
                assert_eq!(board.get_piece(pos), kind);
                let sq = file * 8 + rank;
                for k in 0..12 {
                    assert_eq!(board.positions.get_bit(k, sq), ALL[k] == kind);
                }
            }
        }
    }
}

#[test]
fn setting_empty_clears_every_set() {
    let mut board = Board::default();
    let pos = TilePos::new(0, 4);
    board.set_piece(pos, Piece::Empty);
    assert_eq!(board.get_piece(pos), Piece::Empty);
    for k in 0..12 {
        assert!(!board.positions.get_bit(k, 4));
    }
}

#[test]
fn move_relocates_and_captures() {
    let mut board = Board::default();
    let from = TilePos::new(1, 4);
    let to = TilePos::new(6, 3);
    board.move_piece(PieceMove { from, to });
    assert_eq!(board.get_piece(to), Piece::WPawn);
    assert_eq!(board.get_piece(from), Piece::Empty);
    assert_eq!(board.get_player(), Player::White);
    assert!(board.move_history.is_empty());
}

#[test]
fn turns_alternate() {
    let mut board = Board::default();
    assert_eq!(board.get_next_player(), Player::Black);
    board.next_player();
    assert_eq!(board.get_player(), Player::Black);
    assert_eq!(board.get_next_player(), Player::White);
    board.next_player();
    assert_eq!(board.get_player(), Player::White);
    assert_eq!(Player::White.opponent(), Player::Black);
}

#[test]
fn square_names() {
    assert_eq!(TilePos::new(4, 3).to_algebraic(), "e4");
    assert_eq!(TilePos::new(0, 0).to_algebraic(), "a1");
    assert_eq!(TilePos::new(7, 7).to_algebraic(), "h8");
}

#[test]
fn piece_codes_and_colours() {
    assert_eq!(Piece::WPawn.code(), 6);
    assert_eq!(Piece::BQueen.code(), 9);
    assert_eq!(Piece::Empty.code(), 0);
    assert!(Piece::WKing.is_white());
    assert!(!Piece::WKing.is_black());
    assert!(Piece::BKnight.is_black());
    assert!(!Piece::Empty.is_white());
    assert!(!Piece::Empty.is_black());
    assert_eq!(Piece::Empty.to_player(), None);
    assert_eq!(Piece::BRook.to_player(), Some(Player::Black));
}

#[test]
fn piece_letters_round_trip() {
    for kind in ALL {
        assert_eq!(Piece::from_algebraic(kind.to_algebraic()), Some(kind));
    }
    assert_eq!(Piece::WKnight.to_algebraic(), 'N');
    assert_eq!(Piece::BBishop.to_algebraic(), 'b');
    assert_eq!(Piece::from_algebraic('-'), Some(Piece::Empty));
    assert_eq!(Piece::from_algebraic('x'), None);
}

#[test]
fn piece_indices() {
    for (i, kind) in ALL.iter().enumerate() {
        assert_eq!(usize::from(*kind), i);
        assert_eq!(Piece::from(i), *kind);
    }
    assert_eq!(usize::from(Piece::Empty), 12);
    assert_eq!(Piece::from(12usize), Piece::Empty);
}

#[test]
fn render_shows_player_and_rows() {
    let board = Board::default();
    assert_eq!(
        board.render(),
        "Current Player: White\nrnbqkbnr\npppppppp\n--------\n--------\n--------\n--------\nPPPPPPPP\nRNBQKBNR\n"
    );
    let mut black = Board::empty();
    black.next_player();
    black.set_piece(TilePos::new(0, 0), Piece::BKing);
    assert_eq!(
        black.render(),
        "Current Player: Black\n--------\n--------\n--------\n--------\n--------\n--------\n--------\nk-------\n"
    );
}
