use chess_core::board::{Board, TilePos};
use chess_core::fen::FenError;
use chess_core::piece::{Piece, Player};

const START: &str = "rnbqkbnr/pppppppp/8/8/8/8/PPPPPPPP/RNBQKBNR w KQkq - 0 1";

fn at(board: &Board, file: usize, rank: usize) -> Piece {
    board.get_piece(TilePos::new(file, rank))
}

#[test]
fn standard_description_gives_starting_position() {
    let board = Board::from_fen(START).unwrap();
    let white = [
        Piece::WRook,
        Piece::WKnight,
        Piece::WBishop,
        Piece::WQueen,
        Piece::WKing,
        Piece::WBishop,
        Piece::WKnight,
        Piece::WRook,
    ];
    let black = [
        Piece::BRook,
        Piece::BKnight,
        Piece::BBishop,
        Piece::BQueen,
        Piece::BKing,
        Piece::BBishop,
        Piece::BKnight,
        Piece::BRook,
    ];
    for rank in 0..8 {
        assert_eq!(at(&board, 0, rank), white[rank]);
        assert_eq!(at(&board, 1, rank), Piece::WPawn);
        for file in 2..6 {
            assert_eq!(at(&board, file, rank), Piece::Empty);
        }
        assert_eq!(at(&board, 6, rank), Piece::BPawn);
        assert_eq!(at(&board, 7, rank), black[rank]);
    }
    assert_eq!(board.get_player(), Player::White);
    assert_eq!(board.castling_rights(Player::White), (true, true));
    assert_eq!(board.castling_rights(Player::Black), (true, true));
    assert_eq!(board.en_passant_on_last_move, None);
    assert_eq!(board.half_move_counter, 0);
    assert_eq!(board.full_move_counter, 1);
    assert!(board.move_history.is_empty());
}

#[test]
fn default_board_matches_standard_description() {
    let parsed = Board::from_fen(START).unwrap();
    let default = Board::default();
    for file in 0..8 {
        for rank in 0..8 {
            assert_eq!(at(&parsed, file, rank), at(&default, file, rank));
        }
    }
    assert_eq!(default.get_player(), parsed.get_player());
    assert_eq!(default.castling_rights(Player::White), (true, true));
    assert_eq!(default.castling_rights(Player::Black), (true, true));
    assert_eq!(default.en_passant_on_last_move, None);
    assert_eq!(default.half_move_counter, 0);
    assert_eq!(default.full_move_counter, 1);
}

#[test]
fn clocks_are_not_read() {
    let board = Board::from_fen("8/8/8/8/8/8/8/8 b - - 17 42").unwrap();
    assert_eq!(board.half_move_counter, 0);
    assert_eq!(board.full_move_counter, 1);
    assert_eq!(board.get_player(), Player::Black);
}

#[test]
fn invalid_piece_letter_is_rejected() {
    let fen = "rnbqkbnr/ppppxppp/8/8/8/8/PPPPPPPP/RNBQKBNR w KQkq - 0 1";
    assert_eq!(Board::from_fen(fen).unwrap_err(), FenError::InvalidPiece('x'));
    let message = FenError::InvalidPiece('x').message(fen);
    assert!(message.contains("x is not algebraic notation for any piece"));
}

#[test]
fn dash_is_not_a_placement_letter() {
    assert_eq!(
        Board::from_fen("8/8/8/8/8/8/8/-7 w - -").unwrap_err(),
        FenError::InvalidPiece('-')
    );
}

#[test]
fn piece_past_the_board_is_rejected() {
    assert_eq!(
        Board::from_fen("8/8/8/8/8/8/8/8/P w - -").unwrap_err(),
        FenError::PieceOffBoard('P')
    );
    assert_eq!(Board::from_fen("8P w - -").unwrap_err(), FenError::PieceOffBoard('P'));
}

#[test]
fn invalid_player_is_rejected() {
    assert_eq!(
        Board::from_fen("8/8/8/8/8/8/8/8 x - -").unwrap_err(),
        FenError::InvalidPlayer('x')
    );
}

#[test]
fn invalid_castling_is_rejected() {
    assert_eq!(
        Board::from_fen("8/8/8/8/8/8/8/8 w KQz -").unwrap_err(),
        FenError::InvalidCastling('z')
    );
}

#[test]
fn castling_rights_are_read_one_by_one() {
    let board = Board::from_fen("8/8/8/8/8/8/8/8 w Kq -").unwrap();
    assert_eq!(board.castling_rights(Player::White), (true, false));
    assert_eq!(board.castling_rights(Player::Black), (false, true));
    let cleared = Board::from_fen("8/8/8/8/8/8/8/8 w KQ- -").unwrap();
    assert_eq!(cleared.castling_rights(Player::White), (false, false));
}

#[test]
fn en_passant_target_is_read() {
    let board = Board::from_fen("8/8/8/8/8/8/8/8 w - e3 0 1").unwrap();
    assert_eq!(board.en_passant_on_last_move, Some(TilePos::new(4, 3)));
}

#[test]
fn invalid_en_passant_is_rejected() {
    assert_eq!(
        Board::from_fen("8/8/8/8/8/8/8/8 w - z3").unwrap_err(),
        FenError::InvalidEnPassant('z', Some('3'))
    );
    assert_eq!(
        Board::from_fen("8/8/8/8/8/8/8/8 w - e9").unwrap_err(),
        FenError::InvalidEnPassant('e', Some('9'))
    );
    assert_eq!(
        Board::from_fen("8/8/8/8/8/8/8/8 w - e").unwrap_err(),
        FenError::InvalidEnPassant('e', None)
    );
}

#[test]
fn placement_rows_run_from_last_to_first() {
    let board = Board::from_fen("k7/8/8/8/8/8/8/3Q4 w - -").unwrap();
    assert_eq!(at(&board, 7, 0), Piece::BKing);
    assert_eq!(at(&board, 0, 3), Piece::WQueen);
    assert_eq!(at(&board, 0, 4), Piece::Empty);
}

#[test]
fn error_messages_name_the_offending_text() {
    assert_eq!(
        FenError::InvalidPlayer('x').message("8 x"),
        "Could not create board using FEN string 8 x:\nx is not a valid player"
    );
    assert_eq!(
        FenError::InvalidEnPassant('z', Some('3')).message("f"),
        "Could not create board using FEN string f:\nz3 is not a valid en passant square"
    );
    assert_eq!(
        FenError::InvalidCastling('z').message("f"),
        "Could not create board using FEN string f:\nz does not provide valid castling rights information"
    );
    assert_eq!(
        FenError::PieceOffBoard('P').message("f"),
        "Could not create board using FEN string f:\nP would be placed off the board"
    );
}
