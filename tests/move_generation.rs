use chess_core::board::{Board, TilePos};
use chess_core::piece::Piece;

fn t(file: usize, rank: usize) -> TilePos {
    TilePos::new(file, rank)
}

fn sorted(mut v: Vec<TilePos>) -> Vec<(usize, usize)> {
    let mut out: Vec<(usize, usize)> = v.drain(..).map(|p| (p.file, p.rank)).collect();
    out.sort();
    out
}

fn board_with(pieces: &[(usize, usize, Piece)]) -> Board {
    let mut board = Board::empty();
    for &(file, rank, piece) in pieces {
        board.set_piece(t(file, rank), piece);
    }
    board
}

#[test]
fn rook_on_empty_board_reaches_the_edges() {
    let board = board_with(&[(3, 3, Piece::WRook)]);
    let moves = board.get_orthogonal_moves(t(3, 3));
    assert_eq!(moves.len(), 14);
    assert_eq!(
        moves,
        vec![
            t(4, 3),
            t(5, 3),
            t(6, 3),
            t(7, 3),
            t(3, 4),
            t(3, 5),
            t(3, 6),
            t(3, 7),
            t(2, 3),
            t(1, 3),
            t(0, 3),
            t(3, 2),
            t(3, 1),
            t(3, 0),
        ]
    );
}

#[test]
fn opposing_piece_ends_ray_on_its_square() {
    let board = board_with(&[(3, 3, Piece::WRook), (5, 3, Piece::BPawn)]);
    let moves = board.get_orthogonal_moves(t(3, 3));
    assert!(moves.contains(&t(4, 3)));
    assert!(moves.contains(&t(5, 3)));
    assert!(!moves.contains(&t(6, 3)));
    assert!(!moves.contains(&t(7, 3)));
    assert_eq!(moves.len(), 12);
}

#[test]
fn own_piece_ends_ray_before_its_square() {
    let board = board_with(&[(3, 3, Piece::WRook), (5, 3, Piece::WPawn)]);
    let moves = board.get_orthogonal_moves(t(3, 3));
    assert!(moves.contains(&t(4, 3)));
    assert!(!moves.contains(&t(5, 3)));
    assert!(!moves.contains(&t(6, 3)));
    assert_eq!(moves.len(), 11);
}

#[test]
fn bishop_on_empty_board() {
    let board = board_with(&[(3, 3, Piece::BBishop)]);
    let moves = board.get_diagonal_moves(t(3, 3));
    assert_eq!(moves.len(), 13);
    assert_eq!(&moves[0..4], &[t(4, 4), t(5, 5), t(6, 6), t(7, 7)]);
    assert!(moves.contains(&t(0, 0)));
    assert!(moves.contains(&t(6, 0)));
    assert!(moves.contains(&t(0, 6)));
}

#[test]
fn queen_combines_both_patterns() {
    let board = board_with(&[(3, 3, Piece::WQueen)]);
    let moves = board.get_ortho_diagonal_moves(t(3, 3));
    assert_eq!(moves.len(), 27);
    let mut expected = board.get_orthogonal_moves(t(3, 3));
    expected.extend(board.get_diagonal_moves(t(3, 3)));
    assert_eq!(moves, expected);
}

#[test]
fn knight_from_centre_and_corner() {
    let board = board_with(&[(3, 3, Piece::WKnight)]);
    let moves = board.get_knight_moves(t(3, 3));
    assert_eq!(moves.len(), 8);
    assert_eq!(
        sorted(moves),
        vec![(1, 2), (1, 4), (2, 1), (2, 5), (4, 1), (4, 5), (5, 2), (5, 4)]
    );
    let corner = board_with(&[(0, 0, Piece::WKnight)]);
    let moves = corner.get_knight_moves(t(0, 0));
    assert_eq!(sorted(moves), vec![(1, 2), (2, 1)]);
}

#[test]
fn knight_skips_own_pieces_and_takes_others() {
    let board = board_with(&[(3, 3, Piece::WKnight), (5, 4, Piece::WPawn), (1, 2, Piece::BPawn)]);
    let moves = board.get_knight_moves(t(3, 3));
    assert_eq!(moves.len(), 7);
    assert!(!moves.contains(&t(5, 4)));
    assert!(moves.contains(&t(1, 2)));
}

#[test]
fn king_from_centre() {
    let board = board_with(&[(4, 4, Piece::BKing)]);
    let moves = board.get_king_moves(t(4, 4));
    assert_eq!(moves.len(), 8);
    assert_eq!(
        sorted(moves),
        vec![(3, 3), (3, 4), (3, 5), (4, 3), (4, 5), (5, 3), (5, 4), (5, 5)]
    );
}

#[test]
fn king_excludes_own_and_includes_opposing_neighbours() {
    let board = board_with(&[
        (4, 4, Piece::WKing),
        (5, 5, Piece::WPawn),
        (3, 3, Piece::BPawn),
    ]);
    let moves = board.get_king_moves(t(4, 4));
    assert_eq!(moves.len(), 7);
    assert!(!moves.contains(&t(5, 5)));
    assert!(moves.contains(&t(3, 3)));
}

#[test]
fn king_in_corner() {
    let board = board_with(&[(0, 0, Piece::WKing)]);
    assert_eq!(sorted(board.get_king_moves(t(0, 0))), vec![(0, 1), (1, 0), (1, 1)]);
}

#[test]
fn white_pawn_double_step_from_start() {
    let board = board_with(&[(1, 4, Piece::WPawn)]);
    assert_eq!(board.get_pawn_moves(t(1, 4)), vec![t(2, 4), t(3, 4)]);
}

#[test]
fn black_pawn_double_step_from_start() {
    let board = board_with(&[(6, 2, Piece::BPawn)]);
    assert_eq!(board.get_pawn_moves(t(6, 2)), vec![t(5, 2), t(4, 2)]);
}

#[test]
fn no_double_step_off_the_starting_file() {
    let board = board_with(&[(2, 4, Piece::WPawn), (5, 4, Piece::BPawn)]);
    assert_eq!(board.get_pawn_moves(t(2, 4)), vec![t(3, 4)]);
    assert_eq!(board.get_pawn_moves(t(5, 4)), vec![t(4, 4)]);
}

#[test]
fn no_double_step_onto_an_occupied_square() {
    let board = board_with(&[(1, 4, Piece::WPawn), (3, 4, Piece::BKnight)]);
    assert_eq!(board.get_pawn_moves(t(1, 4)), vec![t(2, 4)]);
}

#[test]
fn no_double_step_over_a_piece() {
    let board = board_with(&[(1, 4, Piece::WPawn), (2, 4, Piece::BKnight)]);
    assert!(board.get_pawn_moves(t(1, 4)).is_empty());
    let board = board_with(&[(6, 2, Piece::BPawn), (5, 2, Piece::WKnight)]);
    assert!(board.get_pawn_moves(t(6, 2)).is_empty());
    let parsed = Board::from_fen("8/8/8/8/8/4n3/4P3/8 w - -").unwrap();
    assert!(parsed.get_pawn_moves(t(1, 4)).is_empty());
}

#[test]
fn pawn_blocked_in_front() {
    let board = board_with(&[(1, 4, Piece::WPawn), (2, 4, Piece::BKnight), (3, 4, Piece::BKnight)]);
    assert!(board.get_pawn_moves(t(1, 4)).is_empty());
}

#[test]
fn pawn_captures_diagonally_only_opponents() {
    let board = board_with(&[
        (3, 3, Piece::WPawn),
        (4, 2, Piece::BRook),
        (4, 4, Piece::WRook),
    ]);
    assert_eq!(board.get_pawn_moves(t(3, 3)), vec![t(4, 3), t(4, 2)]);
}

#[test]
fn pawn_captures_at_board_edges() {
    let board = board_with(&[(3, 0, Piece::WPawn), (4, 1, Piece::BRook)]);
    assert_eq!(board.get_pawn_moves(t(3, 0)), vec![t(4, 0), t(4, 1)]);
    let board = board_with(&[(4, 7, Piece::BPawn), (3, 6, Piece::WRook)]);
    assert_eq!(board.get_pawn_moves(t(4, 7)), vec![t(3, 7), t(3, 6)]);
}

#[test]
fn pawn_on_last_row_has_no_forward_step() {
    let board = board_with(&[(7, 3, Piece::WPawn)]);
    assert!(board.get_pawn_moves(t(7, 3)).is_empty());
    let board = board_with(&[(0, 3, Piece::BPawn)]);
    assert!(board.get_pawn_moves(t(0, 3)).is_empty());
}

#[test]
fn en_passant_target_one_file_aside() {
    let mut board = board_with(&[(4, 3, Piece::WPawn)]);
    board.en_passant_on_last_move = Some(t(5, 4));
    assert!(board.get_pawn_moves(t(4, 3)).contains(&t(5, 4)));
    board.en_passant_on_last_move = Some(t(3, 4));
    assert!(board.get_pawn_moves(t(4, 3)).contains(&t(3, 4)));
}

#[test]
fn en_passant_target_two_files_aside() {
    let mut board = board_with(&[(4, 3, Piece::WPawn)]);
    board.en_passant_on_last_move = Some(t(6, 4));
    assert!(!board.get_pawn_moves(t(4, 3)).contains(&t(6, 4)));
    board.en_passant_on_last_move = Some(t(2, 4));
    assert!(!board.get_pawn_moves(t(4, 3)).contains(&t(2, 4)));
}

#[test]
fn en_passant_for_black_pawn() {
    let mut board = board_with(&[(3, 5, Piece::BPawn)]);
    board.en_passant_on_last_move = Some(t(2, 4));
    assert_eq!(board.get_pawn_moves(t(3, 5)), vec![t(2, 5), t(2, 4)]);
}

#[test]
fn pawn_helpers() {
    assert!(Board::double_pawn_move_check(Piece::WPawn, t(1, 0)));
    assert!(!Board::double_pawn_move_check(Piece::WPawn, t(6, 0)));
    assert!(Board::double_pawn_move_check(Piece::BPawn, t(6, 0)));
    assert!(!Board::double_pawn_move_check(Piece::Empty, t(1, 0)));
    assert_eq!(Board::get_vertical_dir(Piece::WPawn), 1);
    assert_eq!(Board::get_vertical_dir(Piece::BPawn), -1);
}
