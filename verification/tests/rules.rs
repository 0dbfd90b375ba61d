use chess_engine::{Game, IllegalMove, Pieces};

fn fresh_game() -> Game {
    let mut g = Game::new();
    g.init();
    g
}

fn board_index(r: usize, c: usize) -> usize {
    r * 8 + c
}

fn snapshot(g: &Game) -> (Vec<Pieces>, bool, bool, bool, bool, char, bool, Option<(usize, usize)>, usize, usize) {
    (
        g.board.clone(),
        g.castle_wk,
        g.castle_wq,
        g.castle_bk,
        g.castle_bq,
        g.promotion,
        g.turn,
        g.en_passant,
        g.turn_count,
        g.counter,
    )
}

#[test]
fn opening_pawn_moves() {
    let mut g = fresh_game();
    assert!(g.move_piece((1, 4), (3, 4)).is_ok());
    assert_eq!(g.board[board_index(3, 4)], Pieces::Pawn(true));
    assert_eq!(g.board[board_index(1, 4)], Pieces::Empty);
    assert!(!g.turn);
    assert_eq!(g.en_passant, Some((3, 4)));
    assert!(g.move_piece((6, 4), (4, 4)).is_ok());
    assert_eq!(g.en_passant, Some((4, 4)));
}

#[test]
fn error_empty_source() {
    let mut g = fresh_game();
    assert_eq!(g.move_piece((3, 3), (4, 3)), Err(IllegalMove::EmptySource));
}

#[test]
fn error_wrong_turn() {
    let mut g = fresh_game();
    assert_eq!(g.move_piece((6, 4), (4, 4)), Err(IllegalMove::WrongTurn));
}

#[test]
fn error_same_color_capture() {
    let mut g = fresh_game();
    // the king's knight may not land on its own e2 pawn
    assert_eq!(g.move_piece((0, 6), (1, 4)), Err(IllegalMove::SameColorCapture));
}

#[test]
fn error_shape_illegal() {
    let mut g = fresh_game();
    assert_eq!(g.move_piece((1, 4), (4, 4)), Err(IllegalMove::ShapeIllegal));
}

#[test]
fn error_exposes_own_king() {
    let mut g = Game::new();
    g.board[board_index(0, 4)] = Pieces::King(true);
    g.board[board_index(1, 4)] = Pieces::Rook(true);
    g.board[board_index(7, 4)] = Pieces::Rook(false);
    g.board[board_index(7, 7)] = Pieces::King(false);
    // the white rook is pinned: stepping aside bares the king
    assert_eq!(g.move_piece((1, 4), (1, 0)), Err(IllegalMove::ExposesOwnKing));
    // moving up the file keeps the pin closed
    let mut g2 = Game::new();
    g2.board[board_index(0, 4)] = Pieces::King(true);
    g2.board[board_index(1, 4)] = Pieces::Rook(true);
    g2.board[board_index(7, 4)] = Pieces::Rook(false);
    g2.board[board_index(7, 7)] = Pieces::King(false);
    assert!(g2.move_piece((1, 4), (5, 4)).is_ok());
}

#[test]
fn error_invalid_promotion_choice() {
    let mut g = Game::new();
    g.board[board_index(0, 4)] = Pieces::King(true);
    g.board[board_index(7, 7)] = Pieces::King(false);
    g.board[board_index(6, 0)] = Pieces::Pawn(true);
    g.promotion = 'x';
    assert_eq!(g.move_piece((6, 0), (7, 0)), Err(IllegalMove::InvalidPromotionChoice));
    // the rejected promotion left the pawn in place
    assert_eq!(g.board[board_index(6, 0)], Pieces::Pawn(true));
    assert!(g.turn);
}

#[test]
fn promotion_to_queen_and_knight() {
    let mut g = Game::new();
    g.board[board_index(0, 4)] = Pieces::King(true);
    g.board[board_index(7, 7)] = Pieces::King(false);
    g.board[board_index(6, 0)] = Pieces::Pawn(true);
    assert!(g.move_piece((6, 0), (7, 0)).is_ok());
    assert_eq!(g.board[board_index(7, 0)], Pieces::Queen(true));

    let mut g = Game::new();
    g.board[board_index(0, 4)] = Pieces::King(true);
    g.board[board_index(7, 7)] = Pieces::King(false);
    g.board[board_index(6, 0)] = Pieces::Pawn(true);
    g.promotion = 'n';
    assert!(g.move_piece((6, 0), (7, 0)).is_ok());
    assert_eq!(g.board[board_index(7, 0)], Pieces::Knight(true));
}

#[test]
fn en_passant_capture_next_ply() {
    let mut g = fresh_game();
    assert!(g.move_piece((1, 4), (3, 4)).is_ok()); // e2e4
    assert!(g.move_piece((6, 0), (5, 0)).is_ok()); // a7a6
    assert!(g.move_piece((3, 4), (4, 4)).is_ok()); // e4e5
    assert!(g.move_piece((6, 3), (4, 3)).is_ok()); // d7d5, beside the e5 pawn
    assert_eq!(g.en_passant, Some((4, 3)));
    // capture en passant at once
    assert!(g.move_piece((4, 4), (5, 3)).is_ok());
    assert_eq!(g.board[board_index(5, 3)], Pieces::Pawn(true));
    assert_eq!(g.board[board_index(4, 3)], Pieces::Empty);
}

#[test]
fn en_passant_expires_one_ply_later() {
    let mut g = fresh_game();
    assert!(g.move_piece((1, 4), (3, 4)).is_ok()); // e2e4
    assert!(g.move_piece((6, 0), (5, 0)).is_ok()); // a7a6
    assert!(g.move_piece((3, 4), (4, 4)).is_ok()); // e4e5
    assert!(g.move_piece((6, 3), (4, 3)).is_ok()); // d7d5
    // white declines the capture
    assert!(g.move_piece((1, 0), (2, 0)).is_ok()); // a2a3
    assert!(g.move_piece((5, 0), (4, 0)).is_ok()); // a6a5
    // the capture that was available a ply ago now fails
    assert_eq!(g.move_piece((4, 4), (5, 3)), Err(IllegalMove::ShapeIllegal));
}

#[test]
fn kingside_castle_succeeds() {
    let mut g = fresh_game();
    g.board[board_index(0, 5)] = Pieces::Empty;
    g.board[board_index(0, 6)] = Pieces::Empty;
    assert!(g.move_piece((0, 4), (0, 6)).is_ok());
    assert_eq!(g.board[board_index(0, 6)], Pieces::King(true));
    assert_eq!(g.board[board_index(0, 5)], Pieces::Rook(true));
    assert_eq!(g.board[board_index(0, 7)], Pieces::Empty);
    assert_eq!(g.board[board_index(0, 4)], Pieces::Empty);
    assert!(!g.castle_wk && !g.castle_wq);
}

#[test]
fn queenside_castle_succeeds() {
    let mut g = fresh_game();
    g.board[board_index(0, 1)] = Pieces::Empty;
    g.board[board_index(0, 2)] = Pieces::Empty;
    g.board[board_index(0, 3)] = Pieces::Empty;
    assert!(g.move_piece((0, 4), (0, 2)).is_ok());
    assert_eq!(g.board[board_index(0, 2)], Pieces::King(true));
    assert_eq!(g.board[board_index(0, 3)], Pieces::Rook(true));
    assert_eq!(g.board[board_index(0, 0)], Pieces::Empty);
}

#[test]
fn castle_fails_without_right() {
    let mut g = fresh_game();
    g.board[board_index(0, 5)] = Pieces::Empty;
    g.board[board_index(0, 6)] = Pieces::Empty;
    g.castle_wk = false;
    assert_eq!(g.move_piece((0, 4), (0, 6)), Err(IllegalMove::ShapeIllegal));
}

#[test]
fn castle_fails_without_rook() {
    let mut g = fresh_game();
    g.board[board_index(0, 5)] = Pieces::Empty;
    g.board[board_index(0, 6)] = Pieces::Empty;
    g.board[board_index(0, 7)] = Pieces::Empty;
    assert_eq!(g.move_piece((0, 4), (0, 6)), Err(IllegalMove::ShapeIllegal));
}

#[test]
fn castle_fails_with_blocked_path() {
    let mut g = fresh_game();
    g.board[board_index(0, 6)] = Pieces::Empty;
    // the bishop still stands on f1
    assert_eq!(g.move_piece((0, 4), (0, 6)), Err(IllegalMove::ShapeIllegal));
}

#[test]
fn castle_fails_in_check() {
    let mut g = fresh_game();
    g.board[board_index(0, 5)] = Pieces::Empty;
    g.board[board_index(0, 6)] = Pieces::Empty;
    g.board[board_index(1, 4)] = Pieces::Empty;
    g.board[board_index(2, 4)] = Pieces::Rook(false);
    assert_eq!(g.move_piece((0, 4), (0, 6)), Err(IllegalMove::ShapeIllegal));
}

#[test]
fn castle_fails_through_attacked_square() {
    let mut g = fresh_game();
    g.board[board_index(0, 5)] = Pieces::Empty;
    g.board[board_index(0, 6)] = Pieces::Empty;
    g.board[board_index(1, 5)] = Pieces::Empty;
    g.board[board_index(2, 5)] = Pieces::Rook(false);
    assert_eq!(g.move_piece((0, 4), (0, 6)), Err(IllegalMove::ShapeIllegal));
}

#[test]
fn black_kingside_castle_succeeds() {
    let mut g = fresh_game();
    g.board[board_index(7, 5)] = Pieces::Empty;
    g.board[board_index(7, 6)] = Pieces::Empty;
    assert!(g.move_piece((1, 0), (2, 0)).is_ok()); // a quiet white move first
    assert!(g.move_piece((7, 4), (7, 6)).is_ok());
    assert_eq!(g.board[board_index(7, 6)], Pieces::King(false));
    assert_eq!(g.board[board_index(7, 5)], Pieces::Rook(false));
    assert!(!g.castle_bk && !g.castle_bq);
    assert!(g.castle_wk && g.castle_wq);
}

#[test]
fn en_passant_refused_when_it_bares_the_king() {
    let mut g = Game::new();
    g.board[board_index(4, 7)] = Pieces::King(true);
    g.board[board_index(4, 4)] = Pieces::Pawn(true);
    g.board[board_index(7, 7)] = Pieces::King(false);
    g.board[board_index(4, 0)] = Pieces::Rook(false);
    g.board[board_index(6, 3)] = Pieces::Pawn(false);
    g.turn = false;
    assert!(g.move_piece((6, 3), (4, 3)).is_ok());
    // the capture would clear the whole rank in front of the rook
    assert_eq!(g.move_piece((4, 4), (5, 3)), Err(IllegalMove::ExposesOwnKing));
}

#[test]
fn rejected_move_leaves_position_unchanged() {
    let mut g = fresh_game();
    // a knight move first, so that no en-passant expiry is pending
    assert!(g.move_piece((0, 6), (2, 5)).is_ok());
    assert!(g.move_piece((6, 0), (5, 0)).is_ok());
    let before = snapshot(&g);
    // a bishop cannot jump over its own pawns
    assert_eq!(g.move_piece((0, 5), (2, 3)), Err(IllegalMove::ShapeIllegal));
    assert_eq!(snapshot(&g), before);
    // a move from an empty square changes nothing either
    let before = snapshot(&g);
    assert_eq!(g.move_piece((4, 4), (5, 4)), Err(IllegalMove::EmptySource));
    assert_eq!(snapshot(&g), before);
}

#[test]
fn king_move_consumes_castling_rights_even_when_rejected() {
    let mut g = fresh_game();
    assert!(g.castle_wk && g.castle_wq);
    // the king cannot walk onto its own pawn; the attempt still costs the rights
    assert_eq!(g.move_piece((0, 4), (1, 4)), Err(IllegalMove::SameColorCapture));
    assert!(g.castle_wk && g.castle_wq);
    // a rejected king step to an occupied-by-enemy far square: shape-illegal two-step
    g.board[board_index(1, 4)] = Pieces::Empty;
    assert_eq!(g.move_piece((0, 4), (2, 4)), Err(IllegalMove::ShapeIllegal));
    assert!(!g.castle_wk && !g.castle_wq);
}

#[test]
fn moved_rook_loses_its_side() {
    let mut g = fresh_game();
    g.board[board_index(1, 7)] = Pieces::Empty;
    assert!(g.move_piece((0, 7), (1, 7)).is_ok());
    assert!(!g.castle_wk);
    assert!(g.castle_wq);
}

#[test]
fn castle_fails_onto_attacked_square() {
    let mut g = fresh_game();
    g.board[board_index(0, 5)] = Pieces::Empty;
    g.board[board_index(0, 6)] = Pieces::Empty;
    g.board[board_index(1, 6)] = Pieces::Empty;
    g.board[board_index(2, 6)] = Pieces::Rook(false);
    // the rook holds the landing square g1
    let filtered = g.get_valid_moves((0, 4));
    assert!(!filtered.contains(&(0, 6)));
    assert_eq!(g.move_piece((0, 4), (0, 6)), Err(IllegalMove::ShapeIllegal));
    assert_eq!(g.board[board_index(0, 4)], Pieces::King(true));
    assert_eq!(g.board[board_index(0, 7)], Pieces::Rook(true));
}

#[test]
fn backward_pawn_capture_is_accepted() {
    // the engine accepts diagonal pawn captures in either rank direction
    let mut g = Game::new();
    g.board[board_index(0, 4)] = Pieces::King(true);
    g.board[board_index(7, 4)] = Pieces::King(false);
    g.board[board_index(5, 3)] = Pieces::Pawn(true);
    g.board[board_index(4, 4)] = Pieces::Knight(false);
    assert!(g.move_piece((5, 3), (4, 4)).is_ok());
    assert_eq!(g.board[board_index(4, 4)], Pieces::Pawn(true));
}
