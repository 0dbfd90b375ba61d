use chess_engine::{Game, Pieces, State};

fn started() -> Game {
    let mut g = Game::new();
    g.init();
    g
}

fn sq(r: usize, c: usize) -> usize {
    r * 8 + c
}

#[test]
fn initial_position_has_twenty_legal_moves() {
    let g = started();
    let mut total = 0;
    for piece in g.get_pieces(true) {
        total += g.get_valid_moves(piece).len();
    }
    assert_eq!(total, 20);
}

#[test]
fn attack_detected_and_gone_when_attacker_removed() {
    let mut g = Game::new();
    g.board[sq(4, 0)] = Pieces::King(true);
    g.board[sq(7, 7)] = Pieces::King(false);
    g.board[sq(0, 0)] = Pieces::Rook(true);
    // the rook holds the whole first rank
    assert!(g.check((0, 7), false));
    // a blocker interrupts the ray
    g.board[sq(0, 3)] = Pieces::Pawn(false);
    assert!(!g.check((0, 7), false));
    g.board[sq(0, 3)] = Pieces::Empty;
    assert!(g.check((0, 7), false));
    // removing the attacker clears the square
    g.board[sq(0, 0)] = Pieces::Empty;
    assert!(!g.check((0, 7), false));
}

#[test]
fn knight_and_pawn_attacks() {
    let mut g = Game::new();
    g.board[sq(0, 0)] = Pieces::King(true);
    g.board[sq(7, 7)] = Pieces::King(false);
    g.board[sq(3, 3)] = Pieces::Knight(false);
    assert!(g.check((1, 2), true));
    assert!(g.check((5, 4), true));
    assert!(!g.check((3, 4), true));
    g.board[sq(3, 3)] = Pieces::Pawn(false);
    // a black pawn strikes downward
    assert!(g.check((2, 2), true));
    assert!(g.check((2, 4), true));
    assert!(!g.check((4, 2), true));
}

#[test]
fn fools_mate_is_white_checkmate() {
    let mut g = started();
    assert!(g.move_piece((1, 5), (2, 5)).is_ok()); // f2f3
    assert!(g.move_piece((6, 4), (4, 4)).is_ok()); // e7e5
    assert!(g.move_piece((1, 6), (3, 6)).is_ok()); // g2g4
    assert!(g.move_piece((7, 3), (3, 7)).is_ok()); // d8h4, mate
    assert_eq!(g.check_game_end(), State::WhiteCheckmate);
    assert!(g.is_game_over());
    let mut white_moves = 0;
    for piece in g.get_pieces(true) {
        white_moves += g.get_valid_moves(piece).len();
    }
    assert_eq!(white_moves, 0);
}

#[test]
fn boxed_king_is_stalemate_not_checkmate() {
    let mut g = Game::new();
    g.board[sq(0, 0)] = Pieces::King(false);
    g.board[sq(1, 2)] = Pieces::Queen(true);
    g.board[sq(7, 7)] = Pieces::King(true);
    g.turn = false;
    assert_eq!(g.check_game_end(), State::BlackStalemate);
    assert!(g.is_game_over());
}

#[test]
fn bare_kings_draw_for_either_side_to_move() {
    let mut g = Game::new();
    g.board[sq(0, 0)] = Pieces::King(true);
    g.board[sq(7, 7)] = Pieces::King(false);
    assert_eq!(g.check_remaining_pieces(), State::Draw);
    assert_eq!(g.check_game_end(), State::Draw);
    g.turn = false;
    assert_eq!(g.check_game_end(), State::Draw);
}

#[test]
fn check_is_reported_for_the_checked_side() {
    let mut g = started();
    assert!(g.move_piece((1, 4), (3, 4)).is_ok()); // e2e4
    assert!(g.move_piece((6, 5), (5, 5)).is_ok()); // f7f6
    assert!(g.move_piece((0, 3), (4, 7)).is_ok()); // the queen checks on the open diagonal
    assert_eq!(g.check_game_end(), State::BlackCheck);
    assert!(!g.is_game_over());
}

#[test]
fn continuing_game_is_continue() {
    let g = started();
    assert_eq!(g.check_game_end(), State::Continue);
    assert!(!g.is_game_over());
}

#[test]
fn evaluation_counts_material_from_each_side() {
    let mut g = Game::new();
    g.board[sq(0, 0)] = Pieces::King(true);
    g.board[sq(3, 4)] = Pieces::Queen(true);
    g.board[sq(7, 7)] = Pieces::King(false);
    assert_eq!(g.count_board(true), 90);
    assert_eq!(g.count_board(false), -90);
}

#[test]
fn evaluation_of_the_start_is_level() {
    let g = started();
    assert_eq!(g.count_board(true), 0);
    assert_eq!(g.count_board(false), 0);
}

#[test]
fn evaluation_adds_check_bias() {
    let mut g = Game::new();
    g.board[sq(0, 0)] = Pieces::King(true);
    g.board[sq(2, 2)] = Pieces::Queen(false);
    g.board[sq(7, 7)] = Pieces::King(false);
    // the queen gives check along the diagonal
    assert_eq!(g.check_game_end(), State::WhiteCheck);
    assert_eq!(g.count_board(true), -90 - 80);
    assert_eq!(g.count_board(false), 90 + 80);
}

#[test]
fn piece_symbols() {
    assert_eq!(Pieces::Rook(true).symbol(), "R");
    assert_eq!(Pieces::Rook(false).symbol(), "r");
    assert_eq!(Pieces::Knight(true).symbol(), "N");
    assert_eq!(Pieces::Queen(false).symbol(), "q");
    assert_eq!(Pieces::King(true).symbol(), "K");
    assert_eq!(Pieces::Pawn(false).symbol(), "p");
    assert_eq!(Pieces::Empty.symbol(), " ");
}

#[test]
fn piece_colours() {
    assert_eq!(Pieces::Rook(true).colour(), Some(true));
    assert_eq!(Pieces::Pawn(false).colour(), Some(false));
    assert_eq!(Pieces::Empty.colour(), None);
}

#[test]
fn state_symbols() {
    assert_eq!(State::WhiteCheckmate.symbol(), "White is checkmated");
    assert_eq!(State::BlackCheck.symbol(), "Black is in check");
    assert_eq!(State::Continue.symbol(), "Game continues");
    assert_eq!(State::Draw.symbol(), "Draw");
}

#[test]
fn starting_array_is_standard() {
    let g = started();
    assert_eq!(g.board[sq(0, 0)], Pieces::Rook(true));
    assert_eq!(g.board[sq(0, 4)], Pieces::King(true));
    assert_eq!(g.board[sq(0, 3)], Pieces::Queen(true));
    assert_eq!(g.board[sq(1, 2)], Pieces::Pawn(true));
    assert_eq!(g.board[sq(6, 6)], Pieces::Pawn(false));
    assert_eq!(g.board[sq(7, 1)], Pieces::Knight(false));
    assert_eq!(g.board[sq(4, 4)], Pieces::Empty);
}

#[test]
fn geometry_helpers() {
    assert_eq!(Game::distance((0, 0), (7, 7)), 14);
    assert_eq!(Game::distance((3, 4), (4, 3)), 2);
    let corner = Game::get_surrounding_cells((0, 0));
    assert_eq!(corner.len(), 3);
    assert!(corner.contains(&(0, 1)) && corner.contains(&(1, 0)) && corner.contains(&(1, 1)));
    let middle = Game::get_surrounding_cells((4, 4));
    assert_eq!(middle.len(), 8);
    let g = started();
    assert!(!g.pieces_between((1, 0), (6, 0)));
    assert!(g.pieces_between((0, 0), (7, 0)));
    assert_eq!(g.find(Pieces::King(true)), Some((0, 4)));
    assert_eq!(g.find(Pieces::King(false)), Some((7, 4)));
}
