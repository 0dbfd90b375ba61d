use chess_engine::{Game, IllegalMove, Pieces};

fn cell(r: usize, c: usize) -> usize {
    r * 8 + c
}

fn reference_minimax(g: &Game, depth: usize, c: bool, maxer: bool) -> isize {
    if depth == 0 || g.is_game_over() {
        return g.count_board(maxer);
    }
    let mut moves = Vec::new();
    for p in g.get_pieces(c) {
        for d in g.get_valid_moves(p) {
            moves.push((p, d));
        }
    }
    if c == maxer {
        let mut best = isize::MIN;
        for (i, f) in moves {
            let mut child = g.clone();
            child.move_piece(i, f).unwrap();
            let v = reference_minimax(&child, depth - 1, !c, maxer);
            if v > best {
                best = v;
            }
        }
        best
    } else {
        let mut best = isize::MAX;
        for (i, f) in moves {
            let mut child = g.clone();
            child.move_piece(i, f).unwrap();
            let v = reference_minimax(&child, depth - 1, !c, maxer);
            if v < best {
                best = v;
            }
        }
        best
    }
}

fn rook_endgame() -> Game {
    let mut g = Game::new();
    g.board[cell(0, 0)] = Pieces::King(true);
    g.board[cell(0, 7)] = Pieces::Rook(true);
    g.board[cell(7, 7)] = Pieces::King(false);
    g.board[cell(7, 0)] = Pieces::Rook(false);
    g.castle_wk = false;
    g.castle_wq = false;
    g.castle_bk = false;
    g.castle_bq = false;
    g
}

#[test]
fn pruned_search_matches_plain_minimax() {
    let g = rook_endgame();
    let pruned = Game::minimax(&g, 2, isize::MIN, isize::MAX, true, true);
    let plain = reference_minimax(&g, 2, true, true);
    assert_eq!(pruned, plain);
    // the shuffled order never changes the reported value
    let again = Game::minimax(&g, 2, isize::MIN, isize::MAX, true, true);
    assert_eq!(pruned, again);
}

#[test]
fn pruned_search_matches_plain_minimax_for_the_minimising_side() {
    let mut g = rook_endgame();
    g.turn = false;
    let pruned = Game::minimax(&g, 2, isize::MIN, isize::MAX, false, true);
    let plain = reference_minimax(&g, 2, false, true);
    assert_eq!(pruned, plain);
}

#[test]
fn ai_takes_the_hanging_queen() {
    let mut g = Game::new();
    g.board[cell(0, 0)] = Pieces::King(true);
    g.board[cell(3, 6)] = Pieces::Queen(true);
    g.board[cell(7, 7)] = Pieces::King(false);
    g.board[cell(3, 3)] = Pieces::Queen(false);
    g.castle_wk = false;
    g.castle_wq = false;
    g.castle_bk = false;
    g.castle_bq = false;
    let (from, to) = g.play_ai(true);
    assert_eq!(from, (3, 6));
    assert_eq!(to, (3, 3));
    // and the chosen move is indeed accepted
    assert!(g.move_piece(from, to).is_ok());
}

#[test]
fn parse_lowercase_move() {
    assert_eq!(Game::parse_move("e2e4"), Ok(((1, 4), (3, 4))));
    assert_eq!(Game::parse_move("a1h8"), Ok(((0, 0), (7, 7))));
}

#[test]
fn parse_uppercase_move() {
    assert_eq!(Game::parse_move("E2E4"), Ok(((1, 4), (3, 4))));
    assert_eq!(Game::parse_move("G1F3"), Ok(((0, 6), (2, 5))));
}

#[test]
fn parse_rejects_wrong_length() {
    assert_eq!(Game::parse_move(""), Err(IllegalMove::MalformedMoveText));
    assert_eq!(Game::parse_move("e2e"), Err(IllegalMove::MalformedMoveText));
    assert_eq!(Game::parse_move("e2e45"), Err(IllegalMove::MalformedMoveText));
}

#[test]
fn parse_rejects_unknown_letters_and_digits() {
    assert_eq!(Game::parse_move("i2e4"), Err(IllegalMove::MalformedMoveText));
    assert_eq!(Game::parse_move("e0e4"), Err(IllegalMove::MalformedMoveText));
    assert_eq!(Game::parse_move("e9e4"), Err(IllegalMove::MalformedMoveText));
    assert_eq!(Game::parse_move("e2x4"), Err(IllegalMove::MalformedMoveText));
}

#[test]
fn ai_escapes_check_with_a_legal_move() {
    let mut g = rook_endgame();
    // White stands in check from the far rook and must address it.
    let (from, to) = g.play_ai(true);
    assert!(g.move_piece(from, to).is_ok());
    assert_ne!(
        g.check_game_end(),
        chess_engine::State::WhiteCheck,
        "the chosen move must leave the check behind"
    );
}
