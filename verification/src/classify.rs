use vstd::prelude::*;
use crate::attack::attacked;
use crate::filter::piece_has_move;
use crate::game::{Game, Model, at, king_square, lemma_king_square_is, sq_ok};
use crate::pieces::Pieces;

verus! {

/// The classifier's verdict on a position.
#[derive(Copy, Clone, PartialEq, Eq, Structural, Debug)]
pub enum State {
    WhiteCheckmate,
    BlackCheckmate,
    WhiteStalemate,
    BlackStalemate,
    WhiteCheck,
    BlackCheck,
    Continue,
    Draw,
}

impl State {
    /// The human-readable status line for a verdict.
    pub open spec fn symbol_spec(self) -> Seq<char> {
        match self {
            State::WhiteCheckmate => "White is checkmated"@,
            State::BlackCheckmate => "Black is checkmated"@,
            State::WhiteStalemate => "White is stalemated"@,
            State::BlackStalemate => "Black is stalemated"@,
            State::WhiteCheck => "White is in check"@,
            State::BlackCheck => "Black is in check"@,
            State::Continue => "Game continues"@,
            State::Draw => "Draw"@,
        }
    }

    /// Renders the verdict as its status line.
    pub fn symbol(&self) -> (r: String)
        ensures
            r@ == self.symbol_spec(),
    {
        (match self {
            State::WhiteCheckmate => "White is checkmated",
            State::BlackCheckmate => "Black is checkmated",
            State::WhiteStalemate => "White is stalemated",
            State::BlackStalemate => "Black is stalemated",
            State::WhiteCheck => "White is in check",
            State::BlackCheck => "Black is in check",
            State::Continue => "Game continues",
            State::Draw => "Draw",
        }).to_string()
    }
}

/// How many of the first `n` squares are occupied.
pub open spec fn nonempty_count(b: Seq<Pieces>, n: int) -> int
    decreases n,
{
    if n <= 0 {
        0
    } else {
        nonempty_count(b, n - 1) + (if b[n - 1] != Pieces::Empty {
            1int
        } else {
            0int
        })
    }
}

/// The king of `c` stands attacked.
pub open spec fn in_check(m: Model, c: bool) -> bool {
    attacked(m.board, king_square(m.board, c).0, king_square(m.board, c).1, c)
}

/// Some piece of colour `c` has a legal move.
pub open spec fn side_has_move(m: Model, c: bool) -> bool {
    exists|ir: int, ic: int|
        sq_ok(ir, ic) && at(m.board, ir, ic).colour_spec() == Some(c) && #[trigger] piece_has_move(
            m,
            ir,
            ic,
        )
}

/// The classifier: two bare kings draw; a side to move without a legal
/// move is checkmated or stalemated by its check status; otherwise a
/// checked side is reported, White first; else the game continues.
pub open spec fn classify(m: Model) -> State {
    if nonempty_count(m.board, 64) == 2 {
        State::Draw
    } else if m.turn && !side_has_move(m, true) {
        if in_check(m, true) {
            State::WhiteCheckmate
        } else {
            State::WhiteStalemate
        }
    } else if !m.turn && !side_has_move(m, false) {
        if in_check(m, false) {
            State::BlackCheckmate
        } else {
            State::BlackStalemate
        }
    } else if in_check(m, true) {
        State::WhiteCheck
    } else if in_check(m, false) {
        State::BlackCheck
    } else {
        State::Continue
    }
}

/// The verdicts that end the game.
pub open spec fn is_terminal(s: State) -> bool {
    s == State::WhiteCheckmate || s == State::BlackCheckmate || s == State::WhiteStalemate || s
        == State::BlackStalemate || s == State::Draw
}

impl Game {
    /// Draw by insufficient material: only the two kings remain.
    pub fn check_remaining_pieces(&self) -> (r: State)
        requires
            self@.board.len() == 64,
        ensures
            r == (if nonempty_count(self@.board, 64) == 2 {
                State::Draw
            } else {
                State::Continue
            }),
    {
        let mut n: usize = 0;
        let mut idx: usize = 0;
        while idx < 64
            invariant
                idx <= 64,
                n <= idx,
                self@.board.len() == 64,
                n as int == nonempty_count(self@.board, idx as int),
            decreases 64 - idx,
        {
            if self.board[idx] != Pieces::Empty {
                n = n + 1;
            }
            idx = idx + 1;
        }
        if n == 2 {
            State::Draw
        } else {
            State::Continue
        }
    }

    /// Classifies the position: draw by material, checkmate or stalemate
    /// for a side to move without legal moves, a reported check, or a
    /// continuing game.
    pub fn check_game_end(&self) -> (r: State)
        requires
            self@.wf(),
            self@.counter < usize::MAX,
        ensures
            r == classify(self@),
    {
        let kw = self.find(Pieces::King(true));
        proof {
            if kw is None {
                let (kr, kc) = king_square(self@.board, true);
                assert(at(self@.board, kr, kc) == Pieces::King(true));
                assert(self@.board[kr * 8 + kc] == Pieces::King(true));
                assert(false);
            }
        }
        let kw = kw.unwrap();
        proof {
            lemma_king_square_is(self@.board, true, kw.0 as int, kw.1 as int);
        }
        let kb = self.find(Pieces::King(false));
        proof {
            if kb is None {
                let (kr, kc) = king_square(self@.board, false);
                assert(at(self@.board, kr, kc) == Pieces::King(false));
                assert(self@.board[kr * 8 + kc] == Pieces::King(false));
                assert(false);
            }
        }
        let kb = kb.unwrap();
        proof {
            lemma_king_square_is(self@.board, false, kb.0 as int, kb.1 as int);
        }
        let white_check = self.check(kw, true);
        let black_check = self.check(kb, false);
        let crp = self.check_remaining_pieces();
        match crp {
            State::Draw => {
                return State::Draw;
            },
            _ => {},
        }
        let side = self.turn;
        let pieces = self.get_pieces(side);
        let mut any = false;
        let mut k: usize = 0;
        while k < pieces.len()
            invariant
                k <= pieces@.len(),
                self@.wf(),
                self@.counter < usize::MAX,
                forall|sq: (usize, usize)| #[trigger]
                    pieces@.contains(sq) <==> (sq.0 < 8 && sq.1 < 8 && at(
                        self@.board,
                        sq.0 as int,
                        sq.1 as int,
                    ).colour_spec() == Some(side)),
                !any ==> forall|j: int|
                    0 <= j < k ==> !piece_has_move(
                        self@,
                        (#[trigger] pieces@[j]).0 as int,
                        pieces@[j].1 as int,
                    ),
                any ==> side_has_move(self@, side),
            decreases pieces@.len() - k,
        {
            let sq = pieces[k];
            proof {
                assert(pieces@.contains(pieces@[k as int]));
            }
            if self.find_valid_move(sq) {
                proof {
                    assert(sq_ok(sq.0 as int, sq.1 as int));
                    assert(side_has_move(self@, side));
                }
                any = true;
            }
            k = k + 1;
        }
        proof {
            if !any {
                assert forall|ir: int, ic: int|
                    sq_ok(ir, ic) && at(self@.board, ir, ic).colour_spec() == Some(
                        side,
                    ) implies !(#[trigger] piece_has_move(self@, ir, ic)) by {
                    let sq = ((ir as usize), (ic as usize));
                    assert(pieces@.contains(sq));
                    let j = choose|j: int| 0 <= j < pieces@.len() && pieces@[j] == sq;
                    assert(!piece_has_move(self@, pieces@[j].0 as int, pieces@[j].1 as int));
                }
                assert(!side_has_move(self@, side));
            }
        }
        if side {
            if !any {
                if white_check {
                    return State::WhiteCheckmate;
                } else {
                    return State::WhiteStalemate;
                }
            }
        } else {
            if !any {
                if black_check {
                    return State::BlackCheckmate;
                } else {
                    return State::BlackStalemate;
                }
            }
        }
        if white_check {
            return State::WhiteCheck;
        }
        if black_check {
            return State::BlackCheck;
        }
        State::Continue
    }

    /// Whether the game has ended: checkmate, stalemate or material draw.
    pub fn is_game_over(&self) -> (r: bool)
        requires
            self@.wf(),
            self@.counter < usize::MAX,
        ensures
            r == is_terminal(classify(self@)),
    {
        match self.check_game_end() {
            State::WhiteCheckmate | State::WhiteStalemate | State::BlackCheckmate
                | State::BlackStalemate | State::Draw => true,
            _ => false,
        }
    }
}

} // verus!
