use vstd::prelude::*;
use crate::classify::{State, classify};
use crate::game::{Game, Model};
use crate::pieces::Pieces;

verus! {

/// Material weight of a piece.
pub open spec fn piece_weight(p: Pieces) -> int {
    match p {
        Pieces::King(_) => 900,
        Pieces::Queen(_) => 90,
        Pieces::Rook(_) => 50,
        Pieces::Bishop(_) => 30,
        Pieces::Knight(_) => 30,
        Pieces::Pawn(_) => 10,
        Pieces::Empty => 0,
    }
}

/// A piece counts for the perspective colour and against its enemy.
pub open spec fn signed_weight(p: Pieces, c: bool) -> int {
    match p.colour_spec() {
        Some(x) => if x == c {
            piece_weight(p)
        } else {
            -piece_weight(p)
        },
        None => 0,
    }
}

/// The material sum over the first `n` squares from `c`'s perspective.
pub open spec fn material(b: Seq<Pieces>, n: int, c: bool) -> int
    decreases n,
{
    if n <= 0 {
        0
    } else {
        material(b, n - 1, c) + signed_weight(b[n - 1], c)
    }
}

/// The terminal and check bias added to the material count.
pub open spec fn state_bonus(s: State, c: bool) -> int {
    match s {
        State::WhiteCheckmate => if c {
            -10000
        } else {
            10000
        },
        State::BlackCheckmate => if !c {
            -10000
        } else {
            10000
        },
        State::WhiteStalemate => -50,
        State::BlackStalemate => -50,
        State::WhiteCheck => if c {
            -80
        } else {
            80
        },
        State::BlackCheck => if !c {
            -80
        } else {
            80
        },
        State::Continue => 0,
        State::Draw => 0,
    }
}

/// The static evaluation of a position from `c`'s perspective.
pub open spec fn score(m: Model, c: bool) -> int {
    material(m.board, 64, c) + state_bonus(classify(m), c)
}

/// The material sum never leaves [-900 * n, 900 * n].
pub proof fn lemma_material_bounds(b: Seq<Pieces>, n: int, c: bool)
    requires
        0 <= n,
    ensures
        -900 * n <= material(b, n, c) <= 900 * n,
    decreases n,
{
    if n > 0 {
        lemma_material_bounds(b, n - 1, c);
    }
}

/// The static evaluation stays well inside the sentinel bounds.
pub proof fn lemma_score_bounds(m: Model, c: bool)
    ensures
        -67600 <= score(m, c) <= 67600,
{
    lemma_material_bounds(m.board, 64, c);
}

impl Game {
    /// The static evaluation of the position from `c`'s perspective:
    /// signed material plus the classifier's bias.
    pub fn count_board(&self, c: bool) -> (r: isize)
        requires
            self@.wf(),
            self@.counter < usize::MAX,
        ensures
            r as int == score(self@, c),
    {
        let mut sum: isize = 0;
        let mut idx: usize = 0;
        while idx < 64
            invariant
                idx <= 64,
                self@.wf(),
                sum as int == material(self@.board, idx as int, c),
                -900 * (idx as int) <= sum as int <= 900 * (idx as int),
            decreases 64 - idx,
        {
            let p = self.board[idx];
            let w: isize = match p {
                Pieces::King(_) => 900,
                Pieces::Queen(_) => 90,
                Pieces::Rook(_) => 50,
                Pieces::Bishop(_) => 30,
                Pieces::Knight(_) => 30,
                Pieces::Pawn(_) => 10,
                Pieces::Empty => 0,
            };
            let signed: isize = match p.colour() {
                Some(x) => if x == c {
                    w
                } else {
                    -w
                },
                None => 0,
            };
            sum = sum + signed;
            idx = idx + 1;
        }
        let bonus: isize = match self.check_game_end() {
            State::WhiteCheckmate => if c {
                -10000
            } else {
                10000
            },
            State::BlackCheckmate => if !c {
                -10000
            } else {
                10000
            },
            State::WhiteStalemate => -50,
            State::BlackStalemate => -50,
            State::WhiteCheck => if c {
                -80
            } else {
                80
            },
            State::BlackCheck => if !c {
                -80
            } else {
                80
            },
            State::Continue => 0,
            State::Draw => 0,
        };
        sum + bonus
    }
}

} // verus!
