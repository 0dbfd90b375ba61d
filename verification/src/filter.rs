use vstd::prelude::*;
use crate::attack::attacked;
use crate::game::{Game, Model, at, diag_move, king_adjacent, king_square, knight_move, line_move,
    sq_ok};
use crate::moves::{after_success, lemma_own_king_after, move_error, own_king_after, pawn_dir};
use crate::pieces::Pieces;

verus! {

/// The move request is accepted by the legality engine.
pub open spec fn move_allowed(m: Model, ir: int, ic: int, fr: int, fc: int) -> bool {
    move_error(m, ir, ic, fr, fc) is None
}

/// A legal move: accepted by the engine, and the resulting position does
/// not leave the mover's own king attacked (the filter re-checks the
/// final board, as the engine's own screening already guarantees).
#[verifier::opaque]
pub open spec fn valid_move(m: Model, ir: int, ic: int, fr: int, fc: int) -> bool {
    &&& move_allowed(m, ir, ic, fr, fc)
    &&& !attacked(
        after_success(m, ir, ic, fr, fc).board,
        own_king_after(m, ir, ic, fr, fc).0,
        own_king_after(m, ir, ic, fr, fc).1,
        m.turn,
    )
}

/// The candidate destinations the filter probes for the piece on
/// (ir, ic): its full movement pattern, the king's including the two
/// castle files, the pawn's its four forward offsets.
pub open spec fn candidate(m: Model, ir: int, ic: int, fr: int, fc: int) -> bool {
    sq_ok(fr, fc) && match at(m.board, ir, ic) {
        Pieces::Knight(_) => knight_move(ir, ic, fr, fc),
        Pieces::King(_) => king_adjacent(ir, ic, fr, fc) || (fr == ir && (fc == (if ic + 2 <= 7 {
            ic + 2
        } else {
            7
        }) || fc == (if ic - 2 >= 0 {
            ic - 2
        } else {
            0
        }))),
        Pieces::Pawn(c) => (fc == ic && (fr == ir + pawn_dir(c) || fr == ir + 2 * pawn_dir(c))) || (
        fr == ir + pawn_dir(c) && (fc == ic + 1 || fc == ic - 1)),
        Pieces::Bishop(_) => diag_move(ir, ic, fr, fc),
        Pieces::Rook(_) => line_move(ir, ic, fr, fc),
        Pieces::Queen(_) => line_move(ir, ic, fr, fc) || diag_move(ir, ic, fr, fc),
        Pieces::Empty => false,
    }
}

/// The piece on (ir, ic) has at least one legal move.
pub open spec fn piece_has_move(m: Model, ir: int, ic: int) -> bool {
    exists|fr: int, fc: int|
        candidate(m, ir, ic, fr, fc) && #[trigger] valid_move(m, ir, ic, fr, fc)
}

impl Game {
    /// Every square occupied by a piece of colour `c`, in rank-major
    /// order.
    pub fn get_pieces(&self, c: bool) -> (r: Vec<(usize, usize)>)
        requires
            self@.board.len() == 64,
        ensures
            forall|sq: (usize, usize)| #[trigger]
                r@.contains(sq) <==> (sq.0 < 8 && sq.1 < 8 && at(
                    self@.board,
                    sq.0 as int,
                    sq.1 as int,
                ).colour_spec() == Some(c)),
            forall|k1: int, k2: int|
                #![trigger r@[k1], r@[k2]]
                0 <= k1 < k2 < r@.len() ==> r@[k1].0 * 8 + r@[k1].1 < r@[k2].0 * 8 + r@[k2].1,
    {
        let mut out: Vec<(usize, usize)> = Vec::new();
        let mut idx: usize = 0;
        while idx < 64
            invariant
                idx <= 64,
                self@.board.len() == 64,
                forall|sq: (usize, usize)| #[trigger]
                    out@.contains(sq) <==> (sq.0 < 8 && sq.1 < 8 && sq.0 * 8 + sq.1 < idx && at(
                        self@.board,
                        sq.0 as int,
                        sq.1 as int,
                    ).colour_spec() == Some(c)),
                forall|k: int|
                    0 <= k < out@.len() ==> (#[trigger] out@[k]).0 < 8 && out@[k].1 < 8 && out@[k].0
                        * 8 + out@[k].1 < idx,
                forall|k1: int, k2: int|
                    #![trigger out@[k1], out@[k2]]
                    0 <= k1 < k2 < out@.len() ==> out@[k1].0 * 8 + out@[k1].1 < out@[k2].0 * 8
                        + out@[k2].1,
            decreases 64 - idx,
        {
            let rr = idx / 8;
            let cc = idx % 8;
            assert(rr * 8 + cc == idx && rr < 8 && cc < 8);
            let keep = match self.board[idx] {
                Pieces::Empty => false,
                _ => {
                    let x = self.board[idx].colour().unwrap();
                    x == c
                },
            };
            if keep {
                let ghost out0 = out@;
                out.push((rr, cc));
                assert forall|sq: (usize, usize)| #[trigger]
                    out@.contains(sq) implies (sq.0 < 8 && sq.1 < 8 && sq.0 * 8 + sq.1 < idx + 1
                    && at(self@.board, sq.0 as int, sq.1 as int).colour_spec() == Some(c)) by {
                    let j = choose|j: int| 0 <= j < out@.len() && out@[j] == sq;
                    if j < out0.len() {
                        assert(out0[j] == sq);
                        assert(out0.contains(sq));
                    } else {
                        assert(sq == (rr, cc));
                    }
                }
                assert forall|sq: (usize, usize)|
                    (sq.0 < 8 && sq.1 < 8 && sq.0 * 8 + sq.1 < idx + 1 && at(
                        self@.board,
                        sq.0 as int,
                        sq.1 as int,
                    ).colour_spec() == Some(c)) implies #[trigger] out@.contains(sq) by {
                    if sq.0 * 8 + sq.1 < idx {
                        assert(out0.contains(sq));
                        let j = choose|j: int| 0 <= j < out0.len() && out0[j] == sq;
                        assert(out@[j] == sq);
                    } else {
                        assert(sq == (rr, cc));
                        assert(out@[out@.len() - 1] == sq);
                    }
                }
            } else {
                assert forall|sq: (usize, usize)|
                    (sq.0 < 8 && sq.1 < 8 && sq.0 * 8 + sq.1 < idx + 1 && at(
                        self@.board,
                        sq.0 as int,
                        sq.1 as int,
                    ).colour_spec() == Some(c)) implies #[trigger] out@.contains(sq) by {
                    assert(sq.0 * 8 + sq.1 != idx);
                }
            }
            idx = idx + 1;
        }
        out
    }

    /// The destinations of every legal move of the piece on `coords`,
    /// among the candidates its movement pattern yields.
    pub fn get_valid_moves(&self, coords: (usize, usize)) -> (r: Vec<(usize, usize)>)
        requires
            self@.wf(),
            coords.0 < 8 && coords.1 < 8,
            at(self@.board, coords.0 as int, coords.1 as int) != Pieces::Empty,
            self@.counter < usize::MAX,
        ensures
            forall|sq: (usize, usize)| #[trigger]
                r@.contains(sq) <==> (sq.0 < 8 && sq.1 < 8 && candidate(
                    self@,
                    coords.0 as int,
                    coords.1 as int,
                    sq.0 as int,
                    sq.1 as int,
                ) && valid_move(self@, coords.0 as int, coords.1 as int, sq.0 as int, sq.1 as int)),
            forall|k1: int, k2: int|
                #![trigger r@[k1], r@[k2]]
                0 <= k1 < k2 < r@.len() ==> r@[k1].0 * 8 + r@[k1].1 < r@[k2].0 * 8 + r@[k2].1,
    {
        let x = self.piece_colour(coords);
        let mut out: Vec<(usize, usize)> = Vec::new();
        let mut idx: usize = 0;
        while idx < 64
            invariant
                idx <= 64,
                self@.wf(),
                self@.counter < usize::MAX,
                coords.0 < 8 && coords.1 < 8,
                at(self@.board, coords.0 as int, coords.1 as int) != Pieces::Empty,
                at(self@.board, coords.0 as int, coords.1 as int).colour_spec() == Some(x),
                forall|sq: (usize, usize)| #[trigger]
                    out@.contains(sq) <==> (sq.0 < 8 && sq.1 < 8 && sq.0 * 8 + sq.1 < idx
                        && candidate(
                        self@,
                        coords.0 as int,
                        coords.1 as int,
                        sq.0 as int,
                        sq.1 as int,
                    ) && valid_move(
                        self@,
                        coords.0 as int,
                        coords.1 as int,
                        sq.0 as int,
                        sq.1 as int,
                    )),
                forall|k: int|
                    0 <= k < out@.len() ==> (#[trigger] out@[k]).0 < 8 && out@[k].1 < 8 && out@[k].0
                        * 8 + out@[k].1 < idx,
                forall|k1: int, k2: int|
                    #![trigger out@[k1], out@[k2]]
                    0 <= k1 < k2 < out@.len() ==> out@[k1].0 * 8 + out@[k1].1 < out@[k2].0 * 8
                        + out@[k2].1,
            decreases 64 - idx,
        {
            let fr = idx / 8;
            let fc = idx % 8;
            assert(fr * 8 + fc == idx && fr < 8 && fc < 8);
            let keep = self.probe_move(x, coords, (fr, fc));
            if keep {
                let ghost out0 = out@;
                out.push((fr, fc));
                assert forall|sq: (usize, usize)| #[trigger]
                    out@.contains(sq) implies (sq.0 < 8 && sq.1 < 8 && sq.0 * 8 + sq.1 < idx + 1
                    && candidate(self@, coords.0 as int, coords.1 as int, sq.0 as int, sq.1 as int)
                    && valid_move(
                    self@,
                    coords.0 as int,
                    coords.1 as int,
                    sq.0 as int,
                    sq.1 as int,
                )) by {
                    let j = choose|j: int| 0 <= j < out@.len() && out@[j] == sq;
                    if j < out0.len() {
                        assert(out0[j] == sq);
                        assert(out0.contains(sq));
                    } else {
                        assert(sq == (fr, fc));
                    }
                }
                assert forall|sq: (usize, usize)|
                    (sq.0 < 8 && sq.1 < 8 && sq.0 * 8 + sq.1 < idx + 1 && candidate(
                        self@,
                        coords.0 as int,
                        coords.1 as int,
                        sq.0 as int,
                        sq.1 as int,
                    ) && valid_move(
                        self@,
                        coords.0 as int,
                        coords.1 as int,
                        sq.0 as int,
                        sq.1 as int,
                    )) implies #[trigger] out@.contains(sq) by {
                    if sq.0 * 8 + sq.1 < idx {
                        assert(out0.contains(sq));
                        let j = choose|j: int| 0 <= j < out0.len() && out0[j] == sq;
                        assert(out@[j] == sq);
                    } else {
                        assert(sq == (fr, fc));
                        assert(out@[out@.len() - 1] == sq);
                    }
                }
            } else {
                assert forall|sq: (usize, usize)|
                    (sq.0 < 8 && sq.1 < 8 && sq.0 * 8 + sq.1 < idx + 1 && candidate(
                        self@,
                        coords.0 as int,
                        coords.1 as int,
                        sq.0 as int,
                        sq.1 as int,
                    ) && valid_move(
                        self@,
                        coords.0 as int,
                        coords.1 as int,
                        sq.0 as int,
                        sq.1 as int,
                    )) implies #[trigger] out@.contains(sq) by {
                    assert(sq.0 * 8 + sq.1 != idx);
                }
            }
            idx = idx + 1;
        }
        out
    }

    /// Whether the piece on `coords` has any legal move at all.
    pub fn find_valid_move(&self, coords: (usize, usize)) -> (r: bool)
        requires
            self@.wf(),
            coords.0 < 8 && coords.1 < 8,
            at(self@.board, coords.0 as int, coords.1 as int) != Pieces::Empty,
            self@.counter < usize::MAX,
        ensures
            r == piece_has_move(self@, coords.0 as int, coords.1 as int),
    {
        let moves = self.get_valid_moves(coords);
        if moves.len() > 0 {
            let sq = moves[0];
            proof {
                assert(moves@.contains(moves@[0]));
            }
            true
        } else {
            proof {
                if piece_has_move(self@, coords.0 as int, coords.1 as int) {
                    let (fr, fc) = choose|fr: int, fc: int|
                        candidate(self@, coords.0 as int, coords.1 as int, fr, fc)
                            && #[trigger] valid_move(self@, coords.0 as int, coords.1 as int, fr, fc);
                    let sq = ((fr as usize), (fc as usize));
                    assert(moves@.contains(sq));
                }
            }
            false
        }
    }

    /// The colour of the (occupied) square `coords`.
    fn piece_colour(&self, coords: (usize, usize)) -> (x: bool)
        requires
            self@.board.len() == 64,
            coords.0 < 8 && coords.1 < 8,
            at(self@.board, coords.0 as int, coords.1 as int) != Pieces::Empty,
        ensures
            at(self@.board, coords.0 as int, coords.1 as int).colour_spec() == Some(x),
    {
        self.board[coords.0 * 8 + coords.1].colour().unwrap()
    }

    /// Plays the probed move on a scratch copy and reports whether it is
    /// accepted and leaves the mover's king safe.
    pub(crate) fn probe_move(&self, x: bool, coords: (usize, usize), dest: (usize, usize)) -> (r: bool)
        requires
            self@.wf(),
            coords.0 < 8 && coords.1 < 8,
            dest.0 < 8 && dest.1 < 8,
            at(self@.board, coords.0 as int, coords.1 as int) != Pieces::Empty,
            at(self@.board, coords.0 as int, coords.1 as int).colour_spec() == Some(x),
            self@.counter < usize::MAX,
        ensures
            r == (candidate(self@, coords.0 as int, coords.1 as int, dest.0 as int, dest.1 as int)
                && valid_move(self@, coords.0 as int, coords.1 as int, dest.0 as int, dest.1 as int)),
    {
        proof {
            reveal(valid_move);
        }
        if !self.is_candidate(coords, dest) {
            return false;
        }
        let mut copy = self.clone();
        match copy.move_piece(coords, dest) {
            Err(_) => false,
            Ok(()) => {
                proof {
                    lemma_own_king_after(
                        self@,
                        coords.0 as int,
                        coords.1 as int,
                        dest.0 as int,
                        dest.1 as int,
                    );
                    assert(x == self@.turn);
                }
                let found = copy.find(Pieces::King(x));
                proof {
                    if found is None {
                        let (kr, kc) = king_square(copy@.board, x);
                        assert(at(copy@.board, kr, kc) == Pieces::King(x));
                        assert(copy@.board[kr * 8 + kc] == Pieces::King(x));
                        assert(false);
                    }
                }
                let sq = found.unwrap();
                proof {
                    crate::game::lemma_king_square_is(copy@.board, x, sq.0 as int, sq.1 as int);
                }
                !copy.check(sq, x)
            },
        }
    }

    /// Whether `dest` belongs to the candidate pattern probed for the
    /// piece on `coords`.
    fn is_candidate(&self, coords: (usize, usize), dest: (usize, usize)) -> (r: bool)
        requires
            self@.board.len() == 64,
            coords.0 < 8 && coords.1 < 8,
            dest.0 < 8 && dest.1 < 8,
        ensures
            r == candidate(self@, coords.0 as int, coords.1 as int, dest.0 as int, dest.1 as int),
    {
        let (ir, ic) = coords;
        let (fr, fc) = dest;
        let dr = if ir >= fr {
            ir - fr
        } else {
            fr - ir
        };
        let dc = if ic >= fc {
            ic - fc
        } else {
            fc - ic
        };
        match self.board[ir * 8 + ic] {
            Pieces::Knight(_) => (dr == 2 && dc == 1) || (dr == 1 && dc == 2),
            Pieces::King(_) => (dr <= 1 && dc <= 1 && !(dr == 0 && dc == 0)) || (fr == ir && (fc
                == (if ic + 2 <= 7 {
                ic + 2
            } else {
                7
            }) || fc == (if ic >= 2 {
                ic - 2
            } else {
                0
            }))),
            Pieces::Pawn(c) => {
                let fwd1 = if c {
                    fr == ir + 1
                } else {
                    fr + 1 == ir
                };
                let fwd2 = if c {
                    fr == ir + 2
                } else {
                    fr + 2 == ir
                };
                (fc == ic && (fwd1 || fwd2)) || (fwd1 && (fc == ic + 1 || fc + 1 == ic))
            },
            Pieces::Bishop(_) => ir != fr && dr == dc,
            Pieces::Rook(_) => (ir == fr || ic == fc) && !(ir == fr && ic == fc),
            Pieces::Queen(_) => ((ir == fr || ic == fc) && !(ir == fr && ic == fc)) || (ir != fr
                && dr == dc),
            Pieces::Empty => false,
        }
    }
}

} // verus!
