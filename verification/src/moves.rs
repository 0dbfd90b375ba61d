use vstd::prelude::*;
use crate::attack::{attacked, board_attacked};
use crate::game::{Game, Model, absd, at, clone_board, diag_move, has_king, king_adjacent,
    king_square, knight_move, lemma_king_square_is, line_move, manhattan, on_segment, one_king,
    path_clear, sq_ok};
use crate::pieces::Pieces;

verus! {

/// Why a move request was rejected.  The position is left as it was, apart
/// from the documented permanent effects (an expired en-passant target, and
/// castling rights consumed by moving the king or a home-square rook).
#[derive(Copy, Clone, PartialEq, Eq, Structural, Debug)]
pub enum IllegalMove {
    /// The source square holds no piece.
    EmptySource,
    /// The source piece belongs to the side not to move.
    WrongTurn,
    /// The destination holds a piece of the mover's own colour.
    SameColorCapture,
    /// The move does not fit the piece's movement pattern.
    ShapeIllegal,
    /// The move is shape-legal but would leave the mover's king attacked.
    ExposesOwnKing,
    /// A pawn promotes while the configured promotion character is not one
    /// of 'q', 'r', 'b', 'n'.
    InvalidPromotionChoice,
    /// A move request in text form is not four recognisable characters.
    MalformedMoveText,
}

// ---------------------------------------------------------------------------
// Small geometry of colours.
// ---------------------------------------------------------------------------

/// The forward rank direction of a colour.
pub open spec fn pawn_dir(c: bool) -> int {
    if c {
        1
    } else {
        -1
    }
}

/// The rank a pawn of `c` double-steps from.
pub open spec fn pawn_start_rank(c: bool) -> int {
    if c {
        1
    } else {
        6
    }
}

/// The rank the royal pieces of `c` start on.
pub open spec fn home_rank(c: bool) -> int {
    if c {
        0
    } else {
        7
    }
}

/// The rank a pawn of `c` promotes on.
pub open spec fn last_rank(c: bool) -> int {
    if c {
        7
    } else {
        0
    }
}

pub open spec fn board_idx(r: int, c: int) -> int {
    r * 8 + c
}

pub open spec fn valid_promotion(ch: char) -> bool {
    ch == 'q' || ch == 'r' || ch == 'b' || ch == 'n'
}

/// The piece a valid promotion character names.
pub open spec fn promotion_piece(ch: char, c: bool) -> Pieces {
    if ch == 'q' {
        Pieces::Queen(c)
    } else if ch == 'r' {
        Pieces::Rook(c)
    } else if ch == 'b' {
        Pieces::Bishop(c)
    } else {
        Pieces::Knight(c)
    }
}

// ---------------------------------------------------------------------------
// Shape legality, piece by piece.
// ---------------------------------------------------------------------------

/// A pawn's plain forward step.
pub open spec fn pawn_single_ok(b: Seq<Pieces>, c: bool, ir: int, ic: int, fr: int, fc: int) -> bool {
    ic == fc && fr == ir + pawn_dir(c) && at(b, fr, fc) == Pieces::Empty
}

/// A pawn's double step from its starting rank over an empty square.
pub open spec fn pawn_double_ok(b: Seq<Pieces>, c: bool, ir: int, ic: int, fr: int, fc: int) -> bool {
    &&& ir == pawn_start_rank(c)
    &&& ic == fc
    &&& fr == ir + 2 * pawn_dir(c)
    &&& at(b, ir + pawn_dir(c), ic) == Pieces::Empty
    &&& at(b, fr, fc) == Pieces::Empty
}

/// A pawn's ordinary diagonal capture (one file aside onto an occupied
/// square; the occupant's colour is screened separately).
pub open spec fn pawn_capture_ok(b: Seq<Pieces>, ir: int, ic: int, fr: int, fc: int) -> bool {
    absd(ic, fc) == 1 && at(b, fr, fc) != Pieces::Empty
}

/// The live en-passant target sits one rank behind the destination, from
/// the mover's point of view.
pub open spec fn ep_match(m: Model, c: bool, fr: int, fc: int) -> bool {
    m.en_passant == Some((fr - pawn_dir(c), fc))
}

/// An en-passant capture: one file aside, with a matching target.
pub open spec fn pawn_ep_ok(m: Model, c: bool, ir: int, ic: int, fr: int, fc: int) -> bool {
    absd(ic, fc) == 1 && ep_match(m, c, fr, fc)
}

pub open spec fn pawn_shape_ok(m: Model, c: bool, ir: int, ic: int, fr: int, fc: int) -> bool {
    if manhattan(ir, ic, fr, fc) == 1 {
        pawn_single_ok(m.board, c, ir, ic, fr, fc)
    } else if manhattan(ir, ic, fr, fc) == 2 {
        pawn_double_ok(m.board, c, ir, ic, fr, fc) || pawn_capture_ok(m.board, ir, ic, fr, fc)
            || pawn_ep_ok(m, c, ir, ic, fr, fc)
    } else {
        false
    }
}

/// The shape-legal move removes the doubled-stepped pawn as a side effect.
pub open spec fn is_ep_capture(m: Model, c: bool, ir: int, ic: int, fr: int, fc: int) -> bool {
    &&& manhattan(ir, ic, fr, fc) == 2
    &&& !pawn_double_ok(m.board, c, ir, ic, fr, fc)
    &&& !pawn_capture_ok(m.board, ir, ic, fr, fc)
    &&& pawn_ep_ok(m, c, ir, ic, fr, fc)
}

pub open spec fn castle_right(m: Model, c: bool, kingside: bool) -> bool {
    if c {
        if kingside {
            m.castle_wk
        } else {
            m.castle_wq
        }
    } else {
        if kingside {
            m.castle_bk
        } else {
            m.castle_bq
        }
    }
}

/// The move request that asks for a castle: the king steps two files from
/// its home square toward file 6 (kingside) or file 2 (queenside).
pub open spec fn is_castle_move(c: bool, ir: int, ic: int, fr: int, fc: int) -> bool {
    ir == home_rank(c) && ic == 4 && fr == home_rank(c) && (fc == 6 || fc == 2)
}

/// Castling is available: the right is still held, the rook is home, every
/// square between king and rook is empty, and the king neither stands in
/// check nor crosses nor lands on an attacked square.
pub open spec fn castle_ok(m: Model, c: bool, kingside: bool) -> bool {
    let hr = home_rank(c);
    let rookc: int = if kingside {
        7
    } else {
        0
    };
    let transit: int = if kingside {
        5
    } else {
        3
    };
    let landing: int = if kingside {
        6
    } else {
        2
    };
    &&& castle_right(m, c, kingside)
    &&& at(m.board, hr, rookc) == Pieces::Rook(c)
    &&& path_clear(m.board, hr, 4, hr, rookc)
    &&& !attacked(m.board, hr, 4, c)
    &&& !attacked(m.board, hr, transit, c)
    &&& !attacked(m.board, hr, landing, c)
}

pub open spec fn king_shape_ok(m: Model, c: bool, ir: int, ic: int, fr: int, fc: int) -> bool {
    if king_adjacent(ir, ic, fr, fc) {
        true
    } else if is_castle_move(c, ir, ic, fr, fc) {
        castle_ok(m, c, fc == 6)
    } else {
        false
    }
}

/// Whether the raw (from, to) request fits the movement pattern of the
/// piece on the source square, against the current position.
pub open spec fn shape_ok(m: Model, ir: int, ic: int, fr: int, fc: int) -> bool {
    let b = m.board;
    match at(b, ir, ic) {
        Pieces::Pawn(c) => pawn_shape_ok(m, c, ir, ic, fr, fc),
        Pieces::King(c) => king_shape_ok(m, c, ir, ic, fr, fc),
        Pieces::Rook(_) => line_move(ir, ic, fr, fc) && path_clear(b, ir, ic, fr, fc),
        Pieces::Bishop(_) => diag_move(ir, ic, fr, fc) && path_clear(b, ir, ic, fr, fc),
        Pieces::Queen(_) => (line_move(ir, ic, fr, fc) || diag_move(ir, ic, fr, fc)) && path_clear(
            b,
            ir,
            ic,
            fr,
            fc,
        ),
        Pieces::Knight(_) => knight_move(ir, ic, fr, fc),
        Pieces::Empty => false,
    }
}

// ---------------------------------------------------------------------------
// The state a move leaves behind.
// ---------------------------------------------------------------------------

/// The en-passant target expires at the start of processing once the
/// parity counter has wrapped.
pub open spec fn entry_clear(m: Model) -> Model {
    if m.turn_count == 0 {
        Model { en_passant: None, ..m }
    } else {
        m
    }
}

/// The permanent loss of castling rights that attempting to move a king,
/// or a rook standing on its home square, causes - succeed or fail.
pub open spec fn rights_cleared(m: Model, ir: int, ic: int) -> Model {
    match at(m.board, ir, ic) {
        Pieces::King(c) => if c {
            Model { castle_wk: false, castle_wq: false, ..m }
        } else {
            Model { castle_bk: false, castle_bq: false, ..m }
        },
        Pieces::Rook(c) => if ir == home_rank(c) && ic == 7 {
            if c {
                Model { castle_wk: false, ..m }
            } else {
                Model { castle_bk: false, ..m }
            }
        } else if ir == home_rank(c) && ic == 0 {
            if c {
                Model { castle_wq: false, ..m }
            } else {
                Model { castle_bq: false, ..m }
            }
        } else {
            m
        },
        _ => m,
    }
}

/// The board after the raw move: source emptied, destination set, and the
/// doubly-stepped pawn removed on an en-passant capture.
pub open spec fn sim_board(m: Model, ir: int, ic: int, fr: int, fc: int) -> Seq<Pieces> {
    let p = at(m.board, ir, ic);
    let b1 = m.board.update(board_idx(ir, ic), Pieces::Empty).update(board_idx(fr, fc), p);
    match p {
        Pieces::Pawn(c) => if is_ep_capture(m, c, ir, ic, fr, fc) {
            b1.update(board_idx(fr - pawn_dir(c), fc), Pieces::Empty)
        } else {
            b1
        },
        _ => b1,
    }
}

/// Where the mover's king stands once the raw move is played.
pub open spec fn king_after(m: Model, c: bool, ir: int, ic: int, fr: int, fc: int) -> (int, int) {
    if at(m.board, ir, ic) == Pieces::King(c) {
        (fr, fc)
    } else {
        king_square(m.board, c)
    }
}

/// The raw move would leave the mover's own king attacked.
pub open spec fn exposes_king(m: Model, c: bool, ir: int, ic: int, fr: int, fc: int) -> bool {
    let sb = sim_board(m, ir, ic, fr, fc);
    let kp = king_after(m, c, ir, ic, fr, fc);
    attacked(sb, kp.0, kp.1, c)
}

/// Which failure, if any, the move request meets; checked in order.
pub open spec fn move_error(m: Model, ir: int, ic: int, fr: int, fc: int) -> Option<IllegalMove> {
    let p = at(m.board, ir, ic);
    let mc = entry_clear(m);
    if p == Pieces::Empty {
        Some(IllegalMove::EmptySource)
    } else if p.colour_spec() != Some(m.turn) {
        Some(IllegalMove::WrongTurn)
    } else if at(m.board, fr, fc).colour_spec() == p.colour_spec() {
        Some(IllegalMove::SameColorCapture)
    } else if !shape_ok(mc, ir, ic, fr, fc) {
        Some(IllegalMove::ShapeIllegal)
    } else if p == Pieces::King(m.turn) && is_castle_move(m.turn, ir, ic, fr, fc) {
        None
    } else if exposes_king(mc, m.turn, ir, ic, fr, fc) {
        Some(IllegalMove::ExposesOwnKing)
    } else if (p matches Pieces::Pawn(_)) && fr == last_rank(m.turn) && !valid_promotion(
        m.promotion,
    ) {
        Some(IllegalMove::InvalidPromotionChoice)
    } else {
        None
    }
}

/// The state a rejected request leaves: nothing but the entry expiry of
/// the en-passant target and the permanent rights clearing, depending on
/// how far the checks got.
pub open spec fn after_failure(m: Model, e: IllegalMove, ir: int, ic: int) -> Model {
    match e {
        IllegalMove::EmptySource => m,
        IllegalMove::WrongTurn => entry_clear(m),
        IllegalMove::SameColorCapture => entry_clear(m),
        _ => rights_cleared(entry_clear(m), ir, ic),
    }
}

/// The state an accepted request leaves.
pub open spec fn after_success(m: Model, ir: int, ic: int, fr: int, fc: int) -> Model {
    let c = m.turn;
    let mc = entry_clear(m);
    let m1 = rights_cleared(mc, ir, ic);
    let p = at(m.board, ir, ic);
    if p == Pieces::King(c) && is_castle_move(c, ir, ic, fr, fc) {
        let hr = home_rank(c);
        let rookc: int = if fc == 6 {
            7
        } else {
            0
        };
        let transit: int = if fc == 6 {
            5
        } else {
            3
        };
        let b2 = m.board.update(board_idx(ir, ic), Pieces::Empty).update(
            board_idx(hr, rookc),
            Pieces::Empty,
        ).update(board_idx(hr, transit), Pieces::Rook(c)).update(
            board_idx(fr, fc),
            Pieces::King(c),
        );
        Model {
            board: b2,
            turn: !m.turn,
            turn_count: (m.turn_count + 1) % 2,
            counter: m.counter + 1,
            ..m1
        }
    } else {
        let b2 = sim_board(mc, ir, ic, fr, fc);
        let promotes = (p matches Pieces::Pawn(_)) && fr == last_rank(c);
        let b3 = if promotes {
            b2.update(board_idx(fr, fc), promotion_piece(m.promotion, c))
        } else {
            b2
        };
        let dbl = (p matches Pieces::Pawn(_)) && pawn_double_ok(m.board, c, ir, ic, fr, fc);
        Model {
            board: b3,
            en_passant: if dbl {
                Some((fr, fc))
            } else {
                mc.en_passant
            },
            turn: !m.turn,
            turn_count: if dbl {
                1
            } else {
                (m.turn_count + 1) % 2
            },
            counter: m.counter + 1,
            ..m1
        }
    }
}

/// Where the mover's king stands after an accepted move.
pub open spec fn own_king_after(m: Model, ir: int, ic: int, fr: int, fc: int) -> (int, int) {
    if at(m.board, ir, ic) == Pieces::King(m.turn) {
        (fr, fc)
    } else {
        king_square(m.board, m.turn)
    }
}

/// An accepted move keeps exactly one king of the moving colour on the
/// board, at the expected square.
pub proof fn lemma_own_king_after(m: Model, ir: int, ic: int, fr: int, fc: int)
    requires
        m.wf(),
        sq_ok(ir, ic) && sq_ok(fr, fc),
        move_error(m, ir, ic, fr, fc) is None,
    ensures
        after_success(m, ir, ic, fr, fc).board.len() == 64,
        one_king(after_success(m, ir, ic, fr, fc).board, m.turn),
        king_square(after_success(m, ir, ic, fr, fc).board, m.turn) == own_king_after(
            m,
            ir,
            ic,
            fr,
            fc,
        ),
{
    let c = m.turn;
    let p = at(m.board, ir, ic);
    let a = after_success(m, ir, ic, fr, fc);
    let (kr, kc) = own_king_after(m, ir, ic, fr, fc);
    if p != Pieces::King(c) {
        let (br, bc) = king_square(m.board, c);
        assert(sq_ok(br, bc) && at(m.board, br, bc) == Pieces::King(c));
        assert((kr, kc) == (br, bc));
        // the king's square is not written by the move
        assert(at(m.board, fr, fc).colour_spec() != Some(c));
        if (p matches Pieces::Pawn(_)) && is_ep_capture(entry_clear(m), c, ir, ic, fr, fc) {
            let cap = (fr - pawn_dir(c), fc);
            assert(entry_clear(m).en_passant == Some(cap));
            assert(m.turn_count == 1 && m.en_passant == Some(cap));
            assert(at(m.board, cap.0, cap.1) matches Pieces::Pawn(_));
            assert(cap != (br, bc));
        }
        assert(at(a.board, br, bc) == Pieces::King(c));
    } else {
        assert(at(a.board, fr, fc) == Pieces::King(c));
    }
    assert(sq_ok(kr, kc) && at(a.board, kr, kc) == Pieces::King(c));
    assert forall|r1: int, c1: int|
        sq_ok(r1, c1) && !(r1 == kr && c1 == kc) implies #[trigger] at(a.board, r1, c1)
        != Pieces::King(c) by {
        if at(m.board, r1, c1) == Pieces::King(c) {
            assert(p != Pieces::King(c) ==> (r1, c1) == king_square(m.board, c));
        }
    }
    assert(one_king(a.board, c));
    lemma_king_square_is(a.board, c, kr, kc);
}

/// An accepted move leaves a well-formed position exactly when it does not
/// capture the enemy king (no lawful game offers such a move; the search
/// skips the lines the engine's quirks can open).
pub proof fn lemma_wf_after(m: Model, ir: int, ic: int, fr: int, fc: int)
    requires
        m.wf(),
        sq_ok(ir, ic) && sq_ok(fr, fc),
        move_error(m, ir, ic, fr, fc) is None,
    ensures
        after_success(m, ir, ic, fr, fc).wf() <==> at(m.board, fr, fc) != Pieces::King(!m.turn),
{
    let c = m.turn;
    let p = at(m.board, ir, ic);
    let a = after_success(m, ir, ic, fr, fc);
    let mc = entry_clear(m);
    lemma_own_king_after(m, ir, ic, fr, fc);
    let (er, ec) = king_square(m.board, !c);
    assert(sq_ok(er, ec) && at(m.board, er, ec) == Pieces::King(!c));
    let castles = p == Pieces::King(c) && is_castle_move(c, ir, ic, fr, fc);
    let epcap = (p matches Pieces::Pawn(_)) && is_ep_capture(mc, c, ir, ic, fr, fc);
    if epcap {
        let cap = (fr - pawn_dir(c), fc);
        assert(m.turn_count == 1 && m.en_passant == Some(cap));
        assert(at(m.board, cap.0, cap.1) matches Pieces::Pawn(_));
        assert(cap != (er, ec));
    }
    if castles {
        // the rook's transit and the king's destination lie between king
        // and rook, hence were empty
        let hr = home_rank(c);
        let rookc: int = if fc == 6 {
            7
        } else {
            0
        };
        let transit: int = if fc == 6 {
            5
        } else {
            3
        };
        assert(castle_ok(mc, c, fc == 6));
        assert(on_segment(hr, 4, hr, rookc, hr, transit));
        assert(on_segment(hr, 4, hr, rookc, fr, fc));
        assert(at(m.board, hr, transit) == Pieces::Empty);
        assert(at(m.board, fr, fc) == Pieces::Empty);
        assert(at(a.board, er, ec) == Pieces::King(!c));
    }
    if at(m.board, fr, fc) != Pieces::King(!c) {
        // the enemy king survives, alone among its colour
        assert((fr, fc) != (er, ec));
        assert(at(a.board, er, ec) == Pieces::King(!c));
        assert forall|r1: int, c1: int|
            sq_ok(r1, c1) && !(r1 == er && c1 == ec) implies #[trigger] at(a.board, r1, c1)
            != Pieces::King(!c) by {
            if at(m.board, r1, c1) == Pieces::King(!c) {
                assert(r1 == er && c1 == ec);
            } else {
                assert(p.colour_spec() == Some(c));
            }
        }
        assert(one_king(a.board, !c));
        // the en-passant window a double step opens names the stepped pawn
        if !castles && (p matches Pieces::Pawn(_)) && pawn_double_ok(m.board, c, ir, ic, fr, fc) {
            assert(fr != last_rank(c));
            assert(at(a.board, fr, fc) == p);
        }
        assert(a.wf());
    } else {
        // the enemy king is captured: no square of the new board holds it
        assert((fr, fc) == (er, ec));
        assert(!castles);
        assert forall|r1: int, c1: int| sq_ok(r1, c1) implies #[trigger] at(a.board, r1, c1)
            != Pieces::King(!c) by {
            if at(m.board, r1, c1) == Pieces::King(!c) {
                assert((r1, c1) == (er, ec));
            }
        }
        assert(!has_king(a.board, !c));
        assert(!a.wf());
    }
}

// ---------------------------------------------------------------------------
// The engine.
// ---------------------------------------------------------------------------

impl Game {
    /// Reads the board at (r, c).
    pub(crate) fn piece_at(&self, r: usize, c: usize) -> (p: Pieces)
        requires
            self@.board.len() == 64,
            r < 8,
            c < 8,
        ensures
            p == at(self@.board, r as int, c as int),
    {
        self.board[r * 8 + c]
    }

    /// Computes shape legality along with the two pawn effects the
    /// accepted move would carry: a double step, or an en-passant capture.
    fn shape_and_effects(&self, p: Pieces, x: bool, i: (usize, usize), f: (usize, usize)) -> (res: (
        bool,
        bool,
        bool,
    ))
        requires
            self@.board.len() == 64,
            i.0 < 8 && i.1 < 8 && f.0 < 8 && f.1 < 8,
            at(self@.board, i.0 as int, i.1 as int) == p,
            p.colour_spec() == Some(x),
            (self@.en_passant matches Some(sq) ==> sq_ok(sq.0, sq.1)),
        ensures
            res.0 == shape_ok(self@, i.0 as int, i.1 as int, f.0 as int, f.1 as int),
            res.1 == ((p matches Pieces::Pawn(_)) && pawn_double_ok(
                self@.board,
                x,
                i.0 as int,
                i.1 as int,
                f.0 as int,
                f.1 as int,
            )),
            res.2 == ((p matches Pieces::Pawn(_)) && is_ep_capture(
                self@,
                x,
                i.0 as int,
                i.1 as int,
                f.0 as int,
                f.1 as int,
            )),
    {
        let (ir, ic) = i;
        let (fr, fc) = f;
        match p {
            Pieces::Pawn(_) => {
                let d = Game::distance(i, f);
                if d == 1 {
                    let single = ic == fc && (if x {
                        fr == ir + 1
                    } else {
                        ir == fr + 1
                    }) && self.piece_at(fr, fc) == Pieces::Empty;
                    (single, false, false)
                } else if d == 2 {
                    let dbl = (if x {
                        ir == 1 && fr == 3
                    } else {
                        ir == 6 && fr == 4
                    }) && ic == fc && self.piece_at(
                        if x {
                            2
                        } else {
                            5
                        },
                        ic,
                    ) == Pieces::Empty && self.piece_at(fr, fc) == Pieces::Empty;
                    let diag = if ic >= fc {
                        ic - fc == 1
                    } else {
                        fc - ic == 1
                    };
                    let capture = diag && self.piece_at(fr, fc) != Pieces::Empty;
                    let ep = diag && (match self.en_passant {
                        Some(sq) => (if x {
                            fr >= 1 && sq.0 == fr - 1
                        } else {
                            sq.0 == fr + 1
                        }) && sq.1 == fc,
                        None => false,
                    });
                    (dbl || capture || ep, dbl, !dbl && !capture && ep)
                } else {
                    (false, false, false)
                }
            },
            Pieces::King(_) => {
                let dr = if ir >= fr {
                    ir - fr
                } else {
                    fr - ir
                };
                let dc = if ic >= fc {
                    ic - fc
                } else {
                    fc - ic
                };
                if dr <= 1 && dc <= 1 && !(dr == 0 && dc == 0) {
                    (true, false, false)
                } else {
                    let hr: usize = if x {
                        0
                    } else {
                        7
                    };
                    if ir == hr && ic == 4 && fr == hr && (fc == 6 || fc == 2) {
                        let kingside = fc == 6;
                        let right = if x {
                            if kingside {
                                self.castle_wk
                            } else {
                                self.castle_wq
                            }
                        } else {
                            if kingside {
                                self.castle_bk
                            } else {
                                self.castle_bq
                            }
                        };
                        let rookc: usize = if kingside {
                            7
                        } else {
                            0
                        };
                        let ok = right && self.piece_at(hr, rookc) == Pieces::Rook(x)
                            && !self.pieces_between((hr, 4), (hr, rookc)) && !board_attacked(
                            &self.board,
                            hr,
                            4,
                            x,
                        ) && !board_attacked(
                            &self.board,
                            hr,
                            if kingside {
                                5
                            } else {
                                3
                            },
                            x,
                        ) && !board_attacked(
                            &self.board,
                            hr,
                            if kingside {
                                6
                            } else {
                                2
                            },
                            x,
                        );
                        (ok, false, false)
                    } else {
                        (false, false, false)
                    }
                }
            },
            Pieces::Rook(_) => {
                let aligned = (ir == fr || ic == fc) && !(ir == fr && ic == fc);
                (aligned && !self.pieces_between(i, f), false, false)
            },
            Pieces::Bishop(_) => {
                let dr = if ir >= fr {
                    ir - fr
                } else {
                    fr - ir
                };
                let dc = if ic >= fc {
                    ic - fc
                } else {
                    fc - ic
                };
                let diagonal = ir != fr && dr == dc;
                (diagonal && !self.pieces_between(i, f), false, false)
            },
            Pieces::Queen(_) => {
                let dr = if ir >= fr {
                    ir - fr
                } else {
                    fr - ir
                };
                let dc = if ic >= fc {
                    ic - fc
                } else {
                    fc - ic
                };
                let aligned = (ir == fr || ic == fc) && !(ir == fr && ic == fc);
                let diagonal = ir != fr && dr == dc;
                ((aligned || diagonal) && !self.pieces_between(i, f), false, false)
            },
            Pieces::Knight(_) => {
                let dr = if ir >= fr {
                    ir - fr
                } else {
                    fr - ir
                };
                let dc = if ic >= fc {
                    ic - fc
                } else {
                    fc - ic
                };
                ((dr == 2 && dc == 1) || (dr == 1 && dc == 2), false, false)
            },
            Pieces::Empty => (false, false, false),
        }
    }

    /// Validates and, when accepted, plays the move from `i` to `f` for
    /// the side to move: captures, castling, en passant and promotion
    /// included, the turn passing to the opponent.  A rejected request
    /// reports its reason and leaves the position unchanged apart from the
    /// entry expiry of the en-passant target and the permanent castling-
    /// rights clearing that king and home-rook attempts cause.
    #[verifier::rlimit(100)]
    pub fn move_piece(&mut self, i: (usize, usize), f: (usize, usize)) -> (r: Result<
        (),
        IllegalMove,
    >)
        requires
            old(self)@.wf(),
            i.0 < 8 && i.1 < 8 && f.0 < 8 && f.1 < 8,
            old(self)@.counter < usize::MAX,
        ensures
            (match r {
                Ok(()) => move_error(old(self)@, i.0 as int, i.1 as int, f.0 as int, f.1 as int)
                    is None && final(self)@ == after_success(
                    old(self)@,
                    i.0 as int,
                    i.1 as int,
                    f.0 as int,
                    f.1 as int,
                ),
                Err(e) => Some(e) == move_error(
                    old(self)@,
                    i.0 as int,
                    i.1 as int,
                    f.0 as int,
                    f.1 as int,
                ) && final(self)@ == after_failure(old(self)@, e, i.0 as int, i.1 as int),
            }),
    {
        let ghost m0 = self@;
        let (ir, ic) = i;
        let (fr, fc) = f;
        let p = self.piece_at(ir, ic);
        if p == Pieces::Empty {
            return Err(IllegalMove::EmptySource);
        }
        if self.turn_count == 0 {
            self.en_passant = None;
        }
        proof {
            assert(self@ =~= entry_clear(m0));
        }
        let ghost mc = entry_clear(m0);
        let x = p.colour().unwrap();
        if x != self.turn {
            return Err(IllegalMove::WrongTurn);
        }
        let pf = self.piece_at(fr, fc);
        let same_colour = match pf.colour() {
            Some(y) => y == x,
            None => false,
        };
        if same_colour {
            return Err(IllegalMove::SameColorCapture);
        }
        let (shape, dbl, epcap) = self.shape_and_effects(p, x, i, f);
        // moving a king, or a rook off its home square, consumes the
        // castling rights for good, accepted or not
        match p {
            Pieces::King(kc) => {
                if kc {
                    self.castle_wk = false;
                    self.castle_wq = false;
                } else {
                    self.castle_bk = false;
                    self.castle_bq = false;
                }
            },
            Pieces::Rook(rc) => {
                let hr: usize = if rc {
                    0
                } else {
                    7
                };
                if ir == hr && ic == 7 {
                    if rc {
                        self.castle_wk = false;
                    } else {
                        self.castle_bk = false;
                    }
                } else if ir == hr && ic == 0 {
                    if rc {
                        self.castle_wq = false;
                    } else {
                        self.castle_bq = false;
                    }
                }
            },
            _ => {},
        }
        proof {
            assert(self@ =~= rights_cleared(mc, ir as int, ic as int));
            assert(rights_cleared(mc, ir as int, ic as int) =~= rights_cleared(
                entry_clear(m0),
                ir as int,
                ic as int,
            ));
        }
        if !shape {
            return Err(IllegalMove::ShapeIllegal);
        }
        // a castle was fully validated by the shape check and relocates
        // both king and rook at once
        let is_castle = match p {
            Pieces::King(_) => {
                let hr: usize = if x {
                    0
                } else {
                    7
                };
                ir == hr && ic == 4 && fr == hr && (fc == 6 || fc == 2)
            },
            _ => false,
        };
        if is_castle {
            self.commit_castle(x, i, f, Ghost(m0));
            return Ok(());
        }
        // simulate the raw move and reject it if the mover's own king
        // would stand attacked
        if self.raw_move_exposes(p, x, epcap, i, f, Ghost(m0)) {
            return Err(IllegalMove::ExposesOwnKing);
        }
        // promotion of a pawn reaching its far rank
        let promotes = match p {
            Pieces::Pawn(_) => fr == (if x {
                7
            } else {
                0
            }),
            _ => false,
        };
        let placed = if promotes {
            if self.promotion == 'q' {
                Pieces::Queen(x)
            } else if self.promotion == 'r' {
                Pieces::Rook(x)
            } else if self.promotion == 'b' {
                Pieces::Bishop(x)
            } else if self.promotion == 'n' {
                Pieces::Knight(x)
            } else {
                return Err(IllegalMove::InvalidPromotionChoice);
            }
        } else {
            p
        };
        self.commit_move(p, x, placed, dbl, epcap, i, f, Ghost(m0));
        Ok(())
    }

    /// Simulates the raw move on a scratch board and reports whether it
    /// leaves the mover's own king attacked.
    fn raw_move_exposes(
        &self,
        p: Pieces,
        x: bool,
        epcap: bool,
        i: (usize, usize),
        f: (usize, usize),
        Ghost(m0): Ghost<Model>,
    ) -> (r: bool)
        requires
            self@.board == m0.board,
            m0.wf(),
            i.0 < 8 && i.1 < 8 && f.0 < 8 && f.1 < 8,
            at(m0.board, i.0 as int, i.1 as int) == p,
            p.colour_spec() == Some(x),
            epcap == ((p matches Pieces::Pawn(_)) && is_ep_capture(
                entry_clear(m0),
                x,
                i.0 as int,
                i.1 as int,
                f.0 as int,
                f.1 as int,
            )),
        ensures
            r == exposes_king(entry_clear(m0), x, i.0 as int, i.1 as int, f.0 as int, f.1 as int),
    {
        let ghost mc = entry_clear(m0);
        let (ir, ic) = i;
        let (fr, fc) = f;
        let mut sim = clone_board(&self.board);
        sim.set(ir * 8 + ic, Pieces::Empty);
        sim.set(fr * 8 + fc, p);
        if epcap {
            let capr: usize = if x {
                fr - 1
            } else {
                fr + 1
            };
            sim.set(capr * 8 + fc, Pieces::Empty);
        }
        proof {
            assert(sim@ =~= sim_board(mc, ir as int, ic as int, fr as int, fc as int));
        }
        let kp: (usize, usize) = match p {
            Pieces::King(_) => f,
            _ => {
                let found = self.find(Pieces::King(x));
                proof {
                    if found is None {
                        let (kr, kc) = king_square(m0.board, x);
                        assert(at(m0.board, kr, kc) == Pieces::King(x));
                        assert(m0.board[kr * 8 + kc] == Pieces::King(x));
                        assert(false);
                    }
                }
                let sq = found.unwrap();
                proof {
                    lemma_king_square_is(m0.board, x, sq.0 as int, sq.1 as int);
                }
                sq
            },
        };
        proof {
            assert((kp.0 as int, kp.1 as int) == king_after(
                mc,
                x,
                ir as int,
                ic as int,
                fr as int,
                fc as int,
            ));
        }
        board_attacked(&sim, kp.0, kp.1, x)
    }

    /// Relocates king and rook for a validated castle and passes the turn.
    fn commit_castle(&mut self, x: bool, i: (usize, usize), f: (usize, usize), Ghost(m0): Ghost<
        Model,
    >)
        requires
            old(self)@ == rights_cleared(entry_clear(m0), i.0 as int, i.1 as int),
            old(self)@.board.len() == 64,
            i.0 < 8 && i.1 < 8 && f.0 < 8 && f.1 < 8,
            at(m0.board, i.0 as int, i.1 as int) == Pieces::King(x),
            m0.turn == x,
            is_castle_move(x, i.0 as int, i.1 as int, f.0 as int, f.1 as int),
            m0.turn_count == 0 || m0.turn_count == 1,
            m0.counter < usize::MAX,
        ensures
            final(self)@ == after_success(m0, i.0 as int, i.1 as int, f.0 as int, f.1 as int),
    {
        let (ir, ic) = i;
        let (fr, fc) = f;
        let hr: usize = if x {
            0
        } else {
            7
        };
        let rookc: usize = if fc == 6 {
            7
        } else {
            0
        };
        let transit: usize = if fc == 6 {
            5
        } else {
            3
        };
        self.board.set(ir * 8 + ic, Pieces::Empty);
        self.board.set(hr * 8 + rookc, Pieces::Empty);
        self.board.set(hr * 8 + transit, Pieces::Rook(x));
        self.board.set(fr * 8 + fc, Pieces::King(x));
        self.turn_count = (self.turn_count + 1) % 2;
        self.turn = !self.turn;
        self.counter = self.counter + 1;
        proof {
            assert(self@.board =~= after_success(
                m0,
                ir as int,
                ic as int,
                fr as int,
                fc as int,
            ).board);
            assert(self@ =~= after_success(m0, ir as int, ic as int, fr as int, fc as int));
        }
    }

    /// Writes an accepted non-castling move onto the board and passes the
    /// turn: the source is emptied, the destination receives the moved or
    /// promoted piece, an en-passant capture removes the passed pawn, and
    /// a double step opens the en-passant window.
    fn commit_move(
        &mut self,
        p: Pieces,
        x: bool,
        placed: Pieces,
        dbl: bool,
        epcap: bool,
        i: (usize, usize),
        f: (usize, usize),
        Ghost(m0): Ghost<Model>,
    )
        requires
            old(self)@ == rights_cleared(entry_clear(m0), i.0 as int, i.1 as int),
            old(self)@.board.len() == 64,
            i.0 < 8 && i.1 < 8 && f.0 < 8 && f.1 < 8,
            at(m0.board, i.0 as int, i.1 as int) == p,
            p.colour_spec() == Some(x),
            m0.turn == x,
            !(p == Pieces::King(x) && is_castle_move(
                x,
                i.0 as int,
                i.1 as int,
                f.0 as int,
                f.1 as int,
            )),
            dbl == ((p matches Pieces::Pawn(_)) && pawn_double_ok(
                m0.board,
                x,
                i.0 as int,
                i.1 as int,
                f.0 as int,
                f.1 as int,
            )),
            epcap == ((p matches Pieces::Pawn(_)) && is_ep_capture(
                entry_clear(m0),
                x,
                i.0 as int,
                i.1 as int,
                f.0 as int,
                f.1 as int,
            )),
            (entry_clear(m0).en_passant matches Some(sq) ==> sq_ok(sq.0, sq.1)),
            placed == (if (p matches Pieces::Pawn(_)) && f.0 as int == last_rank(x) {
                promotion_piece(m0.promotion, x)
            } else {
                p
            }),
            m0.turn_count == 0 || m0.turn_count == 1,
            m0.counter < usize::MAX,
        ensures
            final(self)@ == after_success(m0, i.0 as int, i.1 as int, f.0 as int, f.1 as int),
    {
        let (ir, ic) = i;
        let (fr, fc) = f;
        self.board.set(ir * 8 + ic, Pieces::Empty);
        self.board.set(fr * 8 + fc, placed);
        if epcap {
            let capr: usize = if x {
                fr - 1
            } else {
                fr + 1
            };
            self.board.set(capr * 8 + fc, Pieces::Empty);
        }
        if dbl {
            self.en_passant = Some((fr, fc));
            self.turn_count = 1;
        } else {
            self.turn_count = (self.turn_count + 1) % 2;
        }
        self.turn = !self.turn;
        self.counter = self.counter + 1;
        proof {
            assert(self@.board =~= after_success(
                m0,
                ir as int,
                ic as int,
                fr as int,
                fc as int,
            ).board);
            assert(self@ =~= after_success(m0, ir as int, ic as int, fr as int, fc as int));
        }
    }
}

} // verus!
