use vstd::prelude::*;
use crate::pieces::Pieces;

verus! {

// ---------------------------------------------------------------------------
// Board geometry.
//
// Squares are addressed as (rank, file), each in 0..8; rank 0, file 0 is a1.
// The board is a flat sequence in rank-major order: index = rank * 8 + file.
// ---------------------------------------------------------------------------

pub open spec fn sq_ok(r: int, c: int) -> bool {
    0 <= r < 8 && 0 <= c < 8
}

pub open spec fn at(b: Seq<Pieces>, r: int, c: int) -> Pieces {
    b[r * 8 + c]
}

/// |a - b|
pub open spec fn absd(a: int, b: int) -> int {
    if a >= b {
        a - b
    } else {
        b - a
    }
}

/// The taxicab distance between two squares.
pub open spec fn manhattan(ir: int, ic: int, fr: int, fc: int) -> int {
    absd(ir, fr) + absd(ic, fc)
}

/// A non-trivial move along one rank or one file.
pub open spec fn line_move(ir: int, ic: int, fr: int, fc: int) -> bool {
    (ir == fr || ic == fc) && !(ir == fr && ic == fc)
}

/// A non-trivial move along a diagonal.
pub open spec fn diag_move(ir: int, ic: int, fr: int, fc: int) -> bool {
    ir != fr && absd(ir, fr) == absd(ic, fc)
}

/// A knight's jump: deltas of 1 and 2 in some order.
pub open spec fn knight_move(ir: int, ic: int, fr: int, fc: int) -> bool {
    (absd(ir, fr) == 2 && absd(ic, fc) == 1) || (absd(ir, fr) == 1 && absd(ic, fc) == 2)
}

/// Chebyshev-adjacent: one king step.
pub open spec fn king_adjacent(ir: int, ic: int, fr: int, fc: int) -> bool {
    absd(ir, fr) <= 1 && absd(ic, fc) <= 1 && !(ir == fr && ic == fc)
}

pub open spec fn strictly_between(a: int, x: int, b: int) -> bool {
    (a < x && x < b) || (b < x && x < a)
}

/// (r, c) lies strictly between (ir, ic) and (fr, fc) on the straight or
/// diagonal segment joining them.  Meaningful only for aligned or diagonal
/// endpoint pairs.
pub open spec fn on_segment(ir: int, ic: int, fr: int, fc: int, r: int, c: int) -> bool {
    if ir == fr {
        r == ir && strictly_between(ic, c, fc)
    } else if ic == fc {
        c == ic && strictly_between(ir, r, fr)
    } else {
        strictly_between(ir, r, fr) && strictly_between(ic, c, fc) && absd(ir, r) == absd(ic, c)
    }
}

/// Every square strictly between the two endpoints is empty.
pub open spec fn path_clear(b: Seq<Pieces>, ir: int, ic: int, fr: int, fc: int) -> bool {
    forall|r: int, c: int| #[trigger] on_segment(ir, ic, fr, fc, r, c) ==> at(b, r, c) == Pieces::Empty
}

// ---------------------------------------------------------------------------
// The mathematical model of a game state.
// ---------------------------------------------------------------------------

/// The abstract value of a [`Game`]: the board as a sequence plus the
/// scalar state.  Contracts are stated over this model.
#[verifier::ext_equal]
pub struct Model {
    pub board: Seq<Pieces>,
    /// Castling rights: (colour, side) with side kingside/queenside.
    pub castle_wk: bool,
    pub castle_wq: bool,
    pub castle_bk: bool,
    pub castle_bq: bool,
    pub promotion: char,
    /// `true` while it is White's move.
    pub turn: bool,
    /// The destination square of the latest double pawn step, while an
    /// en-passant reply is still possible.
    pub en_passant: Option<(int, int)>,
    /// Parity counter deciding when the en-passant target expires.
    pub turn_count: int,
    /// Total moves played, for display.
    pub counter: int,
}

pub open spec fn has_king(b: Seq<Pieces>, colour: bool) -> bool {
    exists|r: int, c: int| sq_ok(r, c) && #[trigger] at(b, r, c) == Pieces::King(colour)
}

pub open spec fn one_king(b: Seq<Pieces>, colour: bool) -> bool {
    &&& has_king(b, colour)
    &&& forall|r1: int, c1: int, r2: int, c2: int|
        sq_ok(r1, c1) && sq_ok(r2, c2) && #[trigger] at(b, r1, c1) == Pieces::King(colour)
            && #[trigger] at(b, r2, c2) == Pieces::King(colour) ==> r1 == r2 && c1 == c2
}

/// The square holding the (unique, under `one_king`) king of a colour.
pub open spec fn king_square(b: Seq<Pieces>, colour: bool) -> (int, int) {
    choose|r: int, c: int| sq_ok(r, c) && #[trigger] at(b, r, c) == Pieces::King(colour)
}

/// Under `one_king`, any square holding the king is `king_square`.
pub proof fn lemma_king_square_is(b: Seq<Pieces>, colour: bool, r: int, c: int)
    requires
        one_king(b, colour),
        sq_ok(r, c),
        at(b, r, c) == Pieces::King(colour),
    ensures
        king_square(b, colour) == (r, c),
{
    let (kr, kc) = king_square(b, colour);
    assert(sq_ok(kr, kc) && at(b, kr, kc) == Pieces::King(colour));
}

impl Model {
    /// Well-formedness: a full board, exactly one king a side, a sane
    /// parity counter, and a live en-passant target that names a board
    /// square currently holding a pawn.
    pub open spec fn wf(self) -> bool {
        &&& self.board.len() == 64
        &&& one_king(self.board, true)
        &&& one_king(self.board, false)
        &&& self.turn_count == 0 || self.turn_count == 1
        &&& match self.en_passant {
            Some(sq) => sq_ok(sq.0, sq.1) && (self.turn_count == 1 ==> at(
                self.board,
                sq.0,
                sq.1,
            ) matches Pieces::Pawn(_)),
            None => true,
        }
    }
}

// ---------------------------------------------------------------------------
// The game state.
// ---------------------------------------------------------------------------

/// A chess position together with the bookkeeping that the rules need:
/// castling rights, the en-passant window, whose move it is, and the
/// configured promotion piece.
pub struct Game {
    /// Flat rank-major board, 64 entries.
    pub board: Vec<Pieces>,
    /// White may still castle kingside.
    pub castle_wk: bool,
    /// White may still castle queenside.
    pub castle_wq: bool,
    /// Black may still castle kingside.
    pub castle_bk: bool,
    /// Black may still castle queenside.
    pub castle_bq: bool,
    /// The piece a promoting pawn becomes: one of 'q', 'r', 'b', 'n'.
    pub promotion: char,
    /// `true` while it is White's move.
    pub turn: bool,
    /// Destination of the latest double pawn step, if a reply may still
    /// capture en passant.
    pub en_passant: Option<(usize, usize)>,
    /// Parity counter deciding when the en-passant target expires.
    pub turn_count: usize,
    /// Total moves played, for display.
    pub counter: usize,
}

impl View for Game {
    type V = Model;

    open spec fn view(&self) -> Model {
        Model {
            board: self.board@,
            castle_wk: self.castle_wk,
            castle_wq: self.castle_wq,
            castle_bk: self.castle_bk,
            castle_bq: self.castle_bq,
            promotion: self.promotion,
            turn: self.turn,
            en_passant: match self.en_passant {
                Some(sq) => Some((sq.0 as int, sq.1 as int)),
                None => None,
            },
            turn_count: self.turn_count as int,
            counter: self.counter as int,
        }
    }
}

/// Copies a board vector.
pub(crate) fn clone_board(b: &Vec<Pieces>) -> (r: Vec<Pieces>)
    ensures
        r@ == b@,
{
    let mut out: Vec<Pieces> = Vec::new();
    let mut i: usize = 0;
    while i < b.len()
        invariant
            i <= b.len(),
            out@ == b@.subrange(0, i as int),
        decreases b.len() - i,
    {
        out.push(b[i]);
        i = i + 1;
    }
    assert(out@ =~= b@);
    out
}

impl Clone for Game {
    /// An independent copy with the same model; simulation and search rely
    /// on copies never aliasing the original.
    fn clone(&self) -> (r: Game)
        ensures
            r@ == self@,
    {
        let r = Game {
            board: clone_board(&self.board),
            castle_wk: self.castle_wk,
            castle_wq: self.castle_wq,
            castle_bk: self.castle_bk,
            castle_bq: self.castle_bq,
            promotion: self.promotion,
            turn: self.turn,
            en_passant: self.en_passant,
            turn_count: self.turn_count,
            counter: self.counter,
        };
        assert(r@ =~= self@);
        r
    }
}

// ---------------------------------------------------------------------------
// The standard starting position.
// ---------------------------------------------------------------------------

/// The back-rank piece of `colour` on file `c` in the starting position.
pub open spec fn start_back_rank(colour: bool, c: int) -> Pieces {
    if c == 0 || c == 7 {
        Pieces::Rook(colour)
    } else if c == 1 || c == 6 {
        Pieces::Knight(colour)
    } else if c == 2 || c == 5 {
        Pieces::Bishop(colour)
    } else if c == 3 {
        Pieces::Queen(colour)
    } else {
        Pieces::King(colour)
    }
}

/// What `init` writes to rank `r`, file `c` (it only touches ranks 0, 1, 6
/// and 7).
pub open spec fn start_piece(r: int, c: int) -> Pieces {
    if r == 0 {
        start_back_rank(true, c)
    } else if r == 1 {
        Pieces::Pawn(true)
    } else if r == 6 {
        Pieces::Pawn(false)
    } else {
        start_back_rank(false, c)
    }
}

impl Game {
    /// A fresh game: empty board, full castling rights, White to move,
    /// queen promotion configured.
    pub fn new() -> (g: Game)
        ensures
            g@.board.len() == 64,
            forall|j: int| 0 <= j < 64 ==> g@.board[j] == Pieces::Empty,
            g@.castle_wk && g@.castle_wq && g@.castle_bk && g@.castle_bq,
            g@.promotion == 'q',
            g@.turn,
            g@.en_passant is None,
            g@.turn_count == 0,
            g@.counter == 1,
    {
        let mut board: Vec<Pieces> = Vec::new();
        let mut i: usize = 0;
        while i < 64
            invariant
                i <= 64,
                board@.len() == i,
                forall|j: int| 0 <= j < i ==> board@[j] == Pieces::Empty,
            decreases 64 - i,
        {
            board.push(Pieces::Empty);
            i = i + 1;
        }
        Game {
            board,
            castle_wk: true,
            castle_wq: true,
            castle_bk: true,
            castle_bq: true,
            promotion: 'q',
            turn: true,
            en_passant: None,
            turn_count: 0,
            counter: 1,
        }
    }

    /// Writes the standard starting array onto ranks 0, 1, 6 and 7; the
    /// middle ranks and all other state are left as they are.
    pub fn init(&mut self)
        requires
            old(self)@.board.len() == 64,
        ensures
            final(self)@.board.len() == 64,
            forall|r: int, c: int|
                sq_ok(r, c) && (r == 0 || r == 1 || r == 6 || r == 7) ==> #[trigger] at(
                    final(self)@.board,
                    r,
                    c,
                ) == start_piece(r, c),
            forall|r: int, c: int|
                sq_ok(r, c) && 2 <= r <= 5 ==> #[trigger] at(final(self)@.board, r, c) == at(
                    old(self)@.board,
                    r,
                    c,
                ),
            final(self)@ == (Model { board: final(self)@.board, ..old(self)@ }),
    {
        let mut c: usize = 0;
        while c < 8
            invariant
                c <= 8,
                self.board@.len() == 64,
                self.castle_wk == old(self).castle_wk,
                self.castle_wq == old(self).castle_wq,
                self.castle_bk == old(self).castle_bk,
                self.castle_bq == old(self).castle_bq,
                self.promotion == old(self).promotion,
                self.turn == old(self).turn,
                self.en_passant == old(self).en_passant,
                self.turn_count == old(self).turn_count,
                self.counter == old(self).counter,
                forall|j: int|
                    0 <= j < c ==> self.board@[j] == start_back_rank(true, j)
                        && self.board@[8 + j] == Pieces::Pawn(true)
                        && self.board@[48 + j] == Pieces::Pawn(false)
                        && self.board@[56 + j] == start_back_rank(false, j),
                forall|j: int|
                    0 <= j < 64 && !(j < c || (8 <= j < 8 + c) || (48 <= j < 48 + c) || (56 <= j < 56
                        + c)) ==> self.board@[j] == old(self)@.board[j],
            decreases 8 - c,
    {
        let p = back_rank_piece(true, c);
        self.board.set(c, p);
        let p = back_rank_piece(false, c);
        self.board.set(56 + c, p);
        self.board.set(8 + c, Pieces::Pawn(true));
        self.board.set(48 + c, Pieces::Pawn(false));
        c = c + 1;
    }
        assert forall|r: int, c2: int|
            sq_ok(r, c2) && (r == 0 || r == 1 || r == 6 || r == 7) implies #[trigger] at(
            self@.board,
            r,
            c2,
        ) == start_piece(r, c2) by {
            assert(r * 8 == 8 * r);
        }
        assert(self@ =~= Model { board: self@.board, ..old(self)@ });
    }

    /// Finds the first square (in rank-major order) holding exactly the
    /// given piece.
    pub fn find(&self, piece: Pieces) -> (r: Option<(usize, usize)>)
        requires
            self@.board.len() == 64,
        ensures
            match r {
                Some(sq) => sq.0 < 8 && sq.1 < 8 && at(self@.board, sq.0 as int, sq.1 as int)
                    == piece && forall|j: int|
                    0 <= j < sq.0 * 8 + sq.1 ==> self@.board[j] != piece,
                None => forall|j: int| 0 <= j < 64 ==> self@.board[j] != piece,
            },
    {
        let mut i: usize = 0;
        while i < 64
            invariant
                i <= 64,
                self@.board.len() == 64,
                forall|j: int| 0 <= j < i ==> self@.board[j] != piece,
            decreases 64 - i,
        {
            if self.board[i] == piece {
                let rr = i / 8;
                let cc = i % 8;
                assert(rr * 8 + cc == i);
                return Some((rr, cc));
            }
            i = i + 1;
        }
        None
    }

    /// The taxicab distance between two squares.
    pub fn distance(i: (usize, usize), f: (usize, usize)) -> (r: usize)
        requires
            i.0 < 8 && i.1 < 8 && f.0 < 8 && f.1 < 8,
        ensures
            r == manhattan(i.0 as int, i.1 as int, f.0 as int, f.1 as int),
    {
        (if i.0 >= f.0 {
            i.0 - f.0
        } else {
            f.0 - i.0
        }) + (if i.1 >= f.1 {
            i.1 - f.1
        } else {
            f.1 - i.1
        })
    }

    /// The squares Chebyshev-adjacent to `coords` that lie on the board,
    /// without repetition.
    pub fn get_surrounding_cells(coords: (usize, usize)) -> (r: Vec<(usize, usize)>)
        requires
            coords.0 < 8 && coords.1 < 8,
        ensures
            forall|sq: (usize, usize)| #[trigger]
                r@.contains(sq) <==> (sq.0 < 8 && sq.1 < 8 && king_adjacent(
                    coords.0 as int,
                    coords.1 as int,
                    sq.0 as int,
                    sq.1 as int,
                )),
            r@.no_duplicates(),
    {
        let (ir, ic) = coords;
        let mut out: Vec<(usize, usize)> = Vec::new();
        let mut k: usize = 0;
        while k < 8
            invariant
                k <= 8,
                ir < 8 && ic < 8,
                forall|sq: (usize, usize)| #[trigger]
                    out@.contains(sq) <==> (sq.0 < 8 && sq.1 < 8 && king_adjacent(
                        ir as int,
                        ic as int,
                        sq.0 as int,
                        sq.1 as int,
                    ) && dir_index(sq.0 - ir as int, sq.1 - ic as int) < k),
                out@.no_duplicates(),
            decreases 8 - k,
        {
            let cand: Option<(usize, usize)> = match k {
                0 => if ir >= 1 && ic >= 1 {
                    Some((ir - 1, ic - 1))
                } else {
                    None
                },
                1 => if ir >= 1 {
                    Some((ir - 1, ic))
                } else {
                    None
                },
                2 => if ir >= 1 && ic + 1 < 8 {
                    Some((ir - 1, ic + 1))
                } else {
                    None
                },
                3 => if ic >= 1 {
                    Some((ir, ic - 1))
                } else {
                    None
                },
                4 => if ic + 1 < 8 {
                    Some((ir, ic + 1))
                } else {
                    None
                },
                5 => if ir + 1 < 8 && ic >= 1 {
                    Some((ir + 1, ic - 1))
                } else {
                    None
                },
                6 => if ir + 1 < 8 {
                    Some((ir + 1, ic))
                } else {
                    None
                },
                _ => if ir + 1 < 8 && ic + 1 < 8 {
                    Some((ir + 1, ic + 1))
                } else {
                    None
                },
            };
            match cand {
                Some(sq) => {
                    proof {
                        assert(dir_index(sq.0 - ir as int, sq.1 - ic as int) == k);
                        assert(!out@.contains(sq));
                    }
                    let ghost out0 = out@;
                    out.push(sq);
                    proof {
                        assert forall|sq2: (usize, usize)| #[trigger]
                            out@.contains(sq2) <==> (sq2.0 < 8 && sq2.1 < 8 && king_adjacent(
                                ir as int,
                                ic as int,
                                sq2.0 as int,
                                sq2.1 as int,
                            ) && dir_index(sq2.0 - ir as int, sq2.1 - ic as int) < k + 1) by {
                            if out@.contains(sq2) {
                                let j = choose|j: int| 0 <= j < out@.len() && out@[j] == sq2;
                                if j < out0.len() {
                                    assert(out0[j] == sq2);
                                    assert(out0.contains(sq2));
                                }
                            }
                            if sq2.0 < 8 && sq2.1 < 8 && king_adjacent(
                                ir as int,
                                ic as int,
                                sq2.0 as int,
                                sq2.1 as int,
                            ) && dir_index(sq2.0 - ir as int, sq2.1 - ic as int) < k + 1 {
                                if dir_index(sq2.0 - ir as int, sq2.1 - ic as int) < k {
                                    assert(out0.contains(sq2));
                                    let j = choose|j: int| 0 <= j < out0.len() && out0[j] == sq2;
                                    assert(out@[j] == sq2);
                                } else {
                                    assert(sq2 == sq);
                                    assert(out@[out@.len() - 1] == sq2);
                                }
                            }
                        }
                    }
                },
                None => {
                    proof {
                        assert forall|sq2: (usize, usize)|
                            (sq2.0 < 8 && sq2.1 < 8 && king_adjacent(
                                ir as int,
                                ic as int,
                                sq2.0 as int,
                                sq2.1 as int,
                            ) && dir_index(sq2.0 - ir as int, sq2.1 - ic as int) < k
                                + 1) implies #[trigger] out@.contains(sq2) by {
                            assert(dir_index(sq2.0 - ir as int, sq2.1 - ic as int) != k);
                        }
                    }
                },
            }
            k = k + 1;
        }
        out
    }

    /// Whether any square strictly between the two collinear (same rank,
    /// same file, or same diagonal; possibly equal) squares is occupied.
    pub fn pieces_between(&self, i: (usize, usize), f: (usize, usize)) -> (r: bool)
        requires
            self@.board.len() == 64,
            i.0 < 8 && i.1 < 8 && f.0 < 8 && f.1 < 8,
            i.0 == f.0 || i.1 == f.1 || absd(i.0 as int, f.0 as int) == absd(
                i.1 as int,
                f.1 as int,
            ),
        ensures
            r == !path_clear(self@.board, i.0 as int, i.1 as int, f.0 as int, f.1 as int),
    {
        let dr = if i.0 >= f.0 {
            i.0 - f.0
        } else {
            f.0 - i.0
        };
        let dc = if i.1 >= f.1 {
            i.1 - f.1
        } else {
            f.1 - i.1
        };
        let steps = if dr >= dc {
            dr
        } else {
            dc
        };
        let mut k: usize = 1;
        while k < steps
            invariant
                1 <= k,
                k <= steps || steps == 0,
                self@.board.len() == 64,
                i.0 < 8 && i.1 < 8 && f.0 < 8 && f.1 < 8,
                steps == if absd(i.0 as int, f.0 as int) >= absd(i.1 as int, f.1 as int) {
                    absd(i.0 as int, f.0 as int)
                } else {
                    absd(i.1 as int, f.1 as int)
                },
                i.0 == f.0 || i.1 == f.1 || absd(i.0 as int, f.0 as int) == absd(
                    i.1 as int,
                    f.1 as int,
                ),
                forall|j: int|
                    1 <= j < k ==> #[trigger] at(
                        self@.board,
                        step_r(i.0 as int, f.0 as int, j),
                        step_c(i.1 as int, f.1 as int, j),
                    ) == Pieces::Empty,
            decreases steps - k,
        {
            let rr = if f.0 > i.0 {
                i.0 + k
            } else if f.0 < i.0 {
                i.0 - k
            } else {
                i.0
            };
            let cc = if f.1 > i.1 {
                i.1 + k
            } else if f.1 < i.1 {
                i.1 - k
            } else {
                i.1
            };
            assert(rr as int == step_r(i.0 as int, f.0 as int, k as int));
            assert(cc as int == step_c(i.1 as int, f.1 as int, k as int));
            assert(rr < 8 && cc < 8);
            if self.board[rr * 8 + cc] != Pieces::Empty {
                assert(on_segment(
                    i.0 as int,
                    i.1 as int,
                    f.0 as int,
                    f.1 as int,
                    rr as int,
                    cc as int,
                ));
                return true;
            }
            k = k + 1;
        }
        proof {
            assert forall|r: int, c: int|
                #[trigger] on_segment(i.0 as int, i.1 as int, f.0 as int, f.1 as int, r, c) implies at(
                self@.board,
                r,
                c,
            ) == Pieces::Empty by {
                let j = if i.0 as int != f.0 as int {
                    absd(i.0 as int, r)
                } else {
                    absd(i.1 as int, c)
                };
                assert(1 <= j < steps);
                assert(r == step_r(i.0 as int, f.0 as int, j));
                assert(c == step_c(i.1 as int, f.1 as int, j));
            }
        }
        false
    }
}

/// The position of a king-step direction in the scan order used by
/// `get_surrounding_cells` (8 for anything else).
pub open spec fn dir_index(dr: int, dc: int) -> int {
    if dr == -1 && dc == -1 {
        0
    } else if dr == -1 && dc == 0 {
        1
    } else if dr == -1 && dc == 1 {
        2
    } else if dr == 0 && dc == -1 {
        3
    } else if dr == 0 && dc == 1 {
        4
    } else if dr == 1 && dc == -1 {
        5
    } else if dr == 1 && dc == 0 {
        6
    } else if dr == 1 && dc == 1 {
        7
    } else {
        8
    }
}

/// The rank reached after `k` steps from `ir` toward `fr`.
pub open spec fn step_r(ir: int, fr: int, k: int) -> int {
    if fr > ir {
        ir + k
    } else if fr < ir {
        ir - k
    } else {
        ir
    }
}

/// The file reached after `k` steps from `ic` toward `fc`.
pub open spec fn step_c(ic: int, fc: int, k: int) -> int {
    if fc > ic {
        ic + k
    } else if fc < ic {
        ic - k
    } else {
        ic
    }
}

/// The back-rank piece of `colour` on file `c` in the starting position.
fn back_rank_piece(colour: bool, c: usize) -> (r: Pieces)
    requires
        c < 8,
    ensures
        r == start_back_rank(colour, c as int),
{
    if c == 0 || c == 7 {
        Pieces::Rook(colour)
    } else if c == 1 || c == 6 {
        Pieces::Knight(colour)
    } else if c == 2 || c == 5 {
        Pieces::Bishop(colour)
    } else if c == 3 {
        Pieces::Queen(colour)
    } else {
        Pieces::King(colour)
    }
}

} // verus!
