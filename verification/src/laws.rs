use vstd::prelude::*;
use crate::attack::{attacked, piece_attacks};
use crate::classify::{State, classify, nonempty_count};
use crate::game::{Model, absd, at, diag_move, king_adjacent, knight_move, line_move, manhattan,
    on_segment, path_clear, sq_ok};
use crate::moves::{IllegalMove, after_failure, after_success, entry_clear, home_rank,
    is_castle_move, castle_ok, move_error, pawn_dir, pawn_double_ok,
    rights_cleared};
use crate::pieces::Pieces;

verus! {

// ---------------------------------------------------------------------------
// The attack scan agrees with capturability.
// ---------------------------------------------------------------------------

/// The piece on (ar, ac) could, by the engine's shape rules alone, play a
/// capturing move onto (tr, tc): own-king safety, the turn, and the
/// occupant of the target are all ignored.
pub open spec fn capture_shape(b: Seq<Pieces>, ar: int, ac: int, tr: int, tc: int) -> bool {
    match at(b, ar, ac) {
        Pieces::Pawn(_) => manhattan(ar, ac, tr, tc) == 2 && absd(ac, tc) == 1,
        Pieces::King(_) => king_adjacent(ar, ac, tr, tc),
        Pieces::Knight(_) => knight_move(ar, ac, tr, tc),
        Pieces::Rook(_) => line_move(ar, ac, tr, tc) && path_clear(b, ar, ac, tr, tc),
        Pieces::Bishop(_) => diag_move(ar, ac, tr, tc) && path_clear(b, ar, ac, tr, tc),
        Pieces::Queen(_) => (line_move(ar, ac, tr, tc) || diag_move(ar, ac, tr, tc)) && path_clear(
            b,
            ar,
            ac,
            tr,
            tc,
        ),
        Pieces::Empty => false,
    }
}

/// A clear path reads the same from either end of an aligned or diagonal
/// pair of squares.
pub proof fn lemma_path_clear_sym(b: Seq<Pieces>, ir: int, ic: int, fr: int, fc: int)
    requires
        line_move(ir, ic, fr, fc) || diag_move(ir, ic, fr, fc),
    ensures
        path_clear(b, ir, ic, fr, fc) == path_clear(b, fr, fc, ir, ic),
{
    assert forall|r: int, c: int| #[trigger]
        on_segment(ir, ic, fr, fc, r, c) == on_segment(fr, fc, ir, ic, r, c) by {}
    assert(path_clear(b, ir, ic, fr, fc) ==> path_clear(b, fr, fc, ir, ic)) by {
        if path_clear(b, ir, ic, fr, fc) {
            assert forall|r: int, c: int| #[trigger] on_segment(fr, fc, ir, ic, r, c) implies at(
                b,
                r,
                c,
            ) == Pieces::Empty by {
                assert(on_segment(ir, ic, fr, fc, r, c));
            }
        }
    }
    assert(path_clear(b, fr, fc, ir, ic) ==> path_clear(b, ir, ic, fr, fc)) by {
        if path_clear(b, fr, fc, ir, ic) {
            assert forall|r: int, c: int| #[trigger] on_segment(ir, ic, fr, fc, r, c) implies at(
                b,
                r,
                c,
            ) == Pieces::Empty by {
                assert(on_segment(fr, fc, ir, ic, r, c));
            }
        }
    }
}

/// The attack scan is exactly "some enemy piece could capture this
/// square, ignoring its own king's safety" - on boards without an enemy
/// pawn a backward step away, since the engine alone accepts a pawn
/// capture toward its own side while the scan only counts forward
/// strikes.
pub proof fn lemma_attacked_is_capture_reach(b: Seq<Pieces>, tr: int, tc: int, c: bool)
    requires
        b.len() == 64,
        sq_ok(tr, tc),
        forall|ar: int, ac: int|
            sq_ok(ar, ac) && ar == tr + pawn_dir(!c) && absd(ac, tc) == 1 ==> #[trigger] at(
                b,
                ar,
                ac,
            ) != Pieces::Pawn(!c),
    ensures
        attacked(b, tr, tc, c) <==> exists|ar: int, ac: int|
            sq_ok(ar, ac) && at(b, ar, ac).colour_spec() == Some(!c) && #[trigger] capture_shape(
                b,
                ar,
                ac,
                tr,
                tc,
            ),
{
    if attacked(b, tr, tc, c) {
        let (ar, ac) = choose|ar: int, ac: int|
            sq_ok(ar, ac) && at(b, ar, ac).colour_spec() == Some(!c) && #[trigger] piece_attacks(
                b,
                ar,
                ac,
                tr,
                tc,
            );
        match at(b, ar, ac) {
            Pieces::Rook(_) | Pieces::Bishop(_) | Pieces::Queen(_) => {
                lemma_path_clear_sym(b, ar, ac, tr, tc);
            },
            _ => {},
        }
        assert(capture_shape(b, ar, ac, tr, tc));
    }
    if exists|ar: int, ac: int|
        sq_ok(ar, ac) && at(b, ar, ac).colour_spec() == Some(!c) && #[trigger] capture_shape(
            b,
            ar,
            ac,
            tr,
            tc,
        ) {
        let (ar, ac) = choose|ar: int, ac: int|
            sq_ok(ar, ac) && at(b, ar, ac).colour_spec() == Some(!c) && #[trigger] capture_shape(
                b,
                ar,
                ac,
                tr,
                tc,
            );
        match at(b, ar, ac) {
            Pieces::Rook(_) | Pieces::Bishop(_) | Pieces::Queen(_) => {
                lemma_path_clear_sym(b, ar, ac, tr, tc);
            },
            Pieces::Pawn(x) => {
                assert(absd(ar, tr) == 1);
                if tr != ar + pawn_dir(x) {
                    assert(ar == tr + pawn_dir(!c));
                    assert(false);
                }
            },
            _ => {},
        }
        assert(piece_attacks(b, ar, ac, tr, tc));
    }
}

// ---------------------------------------------------------------------------
// The en-passant window opens for exactly one ply.
// ---------------------------------------------------------------------------

/// After a double pawn step, an enemy pawn beside the arrival square may
/// capture en passant at once (provided the reply leaves its own king
/// safe), and doing so removes the doubly-stepped pawn.
pub proof fn lemma_en_passant_available(m: Model, ir: int, ic: int, ac: int)
    requires
        m.wf(),
        sq_ok(ir, ic),
        sq_ok(ir + 2 * pawn_dir(m.turn), ac),
        absd(ac, ic) == 1,
        move_error(m, ir, ic, ir + 2 * pawn_dir(m.turn), ic) is None,
        at(m.board, ir, ic) == Pieces::Pawn(m.turn),
        at(m.board, ir + 2 * pawn_dir(m.turn), ac) == Pieces::Pawn(!m.turn),
        !crate::moves::exposes_king(
            after_success(m, ir, ic, ir + 2 * pawn_dir(m.turn), ic),
            !m.turn,
            ir + 2 * pawn_dir(m.turn),
            ac,
            ir + pawn_dir(m.turn),
            ic,
        ),
    ensures
        ({
            let d = pawn_dir(m.turn);
            let m1 = after_success(m, ir, ic, ir + 2 * d, ic);
            &&& move_error(m1, ir + 2 * d, ac, ir + d, ic) is None
            &&& at(after_success(m1, ir + 2 * d, ac, ir + d, ic).board, ir + 2 * d, ic)
                == Pieces::Empty
        }),
{
    let c = m.turn;
    let d = pawn_dir(c);
    let mc = entry_clear(m);
    let m1 = after_success(m, ir, ic, ir + 2 * d, ic);
    // the accepted move was indeed the double step
    assert(pawn_double_ok(m.board, c, ir, ic, ir + 2 * d, ic));
    assert(m1.en_passant == Some((ir + 2 * d, ic)));
    assert(m1.turn_count == 1);
    assert(m1.turn == !c);
    // the capturing pawn still stands beside the arrival square
    assert(at(m1.board, ir + 2 * d, ac) == Pieces::Pawn(!c));
    // the skipped square stays empty
    assert(at(m1.board, ir + d, ic) == Pieces::Empty);
    assert(entry_clear(m1) == m1);
    assert(manhattan(ir + 2 * d, ac, ir + d, ic) == 2);
    assert(crate::moves::pawn_ep_ok(m1, !c, ir + 2 * d, ac, ir + d, ic));
    assert(!crate::moves::pawn_capture_ok(m1.board, ir + 2 * d, ac, ir + d, ic));
    assert(!pawn_double_ok(m1.board, !c, ir + 2 * d, ac, ir + d, ic));
    assert(crate::moves::shape_ok(m1, ir + 2 * d, ac, ir + d, ic));
    assert(crate::moves::is_ep_capture(m1, !c, ir + 2 * d, ac, ir + d, ic));
    assert(ir + d != crate::moves::last_rank(!c));
    assert(move_error(m1, ir + 2 * d, ac, ir + d, ic) is None);
    let m2 = after_success(m1, ir + 2 * d, ac, ir + d, ic);
    assert(at(m2.board, ir + 2 * d, ic) == Pieces::Empty);
}

/// Any accepted reply that is not itself a double step closes the
/// en-passant window: the parity counter returns to its reset point.
pub proof fn lemma_reply_closes_window(m1: Model, ir: int, ic: int, fr: int, fc: int)
    requires
        m1.turn_count == 1,
        move_error(m1, ir, ic, fr, fc) is None,
        !((at(m1.board, ir, ic) matches Pieces::Pawn(_)) && pawn_double_ok(
            m1.board,
            m1.turn,
            ir,
            ic,
            fr,
            fc,
        )),
    ensures
        after_success(m1, ir, ic, fr, fc).turn_count == 0,
{
}

/// Once the parity counter is at its reset point, a pawn's diagonal step
/// onto an empty square is rejected as shape-illegal: the old target, if
/// any, expires at the start of processing and no longer supports the
/// capture.
pub proof fn lemma_en_passant_expires(m2: Model, ar: int, ac: int, fr: int, fc: int)
    requires
        m2.wf(),
        m2.turn_count == 0,
        sq_ok(ar, ac) && sq_ok(fr, fc),
        at(m2.board, ar, ac) == Pieces::Pawn(m2.turn),
        absd(ac, fc) == 1,
        fr == ar + pawn_dir(m2.turn),
        at(m2.board, fr, fc) == Pieces::Empty,
    ensures
        move_error(m2, ar, ac, fr, fc) == Some(IllegalMove::ShapeIllegal),
{
    let mc = entry_clear(m2);
    assert(mc.en_passant is None);
    assert(manhattan(ar, ac, fr, fc) == 2);
    assert(!crate::moves::pawn_ep_ok(mc, m2.turn, ar, ac, fr, fc));
    assert(!crate::moves::shape_ok(mc, ar, ac, fr, fc));
}

// ---------------------------------------------------------------------------
// Castling demands all its conditions at once.
// ---------------------------------------------------------------------------

/// With the king on its home square, the castle request is accepted
/// exactly when every castling condition holds: the right still held, the
/// rook home, the path empty, the king neither in check nor crossing nor
/// landing on an attacked square.  When a condition fails (and the target
/// square does not hold the mover's own piece), the verdict is precisely
/// `ShapeIllegal`.
pub proof fn lemma_castle_requirements(m: Model, kingside: bool)
    requires
        m.wf(),
        at(m.board, home_rank(m.turn), 4) == Pieces::King(m.turn),
    ensures
        ({
            let hr = home_rank(m.turn);
            let fc: int = if kingside {
                6
            } else {
                2
            };
            &&& (move_error(m, hr, 4, hr, fc) is None <==> castle_ok(m, m.turn, kingside))
            &&& (!castle_ok(m, m.turn, kingside) && at(m.board, hr, fc).colour_spec() != Some(
                m.turn,
            ) ==> move_error(m, hr, 4, hr, fc) == Some(IllegalMove::ShapeIllegal))
        }),
{
    let c = m.turn;
    let hr = home_rank(c);
    let fc: int = if kingside {
        6
    } else {
        2
    };
    let mc = entry_clear(m);
    assert(is_castle_move(c, hr, 4, hr, fc));
    assert(!king_adjacent(hr, 4, hr, fc));
    assert(castle_ok(mc, c, kingside) == castle_ok(m, c, kingside));
    if castle_ok(m, c, kingside) {
        let rookc: int = if kingside {
            7
        } else {
            0
        };
        assert(on_segment(hr, 4, hr, rookc, hr, fc));
        assert(at(m.board, hr, fc) == Pieces::Empty);
    }
}

// ---------------------------------------------------------------------------
// Two bare kings draw the game.
// ---------------------------------------------------------------------------

/// A position holding nothing but the two kings is classified as a draw
/// by insufficient material, whichever side is to move.
pub proof fn lemma_bare_kings_draw(m: Model)
    requires
        m.wf(),
        nonempty_count(m.board, 64) == 2,
    ensures
        classify(m) == State::Draw,
{
}

// ---------------------------------------------------------------------------
// A rejected request leaves the position untouched.
// ---------------------------------------------------------------------------

/// Outside the documented permanent effects - the en-passant expiry due
/// at entry, and the castling rights consumed by moving a king or a
/// home-square rook - a rejected request leaves the position exactly as
/// it was.
pub proof fn lemma_rejected_move_unchanged(m: Model, ir: int, ic: int, fr: int, fc: int, e: IllegalMove)
    requires
        sq_ok(ir, ic),
        move_error(m, ir, ic, fr, fc) == Some(e),
        m.turn_count != 0 || m.en_passant is None,
        !(at(m.board, ir, ic) matches Pieces::King(_)),
        !((at(m.board, ir, ic) matches Pieces::Rook(_)) && ({
            let rc = at(m.board, ir, ic).colour_spec().unwrap();
            ir == home_rank(rc) && (ic == 0 || ic == 7)
        })),
    ensures
        after_failure(m, e, ir, ic) == m,
{
    assert(entry_clear(m) =~= m);
    assert(rights_cleared(m, ir, ic) =~= m);
    assert(after_failure(m, e, ir, ic) =~= m);
}

} // verus!
