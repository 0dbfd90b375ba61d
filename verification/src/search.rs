use vstd::prelude::*;
use rand::seq::SliceRandom;
use crate::classify::classify;
use crate::eval::{lemma_score_bounds, score};
use crate::filter::{candidate, valid_move};
use crate::game::{Game, Model, at, sq_ok};
use crate::moves::{after_success, lemma_wf_after, move_error};
use crate::pieces::Pieces;

verus! {

/// One move request: from (ir, ic) to (fr, fc).
#[derive(Copy, Clone, PartialEq, Eq, Structural, Debug)]
pub struct Mv {
    pub ir: usize,
    pub ic: usize,
    pub fr: usize,
    pub fc: usize,
}

pub open spec fn min_score() -> int {
    isize::MIN as int
}

pub open spec fn max_score() -> int {
    isize::MAX as int
}

pub open spec fn imax(a: int, b: int) -> int {
    if a >= b {
        a
    } else {
        b
    }
}

pub open spec fn imin(a: int, b: int) -> int {
    if a <= b {
        a
    } else {
        b
    }
}

/// A move the search's generator lists: in range, in the candidate
/// pattern, and legal.
pub open spec fn listed(m: Model, mv: Mv) -> bool {
    &&& mv.ir < 8 && mv.ic < 8 && mv.fr < 8 && mv.fc < 8
    &&& candidate(m, mv.ir as int, mv.ic as int, mv.fr as int, mv.fc as int)
    &&& valid_move(m, mv.ir as int, mv.ic as int, mv.fr as int, mv.fc as int)
}

/// A move the search explores: legal, and leaving a well-formed position
/// (a line that captures a king is skipped; no lawful position offers one).
pub open spec fn search_ok(m: Model, ir: int, ic: int, fr: int, fc: int) -> bool {
    &&& sq_ok(ir, ic) && sq_ok(fr, fc)
    &&& candidate(m, ir, ic, fr, fc)
    &&& valid_move(m, ir, ic, fr, fc)
    &&& after_success(m, ir, ic, fr, fc).wf()
}

pub open spec fn mv_ok(m: Model, mv: Mv) -> bool {
    search_ok(m, mv.ir as int, mv.ic as int, mv.fr as int, mv.fc as int)
}

/// The minimax value of the position reached by an explored move, with
/// `depth` plies remaining at the present node.
pub open spec fn mv_val(m: Model, mv: Mv, depth: nat, maxer: bool) -> int {
    minimax_value(
        after_success(m, mv.ir as int, mv.ic as int, mv.fr as int, mv.fc as int),
        (depth - 1) as nat,
        maxer,
    )
}

// Moves are enumerated by a single index: ir, ic, fr, fc in base 8.
pub open spec fn dec_ir(idx: int) -> int {
    idx / 512
}

pub open spec fn dec_ic(idx: int) -> int {
    (idx / 64) % 8
}

pub open spec fn dec_fr(idx: int) -> int {
    (idx / 8) % 8
}

pub open spec fn dec_fc(idx: int) -> int {
    idx % 8
}

pub open spec fn mv_index(ir: int, ic: int, fr: int, fc: int) -> int {
    ir * 512 + ic * 64 + fr * 8 + fc
}

pub open spec fn idx_ok(m: Model, idx: int) -> bool {
    search_ok(m, dec_ir(idx), dec_ic(idx), dec_fr(idx), dec_fc(idx))
}

pub open spec fn child_of(m: Model, idx: int) -> Model {
    after_success(m, dec_ir(idx), dec_ic(idx), dec_fr(idx), dec_fc(idx))
}

/// The game-theoretic value of a position under depth-limited minimax,
/// scored for `maxer`: the static evaluation at depth zero or at a
/// terminal verdict, otherwise the best explored child value for the side
/// to move - a fold over the whole move index space.
pub open spec fn minimax_value(m: Model, depth: nat, maxer: bool) -> int
    decreases depth, 5000int,
{
    if depth == 0 || crate::classify::is_terminal(classify(m)) {
        score(m, maxer)
    } else {
        best_upto(m, 4096, depth, maxer)
    }
}

/// The fold of `minimax_value` over the explored moves with index below
/// `n`, starting from the fitting sentinel.
pub open spec fn best_upto(m: Model, n: int, depth: nat, maxer: bool) -> int
    decreases depth, n,
{
    if depth == 0 {
        0
    } else if n <= 0 {
        if m.turn == maxer {
            min_score()
        } else {
            max_score()
        }
    } else {
        let rest = best_upto(m, n - 1, depth, maxer);
        if idx_ok(m, n - 1) {
            let v = minimax_value(child_of(m, n - 1), (depth - 1) as nat, maxer);
            if m.turn == maxer {
                if v > rest {
                    v
                } else {
                    rest
                }
            } else {
                if v < rest {
                    v
                } else {
                    rest
                }
            }
        } else {
            rest
        }
    }
}

/// Encoding and decoding of a move index are mutually inverse.
pub proof fn lemma_mv_codes(ir: int, ic: int, fr: int, fc: int)
    requires
        0 <= ir < 8,
        0 <= ic < 8,
        0 <= fr < 8,
        0 <= fc < 8,
    ensures
        0 <= mv_index(ir, ic, fr, fc) < 4096,
        dec_ir(mv_index(ir, ic, fr, fc)) == ir,
        dec_ic(mv_index(ir, ic, fr, fc)) == ic,
        dec_fr(mv_index(ir, ic, fr, fc)) == fr,
        dec_fc(mv_index(ir, ic, fr, fc)) == fc,
{
    let idx = mv_index(ir, ic, fr, fc);
    vstd::arithmetic::div_mod::lemma_fundamental_div_mod_converse(
        idx,
        512,
        ir,
        ic * 64 + fr * 8 + fc,
    );
    vstd::arithmetic::div_mod::lemma_fundamental_div_mod_converse(
        idx,
        64,
        ir * 8 + ic,
        fr * 8 + fc,
    );
    vstd::arithmetic::div_mod::lemma_fundamental_div_mod_converse(
        ir * 8 + ic,
        8,
        ir,
        ic,
    );
    vstd::arithmetic::div_mod::lemma_fundamental_div_mod_converse(
        idx,
        8,
        ir * 64 + ic * 8 + fr,
        fc,
    );
    vstd::arithmetic::div_mod::lemma_fundamental_div_mod_converse(
        ir * 64 + ic * 8 + fr,
        8,
        ir * 8 + ic,
        fr,
    );
}

/// Minimax values stay within the sentinel range.
pub proof fn lemma_value_range(m: Model, depth: nat, maxer: bool)
    ensures
        min_score() <= minimax_value(m, depth, maxer) <= max_score(),
    decreases depth, 5000int,
{
    if depth == 0 || crate::classify::is_terminal(classify(m)) {
        lemma_score_bounds(m, maxer);
    } else {
        lemma_best_range(m, 4096, depth, maxer);
    }
}

pub proof fn lemma_best_range(m: Model, n: int, depth: nat, maxer: bool)
    requires
        depth >= 1,
        0 <= n,
    ensures
        min_score() <= best_upto(m, n, depth, maxer) <= max_score(),
    decreases depth, n,
{
    if n > 0 {
        lemma_best_range(m, n - 1, depth, maxer);
        if idx_ok(m, n - 1) {
            lemma_value_range(child_of(m, n - 1), (depth - 1) as nat, maxer);
        }
    }
}

/// The fold dominates every explored child value, and is either the
/// sentinel or achieved by some explored move.
pub proof fn lemma_best_char(m: Model, n: int, depth: nat, maxer: bool)
    requires
        depth >= 1,
        0 <= n,
    ensures
        forall|idx: int|
            0 <= idx < n && #[trigger] idx_ok(m, idx) ==> (if m.turn == maxer {
                minimax_value(child_of(m, idx), (depth - 1) as nat, maxer) <= best_upto(
                    m,
                    n,
                    depth,
                    maxer,
                )
            } else {
                best_upto(m, n, depth, maxer) <= minimax_value(
                    child_of(m, idx),
                    (depth - 1) as nat,
                    maxer,
                )
            }),
        best_upto(m, n, depth, maxer) == (if m.turn == maxer {
            min_score()
        } else {
            max_score()
        }) || exists|idx: int|
            0 <= idx < n && #[trigger] idx_ok(m, idx) && best_upto(m, n, depth, maxer)
                == minimax_value(child_of(m, idx), (depth - 1) as nat, maxer),
    decreases n,
{
    if n > 0 {
        lemma_best_char(m, n - 1, depth, maxer);
        let rest = best_upto(m, n - 1, depth, maxer);
        let cur = best_upto(m, n, depth, maxer);
        if cur == rest {
            if rest != (if m.turn == maxer {
                min_score()
            } else {
                max_score()
            }) {
                let w = choose|idx: int|
                    0 <= idx < n - 1 && #[trigger] idx_ok(m, idx) && rest == minimax_value(
                        child_of(m, idx),
                        (depth - 1) as nat,
                        maxer,
                    );
                assert(0 <= w < n && idx_ok(m, w) && cur == minimax_value(
                    child_of(m, w),
                    (depth - 1) as nat,
                    maxer,
                ));
            }
        } else {
            assert(idx_ok(m, n - 1) && cur == minimax_value(
                child_of(m, n - 1),
                (depth - 1) as nat,
                maxer,
            ));
        }
    }
}

/// What a listed move guarantees: the engine accepts it, it passes the
/// turn and advances the counter, and the position it leaves is well-
/// formed exactly when the move does not capture the enemy king.
pub proof fn lemma_listed_facts(m: Model, mv: Mv)
    requires
        m.wf(),
        listed(m, mv),
    ensures
        move_error(m, mv.ir as int, mv.ic as int, mv.fr as int, mv.fc as int) is None,
        after_success(m, mv.ir as int, mv.ic as int, mv.fr as int, mv.fc as int).turn == !m.turn,
        after_success(m, mv.ir as int, mv.ic as int, mv.fr as int, mv.fc as int).counter
            == m.counter + 1,
        after_success(m, mv.ir as int, mv.ic as int, mv.fr as int, mv.fc as int).wf() <==> at(
            m.board,
            mv.fr as int,
            mv.fc as int,
        ) != Pieces::King(!m.turn),
        mv_ok(m, mv) <==> at(m.board, mv.fr as int, mv.fc as int) != Pieces::King(!m.turn),
{
    reveal(crate::filter::valid_move);
    lemma_wf_after(m, mv.ir as int, mv.ic as int, mv.fr as int, mv.fc as int);
}

/// Relies on rand's `SliceRandom::shuffle`: an in-place permutation of
/// the slice (Durstenfeld swaps drawn from the thread-local generator).
#[verifier::external_body]
fn shuffle_moves(v: &mut Vec<Mv>)
    ensures
        final(v)@.to_multiset() == old(v)@.to_multiset(),
{
    v.as_mut_slice().shuffle(&mut rand::rng());
}

impl Game {
    /// Every legal move of the side to move, each as a `Mv`, gathered in
    /// move-index order (the caller shuffles).
    #[verifier::rlimit(100)]
    fn legal_moves_list(&self, c: bool) -> (r: Vec<Mv>)
        requires
            self@.wf(),
            self@.counter < usize::MAX,
        ensures
            forall|mv: Mv| #[trigger] r@.contains(mv) <==> listed(self@, mv),
    {
        let mut out: Vec<Mv> = Vec::new();
        let mut idx: usize = 0;
        while idx < 4096
            invariant
                idx <= 4096,
                self@.wf(),
                self@.counter < usize::MAX,
                forall|mv: Mv| #[trigger]
                    out@.contains(mv) <==> (listed(self@, mv) && mv_index(
                        mv.ir as int,
                        mv.ic as int,
                        mv.fr as int,
                        mv.fc as int,
                    ) < idx),
            decreases 4096 - idx,
        {
            let ir = idx / 512;
            let ic = (idx / 64) % 8;
            let fr = (idx / 8) % 8;
            let fc = idx % 8;
            assert(ir < 8 && ic < 8 && fr < 8 && fc < 8);
            assert(mv_index(ir as int, ic as int, fr as int, fc as int) == idx);
            let keep = match self.board[ir * 8 + ic] {
                Pieces::Empty => false,
                _ => {
                    let x = self.board[ir * 8 + ic].colour().unwrap();
                    self.probe_move(x, (ir, ic), (fr, fc))
                },
            };
            let ghost cur = Mv { ir, ic, fr, fc };
            if keep {
                let ghost out0 = out@;
                out.push(Mv { ir, ic, fr, fc });
                assert forall|mv: Mv| #[trigger]
                    out@.contains(mv) implies (listed(self@, mv) && mv_index(
                    mv.ir as int,
                    mv.ic as int,
                    mv.fr as int,
                    mv.fc as int,
                ) < idx + 1) by {
                    let j = choose|j: int| 0 <= j < out@.len() && out@[j] == mv;
                    if j < out0.len() {
                        assert(out0[j] == mv);
                        assert(out0.contains(mv));
                    } else {
                        assert(mv == cur);
                    }
                }
                assert forall|mv: Mv|
                    (listed(self@, mv) && mv_index(
                        mv.ir as int,
                        mv.ic as int,
                        mv.fr as int,
                        mv.fc as int,
                    ) < idx + 1) implies #[trigger] out@.contains(mv) by {
                    if mv_index(mv.ir as int, mv.ic as int, mv.fr as int, mv.fc as int) < idx {
                        assert(out0.contains(mv));
                        let j = choose|j: int| 0 <= j < out0.len() && out0[j] == mv;
                        assert(out@[j] == mv);
                    } else {
                        lemma_mv_codes(mv.ir as int, mv.ic as int, mv.fr as int, mv.fc as int);
                        assert(mv == cur);
                        assert(out@[out@.len() - 1] == mv);
                    }
                }
            } else {
                assert forall|mv: Mv|
                    (listed(self@, mv) && mv_index(
                        mv.ir as int,
                        mv.ic as int,
                        mv.fr as int,
                        mv.fc as int,
                    ) < idx + 1) implies #[trigger] out@.contains(mv) by {
                    lemma_mv_codes(mv.ir as int, mv.ic as int, mv.fr as int, mv.fc as int);
                    if mv == cur {
                        assert(at(
                            self@.board,
                            mv.ir as int,
                            mv.ic as int,
                        ).colour_spec() matches Some(_));
                        assert(false);
                    }
                }
            }
            idx = idx + 1;
        }
        assert forall|mv: Mv| listed(self@, mv) implies #[trigger] out@.contains(mv) by {
            lemma_mv_codes(mv.ir as int, mv.ic as int, mv.fr as int, mv.fc as int);
        }
        out
    }

    /// Depth-limited minimax with alpha-beta pruning, scored for
    /// `maximising_player`.  Pruning never changes the value the search
    /// reports inside the window: a result strictly between `alpha` and
    /// `beta` equals the full minimax value, and a result at or outside
    /// either bound is a sound bound on it.
    #[verifier::rlimit(100)]
    pub fn minimax(
        game: &Game,
        depth: usize,
        alpha: isize,
        beta: isize,
        c: bool,
        maximising_player: bool,
    ) -> (r: isize)
        requires
            game@.wf(),
            c == game@.turn,
            game@.counter + depth < usize::MAX,
            alpha < beta,
        ensures
            ({
                let t = minimax_value(game@, depth as nat, maximising_player);
                &&& (alpha < r < beta ==> r as int == t)
                &&& (r <= alpha ==> t <= r as int)
                &&& (r >= beta ==> t >= r as int)
                &&& ((depth == 0 || crate::classify::is_terminal(classify(game@))) ==> r as int
                    == score(game@, maximising_player))
            }),
        decreases depth,
    {
        if depth == 0 || game.is_game_over() {
            return game.count_board(maximising_player);
        }
        let ghost m0 = game@;
        let ghost dn = depth as nat;
        let ghost t = minimax_value(m0, dn, maximising_player);
        proof {
            lemma_best_char(m0, 4096, dn, maximising_player);
        }
        let mut moves = game.legal_moves_list(c);
        let ghost pre = moves@;
        shuffle_moves(&mut moves);
        proof {
            broadcast use vstd::seq_lib::group_to_multiset_ensures;

            assert forall|mv: Mv| #[trigger] moves@.contains(mv) <==> listed(m0, mv) by {
                assert(moves@.to_multiset().contains(mv) <==> moves@.contains(mv));
                assert(pre.to_multiset().contains(mv) <==> pre.contains(mv));
            }
        }
        if c == maximising_player {
            let mut max_eval = isize::MIN;
            let mut al = alpha;
            let mut pruned = false;
            let mut idx: usize = 0;
            let ghost mut achieved = false;
            let ghost mut ach: Mv = Mv { ir: 0, ic: 0, fr: 0, fc: 0 };
            while idx < moves.len() && !pruned
                invariant
                    idx <= moves@.len(),
                    game@ == m0,
                    m0.wf(),
                    c == m0.turn,
                    c == maximising_player,
                    m0.counter + depth < usize::MAX,
                    1 <= depth,
                    dn == depth as nat,
                    alpha < beta,
                    forall|mv: Mv| #[trigger] moves@.contains(mv) <==> listed(m0, mv),
                    al as int == imax(alpha as int, max_eval as int),
                    !pruned ==> al < beta,
                    !pruned ==> forall|j: int|
                        #![trigger moves@[j]]
                        0 <= j < idx ==> (mv_ok(m0, moves@[j]) ==> mv_val(
                            m0,
                            moves@[j],
                            dn,
                            maximising_player,
                        ) <= max_eval as int),
                    achieved ==> mv_ok(m0, ach) && mv_val(m0, ach, dn, maximising_player)
                        >= max_eval as int,
                    !achieved ==> max_eval <= alpha,
                    pruned ==> max_eval >= beta && achieved,
                decreases moves@.len() - idx,
            {
                let mv = moves[idx];
                proof {
                    assert(moves@.contains(moves@[idx as int]));
                    lemma_listed_facts(m0, mv);
                }
                let dp = game.piece_at(mv.fr, mv.fc);
                let skip = match dp {
                    Pieces::King(kc) => kc != c,
                    _ => false,
                };
                proof {
                    assert(skip <==> at(m0.board, mv.fr as int, mv.fc as int) == Pieces::King(!c));
                    assert(!skip <==> mv_ok(m0, mv));
                }
                if !skip {
                    let mut child = game.clone();
                    let mres = child.move_piece((mv.ir, mv.ic), (mv.fr, mv.fc));
                    match mres {
                        Ok(()) => {},
                        Err(_) => {
                            proof {
                                assert(false);
                            }
                        },
                    }
                    proof {
                        assert(child@ == after_success(
                            m0,
                            mv.ir as int,
                            mv.ic as int,
                            mv.fr as int,
                            mv.fc as int,
                        ));
                    }
                    let ghost pre_max = max_eval as int;
                    let ghost pre_al = al as int;
                    let ev = Game::minimax(&child, depth - 1, al, beta, !c, maximising_player);
                    let ghost v = mv_val(m0, moves@[idx as int], dn, maximising_player);
                    proof {
                        assert(minimax_value(child@, (depth - 1) as nat, maximising_player) == v);
                    }
                    if ev > max_eval {
                        max_eval = ev;
                    }
                    if ev > al {
                        al = ev;
                    }
                    if beta <= al {
                        pruned = true;
                    }
                    proof {
                        let rc = ev as int;
                        if rc >= beta as int {
                            assert(v >= rc);
                            assert(pre_max <= pre_al);
                            assert(max_eval as int == rc);
                            achieved = true;
                            ach = mv;
                        } else if pre_al < rc {
                            assert(v == rc);
                            if rc > pre_max {
                                achieved = true;
                                ach = mv;
                            }
                        } else {
                            assert(v <= rc);
                            if rc > pre_max {
                                assert(rc <= alpha as int);
                                achieved = false;
                            }
                        }
                    }
                }
                idx = idx + 1;
            }
            proof {
                if pruned {
                    lemma_mv_codes(ach.ir as int, ach.ic as int, ach.fr as int, ach.fc as int);
                    let ei = mv_index(ach.ir as int, ach.ic as int, ach.fr as int, ach.fc as int);
                    assert(idx_ok(m0, ei));
                    assert(t >= minimax_value(child_of(m0, ei), (dn - 1) as nat, maximising_player));
                    assert(t >= max_eval as int);
                } else {
                    // every explored move was bounded by the result
                    if t != min_score() {
                        let w = choose|widx: int|
                            0 <= widx < 4096 && #[trigger] idx_ok(m0, widx) && t == minimax_value(
                                child_of(m0, widx),
                                (dn - 1) as nat,
                                maximising_player,
                            );
                        let wmv = Mv {
                            ir: dec_ir(w) as usize,
                            ic: dec_ic(w) as usize,
                            fr: dec_fr(w) as usize,
                            fc: dec_fc(w) as usize,
                        };
                        assert(mv_ok(m0, wmv));
                        assert(listed(m0, wmv));
                        assert(moves@.contains(wmv));
                        let j = choose|j: int| 0 <= j < moves@.len() && moves@[j] == wmv;
                        assert(mv_val(m0, moves@[j], dn, maximising_player) <= max_eval as int);
                        assert(t <= max_eval as int);
                    }
                    if max_eval > alpha {
                        assert(achieved);
                        lemma_mv_codes(ach.ir as int, ach.ic as int, ach.fr as int, ach.fc as int);
                        let ei = mv_index(
                            ach.ir as int,
                            ach.ic as int,
                            ach.fr as int,
                            ach.fc as int,
                        );
                        assert(idx_ok(m0, ei));
                        assert(t >= minimax_value(
                            child_of(m0, ei),
                            (dn - 1) as nat,
                            maximising_player,
                        ));
                        assert(t >= max_eval as int);
                    }
                }
            }
            max_eval
        } else {
            let mut min_eval = isize::MAX;
            let mut be = beta;
            let mut pruned = false;
            let mut idx: usize = 0;
            let ghost mut achieved = false;
            let ghost mut ach: Mv = Mv { ir: 0, ic: 0, fr: 0, fc: 0 };
            while idx < moves.len() && !pruned
                invariant
                    idx <= moves@.len(),
                    game@ == m0,
                    m0.wf(),
                    c == m0.turn,
                    c != maximising_player,
                    m0.counter + depth < usize::MAX,
                    1 <= depth,
                    dn == depth as nat,
                    alpha < beta,
                    forall|mv: Mv| #[trigger] moves@.contains(mv) <==> listed(m0, mv),
                    be as int == imin(beta as int, min_eval as int),
                    !pruned ==> alpha < be,
                    !pruned ==> forall|j: int|
                        #![trigger moves@[j]]
                        0 <= j < idx ==> (mv_ok(m0, moves@[j]) ==> mv_val(
                            m0,
                            moves@[j],
                            dn,
                            maximising_player,
                        ) >= min_eval as int),
                    achieved ==> mv_ok(m0, ach) && mv_val(m0, ach, dn, maximising_player)
                        <= min_eval as int,
                    !achieved ==> min_eval >= beta,
                    pruned ==> min_eval <= alpha && achieved,
                decreases moves@.len() - idx,
            {
                let mv = moves[idx];
                proof {
                    assert(moves@.contains(moves@[idx as int]));
                    lemma_listed_facts(m0, mv);
                }
                let dp = game.piece_at(mv.fr, mv.fc);
                let skip = match dp {
                    Pieces::King(kc) => kc != c,
                    _ => false,
                };
                proof {
                    assert(skip <==> at(m0.board, mv.fr as int, mv.fc as int) == Pieces::King(!c));
                    assert(!skip <==> mv_ok(m0, mv));
                }
                if !skip {
                    let mut child = game.clone();
                    let mres = child.move_piece((mv.ir, mv.ic), (mv.fr, mv.fc));
                    match mres {
                        Ok(()) => {},
                        Err(_) => {
                            proof {
                                assert(false);
                            }
                        },
                    }
                    proof {
                        assert(child@ == after_success(
                            m0,
                            mv.ir as int,
                            mv.ic as int,
                            mv.fr as int,
                            mv.fc as int,
                        ));
                    }
                    let ghost pre_min = min_eval as int;
                    let ghost pre_be = be as int;
                    let ev = Game::minimax(&child, depth - 1, alpha, be, !c, maximising_player);
                    let ghost v = mv_val(m0, moves@[idx as int], dn, maximising_player);
                    proof {
                        assert(minimax_value(child@, (depth - 1) as nat, maximising_player) == v);
                    }
                    if ev < min_eval {
                        min_eval = ev;
                    }
                    if ev < be {
                        be = ev;
                    }
                    if be <= alpha {
                        pruned = true;
                    }
                    proof {
                        let rc = ev as int;
                        if rc <= alpha as int {
                            assert(v <= rc);
                            assert(pre_min >= pre_be);
                            assert(min_eval as int == rc);
                            achieved = true;
                            ach = mv;
                        } else if rc < pre_be {
                            assert(v == rc);
                            if rc < pre_min {
                                achieved = true;
                                ach = mv;
                            }
                        } else {
                            assert(v >= rc);
                            if rc < pre_min {
                                assert(rc >= beta as int);
                                achieved = false;
                            }
                        }
                    }
                }
                idx = idx + 1;
            }
            proof {
                if pruned {
                    lemma_mv_codes(ach.ir as int, ach.ic as int, ach.fr as int, ach.fc as int);
                    let ei = mv_index(ach.ir as int, ach.ic as int, ach.fr as int, ach.fc as int);
                    assert(idx_ok(m0, ei));
                    assert(t <= minimax_value(child_of(m0, ei), (dn - 1) as nat, maximising_player));
                    assert(t <= min_eval as int);
                } else {
                    if t != max_score() {
                        let w = choose|widx: int|
                            0 <= widx < 4096 && #[trigger] idx_ok(m0, widx) && t == minimax_value(
                                child_of(m0, widx),
                                (dn - 1) as nat,
                                maximising_player,
                            );
                        let wmv = Mv {
                            ir: dec_ir(w) as usize,
                            ic: dec_ic(w) as usize,
                            fr: dec_fr(w) as usize,
                            fc: dec_fc(w) as usize,
                        };
                        assert(mv_ok(m0, wmv));
                        assert(listed(m0, wmv));
                        assert(moves@.contains(wmv));
                        let j = choose|j: int| 0 <= j < moves@.len() && moves@[j] == wmv;
                        assert(mv_val(m0, moves@[j], dn, maximising_player) >= min_eval as int);
                        assert(t >= min_eval as int);
                    }
                    if min_eval < beta {
                        assert(achieved);
                        lemma_mv_codes(ach.ir as int, ach.ic as int, ach.fr as int, ach.fc as int);
                        let ei = mv_index(
                            ach.ir as int,
                            ach.ic as int,
                            ach.fr as int,
                            ach.fc as int,
                        );
                        assert(idx_ok(m0, ei));
                        assert(t <= minimax_value(
                            child_of(m0, ei),
                            (dn - 1) as nat,
                            maximising_player,
                        ));
                        assert(t <= min_eval as int);
                    }
                }
            }
            min_eval
        }
    }

    /// Chooses a move for the side `c`: every legal, king-keeping move is
    /// tried in a shuffled order and scored by minimax three plies deep
    /// with a full window, and a move of maximal score is returned (ties
    /// fall to the shuffle).
    #[verifier::rlimit(100)]
    pub fn play_ai(&self, c: bool) -> (r: ((usize, usize), (usize, usize)))
        requires
            self@.wf(),
            c == self@.turn,
            self@.counter + 4 < usize::MAX,
            has_ai_move(self@),
        ensures
            mv_ok(self@, Mv { ir: r.0.0, ic: r.0.1, fr: r.1.0, fc: r.1.1 }),
            forall|mv: Mv| #[trigger]
                mv_ok(self@, mv) ==> mv_val(self@, mv, 4nat, self@.turn) <= mv_val(
                    self@,
                    Mv { ir: r.0.0, ic: r.0.1, fr: r.1.0, fc: r.1.1 },
                    4nat,
                    self@.turn,
                ),
    {
        let ghost m0 = self@;
        let mut moves = self.legal_moves_list(c);
        let ghost pre = moves@;
        shuffle_moves(&mut moves);
        proof {
            broadcast use vstd::seq_lib::group_to_multiset_ensures;

            assert forall|mv: Mv| #[trigger] moves@.contains(mv) <==> listed(m0, mv) by {
                assert(moves@.to_multiset().contains(mv) <==> moves@.contains(mv));
                assert(pre.to_multiset().contains(mv) <==> pre.contains(mv));
            }
        }
        let mut best_score = isize::MIN;
        let mut best_mov: Option<((usize, usize), (usize, usize))> = None;
        let mut idx: usize = 0;
        while idx < moves.len()
            invariant
                idx <= moves@.len(),
                self@ == m0,
                m0.wf(),
                c == m0.turn,
                m0.counter + 4 < usize::MAX,
                forall|mv: Mv| #[trigger] moves@.contains(mv) <==> listed(m0, mv),
                (match best_mov {
                    Some(b) => mv_ok(m0, Mv { ir: b.0.0, ic: b.0.1, fr: b.1.0, fc: b.1.1 })
                        && best_score as int == mv_val(
                        m0,
                        Mv { ir: b.0.0, ic: b.0.1, fr: b.1.0, fc: b.1.1 },
                        4nat,
                        c,
                    ),
                    None => forall|j: int|
                        #![trigger moves@[j]]
                        0 <= j < idx ==> !mv_ok(m0, moves@[j]),
                }),
                best_mov is Some ==> forall|j: int|
                    #![trigger moves@[j]]
                    0 <= j < idx ==> (mv_ok(m0, moves@[j]) ==> mv_val(m0, moves@[j], 4nat, c)
                        <= best_score as int),
            decreases moves@.len() - idx,
        {
            let mv = moves[idx];
            proof {
                assert(moves@.contains(moves@[idx as int]));
                lemma_listed_facts(m0, mv);
            }
            let dp = self.piece_at(mv.fr, mv.fc);
            let skip = match dp {
                Pieces::King(kc) => kc != c,
                _ => false,
            };
            proof {
                assert(skip <==> at(m0.board, mv.fr as int, mv.fc as int) == Pieces::King(!c));
                assert(!skip <==> mv_ok(m0, mv));
            }
            if !skip {
                let mut child = self.clone();
                let mres = child.move_piece((mv.ir, mv.ic), (mv.fr, mv.fc));
                match mres {
                    Ok(()) => {},
                    Err(_) => {
                        proof {
                            assert(false);
                        }
                    },
                }
                proof {
                    assert(child@ == after_success(
                        m0,
                        mv.ir as int,
                        mv.ic as int,
                        mv.fr as int,
                        mv.fc as int,
                    ));
                }
                let sc = Game::minimax(&child, 3, isize::MIN, isize::MAX, !c, c);
                proof {
                    lemma_value_range(child@, 3nat, c);
                    assert(sc as int == mv_val(m0, moves@[idx as int], 4nat, c));
                }
                if best_mov.is_none() || sc > best_score {
                    best_score = sc;
                    best_mov = Some(((mv.ir, mv.ic), (mv.fr, mv.fc)));
                }
            }
            idx = idx + 1;
        }
        proof {
            if best_mov is None {
                let wmv = choose|mv: Mv| #[trigger] mv_ok(m0, mv);
                assert(listed(m0, wmv));
                assert(moves@.contains(wmv));
                let j = choose|j: int| 0 <= j < moves@.len() && moves@[j] == wmv;
                assert(!mv_ok(m0, moves@[j]));
                assert(false);
            }
        }
        let b = best_mov.unwrap();
        proof {
            assert forall|mv: Mv| #[trigger] mv_ok(m0, mv) implies mv_val(m0, mv, 4nat, c)
                <= mv_val(m0, Mv { ir: b.0.0, ic: b.0.1, fr: b.1.0, fc: b.1.1 }, 4nat, c) by {
                reveal(crate::filter::valid_move);
                assert(listed(m0, mv));
                assert(moves@.contains(mv));
                let j = choose|j: int| 0 <= j < moves@.len() && moves@[j] == mv;
                assert(mv_val(m0, moves@[j], 4nat, c) <= best_score as int);
            }
        }
        b
    }
}

/// Some legal, king-keeping move exists for the side to move.
pub open spec fn has_ai_move(m: Model) -> bool {
    exists|mv: Mv| #[trigger] mv_ok(m, mv)
}

} // verus!
