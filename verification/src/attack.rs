use vstd::prelude::*;
use crate::game::{Game, absd, at, diag_move, king_adjacent, knight_move, line_move, on_segment,
    path_clear, sq_ok};
use crate::pieces::Pieces;

verus! {

// ---------------------------------------------------------------------------
// The attack relation.
// ---------------------------------------------------------------------------

/// The rank reached after `j` steps from `r0` in direction `dr`.
pub open spec fn ray_r(r0: int, dr: int, j: int) -> int {
    if dr == 1 {
        r0 + j
    } else if dr == -1 {
        r0 - j
    } else {
        r0
    }
}

/// The file reached after `j` steps from `c0` in direction `dc`.
pub open spec fn ray_c(c0: int, dc: int, j: int) -> int {
    if dc == 1 {
        c0 + j
    } else if dc == -1 {
        c0 - j
    } else {
        c0
    }
}

/// The piece standing on (ar, ac) attacks the square (tr, tc): it could
/// capture there by its movement pattern, sliding pieces needing a clear
/// path, pawns striking one rank forward diagonally.
pub open spec fn piece_attacks(b: Seq<Pieces>, ar: int, ac: int, tr: int, tc: int) -> bool {
    match at(b, ar, ac) {
        Pieces::Rook(_) => line_move(ar, ac, tr, tc) && path_clear(b, tr, tc, ar, ac),
        Pieces::Bishop(_) => diag_move(ar, ac, tr, tc) && path_clear(b, tr, tc, ar, ac),
        Pieces::Queen(_) => (line_move(ar, ac, tr, tc) || diag_move(ar, ac, tr, tc)) && path_clear(
            b,
            tr,
            tc,
            ar,
            ac,
        ),
        Pieces::Knight(_) => knight_move(ar, ac, tr, tc),
        Pieces::King(_) => king_adjacent(ar, ac, tr, tc),
        Pieces::Pawn(x) => tr == ar + (if x {
            1int
        } else {
            -1int
        }) && absd(ac, tc) == 1,
        Pieces::Empty => false,
    }
}

/// Some piece of the enemy of `defender` attacks the square (tr, tc).
pub open spec fn attacked(b: Seq<Pieces>, tr: int, tc: int, defender: bool) -> bool {
    exists|ar: int, ac: int|
        sq_ok(ar, ac) && at(b, ar, ac).colour_spec() == Some(!defender) && #[trigger] piece_attacks(
            b,
            ar,
            ac,
            tr,
            tc,
        )
}

// ---------------------------------------------------------------------------
// Ray scanning.
// ---------------------------------------------------------------------------

/// Walks outward from (r0, c0) in direction (dr, dc) and reports the first
/// occupied square together with its step distance; `None` when the ray
/// runs off the board over empty squares only.
fn ray_first(b: &Vec<Pieces>, r0: usize, c0: usize, dr: i8, dc: i8) -> (res: Option<
    (usize, usize, usize),
>)
    requires
        b@.len() == 64,
        r0 < 8,
        c0 < 8,
        -1 <= dr <= 1,
        -1 <= dc <= 1,
        !(dr == 0 && dc == 0),
    ensures
        (match res {
            Some(hit) => {
                &&& hit.0 < 8 && hit.1 < 8
                &&& 1 <= hit.2 <= 7
                &&& hit.0 as int == ray_r(r0 as int, dr as int, hit.2 as int)
                &&& hit.1 as int == ray_c(c0 as int, dc as int, hit.2 as int)
                &&& at(b@, hit.0 as int, hit.1 as int) != Pieces::Empty
                &&& forall|j: int|
                    1 <= j < hit.2 ==> sq_ok(
                        ray_r(r0 as int, dr as int, j),
                        ray_c(c0 as int, dc as int, j),
                    ) && #[trigger] at(
                        b@,
                        ray_r(r0 as int, dr as int, j),
                        ray_c(c0 as int, dc as int, j),
                    ) == Pieces::Empty
            },
            None => forall|j: int|
                1 <= j && sq_ok(ray_r(r0 as int, dr as int, j), ray_c(c0 as int, dc as int, j))
                    ==> #[trigger] at(
                    b@,
                    ray_r(r0 as int, dr as int, j),
                    ray_c(c0 as int, dc as int, j),
                ) == Pieces::Empty,
        }),
{
    let mut cr: usize = r0;
    let mut cc: usize = c0;
    let mut k: usize = 0;
    while k < 7
        invariant
            b@.len() == 64,
            r0 < 8,
            c0 < 8,
            cr < 8,
            cc < 8,
            k <= 7,
            -1 <= dr <= 1,
            -1 <= dc <= 1,
            !(dr == 0 && dc == 0),
            cr as int == ray_r(r0 as int, dr as int, k as int),
            cc as int == ray_c(c0 as int, dc as int, k as int),
            forall|j: int|
                1 <= j <= k ==> sq_ok(
                    ray_r(r0 as int, dr as int, j),
                    ray_c(c0 as int, dc as int, j),
                ) && #[trigger] at(
                    b@,
                    ray_r(r0 as int, dr as int, j),
                    ray_c(c0 as int, dc as int, j),
                ) == Pieces::Empty,
        decreases 7 - k,
    {
        if (dr == 1 && cr == 7) || (dr == -1 && cr == 0) || (dc == 1 && cc == 7) || (dc == -1 && cc
            == 0) {
            proof {
                assert forall|j: int|
                    1 <= j && sq_ok(
                        ray_r(r0 as int, dr as int, j),
                        ray_c(c0 as int, dc as int, j),
                    ) implies #[trigger] at(
                    b@,
                    ray_r(r0 as int, dr as int, j),
                    ray_c(c0 as int, dc as int, j),
                ) == Pieces::Empty by {
                    if j > k {
                        assert(!sq_ok(
                            ray_r(r0 as int, dr as int, j),
                            ray_c(c0 as int, dc as int, j),
                        ));
                    }
                }
            }
            return None;
        }
        let nr = if dr == 1 {
            cr + 1
        } else if dr == -1 {
            cr - 1
        } else {
            cr
        };
        let nc = if dc == 1 {
            cc + 1
        } else if dc == -1 {
            cc - 1
        } else {
            cc
        };
        k = k + 1;
        if self_index(b, nr, nc) != Pieces::Empty {
            return Some((nr, nc, k));
        }
        cr = nr;
        cc = nc;
    }
    proof {
        assert forall|j: int|
            1 <= j && sq_ok(ray_r(r0 as int, dr as int, j), ray_c(c0 as int, dc as int, j)) implies #[trigger] at(
            b@,
            ray_r(r0 as int, dr as int, j),
            ray_c(c0 as int, dc as int, j),
        ) == Pieces::Empty by {
            if j > 7 {
                assert(!sq_ok(ray_r(r0 as int, dr as int, j), ray_c(c0 as int, dc as int, j)));
            }
        }
    }
    None
}

/// Reads the board at (r, c).
fn self_index(b: &Vec<Pieces>, r: usize, c: usize) -> (p: Pieces)
    requires
        b@.len() == 64,
        r < 8,
        c < 8,
    ensures
        p == at(b@, r as int, c as int),
{
    b[r * 8 + c]
}

/// What a scan of one straight ray from the defended square establishes:
/// either a confirmed attack, or that no enemy piece anywhere on that ray
/// attacks the square.
fn straight_hit(b: &Vec<Pieces>, tr: usize, tc: usize, dr: i8, dc: i8, defender: bool) -> (res:
    bool)
    requires
        b@.len() == 64,
        tr < 8,
        tc < 8,
        (dr == 1 && dc == 0) || (dr == -1 && dc == 0) || (dr == 0 && dc == 1) || (dr == 0 && dc
            == -1),
    ensures
        res ==> attacked(b@, tr as int, tc as int, defender),
        !res ==> forall|j: int|
            1 <= j && sq_ok(ray_r(tr as int, dr as int, j), ray_c(tc as int, dc as int, j)) ==> !(at(
                b@,
                ray_r(tr as int, dr as int, j),
                ray_c(tc as int, dc as int, j),
            ).colour_spec() == Some(!defender) && #[trigger] piece_attacks(
                b@,
                ray_r(tr as int, dr as int, j),
                ray_c(tc as int, dc as int, j),
                tr as int,
                tc as int,
            )),
{
    let ghost tri = tr as int;
    let ghost tci = tc as int;
    match ray_first(b, tr, tc, dr, dc) {
        None => {
            false
        },
        Some((hr, hc, k)) => {
            let p = self_index(b, hr, hc);
            let hit = match p {
                Pieces::Rook(x) | Pieces::Queen(x) => x != defender,
                Pieces::King(x) => x != defender && k == 1,
                _ => false,
            };
            proof {
                if hit {
                    lemma_ray_hit_attacks(b@, tri, tci, dr as int, dc as int, k as int);
                    assert(at(b@, hr as int, hc as int).colour_spec() == Some(!defender));
                    assert(piece_attacks(b@, hr as int, hc as int, tri, tci));
                    assert(attacked(b@, tri, tci, defender));
                } else {
                    assert forall|j: int|
                        1 <= j && sq_ok(
                            ray_r(tri, dr as int, j),
                            ray_c(tci, dc as int, j),
                        ) implies !(at(
                        b@,
                        ray_r(tri, dr as int, j),
                        ray_c(tci, dc as int, j),
                    ).colour_spec() == Some(!defender) && #[trigger] piece_attacks(
                        b@,
                        ray_r(tri, dr as int, j),
                        ray_c(tci, dc as int, j),
                        tri,
                        tci,
                    )) by {
                        lemma_ray_no_attack(b@, tri, tci, dr as int, dc as int, k as int, defender, j);
                    }
                }
            }
            hit
        },
    }
}

/// On a straight ray whose first occupied square (at step `k`) is an enemy
/// rook or queen, or an adjacent enemy king, that piece attacks the origin.
proof fn lemma_ray_hit_attacks(b: Seq<Pieces>, tri: int, tci: int, dr: int, dc: int, k: int)
    requires
        b.len() == 64,
        sq_ok(tri, tci),
        (dr == 1 && dc == 0) || (dr == -1 && dc == 0) || (dr == 0 && dc == 1) || (dr == 0 && dc
            == -1) || (dr == 1 && dc == 1) || (dr == 1 && dc == -1) || (dr == -1 && dc == 1) || (dr
            == -1 && dc == -1),
        1 <= k <= 7,
        sq_ok(ray_r(tri, dr, k), ray_c(tci, dc, k)),
        forall|j: int|
            1 <= j < k ==> #[trigger] at(b, ray_r(tri, dr, j), ray_c(tci, dc, j)) == Pieces::Empty,
    ensures
        path_clear(b, tri, tci, ray_r(tri, dr, k), ray_c(tci, dc, k)),
{
    let ar = ray_r(tri, dr, k);
    let ac = ray_c(tci, dc, k);
    assert forall|r: int, c: int| #[trigger] on_segment(tri, tci, ar, ac, r, c) implies at(b, r, c)
        == Pieces::Empty by {
        let j = if tri != ar {
            absd(tri, r)
        } else {
            absd(tci, c)
        };
        assert(1 <= j < k);
        assert(r == ray_r(tri, dr, j) && c == ray_c(tci, dc, j));
        assert(at(b, ray_r(tri, dr, j), ray_c(tci, dc, j)) == Pieces::Empty);
    }
}

/// On a scanned ray whose first occupied square sits at step `k` and was
/// not recognised as an attacker, no square of the ray holds an attacking
/// enemy piece.  `kind_ok` tells which recognitions the scan performs.
proof fn lemma_ray_no_attack(
    b: Seq<Pieces>,
    tri: int,
    tci: int,
    dr: int,
    dc: int,
    k: int,
    defender: bool,
    j: int,
)
    requires
        b.len() == 64,
        sq_ok(tri, tci),
        (dr == 1 && dc == 0) || (dr == -1 && dc == 0) || (dr == 0 && dc == 1) || (dr == 0 && dc
            == -1) || (dr == 1 && dc == 1) || (dr == 1 && dc == -1) || (dr == -1 && dc == 1) || (dr
            == -1 && dc == -1),
        1 <= k <= 7,
        sq_ok(ray_r(tri, dr, k), ray_c(tci, dc, k)),
        at(b, ray_r(tri, dr, k), ray_c(tci, dc, k)) != Pieces::Empty,
        forall|j2: int|
            1 <= j2 < k ==> #[trigger] at(b, ray_r(tri, dr, j2), ray_c(tci, dc, j2))
                == Pieces::Empty,
        // the scan did not recognise the first occupied square as an attacker:
        !(at(b, ray_r(tri, dr, k), ray_c(tci, dc, k)).colour_spec() == Some(!defender)
            && piece_attacks(b, ray_r(tri, dr, k), ray_c(tci, dc, k), tri, tci)),
        1 <= j,
        sq_ok(ray_r(tri, dr, j), ray_c(tci, dc, j)),
    ensures
        !(at(b, ray_r(tri, dr, j), ray_c(tci, dc, j)).colour_spec() == Some(!defender)
            && piece_attacks(b, ray_r(tri, dr, j), ray_c(tci, dc, j), tri, tci)),
{
    let ar = ray_r(tri, dr, j);
    let ac = ray_c(tci, dc, j);
    if j < k {
        assert(at(b, ar, ac) == Pieces::Empty);
    } else if j > k {
        // the first occupied square blocks any sliding attack from beyond
        if at(b, ar, ac).colour_spec() == Some(!defender) && piece_attacks(b, ar, ac, tri, tci) {
            match at(b, ar, ac) {
                Pieces::Rook(_) | Pieces::Bishop(_) | Pieces::Queen(_) => {
                    assert(on_segment(tri, tci, ar, ac, ray_r(tri, dr, k), ray_c(tci, dc, k)));
                    assert(!path_clear(b, tri, tci, ar, ac));
                },
                Pieces::King(_) => {
                    assert(!king_adjacent(ar, ac, tri, tci));
                },
                Pieces::Pawn(_) => {
                    assert(absd(ar, tri) >= 2 || absd(ac, tci) >= 2);
                },
                _ => {},
            }
        }
    }
}

/// What a scan of one diagonal ray from the defended square establishes.
fn diag_hit(b: &Vec<Pieces>, tr: usize, tc: usize, dr: i8, dc: i8, defender: bool) -> (res: bool)
    requires
        b@.len() == 64,
        tr < 8,
        tc < 8,
        (dr == 1 && dc == 1) || (dr == 1 && dc == -1) || (dr == -1 && dc == 1) || (dr == -1 && dc
            == -1),
    ensures
        res ==> attacked(b@, tr as int, tc as int, defender),
        !res ==> forall|j: int|
            1 <= j && sq_ok(ray_r(tr as int, dr as int, j), ray_c(tc as int, dc as int, j)) ==> !(at(
                b@,
                ray_r(tr as int, dr as int, j),
                ray_c(tc as int, dc as int, j),
            ).colour_spec() == Some(!defender) && #[trigger] piece_attacks(
                b@,
                ray_r(tr as int, dr as int, j),
                ray_c(tc as int, dc as int, j),
                tr as int,
                tc as int,
            )),
{
    let ghost tri = tr as int;
    let ghost tci = tc as int;
    match ray_first(b, tr, tc, dr, dc) {
        None => {
            false
        },
        Some((hr, hc, k)) => {
            let p = self_index(b, hr, hc);
            let hit = match p {
                Pieces::Bishop(x) | Pieces::Queen(x) => x != defender,
                Pieces::King(x) => x != defender && k == 1,
                Pieces::Pawn(x) => x != defender && k == 1 && (if x {
                    dr == -1
                } else {
                    dr == 1
                }),
                _ => false,
            };
            proof {
                if hit {
                    lemma_ray_hit_attacks(b@, tri, tci, dr as int, dc as int, k as int);
                    assert(at(b@, hr as int, hc as int).colour_spec() == Some(!defender));
                    assert(piece_attacks(b@, hr as int, hc as int, tri, tci));
                    assert(attacked(b@, tri, tci, defender));
                } else {
                    assert forall|j: int|
                        1 <= j && sq_ok(
                            ray_r(tri, dr as int, j),
                            ray_c(tci, dc as int, j),
                        ) implies !(at(
                        b@,
                        ray_r(tri, dr as int, j),
                        ray_c(tci, dc as int, j),
                    ).colour_spec() == Some(!defender) && #[trigger] piece_attacks(
                        b@,
                        ray_r(tri, dr as int, j),
                        ray_c(tci, dc as int, j),
                        tri,
                        tci,
                    )) by {
                        lemma_ray_no_attack(b@, tri, tci, dr as int, dc as int, k as int, defender, j);
                    }
                }
            }
            hit
        },
    }
}

// ---------------------------------------------------------------------------
// The full attack scan.
// ---------------------------------------------------------------------------

/// Whether any piece of the enemy of `defender` attacks (tr, tc): four
/// straight rays, four diagonal rays, and the eight knight offsets.
pub(crate) fn board_attacked(b: &Vec<Pieces>, tr: usize, tc: usize, defender: bool) -> (res: bool)
    requires
        b@.len() == 64,
        tr < 8,
        tc < 8,
    ensures
        res == attacked(b@, tr as int, tc as int, defender),
{
    let ghost tri = tr as int;
    let ghost tci = tc as int;
    if straight_hit(b, tr, tc, 1, 0, defender) {
        return true;
    }
    if straight_hit(b, tr, tc, -1, 0, defender) {
        return true;
    }
    if straight_hit(b, tr, tc, 0, 1, defender) {
        return true;
    }
    if straight_hit(b, tr, tc, 0, -1, defender) {
        return true;
    }
    if diag_hit(b, tr, tc, 1, 1, defender) {
        return true;
    }
    if diag_hit(b, tr, tc, 1, -1, defender) {
        return true;
    }
    if diag_hit(b, tr, tc, -1, 1, defender) {
        return true;
    }
    if diag_hit(b, tr, tc, -1, -1, defender) {
        return true;
    }
    let enemy_knight = Pieces::Knight(!defender);
    if tr + 2 < 8 && tc + 1 < 8 && self_index(b, tr + 2, tc + 1) == enemy_knight {
        proof {
            assert(piece_attacks(b@, tri + 2, tci + 1, tri, tci));
        }
        return true;
    }
    if tr + 2 < 8 && tc >= 1 && self_index(b, tr + 2, tc - 1) == enemy_knight {
        proof {
            assert(piece_attacks(b@, tri + 2, tci - 1, tri, tci));
        }
        return true;
    }
    if tr >= 2 && tc + 1 < 8 && self_index(b, tr - 2, tc + 1) == enemy_knight {
        proof {
            assert(piece_attacks(b@, tri - 2, tci + 1, tri, tci));
        }
        return true;
    }
    if tr >= 2 && tc >= 1 && self_index(b, tr - 2, tc - 1) == enemy_knight {
        proof {
            assert(piece_attacks(b@, tri - 2, tci - 1, tri, tci));
        }
        return true;
    }
    if tr + 1 < 8 && tc + 2 < 8 && self_index(b, tr + 1, tc + 2) == enemy_knight {
        proof {
            assert(piece_attacks(b@, tri + 1, tci + 2, tri, tci));
        }
        return true;
    }
    if tr + 1 < 8 && tc >= 2 && self_index(b, tr + 1, tc - 2) == enemy_knight {
        proof {
            assert(piece_attacks(b@, tri + 1, tci - 2, tri, tci));
        }
        return true;
    }
    if tr >= 1 && tc + 2 < 8 && self_index(b, tr - 1, tc + 2) == enemy_knight {
        proof {
            assert(piece_attacks(b@, tri - 1, tci + 2, tri, tci));
        }
        return true;
    }
    if tr >= 1 && tc >= 2 && self_index(b, tr - 1, tc - 2) == enemy_knight {
        proof {
            assert(piece_attacks(b@, tri - 1, tci - 2, tri, tci));
        }
        return true;
    }
    proof {
        assert forall|ar: int, ac: int|
            sq_ok(ar, ac) && at(b@, ar, ac).colour_spec() == Some(!defender) implies !(
        #[trigger] piece_attacks(b@, ar, ac, tri, tci)) by {
            if piece_attacks(b@, ar, ac, tri, tci) {
                match at(b@, ar, ac) {
                    Pieces::Knight(_) => {
                        assert(false);
                    },
                    Pieces::Empty => {},
                    _ => {
                        // every other attacker lies on one of the eight rays
                        let dr: int = if ar > tri {
                            1
                        } else if ar < tri {
                            -1
                        } else {
                            0
                        };
                        let dc: int = if ac > tci {
                            1
                        } else if ac < tci {
                            -1
                        } else {
                            0
                        };
                        let j = if ar != tri {
                            absd(ar, tri)
                        } else {
                            absd(ac, tci)
                        };
                        assert(1 <= j);
                        assert(ar == ray_r(tri, dr, j) && ac == ray_c(tci, dc, j));
                        if dr == 1 && dc == 0 {
                            assert(!(at(b@, ray_r(tri, 1, j), ray_c(tci, 0, j)).colour_spec()
                                == Some(!defender) && piece_attacks(
                                b@,
                                ray_r(tri, 1, j),
                                ray_c(tci, 0, j),
                                tri,
                                tci,
                            )));
                        } else if dr == -1 && dc == 0 {
                            assert(!(at(b@, ray_r(tri, -1, j), ray_c(tci, 0, j)).colour_spec()
                                == Some(!defender) && piece_attacks(
                                b@,
                                ray_r(tri, -1, j),
                                ray_c(tci, 0, j),
                                tri,
                                tci,
                            )));
                        } else if dr == 0 && dc == 1 {
                            assert(!(at(b@, ray_r(tri, 0, j), ray_c(tci, 1, j)).colour_spec()
                                == Some(!defender) && piece_attacks(
                                b@,
                                ray_r(tri, 0, j),
                                ray_c(tci, 1, j),
                                tri,
                                tci,
                            )));
                        } else if dr == 0 && dc == -1 {
                            assert(!(at(b@, ray_r(tri, 0, j), ray_c(tci, -1, j)).colour_spec()
                                == Some(!defender) && piece_attacks(
                                b@,
                                ray_r(tri, 0, j),
                                ray_c(tci, -1, j),
                                tri,
                                tci,
                            )));
                        } else if dr == 1 && dc == 1 {
                            assert(!(at(b@, ray_r(tri, 1, j), ray_c(tci, 1, j)).colour_spec()
                                == Some(!defender) && piece_attacks(
                                b@,
                                ray_r(tri, 1, j),
                                ray_c(tci, 1, j),
                                tri,
                                tci,
                            )));
                        } else if dr == 1 && dc == -1 {
                            assert(!(at(b@, ray_r(tri, 1, j), ray_c(tci, -1, j)).colour_spec()
                                == Some(!defender) && piece_attacks(
                                b@,
                                ray_r(tri, 1, j),
                                ray_c(tci, -1, j),
                                tri,
                                tci,
                            )));
                        } else if dr == -1 && dc == 1 {
                            assert(!(at(b@, ray_r(tri, -1, j), ray_c(tci, 1, j)).colour_spec()
                                == Some(!defender) && piece_attacks(
                                b@,
                                ray_r(tri, -1, j),
                                ray_c(tci, 1, j),
                                tri,
                                tci,
                            )));
                        } else {
                            assert(dr == -1 && dc == -1);
                            assert(!(at(b@, ray_r(tri, -1, j), ray_c(tci, -1, j)).colour_spec()
                                == Some(!defender) && piece_attacks(
                                b@,
                                ray_r(tri, -1, j),
                                ray_c(tci, -1, j),
                                tri,
                                tci,
                            )));
                        }
                    },
                }
            }
        }
    }
    false
}

impl Game {
    /// Whether the square `i` of the defending colour `c` is attacked by
    /// any enemy piece.
    pub fn check(&self, i: (usize, usize), c: bool) -> (r: bool)
        requires
            self@.board.len() == 64,
            i.0 < 8,
            i.1 < 8,
        ensures
            r == attacked(self@.board, i.0 as int, i.1 as int, c),
    {
        board_attacked(&self.board, i.0, i.1, c)
    }
}

} // verus!
