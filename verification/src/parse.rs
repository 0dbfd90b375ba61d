use vstd::prelude::*;
use vstd::string::StrSliceExecFns;
use crate::game::Game;
use crate::moves::IllegalMove;

verus! {

/// The file index a letter names: 'a' through 'h', either case.
pub open spec fn file_index(ch: char) -> Option<int> {
    if ch == 'a' || ch == 'A' {
        Some(0int)
    } else if ch == 'b' || ch == 'B' {
        Some(1int)
    } else if ch == 'c' || ch == 'C' {
        Some(2int)
    } else if ch == 'd' || ch == 'D' {
        Some(3int)
    } else if ch == 'e' || ch == 'E' {
        Some(4int)
    } else if ch == 'f' || ch == 'F' {
        Some(5int)
    } else if ch == 'g' || ch == 'G' {
        Some(6int)
    } else if ch == 'h' || ch == 'H' {
        Some(7int)
    } else {
        None
    }
}

/// The rank index a digit names: '1' through '8'.
pub open spec fn rank_index(ch: char) -> Option<int> {
    if ch == '1' {
        Some(0int)
    } else if ch == '2' {
        Some(1int)
    } else if ch == '3' {
        Some(2int)
    } else if ch == '4' {
        Some(3int)
    } else if ch == '5' {
        Some(4int)
    } else if ch == '6' {
        Some(5int)
    } else if ch == '7' {
        Some(6int)
    } else if ch == '8' {
        Some(7int)
    } else {
        None
    }
}

/// What a four-character move request denotes: file letter and rank digit
/// of the source, then of the destination, as (rank, file) pairs.
pub open spec fn parsed_move(s: Seq<char>) -> Option<((int, int), (int, int))> {
    if s.len() != 4 {
        None
    } else {
        match (file_index(s[0]), rank_index(s[1]), file_index(s[2]), rank_index(s[3])) {
            (Some(c1), Some(r1), Some(c2), Some(r2)) => Some(((r1, c1), (r2, c2))),
            _ => None,
        }
    }
}

/// Maps a file letter to its index.
fn file_of(ch: char) -> (r: Option<usize>)
    ensures
        (match r {
            Some(v) => v < 8 && file_index(ch) == Some(v as int),
            None => file_index(ch) is None,
        }),
{
    match ch {
        'a' | 'A' => Some(0),
        'b' | 'B' => Some(1),
        'c' | 'C' => Some(2),
        'd' | 'D' => Some(3),
        'e' | 'E' => Some(4),
        'f' | 'F' => Some(5),
        'g' | 'G' => Some(6),
        'h' | 'H' => Some(7),
        _ => None,
    }
}

/// Maps a rank digit to its index.
fn rank_of(ch: char) -> (r: Option<usize>)
    ensures
        (match r {
            Some(v) => v < 8 && rank_index(ch) == Some(v as int),
            None => rank_index(ch) is None,
        }),
{
    match ch {
        '1' => Some(0),
        '2' => Some(1),
        '3' => Some(2),
        '4' => Some(3),
        '5' => Some(4),
        '6' => Some(5),
        '7' => Some(6),
        '8' => Some(7),
    _ => None,
    }
}

impl Game {
    /// Reads a move request of the form file-letter, rank-digit, file-
    /// letter, rank-digit (for instance "e2e4", either case), and rejects
    /// anything else.
    pub fn parse_move(mov: &str) -> (r: Result<((usize, usize), (usize, usize)), IllegalMove>)
        ensures
            (match r {
                Ok(sq) => sq.0.0 < 8 && sq.0.1 < 8 && sq.1.0 < 8 && sq.1.1 < 8 && parsed_move(mov@)
                    == Some(
                    ((sq.0.0 as int, sq.0.1 as int), (sq.1.0 as int, sq.1.1 as int)),
                ),
                Err(e) => e == IllegalMove::MalformedMoveText && parsed_move(mov@) is None,
            }),
    {
        if mov.unicode_len() != 4 {
            return Err(IllegalMove::MalformedMoveText);
        }
        let c1 = file_of(mov.get_char(0));
        let r1 = rank_of(mov.get_char(1));
        let c2 = file_of(mov.get_char(2));
        let r2 = rank_of(mov.get_char(3));
        match (c1, r1, c2, r2) {
            (Some(c1), Some(r1), Some(c2), Some(r2)) => Ok(((r1, c1), (r2, c2))),
            _ => Err(IllegalMove::MalformedMoveText),
        }
    }
}

} // verus!
