use vstd::prelude::*;
use crate::nmm::{Color, Point};

verus! {

/// Number of points on the board.
pub const NUM_POINTS: usize = 24;

/// Number of mill lines on the board.
pub const NUM_LINES: usize = 16;

/// Whether points `p` and `q` are joined by a line of the board. The board
/// is three concentric squares; point `8 * r + i` is position `i` (0 to 7,
/// clockwise from the top-left corner; even positions are corners, odd ones
/// midpoints) of square `r` (0 outer, 1 middle, 2 inner).
pub open spec fn adjacent(p: int, q: int) -> bool {
    if p == 0 {
        q == 1 || q == 7
    } else if p == 1 {
        q == 0 || q == 2 || q == 9
    } else if p == 2 {
        q == 1 || q == 3
    } else if p == 3 {
        q == 2 || q == 4 || q == 11
    } else if p == 4 {
        q == 3 || q == 5
    } else if p == 5 {
        q == 4 || q == 6 || q == 13
    } else if p == 6 {
        q == 5 || q == 7
    } else if p == 7 {
        q == 6 || q == 0 || q == 15
    } else if p == 8 {
        q == 9 || q == 15
    } else if p == 9 {
        q == 8 || q == 10 || q == 1 || q == 17
    } else if p == 10 {
        q == 9 || q == 11
    } else if p == 11 {
        q == 10 || q == 12 || q == 3 || q == 19
    } else if p == 12 {
        q == 11 || q == 13
    } else if p == 13 {
        q == 12 || q == 14 || q == 5 || q == 21
    } else if p == 14 {
        q == 13 || q == 15
    } else if p == 15 {
        q == 14 || q == 8 || q == 7 || q == 23
    } else if p == 16 {
        q == 17 || q == 23
    } else if p == 17 {
        q == 16 || q == 18 || q == 9
    } else if p == 18 {
        q == 17 || q == 19
    } else if p == 19 {
        q == 18 || q == 20 || q == 11
    } else if p == 20 {
        q == 19 || q == 21
    } else if p == 21 {
        q == 20 || q == 22 || q == 13
    } else if p == 22 {
        q == 21 || q == 23
    } else if p == 23 {
        q == 22 || q == 16 || q == 15
    } else {
        false
    }
}

/// Adjacency by the squares: neighbours on the same square, or midpoints at
/// the same position on neighbouring squares.
pub open spec fn adjacent_on_squares(p: int, q: int) -> bool {
    &&& 0 <= p < 24
    &&& 0 <= q < 24
    &&& {
        ||| (p / 8 == q / 8 && ((p % 8 + 1) % 8 == q % 8 || (q % 8 + 1) % 8 == p % 8))
        ||| (p % 8 == q % 8 && p % 2 == 1 && (p / 8 == q / 8 + 1 || q / 8 == p / 8 + 1))
    }
}

/// Point `k` (0 to 2) of mill line `l` (0 to 15): the four sides of each
/// square, then the four spokes.
pub open spec fn line_point(l: int, k: int) -> int {
    let t: (int, int, int) = if l == 0 {
        (0, 1, 2)
    } else if l == 1 {
        (2, 3, 4)
    } else if l == 2 {
        (4, 5, 6)
    } else if l == 3 {
        (6, 7, 0)
    } else if l == 4 {
        (8, 9, 10)
    } else if l == 5 {
        (10, 11, 12)
    } else if l == 6 {
        (12, 13, 14)
    } else if l == 7 {
        (14, 15, 8)
    } else if l == 8 {
        (16, 17, 18)
    } else if l == 9 {
        (18, 19, 20)
    } else if l == 10 {
        (20, 21, 22)
    } else if l == 11 {
        (22, 23, 16)
    } else if l == 12 {
        (1, 9, 17)
    } else if l == 13 {
        (3, 11, 19)
    } else if l == 14 {
        (5, 13, 21)
    } else if l == 15 {
        (7, 15, 23)
    } else {
        (-1, -1, -1)
    };
    if k == 0 {
        t.0
    } else if k == 1 {
        t.1
    } else {
        t.2
    }
}

/// The mill lines by the squares: line `4 * r + s` is side `s` of square
/// `r`, line `12 + s` the spoke through the midpoints at position `2 * s + 1`.
pub open spec fn line_point_on_squares(l: int, k: int) -> int {
    if l < 12 {
        8 * (l / 4) + (2 * (l % 4) + k) % 8
    } else {
        8 * k + 2 * (l - 12) + 1
    }
}

/// The square arithmetic gives the adjacency table; the proof splits on the
/// point `p`, the solver settles each of the 24 cases.
pub proof fn lemma_adjacent_on_squares(p: int, q: int)
    ensures
        adjacent_on_squares(p, q) == adjacent(p, q),
{
    if p == 0 {
    } else if p == 1 {
    } else if p == 2 {
    } else if p == 3 {
    } else if p == 4 {
    } else if p == 5 {
    } else if p == 6 {
    } else if p == 7 {
    } else if p == 8 {
    } else if p == 9 {
    } else if p == 10 {
    } else if p == 11 {
    } else if p == 12 {
    } else if p == 13 {
    } else if p == 14 {
    } else if p == 15 {
    } else if p == 16 {
    } else if p == 17 {
    } else if p == 18 {
    } else if p == 19 {
    } else if p == 20 {
    } else if p == 21 {
    } else if p == 22 {
    } else if p == 23 {
    }
}

/// The square arithmetic gives the table of mill lines.
pub proof fn lemma_line_point_on_squares(l: int, k: int)
    requires
        0 <= l < 16,
        0 <= k < 3,
    ensures
        line_point_on_squares(l, k) == line_point(l, k),
{
}

pub open spec fn on_line(l: int, p: int) -> bool {
    line_point(l, 0) == p || line_point(l, 1) == p || line_point(l, 2) == p
}

/// All three points of line `l` hold a piece of `c`.
pub open spec fn line_complete(b: Seq<Option<Color>>, l: int, c: Color) -> bool {
    &&& b[line_point(l, 0)] == Some(c)
    &&& b[line_point(l, 1)] == Some(c)
    &&& b[line_point(l, 2)] == Some(c)
}

/// Some line is complete for `c` on `after` and was not on `before`.
pub open spec fn forms_mill(before: Seq<Option<Color>>, after: Seq<Option<Color>>, c: Color) -> bool {
    exists|l: int| 0 <= l < 16 && #[trigger] line_complete(after, l, c) && !line_complete(before, l, c)
}

/// The piece on `p` belongs to a complete line of its own colour.
pub open spec fn in_mill(b: Seq<Option<Color>>, p: int) -> bool {
    exists|l: int|
        0 <= l < 16 && #[trigger] on_line(l, p) && b[p] is Some && line_complete(b, l, b[p]->Some_0)
}

/// `c` has a piece that is not part of any mill.
pub open spec fn has_free_piece(b: Seq<Option<Color>>, c: Color) -> bool {
    exists|p: int| 0 <= p < 24 && #[trigger] b[p] == Some(c) && !in_mill(b, p)
}

/// `c` can move some piece to an empty point: an adjacent one, or any one
/// when `flying`.
pub open spec fn has_legal_move(b: Seq<Option<Color>>, c: Color, flying: bool) -> bool {
    exists|p: int, q: int|
        0 <= p < 24 && 0 <= q < 24 && #[trigger] b[p] == Some(c) && #[trigger] b[q] is None
            && (flying || adjacent(p, q))
}

/// Number of pieces of `c` on `b`.
pub open spec fn count(b: Seq<Option<Color>>, c: Color) -> nat
    decreases b.len(),
{
    if b.len() == 0 {
        0
    } else {
        count(b.drop_last(), c) + if b.last() == Some(c) { 1nat } else { 0nat }
    }
}

pub fn is_adjacent(p: Point, q: Point) -> (r: bool)
    ensures
        r == adjacent(p as int, q as int),
{
    proof {
        lemma_adjacent_on_squares(p as int, q as int);
    }
    if p >= 24 || q >= 24 {
        return false;
    }
    let (rp, ip, rq, iq) = (p / 8, p % 8, q / 8, q % 8);
    (rp == rq && ((ip + 1) % 8 == iq || (iq + 1) % 8 == ip)) || (ip == iq && p % 2 == 1 && (rp
        == rq + 1 || rq == rp + 1))
}

pub fn line_point_at(l: usize, k: usize) -> (r: Point)
    requires
        l < 16,
        k < 3,
    ensures
        r == line_point(l as int, k as int),
        r < 24,
{
    proof {
        lemma_line_point_on_squares(l as int, k as int);
    }
    proof {
        lemma_line_point_on_squares(l as int, k as int);
    }
    if l < 12 {
        8 * (l / 4) + (2 * (l % 4) + k) % 8
    } else {
        8 * k + 2 * (l - 12) + 1
    }
}

/// Whether `cell` holds a piece of `c`.
pub fn holds(cell: Option<Color>, c: Color) -> (r: bool)
    ensures
        r == (cell == Some(c)),
{
    match cell {
        Some(d) => d == c,
        None => false,
    }
}

pub fn is_line_complete(b: &[Option<Color>; 24], l: usize, c: Color) -> (r: bool)
    requires
        l < 16,
    ensures
        r == line_complete(b@, l as int, c),
{
    holds(b[line_point_at(l, 0)], c) && holds(b[line_point_at(l, 1)], c) && holds(
        b[line_point_at(l, 2)],
        c,
    )
}

pub fn is_mill_formed(before: &[Option<Color>; 24], after: &[Option<Color>; 24], c: Color) -> (r:
    bool)
    ensures
        r == forms_mill(before@, after@, c),
{
    let mut l: usize = 0;
    while l < NUM_LINES
        invariant
            l <= 16,
            forall|m: int| 0 <= m < l ==> !(#[trigger] line_complete(after@, m, c) && !line_complete(before@, m, c)),
        decreases 16 - l,
    {
        if is_line_complete(after, l, c) && !is_line_complete(before, l, c) {
            return true;
        }
        l = l + 1;
    }
    false
}

pub fn is_in_mill(b: &[Option<Color>; 24], p: Point) -> (r: bool)
    requires
        p < 24,
    ensures
        r == in_mill(b@, p as int),
{
    let c = match b[p] {
        Some(c) => c,
        None => return false,
    };
    let mut l: usize = 0;
    while l < NUM_LINES
        invariant
            l <= 16,
            p < 24,
            b@[p as int] == Some(c),
            forall|m: int| 0 <= m < l ==> !(#[trigger] on_line(m, p as int) && line_complete(b@, m, c)),
        decreases 16 - l,
    {
        let on = line_point_at(l, 0) == p || line_point_at(l, 1) == p || line_point_at(l, 2) == p;
        if on && is_line_complete(b, l, c) {
            assert(on_line(l as int, p as int));
            return true;
        }
        l = l + 1;
    }
    false
}

pub fn has_piece_outside_mills(b: &[Option<Color>; 24], c: Color) -> (r: bool)
    ensures
        r == has_free_piece(b@, c),
{
    let mut p: usize = 0;
    while p < NUM_POINTS
        invariant
            p <= 24,
            forall|q: int| 0 <= q < p ==> !(#[trigger] b@[q] == Some(c) && !in_mill(b@, q)),
        decreases 24 - p,
    {
        if holds(b[p], c) && !is_in_mill(b, p) {
            return true;
        }
        p = p + 1;
    }
    false
}

pub fn can_move(b: &[Option<Color>; 24], c: Color, flying: bool) -> (r: bool)
    ensures
        r == has_legal_move(b@, c, flying),
{
    let mut p: usize = 0;
    while p < NUM_POINTS
        invariant
            p <= 24,
            forall|x: int, y: int|
                0 <= x < p && 0 <= y < 24 ==> !(#[trigger] b@[x] == Some(c) && #[trigger] b@[y] is None
                    && (flying || adjacent(x, y))),
        decreases 24 - p,
    {
        if holds(b[p], c) {
            let mut q: usize = 0;
            while q < NUM_POINTS
                invariant
                    p < 24,
                    q <= 24,
                    b@[p as int] == Some(c),
                    forall|x: int, y: int|
                        0 <= x < p && 0 <= y < 24 ==> !(#[trigger] b@[x] == Some(c) && #[trigger] b@[y] is None
                            && (flying || adjacent(x, y))),
                    forall|y: int| 0 <= y < q ==> !(#[trigger] b@[y] is None && (flying || adjacent(p as int, y))),
                decreases 24 - q,
            {
                if b[q].is_none() && (flying || is_adjacent(p, q)) {
                    return true;
                }
                q = q + 1;
            }
        }
        p = p + 1;
    }
    false
}

/// Setting one cell changes the count of `c` by what left and what came.
pub proof fn lemma_count_update(b: Seq<Option<Color>>, i: int, v: Option<Color>, c: Color)
    requires
        0 <= i < b.len(),
    ensures
        count(b.update(i, v), c) + (if b[i] == Some(c) { 1int } else { 0int }) == count(b, c) + (
        if v == Some(c) { 1int } else { 0int }),
    decreases b.len(),
{
    let u = b.update(i, v);
    if i == b.len() - 1 {
        assert(u.drop_last() =~= b.drop_last());
    } else {
        assert(u.drop_last() =~= b.drop_last().update(i, v));
        lemma_count_update(b.drop_last(), i, v, c);
    }
}

/// A board with a piece of `c` on it counts at least one.
pub proof fn lemma_count_positive(b: Seq<Option<Color>>, i: int, c: Color)
    requires
        0 <= i < b.len(),
        b[i] == Some(c),
    ensures
        count(b, c) >= 1,
    decreases b.len(),
{
    if i < b.len() - 1 {
        lemma_count_positive(b.drop_last(), i, c);
    }
}

/// An empty board counts no piece.
pub proof fn lemma_count_empty(n: nat, c: Color)
    ensures
        count(Seq::new(n, |i: int| None::<Color>), c) == 0,
    decreases n,
{
    if n > 0 {
        assert(Seq::new(n, |i: int| None::<Color>).drop_last() =~= Seq::new(
            (n - 1) as nat,
            |i: int| None::<Color>,
        ));
        lemma_count_empty((n - 1) as nat, c);
    }
}

} // verus!
