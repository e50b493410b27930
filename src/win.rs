//! Four-in-a-row detection around the piece just placed.
use vstd::prelude::*;
use crate::board::{Board, Player, Point, in_bounds, occupant_of};

verus! {

/// The offsets scanned along axis `a`: the two diagonals, the horizontal
/// and the vertical (downwards only: nothing can lie above the new piece).
pub open spec fn axis(a: int) -> Seq<(i16, i16)> {
    if a == 0 {
        seq![(-3i16, -3i16), (-2i16, -2i16), (-1i16, -1i16), (0i16, 0i16), (1i16, 1i16), (2i16, 2i16), (3i16, 3i16)]
    } else if a == 1 {
        seq![(-3i16, 3i16), (-2i16, 2i16), (-1i16, 1i16), (0i16, 0i16), (1i16, -1i16), (2i16, -2i16), (3i16, -3i16)]
    } else if a == 2 {
        seq![(-3i16, 0i16), (-2i16, 0i16), (-1i16, 0i16), (0i16, 0i16), (1i16, 0i16), (2i16, 0i16), (3i16, 0i16)]
    } else {
        seq![(0i16, 3i16), (0i16, 2i16), (0i16, 1i16), (0i16, 0i16)]
    }
}

/// What the board `m` holds at each offset from `at`, in order.
pub open spec fn observe(m: Map<(int, int), Player>, at: (int, int), offsets: Seq<(i16, i16)>) -> Seq<
    Option<Player>,
> {
    Seq::new(
        offsets.len(),
        |i: int| occupant_of(m, at.0 + offsets[i].0, at.1 + offsets[i].1),
    )
}

/// Scans `s` with a running counter that starts at `count`: a piece of `p`
/// adds one, a piece of the other player resets it to zero, an empty cell
/// leaves it as it is. True when the counter reaches four.
pub open spec fn reaches_four(s: Seq<Option<Player>>, p: Player, count: int) -> bool
    decreases s.len(),
{
    if s.len() == 0 {
        false
    } else {
        match s[0] {
            None => reaches_four(s.drop_first(), p, count),
            Some(q) => {
                let next = if q == p {
                    count + 1
                } else {
                    0
                };
                next == 4 || reaches_four(s.drop_first(), p, next)
            },
        }
    }
}

/// Whether `p`'s piece at `at` completes four in a row on one of the axes.
pub open spec fn wins(m: Map<(int, int), Player>, p: Player, at: (int, int)) -> bool {
    ||| reaches_four(observe(m, at, axis(0)), p, 0)
    ||| reaches_four(observe(m, at, axis(1)), p, 0)
    ||| reaches_four(observe(m, at, axis(2)), p, 0)
    ||| reaches_four(observe(m, at, axis(3)), p, 0)
}

/// The offsets of the four axes, in the order in which they are tried.
pub fn neighbors() -> (r: Vec<Vec<(i16, i16)>>)
    ensures
        r@.len() == 4,
        forall|a: int| 0 <= a < 4 ==> #[trigger] r@[a]@ == axis(a),
{
    let d1: Vec<(i16, i16)> = vec![(-3, -3), (-2, -2), (-1, -1), (0, 0), (1, 1), (2, 2), (3, 3)];
    let d2: Vec<(i16, i16)> = vec![(-3, 3), (-2, 2), (-1, 1), (0, 0), (1, -1), (2, -2), (3, -3)];
    let h: Vec<(i16, i16)> = vec![(-3, 0), (-2, 0), (-1, 0), (0, 0), (1, 0), (2, 0), (3, 0)];
    let v: Vec<(i16, i16)> = vec![(0, 3), (0, 2), (0, 1), (0, 0)];
    assert(d1@ =~= axis(0));
    assert(d2@ =~= axis(1));
    assert(h@ =~= axis(2));
    assert(v@ =~= axis(3));
    let r = vec![d1, d2, h, v];
    r
}

/// Scans the cells at `neighbors` offsets from `last_point` for a run of
/// `current_player`'s pieces reaching four.
pub fn game_over(
    board: &Board,
    current_player: Player,
    last_point: Point,
    neighbors: &Vec<(i16, i16)>,
) -> (r: bool)
    requires
        board.wf(),
    ensures
        r == reaches_four(observe(board@, last_point@, neighbors@), current_player, 0),
{
    let ghost s = observe(board@, last_point@, neighbors@);
    let mut count: u16 = 0;
    let mut i: usize = 0;
    assert(s.subrange(0, s.len() as int) =~= s);
    proof {
        board.lemma_no_floating_pieces();
    }
    while i < neighbors.len()
        invariant
            board.wf(),
            forall|k: (int, int)| #[trigger] board@.contains_key(k) ==> in_bounds(k.0, k.1),
            0 <= i <= neighbors@.len(),
            s.len() == neighbors@.len(),
            s == observe(board@, last_point@, neighbors@),
            count < 4,
            reaches_four(s.subrange(i as int, s.len() as int), current_player, count as int)
                == reaches_four(s, current_player, 0),
        decreases neighbors@.len() - i,
    {
        let pair = neighbors[i];
        let x: i32 = last_point.column as i32 + pair.0 as i32;
        let y: i32 = last_point.row as i32 + pair.1 as i32;
        let ghost rest = s.subrange(i as int, s.len() as int);
        assert(rest.drop_first() =~= s.subrange(i + 1, s.len() as int));
        assert(rest[0] == occupant_of(board@, x as int, y as int));
        if x > 0 && y > 0 && x <= 7 && y <= 6 {
            let cell = board.occupant(Point { column: x as u16, row: y as u16 });
            if let Some(neighbor) = cell {
                if neighbor == current_player {
                    count = count + 1;
                } else {
                    count = 0;
                }
                if count == 4 {
                    return true;
                }
            }
        }
        i = i + 1;
    }
    false
}

impl Board {
    /// Whether `player`'s piece at `point` completes four in a row.
    pub fn is_winning_move(&self, player: Player, point: Point) -> (r: bool)
        requires
            self.wf(),
        ensures
            r == wins(self@, player, point@),
    {
        let axes = neighbors();
        let mut a: usize = 0;
        while a < axes.len()
            invariant
                self.wf(),
                0 <= a <= 4,
                axes@.len() == 4,
                forall|b: int| 0 <= b < 4 ==> #[trigger] axes@[b]@ == axis(b),
                forall|b: int|
                    0 <= b < a ==> !reaches_four(observe(self@, point@, #[trigger] axis(b)), player, 0),
            decreases 4 - a,
        {
            if game_over(self, player, point, &axes[a]) {
                return true;
            }
            a = a + 1;
        }
        assert(!reaches_four(observe(self@, point@, axis(0)), player, 0));
        assert(!reaches_four(observe(self@, point@, axis(1)), player, 0));
        assert(!reaches_four(observe(self@, point@, axis(2)), player, 0));
        assert(!reaches_four(observe(self@, point@, axis(3)), player, 0));
        false
    }
}

/// `m` reflected left to right: column `c` becomes column `8 - c`.
pub open spec fn mirror(m: Map<(int, int), Player>) -> Map<(int, int), Player> {
    Map::new(|k: (int, int)| m.contains_key((8 - k.0, k.1)), |k: (int, int)| m[(8 - k.0, k.1)])
}

/// Whether `x` is a piece of `p`'s opponent.
pub open spec fn opposes(x: Option<Player>, p: Player) -> bool {
    x matches Some(q) && q != p
}

/// Positions `i < j < k < l` of `s` hold pieces of `p`, and no piece of the
/// opponent lies between the first and the last.
pub open spec fn run_at(s: Seq<Option<Player>>, p: Player, i: int, j: int, k: int, l: int) -> bool {
    &&& 0 <= i < j < k < l < s.len()
    &&& s[i] == Some(p) && s[j] == Some(p) && s[k] == Some(p) && s[l] == Some(p)
    &&& forall|x: int| i <= x <= l ==> !opposes(#[trigger] s[x], p)
}

pub open spec fn has_run(s: Seq<Option<Player>>, p: Player) -> bool {
    exists|i: int, j: int, k: int, l: int| #[trigger] run_at(s, p, i, j, k, l)
}

pub open spec fn pieces_of(p: Player, n: int) -> Seq<Option<Player>> {
    Seq::new(n as nat, |i: int| Some(p))
}

pub open spec fn reversed(s: Seq<Option<Player>>) -> Seq<Option<Player>> {
    Seq::new(s.len(), |i: int| s[s.len() - 1 - i])
}

/// The scan started with `count` reaches four exactly when `count` pieces of
/// `p` followed by `s` hold a run.
proof fn lemma_reaches_four_has_run(s: Seq<Option<Player>>, p: Player, count: int)
    requires
        0 <= count < 4,
    ensures
        reaches_four(s, p, count) == has_run(pieces_of(p, count) + s, p),
    decreases s.len(),
{
    let t = pieces_of(p, count) + s;
    if s.len() == 0 {
        if has_run(t, p) {
            let (i, j, k, l) = choose|i: int, j: int, k: int, l: int| #[trigger] run_at(t, p, i, j, k, l);
        }
    } else {
        let s2 = s.drop_first();
        assert(t[count] == s[0]);
        match s[0] {
            None => {
                lemma_reaches_four_has_run(s2, p, count);
                let t2 = pieces_of(p, count) + s2;
                assert forall|x: int| 0 <= x < t2.len() implies #[trigger] t2[x] == t[if x < count {
                    x
                } else {
                    x + 1
                }] by {}
                if has_run(t, p) {
                    let (i, j, k, l) = choose|i: int, j: int, k: int, l: int| #[trigger] run_at(t, p, i, j, k, l);
                    let fi = if i < count { i } else { i - 1 };
                    let fj = if j < count { j } else { j - 1 };
                    let fk = if k < count { k } else { k - 1 };
                    let fl = if l < count { l } else { l - 1 };
                    assert forall|x: int| fi <= x <= fl implies !opposes(#[trigger] t2[x], p) by {
                        let y = if x < count { x } else { x + 1 };
                        assert(t2[x] == t[y]);
                    }
                    assert(run_at(t2, p, fi, fj, fk, fl));
                }
                if has_run(t2, p) {
                    let (i, j, k, l) = choose|i: int, j: int, k: int, l: int| #[trigger] run_at(t2, p, i, j, k, l);
                    let gi = if i < count { i } else { i + 1 };
                    let gj = if j < count { j } else { j + 1 };
                    let gk = if k < count { k } else { k + 1 };
                    let gl = if l < count { l } else { l + 1 };
                    assert(t[gi] == t2[i] && t[gj] == t2[j] && t[gk] == t2[k] && t[gl] == t2[l]);
                    assert forall|x: int| gi <= x <= gl implies !opposes(#[trigger] t[x], p) by {
                        if x != count {
                            let y = if x < count { x } else { x - 1 };
                            assert(t[x] == t2[y]);
                        }
                    }
                    assert(run_at(t, p, gi, gj, gk, gl));
                }
            },
            Some(q) => {
                if q == p {
                    if count == 3 {
                        assert(run_at(t, p, 0, 1, 2, 3));
                    } else {
                        lemma_reaches_four_has_run(s2, p, count + 1);
                        assert(pieces_of(p, count + 1) + s2 =~= t);
                    }
                } else {
                    lemma_reaches_four_has_run(s2, p, 0);
                    assert(pieces_of(p, 0) + s2 =~= s2);
                    let d = count + 1;
                    if has_run(t, p) {
                        let (i, j, k, l) = choose|i: int, j: int, k: int, l: int| #[trigger] run_at(t, p, i, j, k, l);
                        assert(!opposes(t[i], p));
                        if i <= count {
                            assert(!opposes(t[count], p));
                        }
                        assert forall|x: int| i - d <= x <= l - d implies !opposes(#[trigger] s2[x], p) by {
                            assert(s2[x] == t[x + d]);
                        }
                        assert(s2[i - d] == t[i] && s2[j - d] == t[j] && s2[k - d] == t[k] && s2[l - d] == t[l]);
                        assert(run_at(s2, p, i - d, j - d, k - d, l - d));
                    }
                    if has_run(s2, p) {
                        let (i, j, k, l) = choose|i: int, j: int, k: int, l: int| #[trigger] run_at(s2, p, i, j, k, l);
                        assert forall|x: int| i + d <= x <= l + d implies !opposes(#[trigger] t[x], p) by {
                            assert(s2[x - d] == t[x]);
                        }
                        assert(s2[i] == t[i + d] && s2[j] == t[j + d] && s2[k] == t[k + d] && s2[l] == t[l + d]);
                        assert(run_at(t, p, i + d, j + d, k + d, l + d));
                    }
                }
            },
        }
    }
}

proof fn lemma_has_run_reversed(s: Seq<Option<Player>>, p: Player)
    requires
        has_run(s, p),
    ensures
        has_run(reversed(s), p),
{
    let r = reversed(s);
    let n = s.len();
    let (i, j, k, l) = choose|i: int, j: int, k: int, l: int| #[trigger] run_at(s, p, i, j, k, l);
    assert forall|x: int| n - 1 - l <= x <= n - 1 - i implies !opposes(#[trigger] r[x], p) by {
        assert(r[x] == s[n - 1 - x]);
    }
    assert(run_at(r, p, n - 1 - l, n - 1 - k, n - 1 - j, n - 1 - i));
}

/// The scan gives the same answer read forwards or backwards.
proof fn lemma_reaches_four_reversed(s: Seq<Option<Player>>, p: Player)
    ensures
        reaches_four(reversed(s), p, 0) == reaches_four(s, p, 0),
{
    lemma_reaches_four_has_run(s, p, 0);
    lemma_reaches_four_has_run(reversed(s), p, 0);
    assert(pieces_of(p, 0) + s =~= s);
    assert(pieces_of(p, 0) + reversed(s) =~= reversed(s));
    assert(reversed(reversed(s)) =~= s);
    if has_run(s, p) {
        lemma_has_run_reversed(s, p);
    }
    if has_run(reversed(s), p) {
        lemma_has_run_reversed(reversed(s), p);
    }
}

/// Mirroring the board and the new piece left to right does not change
/// whether that piece wins.
pub proof fn lemma_win_mirror_symmetric(m: Map<(int, int), Player>, p: Player, at: (int, int))
    ensures
        wins(m, p, at) == wins(mirror(m), p, (8 - at.0, at.1)),
{
    let mm = mirror(m);
    let at2 = (8 - at.0, at.1);
    let o0 = observe(m, at, axis(0));
    let o1 = observe(m, at, axis(1));
    let o2 = observe(m, at, axis(2));
    assert(observe(mm, at2, axis(0)) =~= reversed(o1)) by {
        assert forall|i: int| 0 <= i < 7 implies observe(mm, at2, axis(0))[i] == reversed(o1)[i] by {
            if i == 0 {} else if i == 1 {} else if i == 2 {} else if i == 3 {} else if i == 4 {} else if i == 5 {} else {}
        }
    }
    assert(observe(mm, at2, axis(1)) =~= reversed(o0)) by {
        assert forall|i: int| 0 <= i < 7 implies observe(mm, at2, axis(1))[i] == reversed(o0)[i] by {
            if i == 0 {} else if i == 1 {} else if i == 2 {} else if i == 3 {} else if i == 4 {} else if i == 5 {} else {}
        }
    }
    assert(observe(mm, at2, axis(2)) =~= reversed(o2)) by {
        assert forall|i: int| 0 <= i < 7 implies observe(mm, at2, axis(2))[i] == reversed(o2)[i] by {
            if i == 0 {} else if i == 1 {} else if i == 2 {} else if i == 3 {} else if i == 4 {} else if i == 5 {} else {}
        }
    }
    assert(observe(mm, at2, axis(3)) =~= observe(m, at, axis(3)));
    lemma_reaches_four_reversed(o0, p);
    lemma_reaches_four_reversed(o1, p);
    lemma_reaches_four_reversed(o2, p);
}

/// The win check depends on the board's contents and the move alone: asked
/// again about the same contents, it gives the same answer.
pub proof fn lemma_win_check_pure(b1: Board, b2: Board, p: Player, at: Point)
    requires
        b1@ == b2@,
    ensures
        wins(b1@, p, at@) == wins(b2@, p, at@),
{
}

} // verus!
