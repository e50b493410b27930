//! The board: which player occupies each cell, with pieces stacked from the
//! bottom row (row 6) upwards in each of the seven columns.
use vstd::prelude::*;

verus! {

/// Number of columns.
pub const WIDTH: u16 = 7;

/// Number of rows.
pub const HEIGHT: u16 = 6;

/// One of the two players.
#[derive(Clone, Copy, Debug, PartialEq, Eq, Structural)]
pub enum Player {
    One,
    Two,
}

impl Player {
    /// The player who moves after `self`.
    pub open spec fn spec_other(self) -> Player {
        match self {
            Player::One => Player::Two,
            Player::Two => Player::One,
        }
    }

    pub fn other(self) -> (r: Player)
        ensures
            r == self.spec_other(),
    {
        match self {
            Player::One => Player::Two,
            Player::Two => Player::One,
        }
    }

    /// The player's name as shown to the users: "one" or "two".
    pub fn label(self) -> (r: &'static str)
        ensures
            self is One ==> r@ == "one"@,
            self is Two ==> r@ == "two"@,
    {
        proof {
            reveal_strlit("one");
            reveal_strlit("two");
        }
        match self {
            Player::One => "one",
            Player::Two => "two",
        }
    }
}

/// A cell of the board: `column` in 1..=7 from the left, `row` in 1..=6 from
/// the top, so that row 6 is the bottom row.
#[derive(Clone, Copy, Debug, PartialEq, Eq, Hash, Structural)]
pub struct Point {
    pub column: u16,
    pub row: u16,
}

impl View for Point {
    type V = (int, int);

    open spec fn view(&self) -> (int, int) {
        (self.column as int, self.row as int)
    }
}

/// The recoverable errors of a move.
#[derive(Clone, Copy, Debug, PartialEq, Eq, Structural)]
pub enum MoveError {
    /// The typed text is neither a quit request nor a column from 1 to 7.
    InvalidInput,
    /// The chosen column already holds six pieces.
    ColumnFull,
}

pub open spec fn in_bounds(c: int, r: int) -> bool {
    1 <= c <= WIDTH && 1 <= r <= HEIGHT
}

/// Who occupies cell (`c`, `r`) of the board `m`, if anyone.
pub open spec fn occupant_of(m: Map<(int, int), Player>, c: int, r: int) -> Option<Player> {
    if m.contains_key((c, r)) {
        Some(m[(c, r)])
    } else {
        None
    }
}

/// Position of cell (`c`, `r`) in the flat cell vector.
pub open spec fn index_of(c: int, r: int) -> int {
    (c - 1) * 6 + (r - 1)
}

/// Sum of the first `n` column heights.
pub open spec fn sum_heights(h: Seq<u16>, n: int) -> int
    decreases n,
{
    if n <= 0 {
        0
    } else {
        sum_heights(h, n - 1) + h[n - 1]
    }
}

/// The board. Its model (`view`) maps each occupied cell to its occupant.
pub struct Board {
    cells: Vec<Option<Player>>,
    heights: Vec<u16>,
    pieces: u16,
}

impl View for Board {
    type V = Map<(int, int), Player>;

    closed spec fn view(&self) -> Map<(int, int), Player> {
        Map::new(
            |k: (int, int)| in_bounds(k.0, k.1) && self.cells@[index_of(k.0, k.1)] is Some,
            |k: (int, int)| self.cells@[index_of(k.0, k.1)]->0,
        )
    }
}

impl Board {
    /// Number of pieces in column `c`.
    pub closed spec fn height(self, c: int) -> int {
        self.heights@[c - 1] as int
    }

    /// Number of pieces on the board.
    pub closed spec fn count(self) -> int {
        self.pieces as int
    }

    /// The board's invariant: each column's pieces form one block resting on
    /// the bottom row, `height` is the size of that block, and `count` their
    /// total.
    pub closed spec fn wf(self) -> bool {
        &&& self.cells@.len() == 42
        &&& self.heights@.len() == 7
        &&& forall|i: int| 0 <= i < 7 ==> #[trigger] self.heights@[i] <= 6
        &&& forall|c: int, r: int|
            in_bounds(c, r) ==> (#[trigger] self.cells@[index_of(c, r)] is Some <==> r > 6
                - self.heights@[c - 1])
        &&& self.pieces as int == sum_heights(self.heights@, 7)
    }

    /// The board's invariant, stated over its model: nothing lies outside the
    /// grid, no piece floats above an empty cell, and a column of height `h`
    /// holds exactly its bottom `h` cells.
    pub proof fn lemma_no_floating_pieces(self)
        requires
            self.wf(),
        ensures
            forall|k: (int, int)| #[trigger] self@.contains_key(k) ==> in_bounds(k.0, k.1),
            forall|c: int| 1 <= c <= 7 ==> 0 <= #[trigger] self.height(c) <= 6,
            forall|c: int, r: int|
                in_bounds(c, r) ==> (#[trigger] self@.contains_key((c, r)) <==> r > 6 - self.height(
                    c,
                )),
            forall|c: int, r1: int, r2: int|
                1 <= c <= 7 && 1 <= r1 < r2 <= 6 && #[trigger] self@.contains_key((c, r1))
                    ==> #[trigger] self@.contains_key((c, r2)),
            0 <= self.count() <= 42,
            self.count() == self.height(1) + self.height(2) + self.height(3) + self.height(4)
                + self.height(5) + self.height(6) + self.height(7),
            self.count() == 42 <==> forall|c: int| 1 <= c <= 7 ==> #[trigger] self.height(c) == 6,
    {
        assert forall|c: int| 1 <= c <= 7 implies 0 <= #[trigger] self.height(c) <= 6 by {
            assert(self.heights@[c - 1] <= 6);
        }
        lemma_sum_heights_bound(self.heights@, 7);
        assert(sum_heights(self.heights@, 7) == self.heights@[0] + self.heights@[1]
            + self.heights@[2] + self.heights@[3] + self.heights@[4] + self.heights@[5]
            + self.heights@[6]) by {
            reveal_with_fuel(sum_heights, 8);
        }
        if self.count() == 42 {
            assert forall|c: int| 1 <= c <= 7 implies #[trigger] self.height(c) == 6 by {
                assert(self.heights@[c - 1] == 6);
            }
        }
        if forall|c: int| 1 <= c <= 7 ==> #[trigger] self.height(c) == 6 {
            assert forall|i: int| 0 <= i < 7 implies self.heights@[i] == 6 by {
                assert(self.height(i + 1) == 6);
            }
        }
    }

    pub fn new() -> (r: Board)
        ensures
            r.wf(),
            r@ == Map::<(int, int), Player>::empty(),
            r.count() == 0,
            forall|c: int| 1 <= c <= 7 ==> #[trigger] r.height(c) == 0,
    {
        let mut cells: Vec<Option<Player>> = Vec::new();
        let mut i: usize = 0;
        while i < 42
            invariant
                i <= 42,
                cells@.len() == i,
                forall|j: int| 0 <= j < i ==> cells@[j] is None,
            decreases 42 - i,
        {
            cells.push(None);
            i = i + 1;
        }
        let heights: Vec<u16> = vec![0, 0, 0, 0, 0, 0, 0];
        let r = Board { cells, heights, pieces: 0 };
        assert(sum_heights(r.heights@, 7) == 0) by {
            reveal_with_fuel(sum_heights, 8);
        }
        assert(r@ =~= Map::<(int, int), Player>::empty());
        r
    }

    /// Number of pieces in `column`.
    pub fn column_height(&self, column: u16) -> (r: u16)
        requires
            self.wf(),
            1 <= column <= WIDTH,
        ensures
            r as int == self.height(column as int),
    {
        self.heights[(column - 1) as usize]
    }

    /// The row where a piece dropped into `column` lands.
    pub fn next_drop_row(&self, column: u16) -> (r: Result<u16, MoveError>)
        requires
            self.wf(),
            1 <= column <= WIDTH,
        ensures
            self.height(column as int) == 6 <==> r == Err::<u16, MoveError>(MoveError::ColumnFull),
            self.height(column as int) < 6 <==> r is Ok,
            self.height(column as int) < 6 ==> r == Ok::<u16, MoveError>(
                (6 - self.height(column as int)) as u16,
            ),
    {
        let h = self.heights[(column - 1) as usize];
        if h == HEIGHT {
            Err(MoveError::ColumnFull)
        } else {
            Ok(HEIGHT - h)
        }
    }

    /// Drops a piece of `player` into `column`; returns the cell it lands on.
    pub fn place(&mut self, column: u16, player: Player) -> (r: Result<Point, MoveError>)
        requires
            old(self).wf(),
            1 <= column <= WIDTH,
        ensures
            final(self).wf(),
            old(self).height(column as int) == 6 <==> r is Err,
            old(self).height(column as int) < 6 <==> r is Ok,
            old(self).height(column as int) == 6 ==> r == Err::<Point, MoveError>(
                MoveError::ColumnFull,
            ) && *final(self) == *old(self),
            old(self).height(column as int) < 6 ==> r == Ok::<Point, MoveError>(
                Point { column, row: (6 - old(self).height(column as int)) as u16 },
            ),
            r matches Ok(p) ==> {
                &&& final(self)@ == old(self)@.insert(p@, player)
                &&& final(self).count() == old(self).count() + 1
                &&& forall|c: int|
                    1 <= c <= 7 ==> #[trigger] final(self).height(c) == old(self).height(c) + if c
                        == column {
                        1int
                    } else {
                        0int
                    }
            },
    {
        let ci = (column - 1) as usize;
        let h = self.heights[ci];
        if h == HEIGHT {
            return Err(MoveError::ColumnFull);
        }
        let row = HEIGHT - h;
        proof {
            lemma_sum_heights_bound(self.heights@, 7);
            lemma_sum_heights_update(self.heights@, ci as int, (h + 1) as u16, 7);
        }
        let idx = ci * 6 + (row - 1) as usize;
        self.cells.set(idx, Some(player));
        self.heights.set(ci, h + 1);
        self.pieces = self.pieces + 1;
        let p = Point { column, row };
        proof {
            assert forall|c: int, r: int| in_bounds(c, r) implies (
            #[trigger] self.cells@[index_of(c, r)] is Some <==> r > 6 - self.heights@[c - 1]) by {
                if c != column || r != row {
                    assert(index_of(c, r) != idx);
                    assert(old(self).cells@[index_of(c, r)] is Some <==> r > 6 - old(
                        self,
                    ).heights@[c - 1]);
                }
            }
            assert(self@ =~= old(self)@.insert(p@, player));
        }
        Ok(p)
    }

    /// Who occupies `point`, if anyone; cells outside the grid are empty.
    pub fn occupant(&self, point: Point) -> (r: Option<Player>)
        requires
            self.wf(),
        ensures
            r == occupant_of(self@, point.column as int, point.row as int),
    {
        if point.column < 1 || point.column > WIDTH || point.row < 1 || point.row > HEIGHT {
            return None;
        }
        let idx = ((point.column - 1) as usize) * 6 + (point.row - 1) as usize;
        self.cells[idx]
    }

    /// Whether all 42 cells are occupied.
    pub fn is_full(&self) -> (r: bool)
        requires
            self.wf(),
        ensures
            r == (self.count() == 42),
    {
        self.pieces == WIDTH * HEIGHT
    }
}

proof fn lemma_sum_heights_bound(h: Seq<u16>, n: int)
    requires
        0 <= n <= h.len(),
        forall|i: int| 0 <= i < n ==> #[trigger] h[i] <= 6,
    ensures
        0 <= sum_heights(h, n) <= 6 * n,
        sum_heights(h, n) == 6 * n <==> forall|i: int| 0 <= i < n ==> #[trigger] h[i] == 6,
    decreases n,
{
    if n > 0 {
        lemma_sum_heights_bound(h, n - 1);
        if sum_heights(h, n) == 6 * n {
            assert forall|i: int| 0 <= i < n implies #[trigger] h[i] == 6 by {
                if i < n - 1 {
                    assert(h[i] == 6);
                }
            }
        }
    }
}

proof fn lemma_sum_heights_update(h: Seq<u16>, k: int, v: u16, n: int)
    requires
        0 <= k < h.len(),
        0 <= n <= h.len(),
    ensures
        sum_heights(h.update(k, v), n) == sum_heights(h, n) + if k < n {
            v - h[k]
        } else {
            0
        },
    decreases n,
{
    if n > 0 {
        lemma_sum_heights_update(h, k, v, n - 1);
    }
}

} // verus!
