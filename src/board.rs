//! Coordinates, directions and the 8x8 board with the capture rule.

use vstd::prelude::*;
use crate::{opp, ReversiError, Side};

verus! {

/// Whether a row and column lie on the board.
pub open spec fn in_bounds(r: int, c: int) -> bool {
    0 <= r < 8 && 0 <= c < 8
}

/// Position of a cell in the row-major sequence of cells.
pub open spec fn idx(r: int, c: int) -> int {
    r * 8 + c
}

/// The eight compass directions, used to cast rays from a cell.
#[derive(Debug, Clone, Copy, PartialEq, Eq, Structural)]
pub enum Direction {
    North,
    NorthEast,
    East,
    SouthEast,
    South,
    SouthWest,
    West,
    NorthWest,
}

/// The (row, column) change of one step in a direction.
pub open spec fn delta(d: Direction) -> (int, int) {
    match d {
        Direction::North => (-1, 0),
        Direction::NorthEast => (-1, 1),
        Direction::East => (0, 1),
        Direction::SouthEast => (1, 1),
        Direction::South => (1, 0),
        Direction::SouthWest => (1, -1),
        Direction::West => (0, -1),
        Direction::NorthWest => (-1, -1),
    }
}

/// The directions in their fixed iteration order.
pub open spec fn dir_at(n: int) -> Direction {
    if n == 0 {
        Direction::North
    } else if n == 1 {
        Direction::NorthEast
    } else if n == 2 {
        Direction::East
    } else if n == 3 {
        Direction::SouthEast
    } else if n == 4 {
        Direction::South
    } else if n == 5 {
        Direction::SouthWest
    } else if n == 6 {
        Direction::West
    } else {
        Direction::NorthWest
    }
}

/// `k` steps along a unit component `d` (one of -1, 0, 1).
pub open spec fn off(k: int, d: int) -> int {
    if d > 0 {
        k
    } else if d < 0 {
        -k
    } else {
        0
    }
}

impl Direction {
    /// The direction at position `n` of the fixed iteration order.
    pub fn from_index(n: usize) -> (d: Direction)
        requires
            n < 8,
        ensures
            d == dir_at(n as int),
    {
        if n == 0 {
            Direction::North
        } else if n == 1 {
            Direction::NorthEast
        } else if n == 2 {
            Direction::East
        } else if n == 3 {
            Direction::SouthEast
        } else if n == 4 {
            Direction::South
        } else if n == 5 {
            Direction::SouthWest
        } else if n == 6 {
            Direction::West
        } else {
            Direction::NorthWest
        }
    }

    /// The (row, column) change of one step in this direction.
    pub fn offsets(&self) -> (r: (isize, isize))
        ensures
            r.0 as int == delta(*self).0,
            r.1 as int == delta(*self).1,
    {
        match *self {
            Direction::North => (-1, 0),
            Direction::NorthEast => (-1, 1),
            Direction::East => (0, 1),
            Direction::SouthEast => (1, 1),
            Direction::South => (1, 0),
            Direction::SouthWest => (1, -1),
            Direction::West => (0, -1),
            Direction::NorthWest => (-1, -1),
        }
    }
}

/// A cell of the board, always within the 8x8 grid.
#[derive(Debug, Clone, Copy, PartialEq, Eq, Structural)]
pub struct Coord {
    row: usize,
    col: usize,
}

impl View for Coord {
    type V = (int, int);

    closed spec fn view(&self) -> (int, int) {
        (self.row as int, self.col as int)
    }
}

impl Coord {
    #[verifier::type_invariant]
    spec fn inv(self) -> bool {
        self.row < 8 && self.col < 8
    }

    /// The coordinate at `row` and `col`; fails unless both are in `0..8`.
    pub fn new(row: usize, col: usize) -> (r: Result<Coord, ReversiError>)
        ensures
            r is Ok <==> row < 8 && col < 8,
            r matches Ok(c) ==> c@ == (row as int, col as int),
            r is Err ==> r == Err::<Coord, ReversiError>(ReversiError::OutOfBoundCoord(row, col)),
    {
        if row < 8 && col < 8 {
            Ok(Coord { row, col })
        } else {
            Err(ReversiError::OutOfBoundCoord(row, col))
        }
    }

    /// The row index.
    pub fn get_row(&self) -> (r: usize)
        ensures
            r as int == self@.0,
            r < 8,
    {
        proof {
            use_type_invariant(self);
        }
        self.row
    }

    /// The column index.
    pub fn get_col(&self) -> (r: usize)
        ensures
            r as int == self@.1,
            r < 8,
    {
        proof {
            use_type_invariant(self);
        }
        self.col
    }

    /// The neighbouring coordinate in direction `d`; fails when it would leave
    /// the board.
    pub fn step(&self, d: Direction) -> (r: Result<Coord, ReversiError>)
        ensures
            r is Ok <==> in_bounds(self@.0 + delta(d).0, self@.1 + delta(d).1),
            r matches Ok(c) ==> c@ == (self@.0 + delta(d).0, self@.1 + delta(d).1),
            r is Err ==> r == Err::<Coord, ReversiError>(ReversiError::OutOfBoundStep(*self, d)),
    {
        proof {
            use_type_invariant(self);
        }
        let (dr, dc) = d.offsets();
        let i = self.row as isize + dr;
        let j = self.col as isize + dc;
        if 0 <= i && i < 8 && 0 <= j && j < 8 {
            Ok(Coord { row: i as usize, col: j as usize })
        } else {
            Err(ReversiError::OutOfBoundStep(*self, d))
        }
    }
}

/// The state of one cell: empty, or holding a disk of a side.
#[derive(Debug, Clone, Copy, PartialEq, Eq, Structural)]
pub enum Cell {
    Empty,
    Taken(Side),
}

/// The cell at row `r`, column `c` of a row-major sequence of cells.
pub open spec fn cell_of(s: Seq<Cell>, r: int, c: int) -> Cell {
    s[idx(r, c)]
}

/// The cell `k` steps from (`r`, `c`) in direction `d`.
pub open spec fn ray_pos(r: int, c: int, d: Direction, k: int) -> (int, int) {
    (r + off(k, delta(d).0), c + off(k, delta(d).1))
}

/// Casting a ray from (`r`, `c`) in direction `d`, having passed `k - 1`
/// disks of the opponent: the number of opponent disks bracketed by a disk of
/// `side`, or 0 when the ray meets an empty cell or the edge first.
pub open spec fn run_from(s: Seq<Cell>, side: Side, r: int, c: int, d: Direction, k: int) -> int
    decreases 8 - k,
{
    let i = r + off(k, delta(d).0);
    let j = c + off(k, delta(d).1);
    if k < 1 || k > 7 || !in_bounds(i, j) {
        0
    } else {
        match cell_of(s, i, j) {
            Cell::Empty => 0,
            Cell::Taken(x) => if x == side {
                k - 1
            } else {
                run_from(s, side, r, c, d, k + 1)
            },
        }
    }
}

/// The number of opponent disks that a disk of `side` at (`r`, `c`) captures
/// in direction `d`.
pub open spec fn captured(s: Seq<Cell>, side: Side, r: int, c: int, d: Direction) -> int {
    run_from(s, side, r, c, d, 1)
}

/// Whether one of the first `t` directions captures anything.
pub open spec fn any_capture(s: Seq<Cell>, side: Side, r: int, c: int, t: int) -> bool
    decreases t,
{
    if t <= 0 {
        false
    } else {
        any_capture(s, side, r, c, t - 1) || captured(s, side, r, c, dir_at(t - 1)) > 0
    }
}

/// A legal move: an empty cell from which some direction captures a run.
pub open spec fn is_legal(s: Seq<Cell>, side: Side, r: int, c: int) -> bool {
    in_bounds(r, c) && cell_of(s, r, c) == Cell::Empty && any_capture(s, side, r, c, 8)
}

/// Whether `side` has a legal move anywhere on the board.
pub open spec fn has_moves(s: Seq<Cell>, side: Side) -> bool {
    exists|i: int, j: int| #[trigger] is_legal(s, side, i, j)
}

/// Whether (`i`, `j`) is one of the first `n` cells on the ray from (`r`, `c`)
/// in direction `d`.
pub open spec fn ray_hit(r: int, c: int, d: Direction, n: int, i: int, j: int) -> bool {
    let (dr, dc) = delta(d);
    let k = if dr != 0 {
        off(i - r, dr)
    } else {
        off(j - c, dc)
    };
    1 <= k <= n && i == r + off(k, dr) && j == c + off(k, dc)
}

/// Whether (`i`, `j`) is captured, in one of the first `t` directions, by a
/// disk of `side` at (`r`, `c`).
pub open spec fn flipped(s: Seq<Cell>, side: Side, r: int, c: int, t: int, i: int, j: int) -> bool
    decreases t,
{
    if t <= 0 {
        false
    } else {
        flipped(s, side, r, c, t - 1, i, j) || ray_hit(
            r,
            c,
            dir_at(t - 1),
            captured(s, side, r, c, dir_at(t - 1)),
            i,
            j,
        )
    }
}

/// `s2` is `s` after `side` placed a disk at (`r`, `c`) and every bracketed
/// run was flipped.
pub open spec fn placed(s: Seq<Cell>, side: Side, r: int, c: int, s2: Seq<Cell>) -> bool {
    &&& s2.len() == 64
    &&& forall|i: int, j: int|
        in_bounds(i, j) ==> #[trigger] cell_of(s2, i, j) == if (i == r && j == c) || flipped(
            s,
            side,
            r,
            c,
            8,
            i,
            j,
        ) {
            Cell::Taken(side)
        } else {
            cell_of(s, i, j)
        }
}

/// The standard opening: Light disks at (3, 3) and (4, 4), Dark disks at
/// (3, 4) and (4, 3), every other cell empty.
pub open spec fn start_cell(i: int, j: int) -> Cell {
    if (i == 3 && j == 3) || (i == 4 && j == 4) {
        Cell::Taken(Side::Light)
    } else if (i == 3 && j == 4) || (i == 4 && j == 3) {
        Cell::Taken(Side::Dark)
    } else {
        Cell::Empty
    }
}

/// The number of cells among the first `n` that hold a disk of `side`.
pub open spec fn count_side(s: Seq<Cell>, side: Side, n: int) -> int
    decreases n,
{
    if n <= 0 {
        0
    } else {
        count_side(s, side, n - 1) + if s[n - 1] == Cell::Taken(side) {
            1int
        } else {
            0int
        }
    }
}

/// The number of occupied cells among the first `n`.
pub open spec fn count_taken(s: Seq<Cell>, n: int) -> int
    decreases n,
{
    if n <= 0 {
        0
    } else {
        count_taken(s, n - 1) + if s[n - 1] != Cell::Empty {
            1int
        } else {
            0int
        }
    }
}

/// A ray from (`r`, `c`) captures fewer than 8 disks, and every captured cell
/// from step `k0` on lies on the board and holds an opponent disk.
pub proof fn lemma_run_cells(s: Seq<Cell>, side: Side, r: int, c: int, d: Direction, k0: int)
    requires
        s.len() == 64,
        k0 >= 1,
    ensures
        0 <= run_from(s, side, r, c, d, k0) < 8,
        forall|k: int|
            k0 <= k <= run_from(s, side, r, c, d, k0) ==> {
                let p = #[trigger] ray_pos(r, c, d, k);
                in_bounds(p.0, p.1) && cell_of(s, p.0, p.1) == Cell::Taken(opp(side))
            },
    decreases 8 - k0,
{
    let i = r + off(k0, delta(d).0);
    let j = c + off(k0, delta(d).1);
    if k0 <= 7 && in_bounds(i, j) {
        match cell_of(s, i, j) {
            Cell::Empty => {},
            Cell::Taken(x) => {
                if x != side {
                    lemma_run_cells(s, side, r, c, d, k0 + 1);
                    assert(x == opp(side));
                }
            },
        }
    }
}

/// `v` lists, in row-major order and once each, the legal moves of `side`.
pub open spec fn lists_moves(s: Seq<Cell>, side: Side, v: Seq<Coord>) -> bool {
    &&& forall|q: int| 0 <= q < v.len() ==> is_legal(s, side, (#[trigger] v[q])@.0, v[q]@.1)
    &&& forall|i: int, j: int|
        #[trigger] is_legal(s, side, i, j) ==> exists|q: int|
            0 <= q < v.len() && (#[trigger] v[q])@ == (i, j)
    &&& forall|a: int, b: int|
        0 <= a < b < v.len() ==> idx((#[trigger] v[a])@.0, v[a]@.1) < idx(
            (#[trigger] v[b])@.0,
            v[b]@.1,
        )
}

/// Every cell flipped by a move held an opponent disk.
proof fn lemma_flipped_taken(s: Seq<Cell>, side: Side, r: int, c: int, t: int, i: int, j: int)
    requires
        s.len() == 64,
        flipped(s, side, r, c, t, i, j),
    ensures
        in_bounds(i, j),
        cell_of(s, i, j) == Cell::Taken(opp(side)),
    decreases t,
{
    if flipped(s, side, r, c, t - 1, i, j) {
        lemma_flipped_taken(s, side, r, c, t - 1, i, j);
    } else {
        let d = dir_at(t - 1);
        lemma_run_cells(s, side, r, c, d, 1);
        let k = if delta(d).0 != 0 {
            off(i - r, delta(d).0)
        } else {
            off(j - c, delta(d).1)
        };
        assert(ray_pos(r, c, d, k) == (i, j));
    }
}

/// Counting occupied cells of two boards that agree on emptiness everywhere
/// but at `p`, which only the second fills.
proof fn lemma_count_one_more(s: Seq<Cell>, s2: Seq<Cell>, p: int, n: int)
    requires
        s.len() == 64,
        s2.len() == 64,
        0 <= p < 64,
        0 <= n <= 64,
        s[p] == Cell::Empty,
        s2[p] != Cell::Empty,
        forall|q: int| 0 <= q < 64 && q != p ==> (#[trigger] s2[q] == Cell::Empty) == (s[q] == Cell::Empty),
    ensures
        count_taken(s2, n) == count_taken(s, n) + if p < n {
            1int
        } else {
            0int
        },
    decreases n,
{
    if n > 0 {
        lemma_count_one_more(s, s2, p, n - 1);
    }
}

/// A legal move fills exactly one more cell: the disk placed. Flipped disks
/// change side and leave the number of occupied cells as it was.
pub proof fn lemma_move_adds_one_disk(s: Seq<Cell>, side: Side, r: int, c: int, s2: Seq<Cell>)
    requires
        s.len() == 64,
        is_legal(s, side, r, c),
        placed(s, side, r, c, s2),
    ensures
        count_taken(s2, 64) == count_taken(s, 64) + 1,
{
    assert forall|q: int| 0 <= q < 64 && q != idx(r, c) implies (#[trigger] s2[q] == Cell::Empty) == (
    s[q] == Cell::Empty) by {
        let i = q / 8;
        let j = q % 8;
        assert(q == idx(i, j));
        assert(in_bounds(i, j));
        assert(cell_of(s2, i, j) == s2[q]);
        if flipped(s, side, r, c, 8, i, j) {
            lemma_flipped_taken(s, side, r, c, 8, i, j);
        }
    }
    assert(s2[idx(r, c)] == cell_of(s2, r, c));
    lemma_count_one_more(s, s2, idx(r, c), 64);
}

/// Two lists of the legal moves agree on their first `n` entries.
proof fn lemma_moves_prefix(s: Seq<Cell>, side: Side, v1: Seq<Coord>, v2: Seq<Coord>, n: int)
    requires
        lists_moves(s, side, v1),
        lists_moves(s, side, v2),
        0 <= n,
    ensures
        forall|q: int| 0 <= q < n && q < v1.len() && q < v2.len() ==> #[trigger] v1[q] == v2[q],
    decreases n,
{
    if n > 0 {
        lemma_moves_prefix(s, side, v1, v2, n - 1);
        let q = n - 1;
        if q < v1.len() && q < v2.len() {
            assert(is_legal(s, side, v1[q]@.0, v1[q]@.1));
            assert(is_legal(s, side, v2[q]@.0, v2[q]@.1));
            let q2 = choose|x: int| 0 <= x < v2.len() && (#[trigger] v2[x])@ == v1[q]@;
            let q1 = choose|x: int| 0 <= x < v1.len() && (#[trigger] v1[x])@ == v2[q]@;
            if q2 < q {
                assert(v1[q2] == v2[q2]);
            }
            if q1 < q {
                assert(v1[q1] == v2[q1]);
            }
            if q2 > q && q1 > q {
                assert(idx(v2[q]@.0, v2[q]@.1) < idx(v2[q2]@.0, v2[q2]@.1));
                assert(idx(v1[q]@.0, v1[q]@.1) < idx(v1[q1]@.0, v1[q1]@.1));
            }
            if q2 > q && q1 == q {
                assert(idx(v2[q]@.0, v2[q]@.1) < idx(v2[q2]@.0, v2[q2]@.1));
            }
            if q1 > q && q2 == q {
                assert(idx(v1[q]@.0, v1[q]@.1) < idx(v1[q1]@.0, v1[q1]@.1));
            }
            assert(q2 == q);
            assert(v1[q]@ == v2[q]@);
        }
    }
}

/// The legal moves of a side on a board are one list: any two results of
/// `legal_moves` for the same board and side are equal.
pub proof fn lemma_legal_moves_unique(s: Seq<Cell>, side: Side, v1: Seq<Coord>, v2: Seq<Coord>)
    requires
        lists_moves(s, side, v1),
        lists_moves(s, side, v2),
    ensures
        v1 == v2,
{
    lemma_moves_prefix(s, side, v1, v2, (v1.len() + v2.len()) as int);
    if v1.len() > v2.len() {
        let q = v2.len() as int;
        assert(is_legal(s, side, v1[q]@.0, v1[q]@.1));
        let q2 = choose|x: int| 0 <= x < v2.len() && (#[trigger] v2[x])@ == v1[q]@;
        assert(v1[q2] == v2[q2]);
        assert(idx(v1[q2]@.0, v1[q2]@.1) < idx(v1[q]@.0, v1[q]@.1));
    }
    if v2.len() > v1.len() {
        let q = v1.len() as int;
        assert(is_legal(s, side, v2[q]@.0, v2[q]@.1));
        let q1 = choose|x: int| 0 <= x < v1.len() && (#[trigger] v1[x])@ == v2[q]@;
        assert(v1[q1] == v2[q1]);
        assert(idx(v2[q1]@.0, v2[q1]@.1) < idx(v2[q]@.0, v2[q]@.1));
    }
    assert(v1 =~= v2);
}

/// An 8x8 board, its cells in row-major order.
pub struct Board {
    cells: Vec<Cell>,
}

impl View for Board {
    type V = Seq<Cell>;

    closed spec fn view(&self) -> Seq<Cell> {
        self.cells@
    }
}

impl Board {
    /// The board holds exactly 64 cells.
    pub open spec fn wf(&self) -> bool {
        self@.len() == 64
    }

    /// The standard opening position.
    pub fn new() -> (b: Board)
        ensures
            b.wf(),
            forall|i: int, j: int| in_bounds(i, j) ==> #[trigger] cell_of(b@, i, j) == start_cell(i, j),
    {
        let mut cells: Vec<Cell> = Vec::new();
        let mut r: usize = 0;
        while r < 8
            invariant
                r <= 8,
                cells@.len() == r * 8,
                forall|i: int, j: int|
                    0 <= i < r && 0 <= j < 8 ==> #[trigger] cell_of(cells@, i, j) == start_cell(i, j),
            decreases 8 - r,
        {
            let mut c: usize = 0;
            while c < 8
                invariant
                    r < 8,
                    c <= 8,
                    cells@.len() == r * 8 + c,
                    forall|i: int, j: int|
                        0 <= i * 8 + j < r * 8 + c && 0 <= j < 8 ==> #[trigger] cell_of(cells@, i, j)
                            == start_cell(i, j),
                decreases 8 - c,
            {
                let cell = if (r == 3 && c == 3) || (r == 4 && c == 4) {
                    Cell::Taken(Side::Light)
                } else if (r == 3 && c == 4) || (r == 4 && c == 3) {
                    Cell::Taken(Side::Dark)
                } else {
                    Cell::Empty
                };
                let ghost before = cells@;
                cells.push(cell);
                assert forall|i: int, j: int|
                    0 <= i * 8 + j < r * 8 + c + 1 && 0 <= j < 8 implies #[trigger] cell_of(
                    cells@,
                    i,
                    j,
                ) == start_cell(i, j) by {
                    if i * 8 + j == r * 8 + c {
                        assert(i == r && j == c);
                    } else {
                        assert(cell_of(cells@, i, j) == cell_of(before, i, j));
                    }
                }
                c += 1;
            }
            r += 1;
        }
        Board { cells }
    }

    /// A copy of the board.
    pub fn copy(&self) -> (b: Board)
        ensures
            b@ == self@,
    {
        let mut cells: Vec<Cell> = Vec::new();
        let mut q: usize = 0;
        while q < self.cells.len()
            invariant
                q <= self.cells@.len(),
                cells@ == self.cells@.subrange(0, q as int),
            decreases self.cells@.len() - q,
        {
            cells.push(self.cells[q]);
            q += 1;
            assert(cells@ =~= self.cells@.subrange(0, q as int));
        }
        assert(cells@ =~= self.cells@);
        Board { cells }
    }

    /// A board holding the given cells in row-major order; `None` unless
    /// there are exactly 64 of them.
    pub fn from_cells(cells: Vec<Cell>) -> (b: Option<Board>)
        ensures
            b is Some <==> cells@.len() == 64,
            b matches Some(x) ==> x@ == cells@,
    {
        if cells.len() == 64 {
            Some(Board { cells })
        } else {
            None
        }
    }

    /// The cell at `coord`.
    pub fn cell_at(&self, coord: Coord) -> (r: Cell)
        requires
            self.wf(),
        ensures
            r == cell_of(self@, coord@.0, coord@.1),
            in_bounds(coord@.0, coord@.1),
    {
        proof {
            use_type_invariant(&coord);
        }
        self.cells[coord.row * 8 + coord.col]
    }

    /// The side whose disk stands at `coord`; fails when the cell is empty.
    pub fn disk_at(&self, coord: Coord) -> (r: Result<Side, ReversiError>)
        requires
            self.wf(),
        ensures
            cell_of(self@, coord@.0, coord@.1) == Cell::Empty ==> r == Err::<Side, ReversiError>(
                ReversiError::EmptyCell(coord),
            ),
            forall|x: Side|
                cell_of(self@, coord@.0, coord@.1) == Cell::Taken(x) ==> r == Ok::<
                    Side,
                    ReversiError,
                >(x),
    {
        match self.cell_at(coord) {
            Cell::Empty => Err(ReversiError::EmptyCell(coord)),
            Cell::Taken(x) => Ok(x),
        }
    }

    /// The number of disks of `side` on the board.
    pub fn disk_count(&self, side: Side) -> (n: usize)
        requires
            self.wf(),
        ensures
            n as int == count_side(self@, side, 64),
    {
        let mut n: usize = 0;
        let mut q: usize = 0;
        while q < 64
            invariant
                q <= 64,
                n <= q,
                self.wf(),
                n as int == count_side(self@, side, q as int),
            decreases 64 - q,
        {
            if self.cells[q] == Cell::Taken(side) {
                n += 1;
            }
            q += 1;
        }
        n
    }

    /// The cells where `side` may legally place a disk, in row-major order.
    pub fn legal_moves(&self, side: Side) -> (v: Vec<Coord>)
        requires
            self.wf(),
        ensures
            lists_moves(self@, side, v@),
    {
        let mut v: Vec<Coord> = Vec::new();
        let mut r: usize = 0;
        while r < 8
            invariant
                r <= 8,
                self.wf(),
                forall|q: int|
                    0 <= q < v@.len() ==> is_legal(self@, side, (#[trigger] v@[q])@.0, v@[q]@.1)
                        && idx(v@[q]@.0, v@[q]@.1) < r * 8,
                forall|i: int, j: int|
                    #[trigger] is_legal(self@, side, i, j) && i < r ==> exists|q: int|
                        0 <= q < v@.len() && (#[trigger] v@[q])@ == (i, j),
                forall|a: int, b: int|
                    0 <= a < b < v@.len() ==> idx((#[trigger] v@[a])@.0, v@[a]@.1) < idx(
                        (#[trigger] v@[b])@.0,
                        v@[b]@.1,
                    ),
            decreases 8 - r,
        {
            let mut c: usize = 0;
            while c < 8
                invariant
                    r < 8,
                    c <= 8,
                    self.wf(),
                    forall|q: int|
                        0 <= q < v@.len() ==> is_legal(self@, side, (#[trigger] v@[q])@.0, v@[q]@.1)
                            && idx(v@[q]@.0, v@[q]@.1) < r * 8 + c,
                    forall|i: int, j: int|
                        #[trigger] is_legal(self@, side, i, j) && (i < r || (i == r && j < c))
                            ==> exists|q: int| 0 <= q < v@.len() && (#[trigger] v@[q])@ == (i, j),
                    forall|a: int, b: int|
                        0 <= a < b < v@.len() ==> idx((#[trigger] v@[a])@.0, v@[a]@.1) < idx(
                            (#[trigger] v@[b])@.0,
                            v@[b]@.1,
                        ),
                decreases 8 - c,
            {
                if self.legal_at(side, r, c) {
                    let ghost old_v = v@;
                    let m = Coord { row: r, col: c };
                    v.push(m);
                    assert forall|i: int, j: int|
                        #[trigger] is_legal(self@, side, i, j) && (i < r || (i == r && j < c + 1))
                            implies exists|q: int|
                            0 <= q < v@.len() && (#[trigger] v@[q])@ == (i, j) by {
                        if i == r && j == c {
                            assert(v@[old_v.len() as int]@ == (i, j));
                        } else {
                            let q0 = choose|q: int| 0 <= q < old_v.len() && (#[trigger] old_v[q])@ == (i, j);
                            assert(v@[q0] == old_v[q0]);
                        }
                    }
                }
                c += 1;
            }
            r += 1;
        }
        v
    }

    /// The capture count of each direction, in the fixed order.
    fn capture_counts(&self, side: Side, r: usize, c: usize) -> (v: Vec<usize>)
        requires
            self.wf(),
            r < 8,
            c < 8,
        ensures
            v@.len() == 8,
            forall|t: int|
                0 <= t < 8 ==> #[trigger] v@[t] as int == captured(
                    self@,
                    side,
                    r as int,
                    c as int,
                    dir_at(t),
                ),
    {
        let mut v: Vec<usize> = Vec::new();
        let mut t: usize = 0;
        while t < 8
            invariant
                t <= 8,
                v@.len() == t,
                self.wf(),
                r < 8,
                c < 8,
                forall|u: int|
                    0 <= u < t ==> #[trigger] v@[u] as int == captured(
                        self@,
                        side,
                        r as int,
                        c as int,
                        dir_at(u),
                    ),
            decreases 8 - t,
        {
            let n = self.run_length(side, r, c, Direction::from_index(t));
            v.push(n);
            t += 1;
        }
        v
    }

    /// Whether some capture count is positive.
    fn any_positive(&self, side: Side, r: usize, c: usize, v: &Vec<usize>) -> (b: bool)
        requires
            self.wf(),
            r < 8,
            c < 8,
            v@.len() == 8,
            forall|t: int|
                0 <= t < 8 ==> #[trigger] v@[t] as int == captured(
                    self@,
                    side,
                    r as int,
                    c as int,
                    dir_at(t),
                ),
        ensures
            b == any_capture(self@, side, r as int, c as int, 8),
    {
        let mut found = false;
        let mut t: usize = 0;
        while t < 8
            invariant
                t <= 8,
                v@.len() == 8,
                found == any_capture(self@, side, r as int, c as int, t as int),
                forall|u: int|
                    0 <= u < 8 ==> #[trigger] v@[u] as int == captured(
                        self@,
                        side,
                        r as int,
                        c as int,
                        dir_at(u),
                    ),
            decreases 8 - t,
        {
            found = found || v[t] > 0;
            t += 1;
        }
        found
    }

    /// Whether `side` may place a disk at row `r`, column `c`.
    fn legal_at(&self, side: Side, r: usize, c: usize) -> (b: bool)
        requires
            self.wf(),
            r < 8,
            c < 8,
        ensures
            b == is_legal(self@, side, r as int, c as int),
    {
        if self.cells[r * 8 + c] != Cell::Empty {
            return false;
        }
        let v = self.capture_counts(side, r, c);
        self.any_positive(side, r, c, &v)
    }

    /// Places a disk of `side` at `coord` and flips every run it brackets.
    /// Fails, leaving the board as it was, when the cell is taken or the move
    /// captures nothing.
    pub fn place_disk(&mut self, coord: Coord, side: Side) -> (res: Result<(), ReversiError>)
        requires
            old(self).wf(),
        ensures
            final(self).wf(),
            in_bounds(coord@.0, coord@.1),
            cell_of(old(self)@, coord@.0, coord@.1) != Cell::Empty ==> res == Err::<
                (),
                ReversiError,
            >(ReversiError::CellAlreadyTaken(coord)),
            cell_of(old(self)@, coord@.0, coord@.1) == Cell::Empty && !is_legal(
                old(self)@,
                side,
                coord@.0,
                coord@.1,
            ) ==> res == Err::<(), ReversiError>(ReversiError::IllegalMove(coord)),
            is_legal(old(self)@, side, coord@.0, coord@.1) ==> res is Ok,
            res is Ok ==> placed(old(self)@, side, coord@.0, coord@.1, final(self)@),
            res is Err ==> final(self)@ == old(self)@,
    {
        proof {
            use_type_invariant(&coord);
        }
        let r = coord.row;
        let c = coord.col;
        if self.cells[r * 8 + c] != Cell::Empty {
            return Err(ReversiError::CellAlreadyTaken(coord));
        }
        let v = self.capture_counts(side, r, c);
        if !self.any_positive(side, r, c, &v) {
            return Err(ReversiError::IllegalMove(coord));
        }
        let ghost s0 = self@;
        self.cells.set(r * 8 + c, Cell::Taken(side));
        let mut t: usize = 0;
        while t < 8
            invariant
                t <= 8,
                r < 8,
                c < 8,
                s0.len() == 64,
                self@.len() == 64,
                v@.len() == 8,
                cell_of(s0, r as int, c as int) == Cell::Empty,
                forall|u: int|
                    0 <= u < 8 ==> #[trigger] v@[u] as int == captured(
                        s0,
                        side,
                        r as int,
                        c as int,
                        dir_at(u),
                    ),
                forall|i: int, j: int|
                    in_bounds(i, j) ==> #[trigger] cell_of(self@, i, j) == if (i == r && j == c)
                        || flipped(s0, side, r as int, c as int, t as int, i, j) {
                        Cell::Taken(side)
                    } else {
                        cell_of(s0, i, j)
                    },
            decreases 8 - t,
        {
            let d = Direction::from_index(t);
            let n = v[t];
            let (dr, dc) = d.offsets();
            proof {
                lemma_run_cells(s0, side, r as int, c as int, d, 1);
            }
            let mut k: usize = 1;
            let mut i: isize = r as isize + dr;
            let mut j: isize = c as isize + dc;
            while k <= n
                invariant
                    1 <= k <= n + 1,
                    n < 8,
                    n as int == captured(s0, side, r as int, c as int, d),
                    d == dir_at(t as int),
                    t < 8,
                    r < 8,
                    c < 8,
                    s0.len() == 64,
                    self@.len() == 64,
                    dr as int == delta(d).0,
                    dc as int == delta(d).1,
                    (i as int, j as int) == ray_pos(r as int, c as int, d, k as int),
                    forall|q: int|
                        1 <= q <= n ==> {
                            let p = #[trigger] ray_pos(r as int, c as int, d, q);
                            in_bounds(p.0, p.1) && cell_of(s0, p.0, p.1) == Cell::Taken(
                                opp(side),
                            )
                        },
                    forall|i2: int, j2: int|
                        in_bounds(i2, j2) ==> #[trigger] cell_of(self@, i2, j2) == if (i2 == r
                            && j2 == c) || flipped(s0, side, r as int, c as int, t as int, i2, j2)
                            || ray_hit(r as int, c as int, d, k - 1, i2, j2) {
                            Cell::Taken(side)
                        } else {
                            cell_of(s0, i2, j2)
                        },
                decreases n + 1 - k,
            {
                let ghost p = ray_pos(r as int, c as int, d, k as int);
                assert(in_bounds(p.0, p.1));
                let ghost before = self@;
                self.cells.set((i * 8 + j) as usize, Cell::Taken(side));
                assert forall|i2: int, j2: int| in_bounds(i2, j2) implies #[trigger] cell_of(
                    self@,
                    i2,
                    j2,
                ) == if (i2 == r && j2 == c) || flipped(
                    s0,
                    side,
                    r as int,
                    c as int,
                    t as int,
                    i2,
                    j2,
                ) || ray_hit(r as int, c as int, d, k as int, i2, j2) {
                    Cell::Taken(side)
                } else {
                    cell_of(s0, i2, j2)
                } by {
                    assert(ray_hit(r as int, c as int, d, k as int, i2, j2) == (ray_hit(
                        r as int,
                        c as int,
                        d,
                        k - 1,
                        i2,
                        j2,
                    ) || (i2 == p.0 && j2 == p.1)));
                    if !(i2 == p.0 && j2 == p.1) {
                        assert(idx(i2, j2) != idx(p.0, p.1));
                        assert(cell_of(self@, i2, j2) == cell_of(before, i2, j2));
                    }
                }
                k += 1;
                i += dr;
                j += dc;
            }
            t += 1;
        }
        Ok(())
    }

    /// Casts a ray from (`r`, `c`) in direction `d` and counts the opponent
    /// disks that a disk of `side` there would capture.
    fn run_length(&self, side: Side, r: usize, c: usize, d: Direction) -> (n: usize)
        requires
            self.wf(),
            r < 8,
            c < 8,
        ensures
            n as int == captured(self@, side, r as int, c as int, d),
            n < 8,
    {
        proof {
            lemma_run_cells(self@, side, r as int, c as int, d, 1);
        }
        let (dr, dc) = d.offsets();
        let mut k: usize = 1;
        let mut i: isize = r as isize + dr;
        let mut j: isize = c as isize + dc;
        while k <= 7
            invariant
                1 <= k <= 8,
                self.wf(),
                r < 8,
                c < 8,
                dr as int == delta(d).0,
                dc as int == delta(d).1,
                i as int == r as int + off(k as int, dr as int),
                j as int == c as int + off(k as int, dc as int),
                captured(self@, side, r as int, c as int, d) == run_from(
                    self@,
                    side,
                    r as int,
                    c as int,
                    d,
                    k as int,
                ),
                captured(self@, side, r as int, c as int, d) < 8,
            decreases 8 - k,
        {
            if i < 0 || i >= 8 || j < 0 || j >= 8 {
                return 0;
            }
            match self.cells[(i * 8 + j) as usize] {
                Cell::Empty => {
                    return 0;
                },
                Cell::Taken(x) => {
                    if x == side {
                        return k - 1;
                    }
                },
            }
            k += 1;
            i += dr;
            j += dc;
        }
        0
    }
}

} // verus!
