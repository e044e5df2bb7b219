use vstd::prelude::*;

verus! {

/// The value that marks the empty cell.
pub const EMPTY: i8 = -1;

/// Number of tiles; tile ids are `0..TILE_COUNT`.
pub const TILE_COUNT: i8 = 8;

/// A cell of the grid: `x` is the column, `y` the row.
#[derive(Clone, Copy, Debug, PartialEq, Eq, Structural)]
pub struct GridPos {
    pub x: i8,
    pub y: i8,
}

impl GridPos {
    pub open spec fn in_grid(self) -> bool {
        0 <= self.x < 3 && 0 <= self.y < 3
    }

    /// Row-major index of the cell.
    pub open spec fn index(self) -> int {
        self.y * 3 + self.x
    }
}

/// A single-step direction on the grid.
#[derive(Clone, Copy, Debug, PartialEq, Eq, Structural)]
pub enum Direction {
    Left,
    Right,
    Up,
    Down,
}

impl Direction {
    pub open spec fn dx(self) -> int {
        match self {
            Direction::Left => -1,
            Direction::Right => 1,
            _ => 0,
        }
    }

    pub open spec fn dy(self) -> int {
        match self {
            Direction::Up => -1,
            Direction::Down => 1,
            _ => 0,
        }
    }

    pub open spec fn reverse(self) -> Direction {
        match self {
            Direction::Left => Direction::Right,
            Direction::Right => Direction::Left,
            Direction::Up => Direction::Down,
            Direction::Down => Direction::Up,
        }
    }

    /// Column step of the direction.
    pub fn step_x(&self) -> (r: i8)
        ensures
            r == self.dx(),
    {
        match self {
            Direction::Left => -1,
            Direction::Right => 1,
            _ => 0,
        }
    }

    /// Row step of the direction.
    pub fn step_y(&self) -> (r: i8)
        ensures
            r == self.dy(),
    {
        match self {
            Direction::Up => -1,
            Direction::Down => 1,
            _ => 0,
        }
    }
}

/// Errors of the puzzle.
#[derive(Clone, Copy, Debug, PartialEq, Eq, Structural)]
pub enum PuzzleError {
    /// A move was asked of a tile that does not border the empty cell in that direction.
    IllegalMove,
    /// A start-up setting is out of range.
    ConfigurationError,
}

/// A value a cell may hold: a tile id or `EMPTY`.
pub open spec fn valid_value(v: i8) -> bool {
    v == EMPTY || 0 <= v < TILE_COUNT
}

/// Nine cells, each tile and the empty cell exactly once.
pub open spec fn is_arrangement(s: Seq<i8>) -> bool {
    &&& s.len() == 9
    &&& forall|i: int| 0 <= i < 9 ==> valid_value(#[trigger] s[i])
    &&& forall|i: int, j: int| 0 <= i < 9 && 0 <= j < 9 && i != j ==> s[i] != s[j]
    &&& forall|v: i8| #[trigger] valid_value(v) ==> exists|p: GridPos| p.in_grid() && s[p.index()] == v
}

/// The solved arrangement: tiles in row-major order, the empty cell last.
pub open spec fn solved_seq() -> Seq<i8> {
    seq![0i8, 1, 2, 3, 4, 5, 6, 7, EMPTY]
}

/// Every tile stands on the cell whose row-major index is its id.
pub open spec fn solved_spec(s: Seq<i8>) -> bool {
    forall|t: int| 0 <= t < 8 ==> s[t] == t
}

/// The cell that holds `v`.
pub open spec fn pos_of(s: Seq<i8>, v: i8) -> GridPos {
    choose|p: GridPos| p.in_grid() && s[p.index()] == v
}

/// The direction from `from` to the orthogonally adjacent cell `to`, if they are adjacent.
pub open spec fn direction_between(from: GridPos, to: GridPos) -> Option<Direction> {
    if to.y == from.y && to.x == from.x - 1 {
        Some(Direction::Left)
    } else if to.y == from.y && to.x == from.x + 1 {
        Some(Direction::Right)
    } else if to.x == from.x && to.y == from.y - 1 {
        Some(Direction::Up)
    } else if to.x == from.x && to.y == from.y + 1 {
        Some(Direction::Down)
    } else {
        None
    }
}

/// Two cells of the grid that share a side.
pub open spec fn adjacent(p: GridPos, q: GridPos) -> bool {
    p.in_grid() && q.in_grid() && direction_between(p, q) is Some
}

/// The direction in which `tile` may slide: toward the empty cell, when it borders it.
pub open spec fn legal_move_spec(s: Seq<i8>, tile: i8) -> Option<Direction> {
    direction_between(pos_of(s, tile), pos_of(s, EMPTY))
}

/// `s` with cells `i` and `j` exchanged.
pub open spec fn swap(s: Seq<i8>, i: int, j: int) -> Seq<i8> {
    s.update(i, s[j]).update(j, s[i])
}

/// `s` after `tile` slid into the empty cell.
pub open spec fn moved(s: Seq<i8>, tile: i8) -> Seq<i8> {
    swap(s, pos_of(s, tile).index(), pos_of(s, EMPTY).index())
}

/// In an arrangement, `pos_of` finds the one cell that holds `v`.
pub proof fn lemma_pos_of(s: Seq<i8>, v: i8)
    requires
        is_arrangement(s),
        valid_value(v),
    ensures
        pos_of(s, v).in_grid(),
        s[pos_of(s, v).index()] == v,
        forall|p: GridPos| p.in_grid() && #[trigger] s[p.index()] == v ==> p == pos_of(s, v),
{
    let q = pos_of(s, v);
    assert(q.in_grid() && s[q.index()] == v);
}

/// Exchanging two cells of an arrangement gives an arrangement.
pub proof fn lemma_swap_arrangement(s: Seq<i8>, i: int, j: int)
    requires
        is_arrangement(s),
        0 <= i < 9,
        0 <= j < 9,
    ensures
        is_arrangement(swap(s, i, j)),
{
    let t = swap(s, i, j);
    assert forall|v: i8| #[trigger] valid_value(v) implies exists|p: GridPos|
        p.in_grid() && t[p.index()] == v by {
        let p = pos_of(s, v);
        lemma_pos_of(s, v);
        let pi = GridPos { x: (i % 3) as i8, y: (i / 3) as i8 };
        let pj = GridPos { x: (j % 3) as i8, y: (j / 3) as i8 };
        assert(pi.in_grid() && pi.index() == i);
        assert(pj.in_grid() && pj.index() == j);
        if p.index() == i {
            assert(t[pj.index()] == v);
        } else if p.index() == j {
            assert(t[pi.index()] == v);
        } else {
            assert(t[p.index()] == v);
        }
    }
}

/// The solved arrangement is an arrangement.
pub proof fn lemma_solved_arrangement()
    ensures
        is_arrangement(solved_seq()),
{
    let s = solved_seq();
    assert forall|v: i8| #[trigger] valid_value(v) implies exists|p: GridPos|
        p.in_grid() && s[p.index()] == v by {
        let i: int = if v == EMPTY { 8 } else { v as int };
        let p = GridPos { x: (i % 3) as i8, y: (i / 3) as i8 };
        assert(p.in_grid() && p.index() == i);
        assert(s[p.index()] == v);
    }
}

/// The 3x3 arrangement of tiles, row-major.
#[derive(Debug)]
pub struct Grid {
    cells: Vec<i8>,
}

impl View for Grid {
    type V = Seq<i8>;

    closed spec fn view(&self) -> Seq<i8> {
        self.cells@
    }
}

impl Grid {
    pub open spec fn wf(&self) -> bool {
        is_arrangement(self@)
    }

    /// The solved grid: tiles in row-major order, the empty cell last.
    pub fn solved() -> (r: Grid)
        ensures
            r@ == solved_seq(),
            r.wf(),
    {
        let mut cells: Vec<i8> = Vec::new();
        let mut i: i8 = 0;
        while i < 8
            invariant
                0 <= i <= 8,
                cells@.len() == i,
                forall|k: int| 0 <= k < i ==> cells@[k] == k,
            decreases 8 - i,
        {
            cells.push(i);
            i += 1;
        }
        cells.push(EMPTY);
        let r = Grid { cells };
        assert(r@ =~= solved_seq());
        proof {
            lemma_solved_arrangement();
        }
        r
    }

    /// The value held by cell `p`.
    pub fn cell(&self, p: GridPos) -> (r: i8)
        requires
            self.wf(),
            p.in_grid(),
        ensures
            r == self@[p.index()],
    {
        self.cells[(p.y * 3 + p.x) as usize]
    }

    /// The cell that holds `value` (a tile id or `EMPTY`).
    pub fn position_of(&self, value: i8) -> (r: GridPos)
        requires
            self.wf(),
            valid_value(value),
        ensures
            r == pos_of(self@, value),
            r.in_grid(),
            self@[r.index()] == value,
    {
        proof {
            lemma_pos_of(self@, value);
        }
        let mut y: i8 = 0;
        while y < 3
            invariant
                0 <= y <= 3,
                self.wf(),
                valid_value(value),
                forall|p: GridPos| p.in_grid() && p.y < y ==> self@[p.index()] != value,
            decreases 3 - y,
        {
            let mut x: i8 = 0;
            while x < 3
                invariant
                    0 <= x <= 3,
                    0 <= y < 3,
                    self.wf(),
                    valid_value(value),
                    forall|p: GridPos|
                        p.in_grid() && (p.y < y || (p.y == y && p.x < x)) ==> self@[p.index()]
                            != value,
                decreases 3 - x,
            {
                let p = GridPos { x, y };
                if self.cell(p) == value {
                    proof {
                        lemma_pos_of(self@, value);
                    }
                    return p;
                }
                x += 1;
            }
            y += 1;
        }
        proof {
            let q = pos_of(self@, value);
            assert(self@[q.index()] != value);
        }
        GridPos { x: 0, y: 0 }
    }

    /// The direction in which `tile` may slide, if it borders the empty cell.
    pub fn legal_move(&self, tile: i8) -> (r: Option<Direction>)
        requires
            self.wf(),
            0 <= tile < TILE_COUNT,
        ensures
            r == legal_move_spec(self@, tile),
    {
        let p = self.position_of(tile);
        let e = self.position_of(EMPTY);
        direction_to(p, e)
    }

    /// Whether every tile stands on the cell whose row-major index is its id.
    pub fn is_solved(&self) -> (r: bool)
        requires
            self.wf(),
        ensures
            r == solved_spec(self@),
    {
        let mut t: usize = 0;
        while t < 8
            invariant
                0 <= t <= 8,
                self.wf(),
                forall|k: int| 0 <= k < t ==> self@[k] == k,
            decreases 8 - t,
        {
            if self.cells[t] != t as i8 {
                return false;
            }
            t += 1;
        }
        true
    }

    /// Exchanges two cells.
    fn swap_cells(&mut self, a: GridPos, b: GridPos)
        requires
            old(self).wf(),
            a.in_grid(),
            b.in_grid(),
        ensures
            final(self)@ == swap(old(self)@, a.index(), b.index()),
            final(self).wf(),
    {
        let va = self.cell(a);
        let vb = self.cell(b);
        self.cells.set((a.y * 3 + a.x) as usize, vb);
        self.cells.set((b.y * 3 + b.x) as usize, va);
        proof {
            lemma_swap_arrangement(old(self)@, a.index(), b.index());
        }
    }

    /// Slides `tile` one cell in direction `dir` into the empty cell.
    /// Refused, with the grid left as it is, unless that is the tile's legal move.
    pub fn apply_move(&mut self, tile: i8, dir: Direction) -> (r: Result<(), PuzzleError>)
        requires
            old(self).wf(),
            0 <= tile < TILE_COUNT,
        ensures
            final(self).wf(),
            r is Ok <==> legal_move_spec(old(self)@, tile) == Some(dir),
            r is Ok ==> final(self)@ == moved(old(self)@, tile),
            r is Err ==> r == Err::<(), PuzzleError>(PuzzleError::IllegalMove) && final(self)@
                == old(self)@,
    {
        let legal = self.legal_move(tile);
        let allowed = match legal {
            Some(d) => d == dir,
            None => false,
        };
        if allowed {
            let p = self.position_of(tile);
            let e = self.position_of(EMPTY);
            self.swap_cells(p, e);
            Ok(())
        } else {
            Err(PuzzleError::IllegalMove)
        }
    }
}

/// The direction from `from` to `to`, when they share a side.
pub fn direction_to(from: GridPos, to: GridPos) -> (r: Option<Direction>)
    requires
        from.in_grid(),
        to.in_grid(),
    ensures
        r == direction_between(from, to),
{
    if to.y == from.y && to.x == from.x - 1 {
        Some(Direction::Left)
    } else if to.y == from.y && to.x == from.x + 1 {
        Some(Direction::Right)
    } else if to.x == from.x && to.y == from.y - 1 {
        Some(Direction::Up)
    } else if to.x == from.x && to.y == from.y + 1 {
        Some(Direction::Down)
    } else {
        None
    }
}

/// Relies on `rand::Rng::gen_range` with `rand::thread_rng`: a value drawn from
/// `0..n`; it panics only when that range is empty.
#[verifier::external_body]
fn random_below(n: usize) -> (r: usize)
    requires
        n > 0,
    ensures
        r < n,
{
    rand::Rng::gen_range(&mut rand::thread_rng(), 0..n)
}

/// A cell from which a shuffle step may slide a tile into the empty cell `empty`:
/// a neighbour of it, other than the cell the empty cell left on the step before.
pub open spec fn shuffle_choice(empty: GridPos, last: Option<GridPos>, q: GridPos) -> bool {
    adjacent(q, empty) && last != Some(q)
}

/// `s` after a shuffle step that slides the tile on `from` into the empty cell.
pub open spec fn after_step(s: Seq<i8>, from: GridPos) -> Seq<i8> {
    swap(s, from.index(), pos_of(s, EMPTY).index())
}

/// Shuffling never undoes the step before: once the tile on `from` has slid
/// into the empty cell, no step that the shuffle may take next (with the
/// former empty cell as the excluded one) brings the grid back.
pub proof fn lemma_shuffle_no_undo(s: Seq<i8>, last: Option<GridPos>, from: GridPos, next: GridPos)
    requires
        is_arrangement(s),
        shuffle_choice(pos_of(s, EMPTY), last, from),
        shuffle_choice(pos_of(after_step(s, from), EMPTY), Some(pos_of(s, EMPTY)), next),
    ensures
        is_arrangement(after_step(s, from)),
        after_step(after_step(s, from), next) != s,
{
    let e = pos_of(s, EMPTY);
    lemma_pos_of(s, EMPTY);
    lemma_swap_arrangement(s, from.index(), e.index());
    let s1 = after_step(s, from);
    assert(s1[from.index()] == EMPTY);
    lemma_pos_of(s1, EMPTY);
    assert(pos_of(s1, EMPTY) == from);
    let s2 = after_step(s1, next);
    if s2 == s {
        assert(s2[from.index()] == s1[next.index()]);
        assert(s1[e.index()] == s[from.index()]);
        assert(next.index() == e.index());
    }
}

/// The shuffle walk along `path` from the solved grid: the grid after sliding
/// the tile on each cell of `path` in turn into the empty cell, the cell the
/// empty cell held before the last step (`None` for an empty path), and
/// whether every step was one the shuffle may take.
pub open spec fn walk(path: Seq<GridPos>) -> (Seq<i8>, Option<GridPos>, bool)
    decreases path.len(),
{
    if path.len() == 0 {
        (solved_seq(), None, true)
    } else {
        let prev = walk(path.drop_last());
        let from = path.last();
        let e = pos_of(prev.0, EMPTY);
        (after_step(prev.0, from), Some(e), prev.2 && shuffle_choice(e, prev.1, from))
    }
}

/// Every grid a valid shuffle walk reaches holds each tile and the empty
/// cell exactly once.
pub proof fn lemma_walk_arrangement(path: Seq<GridPos>)
    requires
        walk(path).2,
    ensures
        is_arrangement(walk(path).0),
    decreases path.len(),
{
    if path.len() == 0 {
        lemma_solved_arrangement();
    } else {
        let prev = walk(path.drop_last());
        lemma_walk_arrangement(path.drop_last());
        let e = pos_of(prev.0, EMPTY);
        lemma_pos_of(prev.0, EMPTY);
        lemma_swap_arrangement(prev.0, path.last().index(), e.index());
    }
}

/// In a valid shuffle walk no step undoes the one before it: the grid after
/// any two consecutive steps differs from the grid before them.
pub proof fn lemma_walk_no_undo(path: Seq<GridPos>)
    requires
        walk(path).2,
        path.len() >= 2,
    ensures
        walk(path).0 != walk(path.drop_last().drop_last()).0,
{
    let p1 = path.drop_last();
    let p0 = p1.drop_last();
    assert(walk(p1).2);
    assert(walk(p0).2);
    lemma_walk_arrangement(p0);
    lemma_shuffle_no_undo(walk(p0).0, walk(p0).1, p1.last(), path.last());
}

impl Grid {
    /// The cells from which the next shuffle step may slide a tile into the
    /// empty cell, where `last` is the cell the empty cell held before the
    /// previous step (`None` before the first step).
    pub fn shuffle_candidates(&self, last: Option<GridPos>) -> (r: Vec<GridPos>)
        requires
            self.wf(),
        ensures
            forall|q: GridPos| r@.contains(q) <==> shuffle_choice(pos_of(self@, EMPTY), last, q),
            r@.no_duplicates(),
            r@.len() >= 1,
    {
        let e = self.position_of(EMPTY);
        let ghost g = e;
        let mut r: Vec<GridPos> = Vec::new();
        let options = [
            GridPos { x: e.x - 1, y: e.y },
            GridPos { x: e.x + 1, y: e.y },
            GridPos { x: e.x, y: e.y - 1 },
            GridPos { x: e.x, y: e.y + 1 },
        ];
        let mut k: usize = 0;
        while k < 4
            invariant
                0 <= k <= 4,
                e == g,
                e.in_grid(),
                options@ == seq![
                    GridPos { x: (g.x - 1) as i8, y: g.y },
                    GridPos { x: (g.x + 1) as i8, y: g.y },
                    GridPos { x: g.x, y: (g.y - 1) as i8 },
                    GridPos { x: g.x, y: (g.y + 1) as i8 },
                ],
                r@.no_duplicates(),
                forall|q: GridPos|
                    r@.contains(q) <==> (exists|m: int| 0 <= m < k && options@[m] == q)
                        && shuffle_choice(e, last, q),
            decreases 4 - k,
        {
            let q = options[k];
            let excluded = match last {
                Some(l) => l == q,
                None => false,
            };
            if 0 <= q.x && q.x < 3 && 0 <= q.y && q.y < 3 && !excluded {
                proof {
                    assert(!r@.contains(q));
                }
                let ghost before = r@;
                r.push(q);
                proof {
                    assert forall|q2: GridPos| r@.contains(q2) <==> (exists|m: int|
                        0 <= m < k + 1 && options@[m] == q2) && shuffle_choice(e, last, q2) by {
                        if q2 == q {
                            assert(r@[r@.len() - 1] == q);
                        } else if r@.contains(q2) {
                            let i = choose|i: int| 0 <= i < r@.len() && r@[i] == q2;
                            assert(before.contains(q2)) by {
                                assert(i < r@.len() - 1);
                            }
                        }
                        if (exists|m: int| 0 <= m < k + 1 && options@[m] == q2) && q2 != q {
                            let m = choose|m: int| 0 <= m < k + 1 && options@[m] == q2;
                            if shuffle_choice(e, last, q2) {
                                assert(m < k);
                                assert(before.contains(q2));
                                let i = choose|i: int| 0 <= i < before.len() && before[i] == q2;
                                assert(r@[i] == q2);
                            }
                        }
                    }
                }
            } else {
                proof {
                    assert forall|q2: GridPos| r@.contains(q2) <==> (exists|m: int|
                        0 <= m < k + 1 && options@[m] == q2) && shuffle_choice(e, last, q2) by {
                        if (exists|m: int| 0 <= m < k + 1 && options@[m] == q2) && shuffle_choice(e, last, q2) {
                            let m = choose|m: int| 0 <= m < k + 1 && options@[m] == q2;
                            assert(m < k);
                        }
                    }
                }
            }
            k += 1;
        }
        proof {
            assert forall|q: GridPos| r@.contains(q) <==> shuffle_choice(e, last, q) by {
                if shuffle_choice(e, last, q) {
                    if q == options@[0] {} else if q == options@[1] {} else if q == options@[2] {} else {
                        assert(q == options@[3]);
                    }
                }
            }
            let a = options@[0];
            let b = options@[1];
            let c = options@[2];
            let d = options@[3];
            if e.x > 0 && last != Some(a) {
                assert(r@.contains(a));
            } else if e.x < 2 && last != Some(b) {
                assert(r@.contains(b));
            } else if e.y > 0 && last != Some(c) {
                assert(r@.contains(c));
            } else {
                assert(shuffle_choice(e, last, d));
                assert(r@.contains(d));
            }
        }
        r
    }

    /// One shuffle step: slides the tile on `from` into the empty cell, and
    /// returns the cell the empty cell held before the step.
    pub fn shuffle_step(&mut self, last: Option<GridPos>, from: GridPos) -> (r: GridPos)
        requires
            old(self).wf(),
            shuffle_choice(pos_of(old(self)@, EMPTY), last, from),
        ensures
            final(self).wf(),
            r == pos_of(old(self)@, EMPTY),
            final(self)@ == after_step(old(self)@, from),
    {
        let e = self.position_of(EMPTY);
        self.swap_cells(from, e);
        e
    }

    /// The solved grid shuffled by `steps` random slides into the empty cell,
    /// none of which undoes the one before it. Refused when `steps` is negative.
    pub fn shuffled(steps: i64) -> (r: Result<Grid, PuzzleError>)
        ensures
            r is Err <==> steps < 0,
            r is Err ==> r == Err::<Grid, PuzzleError>(PuzzleError::ConfigurationError),
            r matches Ok(g) ==> g.wf(),
            r matches Ok(g) ==> exists|path: Seq<GridPos>|
                path.len() == steps && (#[trigger] walk(path)).2 && walk(path).0 == g@,
            steps == 0 ==> (r matches Ok(g) && g@ == solved_seq()),
    {
        if steps < 0 {
            return Err(PuzzleError::ConfigurationError);
        }
        let mut grid = Grid::solved();
        let mut last: Option<GridPos> = None;
        let mut k: i64 = 0;
        let ghost mut path: Seq<GridPos> = Seq::empty();
        assert(walk(path).0 == solved_seq());
        while k < steps
            invariant
                0 <= k <= steps,
                grid.wf(),
                steps == 0 ==> grid@ == solved_seq(),
                path.len() == k,
                walk(path).0 == grid@,
                walk(path).1 == last,
                walk(path).2,
            decreases steps - k,
        {
            let candidates = grid.shuffle_candidates(last);
            let pick = random_below(candidates.len());
            let from = candidates[pick];
            proof {
                assert(candidates@.contains(from));
            }
            let vacated = grid.shuffle_step(last, from);
            proof {
                let before = path;
                path = path.push(from);
                assert(path.drop_last() =~= before);
            }
            last = Some(vacated);
            k += 1;
        }
        assert(walk(path).2 && walk(path).0 == grid@);
        Ok(grid)
    }
}

/// A committed move can be undone: in the moved grid the same tile borders
/// the empty cell in the opposite direction, and sliding it back restores
/// the grid exactly.
pub proof fn lemma_move_reverses(s: Seq<i8>, tile: i8)
    requires
        is_arrangement(s),
        0 <= tile < TILE_COUNT,
        legal_move_spec(s, tile) is Some,
    ensures
        is_arrangement(moved(s, tile)),
        legal_move_spec(moved(s, tile), tile) == Some(legal_move_spec(s, tile)->0.reverse()),
        moved(moved(s, tile), tile) == s,
{
    let p = pos_of(s, tile);
    let e = pos_of(s, EMPTY);
    lemma_pos_of(s, tile);
    lemma_pos_of(s, EMPTY);
    lemma_swap_arrangement(s, p.index(), e.index());
    let t = moved(s, tile);
    assert(t[e.index()] == tile);
    assert(t[p.index()] == EMPTY);
    lemma_pos_of(t, tile);
    lemma_pos_of(t, EMPTY);
    assert(pos_of(t, tile) == e);
    assert(pos_of(t, EMPTY) == p);
    assert(moved(t, tile) =~= s);
}

/// Under the arrangement invariant, every tile on its own cell is the same
/// as the solved arrangement with the empty cell last.
pub proof fn lemma_solved_exactly(s: Seq<i8>)
    requires
        is_arrangement(s),
    ensures
        solved_spec(s) <==> s == solved_seq(),
{
    if solved_spec(s) {
        let v = s[8];
        assert(valid_value(v));
        if v != EMPTY {
            assert(s[v as int] == v);
        }
        assert(s =~= solved_seq());
    }
}

/// Exchanging any two cells of the solved arrangement leaves it unsolved.
pub proof fn lemma_swap_unsolves(i: int, j: int)
    requires
        0 <= i < 9,
        0 <= j < 9,
        i != j,
    ensures
        !solved_spec(swap(solved_seq(), i, j)),
{
    let t = swap(solved_seq(), i, j);
    if i < 8 {
        assert(t[i] != i);
    } else {
        assert(t[j] != j);
    }
}

} // verus!
