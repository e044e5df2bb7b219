use vstd::prelude::*;

use crate::grid::{
    legal_move_spec, moved, pos_of, solved_seq, solved_spec, walk, Direction, Grid, GridPos,
    PuzzleError, EMPTY,
};

verus! {

/// Largest magnitude accepted for the grid's centre coordinates.
pub const COORD_LIMIT: i64 = 0x1_0000_0000;

/// A point in desktop pixel coordinates.
#[derive(Clone, Copy, Debug, PartialEq, Eq, Structural)]
pub struct PxPos {
    pub x: i64,
    pub y: i64,
}

/// An opaque colour.
#[derive(Clone, Copy, Debug, PartialEq, Eq, Structural)]
pub struct Rgb {
    pub r: u8,
    pub g: u8,
    pub b: u8,
}

/// Intensity of the one lit channel of a tile's colour: green on its own
/// cell, red elsewhere.
pub const SHADE: u8 = 200;

/// Pixel coordinate of grid column or row `i`, cells `size + pad` apart and
/// the middle one at `c`.
pub open spec fn px_coord(size: int, pad: int, c: int, i: int) -> int {
    (i - 1) * (size + pad) + c
}

/// `v` held to the segment between `a` and `b`.
pub open spec fn clamp_between(v: int, a: int, b: int) -> int {
    let lo = if a <= b { a } else { b };
    let hi = if a <= b { b } else { a };
    if v < lo {
        lo
    } else if v > hi {
        hi
    } else {
        v
    }
}

proof fn lemma_px_coord(size: int, pad: int, c: int, i: int)
    requires
        0 <= i < 3,
    ensures
        i == 0 ==> px_coord(size, pad, c, i) == c - (size + pad),
        i == 1 ==> px_coord(size, pad, c, i) == c,
        i == 2 ==> px_coord(size, pad, c, i) == c + (size + pad),
{
    if i == 0 {
        assert((0 - 1) * (size + pad) == -(size + pad)) by (nonlinear_arith);
    } else if i == 2 {
        assert((2 - 1) * (size + pad) == size + pad) by (nonlinear_arith);
    }
}

/// Centre coordinates small enough that every cell position fits an `i64`.
pub open spec fn center_ok(c: PxPos) -> bool {
    -COORD_LIMIT <= c.x <= COORD_LIMIT && -COORD_LIMIT <= c.y <= COORD_LIMIT
}

/// Within the range that cell positions of a well-formed puzzle keep to.
pub open spec fn px_ok(p: PxPos) -> bool {
    -4 * COORD_LIMIT <= p.x <= 4 * COORD_LIMIT && -4 * COORD_LIMIT <= p.y <= 4 * COORD_LIMIT
}

/// A grab offset within the range of window-local pointer coordinates.
pub open spec fn offset_ok(o: PxPos) -> bool {
    i32::MIN <= o.x <= i32::MAX && i32::MIN <= o.y <= i32::MAX
}

/// Pixel position of cell (`x`, `y`).
pub open spec fn grid_px(size: u32, pad: u32, center: PxPos, x: int, y: int) -> PxPos {
    PxPos {
        x: px_coord(size as int, pad as int, center.x as int, x) as i64,
        y: px_coord(size as int, pad as int, center.y as int, y) as i64,
    }
}

/// The puzzle's controller: the grid, the target position of each tile, and
/// what the pointer holds.
#[derive(Debug)]
pub struct World {
    pub grid: Grid,
    /// The tile the pointer holds, if any.
    pub grabbed_piece: Option<usize>,
    /// Where the pointer pressed the held tile, in the tile's own coordinates.
    pub grab_offset: PxPos,
    /// The direction the held tile may slide in, if any.
    pub available_move: Option<Direction>,
    pub piece_size: u32,
    pub padding: u32,
    /// Pixel position of the middle cell.
    pub center: PxPos,
    /// False once the puzzle is solved.
    pub playing: bool,
    /// Target pixel position of each tile, by tile id.
    pub targets: Vec<PxPos>,
}

impl World {
    pub open spec fn wf(&self) -> bool {
        &&& self.grid.wf()
        &&& self.targets@.len() == 8
        &&& center_ok(self.center)
        &&& offset_ok(self.grab_offset)
        &&& (self.grabbed_piece matches Some(t) ==> t < 8 && self.available_move
            == legal_move_spec(self.grid@, t as i8))
    }

    /// Pixel position of cell `p`.
    pub open spec fn cell_px(&self, p: GridPos) -> PxPos {
        grid_px(self.piece_size, self.padding, self.center, p.x as int, p.y as int)
    }

    /// Pixel position of the cell that holds `v`.
    pub open spec fn px_of(&self, v: i8) -> PxPos {
        self.cell_px(pos_of(self.grid@, v))
    }

    /// Distance from a cell's position past which a dragged tile counts as
    /// having crossed into the next cell.
    pub open spec fn half_step(&self) -> int {
        self.padding / 2 + self.piece_size / 2
    }

    /// Whether tile `t`, held and sliding in direction `d`, stands past the
    /// midpoint between its cell and the empty one.
    pub open spec fn past_midpoint(&self, t: int, d: Direction) -> bool {
        let pos = self.targets@[t];
        let cur = self.px_of(t as i8);
        match d {
            Direction::Right => pos.x > cur.x + self.half_step(),
            Direction::Left => pos.x < cur.x - self.half_step(),
            Direction::Down => pos.y > cur.y + self.half_step(),
            Direction::Up => pos.y < cur.y - self.half_step(),
        }
    }

    /// Where the held tile `t` stands with the pointer at `m`: along its
    /// move axis, the pointer less the grab offset held between its cell and
    /// the empty cell; across it, and when it cannot move, on its cell.
    pub open spec fn drag_spec(&self, t: int, m: PxPos) -> PxPos {
        let cur = self.px_of(t as i8);
        let dest = self.px_of(EMPTY);
        match self.available_move {
            Some(d) => PxPos {
                x: if d.dx() != 0 {
                    clamp_between(m.x - self.grab_offset.x, cur.x as int, dest.x as int) as i64
                } else {
                    cur.x
                },
                y: if d.dy() != 0 {
                    clamp_between(m.y - self.grab_offset.y, cur.y as int, dest.y as int) as i64
                } else {
                    cur.y
                },
            },
            None => cur,
        }
    }

    /// Pixel position of cell (`x_index`, `y_index`) for cells of `window_size`
    /// pixels, `padding` apart, the middle one at `center`.
    pub fn m_grid_pos_to_px(
        window_size: u32,
        padding: u32,
        center: PxPos,
        x_index: usize,
        y_index: usize,
    ) -> (r: PxPos)
        requires
            center_ok(center),
            x_index < 3,
            y_index < 3,
        ensures
            r == grid_px(window_size, padding, center, x_index as int, y_index as int),
            r.x == px_coord(window_size as int, padding as int, center.x as int, x_index as int),
            r.y == px_coord(window_size as int, padding as int, center.y as int, y_index as int),
            px_ok(r),
    {
        proof {
            lemma_px_coord(window_size as int, padding as int, center.x as int, x_index as int);
            lemma_px_coord(window_size as int, padding as int, center.y as int, y_index as int);
        }
        let step = window_size as i64 + padding as i64;
        let x = if x_index == 0 {
            center.x - step
        } else if x_index == 1 {
            center.x
        } else {
            center.x + step
        };
        let y = if y_index == 0 {
            center.y - step
        } else if y_index == 1 {
            center.y
        } else {
            center.y + step
        };
        PxPos { x, y }
    }

    /// Pixel position of cell (`x_index`, `y_index`) of this puzzle.
    pub fn grid_pos_to_px(&self, x_index: usize, y_index: usize) -> (r: PxPos)
        requires
            self.wf(),
            x_index < 3,
            y_index < 3,
        ensures
            r == grid_px(self.piece_size, self.padding, self.center, x_index as int, y_index as int),
            px_ok(r),
    {
        Self::m_grid_pos_to_px(self.piece_size, self.padding, self.center, x_index, y_index)
    }

    /// The cell of `grid` that holds `index` (a tile id or `EMPTY`).
    pub fn m_get_grid_pos(grid: &Grid, index: i8) -> (r: GridPos)
        requires
            grid.wf(),
            index == EMPTY || 0 <= index < 8,
        ensures
            r == pos_of(grid@, index),
            r.in_grid(),
            grid@[r.index()] == index,
    {
        grid.position_of(index)
    }

    /// The cell that holds tile `index`.
    pub fn get_grid_pos(&self, index: usize) -> (r: GridPos)
        requires
            self.wf(),
            index < 8,
        ensures
            r == pos_of(self.grid@, index as i8),
            r.in_grid(),
            self.grid@[r.index()] == index as i8,
    {
        Self::m_get_grid_pos(&self.grid, index as i8)
    }

    /// Pixel position of the cell that holds tile `index`.
    pub fn get_px_from_grid(&self, index: usize) -> (r: PxPos)
        requires
            self.wf(),
            index < 8,
        ensures
            r == self.px_of(index as i8),
            px_ok(r),
    {
        let p = self.get_grid_pos(index);
        self.grid_pos_to_px(p.x as usize, p.y as usize)
    }

    fn empty_px(&self) -> (r: PxPos)
        requires
            self.wf(),
        ensures
            r == self.px_of(EMPTY),
            px_ok(r),
    {
        let p = Self::m_get_grid_pos(&self.grid, EMPTY);
        self.grid_pos_to_px(p.x as usize, p.y as usize)
    }

    /// The direction in which tile `index` may slide: toward the empty cell,
    /// when it borders it.
    pub fn get_available_move(&self, index: usize) -> (r: Option<Direction>)
        requires
            self.wf(),
            index < 8,
        ensures
            r == legal_move_spec(self.grid@, index as i8),
    {
        self.grid.legal_move(index as i8)
    }
}

impl World {
    /// Same tile size, padding and centre as `o`.
    pub open spec fn same_setup(&self, o: &World) -> bool {
        &&& self.piece_size == o.piece_size
        &&& self.padding == o.padding
        &&& self.center == o.center
    }

    /// A puzzle of tiles `window_size` pixels wide, `padding` apart, centred
    /// on a screen of the given size, shuffled by `mix_steps` random slides.
    /// Refused when `window_size` is zero or `mix_steps` negative.
    pub fn new(
        window_size: u32,
        padding: u32,
        screen_width: u32,
        screen_height: u32,
        mix_steps: i64,
    ) -> (r: Result<World, PuzzleError>)
        ensures
            r is Err <==> (window_size == 0 || mix_steps < 0),
            r is Err ==> r == Err::<World, PuzzleError>(PuzzleError::ConfigurationError),
            r matches Ok(w) ==> {
                &&& w.wf()
                &&& w.grabbed_piece is None
                &&& w.playing
                &&& w.piece_size == window_size
                &&& w.padding == padding
                &&& w.center.x == screen_width / 2 - window_size / 2
                &&& w.center.y == screen_height / 2 - window_size / 2
                &&& (mix_steps == 0 ==> w.grid@ == solved_seq())
                &&& exists|path: Seq<GridPos>|
                    path.len() == mix_steps && (#[trigger] walk(path)).2 && walk(path).0 == w.grid@
                &&& forall|t: int| 0 <= t < 8 ==> w.targets@[t] == w.px_of(t as i8)
            },
    {
        if window_size == 0 {
            return Err(PuzzleError::ConfigurationError);
        }
        let grid = match Grid::shuffled(mix_steps) {
            Ok(g) => g,
            Err(e) => {
                return Err(e);
            },
        };
        let center = PxPos {
            x: (screen_width / 2) as i64 - (window_size / 2) as i64,
            y: (screen_height / 2) as i64 - (window_size / 2) as i64,
        };
        let mut targets: Vec<PxPos> = Vec::new();
        let mut t: i8 = 0;
        while t < 8
            invariant
                0 <= t <= 8,
                grid.wf(),
                center_ok(center),
                targets@.len() == t,
                forall|k: int|
                    0 <= k < t ==> targets@[k] == grid_px(
                        window_size,
                        padding,
                        center,
                        pos_of(grid@, k as i8).x as int,
                        pos_of(grid@, k as i8).y as int,
                    ),
            decreases 8 - t,
        {
            let p = Self::m_get_grid_pos(&grid, t);
            let px = Self::m_grid_pos_to_px(window_size, padding, center, p.x as usize, p.y as usize);
            targets.push(px);
            t += 1;
        }
        Ok(World {
            grid,
            grabbed_piece: None,
            grab_offset: PxPos { x: 0, y: 0 },
            available_move: None,
            piece_size: window_size,
            padding,
            center,
            playing: true,
            targets,
        })
    }

    /// The pointer presses tile `index` at (`x`, `y`) in the tile's own
    /// coordinates: the tile is held, with the direction it may slide in;
    /// when it may slide, the press point becomes the grab offset.
    pub fn press(&mut self, index: usize, x: i32, y: i32)
        requires
            old(self).wf(),
            index < 8,
        ensures
            final(self).wf(),
            final(self).grabbed_piece == Some(index),
            final(self).available_move == legal_move_spec(old(self).grid@, index as i8),
            final(self).grab_offset == (if final(self).available_move is Some {
                PxPos { x: x as i64, y: y as i64 }
            } else {
                old(self).grab_offset
            }),
            final(self).grid@ == old(self).grid@,
            final(self).targets@ == old(self).targets@,
            final(self).playing == old(self).playing,
            final(self).same_setup(old(self)),
    {
        let available = self.get_available_move(index);
        self.grabbed_piece = Some(index);
        self.available_move = available;
        if self.available_move.is_some() {
            self.grab_offset = PxPos { x: x as i64, y: y as i64 };
        }
    }

    /// The pointer stands at (`mouse_x`, `mouse_y`) on the desktop: the held
    /// tile, if any, follows it along its move axis, held between its cell
    /// and the empty cell; its new position is returned.
    pub fn drag(&mut self, mouse_x: i32, mouse_y: i32) -> (r: Option<PxPos>)
        requires
            old(self).wf(),
        ensures
            final(self).wf(),
            match old(self).grabbed_piece {
                Some(t) => {
                    &&& r == Some(old(self).drag_spec(t as int, PxPos { x: mouse_x as i64, y: mouse_y as i64 }))
                    &&& final(self).targets@ == old(self).targets@.update(t as int, r->0)
                },
                None => r is None && final(self).targets@ == old(self).targets@,
            },
            final(self).grid@ == old(self).grid@,
            final(self).grabbed_piece == old(self).grabbed_piece,
            final(self).available_move == old(self).available_move,
            final(self).grab_offset == old(self).grab_offset,
            final(self).playing == old(self).playing,
            final(self).same_setup(old(self)),
    {
        match self.grabbed_piece {
            None => None,
            Some(t) => {
                let cur = self.get_px_from_grid(t);
                let dest = self.empty_px();
                let (move_x, move_y) = match self.available_move {
                    Some(d) => (d.step_x() != 0, d.step_y() != 0),
                    None => (false, false),
                };
                let x = if move_x {
                    clamp_to(mouse_x as i64 - self.grab_offset.x, cur.x, dest.x)
                } else {
                    cur.x
                };
                let y = if move_y {
                    clamp_to(mouse_y as i64 - self.grab_offset.y, cur.y, dest.y)
                } else {
                    cur.y
                };
                let pos = PxPos { x, y };
                self.targets.set(t, pos);
                Some(pos)
            },
        }
    }

    /// The pointer lets go: a held tile that may slide and stands past the
    /// midpoint toward the empty cell moves there in the grid and targets
    /// that cell; one that does not goes back to its own cell. Nothing is
    /// held afterwards.
    pub fn release(&mut self)
        requires
            old(self).wf(),
        ensures
            final(self).wf(),
            final(self).grabbed_piece is None,
            match (old(self).grabbed_piece, old(self).available_move) {
                (Some(t), Some(d)) => if old(self).past_midpoint(t as int, d) {
                    &&& final(self).grid@ == moved(old(self).grid@, t as i8)
                    &&& final(self).targets@ == old(self).targets@.update(
                        t as int,
                        old(self).px_of(EMPTY),
                    )
                } else {
                    &&& final(self).grid@ == old(self).grid@
                    &&& final(self).targets@ == old(self).targets@.update(
                        t as int,
                        old(self).px_of(t as i8),
                    )
                },
                _ => final(self).grid@ == old(self).grid@ && final(self).targets@
                    == old(self).targets@,
            },
            final(self).playing == old(self).playing,
            final(self).same_setup(old(self)),
    {
        if let Some(t) = self.grabbed_piece {
            if let Some(d) = self.available_move {
                let cur = self.get_px_from_grid(t);
                let dest = self.empty_px();
                let pos = self.targets[t];
                let half = (self.padding / 2) as i64 + (self.piece_size / 2) as i64;
                let crossed = match d {
                    Direction::Right => pos.x > cur.x + half,
                    Direction::Left => pos.x < cur.x - half,
                    Direction::Down => pos.y > cur.y + half,
                    Direction::Up => pos.y < cur.y - half,
                };
                if crossed {
                    let res = self.grid.apply_move(t as i8, d);
                    proof {
                        assert(res is Ok);
                    }
                    self.targets.set(t, dest);
                } else {
                    self.targets.set(t, cur);
                }
            }
        }
        self.grabbed_piece = None;
    }

    /// Ends play once the puzzle is solved; returns whether it is.
    pub fn check_win(&mut self) -> (r: bool)
        requires
            old(self).wf(),
        ensures
            final(self).wf(),
            r == solved_spec(old(self).grid@),
            final(self).playing == (old(self).playing && !r),
            final(self).grid@ == old(self).grid@,
            final(self).targets@ == old(self).targets@,
            final(self).grabbed_piece == old(self).grabbed_piece,
            final(self).available_move == old(self).available_move,
            final(self).grab_offset == old(self).grab_offset,
            final(self).same_setup(old(self)),
    {
        let won = self.grid.is_solved();
        if won {
            self.playing = false;
        }
        won
    }

    /// Whether the window-local point (`x`, `y`) lies within a tile's window.
    pub fn pointer_inside(&self, x: i32, y: i32) -> (r: bool)
        ensures
            r == (0 <= x <= self.piece_size && 0 <= y <= self.piece_size),
    {
        0 <= x && x as i64 <= self.piece_size as i64 && 0 <= y && y as i64 <= self.piece_size as i64
    }

    /// Target colour of tile `index`: green on its own cell, red elsewhere.
    pub fn target_color(&self, index: usize) -> (r: Rgb)
        requires
            self.wf(),
            index < 8,
        ensures
            r == (if self.grid@[index as int] == index as i8 {
                Rgb { r: 0, g: SHADE, b: 0 }
            } else {
                Rgb { r: SHADE, g: 0, b: 0 }
            }),
    {
        let p = self.get_grid_pos(index);
        proof {
            if self.grid@[index as int] == index as i8 {
                assert(p.index() == index);
            }
        }
        if (p.y as usize) * 3 + (p.x as usize) == index {
            Rgb { r: 0, g: SHADE, b: 0 }
        } else {
            Rgb { r: SHADE, g: 0, b: 0 }
        }
    }
}

/// `v` held to the segment between `a` and `b`.
pub fn clamp_to(v: i64, a: i64, b: i64) -> (r: i64)
    ensures
        r == clamp_between(v as int, a as int, b as int),
{
    let lo = if a <= b { a } else { b };
    let hi = if a <= b { b } else { a };
    if v < lo {
        lo
    } else if v > hi {
        hi
    } else {
        v
    }
}

} // verus!
