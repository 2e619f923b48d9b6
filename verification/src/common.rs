//! Shared game-world vocabulary: grid cells, directions, coordinates, and the
//! [`Level`] wrapper that owns a generated grid together with its dot count.

use vstd::prelude::*;
use vstd::string::*;

verus! {

/// One tile of the level grid.
#[derive(Clone, Copy, PartialEq, Eq, Structural)]
pub enum BlockType {
    Empty,
    Wall,
    PacDot,
    PowerPellet,
    Gate,
}

impl BlockType {
    /// A cell that counts toward the level's edible-dot total.
    pub open spec fn is_dot(self) -> bool {
        self == BlockType::PacDot || self == BlockType::PowerPellet
    }
}

/// Game difficulty selected by the host.
#[derive(Clone, Copy, PartialEq, Eq, Structural)]
pub enum Difficulty {
    Normal,
    Expert,
}

/// Ghost body color, also used as part of the render encoding.
#[derive(Clone, Copy, PartialEq, Eq, Structural)]
pub enum Color {
    Red,
    Pink,
    Cyan,
    Orange,
}

impl Color {
    /// The numeric code the presentation layer expects for this color.
    pub open spec fn spec_code(self) -> u32 {
        match self {
            Color::Red => 1,
            Color::Pink => 2,
            Color::Cyan => 3,
            Color::Orange => 4,
        }
    }

    pub fn code(self) -> (r: u32)
        ensures
            r == self.spec_code(),
    {
        match self {
            Color::Red => 1,
            Color::Pink => 2,
            Color::Cyan => 3,
            Color::Orange => 4,
        }
    }
}

/// A grid coordinate: row, then column.
#[derive(Clone, Copy, PartialEq, Eq, Structural)]
pub struct Cord(pub u32, pub u32);

impl Cord {
    /// Translation by a signed (row, column) offset. Going out of the `u32`
    /// range is a caller error, ruled out by the precondition.
    pub fn translate(self, off: (i32, i32)) -> (r: Cord)
        requires
            0 <= self.0 + off.0 <= u32::MAX,
            0 <= self.1 + off.1 <= u32::MAX,
        ensures
            r.0 == self.0 + off.0,
            r.1 == self.1 + off.1,
    {
        let y = (self.0 as i64 + off.0 as i64) as u32;
        let x = (self.1 as i64 + off.1 as i64) as u32;
        Cord(y, x)
    }
}

/// A movement direction on the grid; `Still` stands for "not moving".
#[derive(Clone, Copy, PartialEq, Eq, Structural)]
pub enum Dir {
    Right,
    Down,
    Left,
    Up,
    Still,
}

/// Equality of two string slices, decided character by character.
fn str_eq(a: &str, b: &str) -> (r: bool)
    ensures
        r == (a@ == b@),
{
    let la = a.unicode_len();
    let lb = b.unicode_len();
    if la != lb {
        proof {
            assert(a@.len() != b@.len());
        }
        return false;
    }
    let mut i: usize = 0;
    while i < la
        invariant
            la == a@.len(),
            la == b@.len(),
            i <= la,
            forall|j: int| 0 <= j < i ==> a@[j] == b@[j],
        decreases la - i,
    {
        if a.get_char(i) != b.get_char(i) {
            proof {
                assert(a@[i as int] != b@[i as int]);
            }
            return false;
        }
        i += 1;
    }
    proof {
        assert(a@ =~= b@);
    }
    true
}

impl Dir {
    /// The direction a key press stands for, if any.
    pub open spec fn spec_from_keycode(s: Seq<char>) -> Dir {
        if s == "ArrowRight"@ || s == "KeyD"@ {
            Dir::Right
        } else if s == "ArrowLeft"@ || s == "KeyA"@ {
            Dir::Left
        } else if s == "ArrowUp"@ || s == "KeyW"@ {
            Dir::Up
        } else if s == "ArrowDown"@ || s == "KeyS"@ {
            Dir::Down
        } else {
            Dir::Still
        }
    }

    pub fn from_keycode(key_code: &str) -> (r: Dir)
        ensures
            r == Dir::spec_from_keycode(key_code@),
    {
        if str_eq(key_code, "ArrowRight") || str_eq(key_code, "KeyD") {
            Dir::Right
        } else if str_eq(key_code, "ArrowLeft") || str_eq(key_code, "KeyA") {
            Dir::Left
        } else if str_eq(key_code, "ArrowUp") || str_eq(key_code, "KeyW") {
            Dir::Up
        } else if str_eq(key_code, "ArrowDown") || str_eq(key_code, "KeyS") {
            Dir::Down
        } else {
            Dir::Still
        }
    }

    /// Row delta of one step in this direction.
    pub open spec fn off_y(self) -> int {
        match self {
            Dir::Up => -1,
            Dir::Down => 1,
            _ => 0,
        }
    }

    /// Column delta of one step in this direction.
    pub open spec fn off_x(self) -> int {
        match self {
            Dir::Right => 1,
            Dir::Left => -1,
            _ => 0,
        }
    }

    pub fn to_tup(&self) -> (r: (i32, i32))
        ensures
            r.0 == self.off_y(),
            r.1 == self.off_x(),
    {
        match self {
            Dir::Up => (-1, 0),
            Dir::Down => (1, 0),
            Dir::Right => (0, 1),
            Dir::Left => (0, -1),
            Dir::Still => (0, 0),
        }
    }

    pub open spec fn spec_opposite(self) -> Dir {
        match self {
            Dir::Up => Dir::Down,
            Dir::Down => Dir::Up,
            Dir::Right => Dir::Left,
            Dir::Left => Dir::Right,
            Dir::Still => Dir::Still,
        }
    }

    pub fn get_opposite(&self) -> (r: Dir)
        ensures
            r == self.spec_opposite(),
    {
        match self {
            Dir::Up => Dir::Down,
            Dir::Down => Dir::Up,
            Dir::Right => Dir::Left,
            Dir::Left => Dir::Right,
            Dir::Still => Dir::Still,
        }
    }

    /// The two directions at a right angle to this one. Vertical movement
    /// pairs with (Right, Left); anything else pairs with (Down, Up).
    pub open spec fn spec_perpendicular(self) -> [Dir; 2] {
        if self == Dir::Down || self == Dir::Up {
            [Dir::Right, Dir::Left]
        } else {
            [Dir::Down, Dir::Up]
        }
    }

    pub fn get_perpendicular_dirs(&self) -> (r: [Dir; 2])
        ensures
            r == self.spec_perpendicular(),
            r[0] != Dir::Still && r[1] != Dir::Still,
    {
        if let Dir::Down | Dir::Up = self {
            return [Dir::Right, Dir::Left];
        }
        [Dir::Down, Dir::Up]
    }

    /// The numeric code the presentation layer expects for this direction.
    pub open spec fn spec_code(self) -> u32 {
        match self {
            Dir::Right => 0,
            Dir::Down => 1,
            Dir::Left => 2,
            Dir::Up => 3,
            Dir::Still => 99,
        }
    }

    pub fn code(self) -> (r: u32)
        ensures
            r == self.spec_code(),
    {
        match self {
            Dir::Right => 0,
            Dir::Down => 1,
            Dir::Left => 2,
            Dir::Up => 3,
            Dir::Still => 99,
        }
    }
}

/// A moving game entity: its current, previous and starting coordinates,
/// its current and previous heading, and its age in ticks.
#[derive(Clone, Copy, PartialEq, Eq, Structural)]
pub struct Entity {
    pub cord: Cord,
    pub prev_cord: Cord,
    pub start_cord: Cord,
    pub dir: Dir,
    pub prev_dir: Dir,
    pub tick: u64,
}

/// Number of edible cells (dots and power pellets) in the buffer.
pub open spec fn dot_count_of(g: Seq<BlockType>) -> int
    decreases g.len(),
{
    if g.len() == 0 {
        0
    } else {
        dot_count_of(g.drop_last()) + if g.last().is_dot() {
            1int
        } else {
            0int
        }
    }
}

/// The edible-cell count lies between 0 and the buffer length.
pub proof fn lemma_dot_count_le_len(g: Seq<BlockType>)
    ensures
        0 <= dot_count_of(g) <= g.len(),
    decreases g.len(),
{
    if g.len() > 0 {
        lemma_dot_count_le_len(g.drop_last());
    }
}

/// Law: rewriting one cell moves the edible-cell count exactly by the
/// difference between the old and the new cell.
pub proof fn lemma_dot_count_update(g: Seq<BlockType>, i: int, b: BlockType)
    requires
        0 <= i < g.len(),
    ensures
        dot_count_of(g.update(i, b)) == dot_count_of(g) - (if g[i].is_dot() {
            1int
        } else {
            0int
        }) + (if b.is_dot() {
            1int
        } else {
            0int
        }),
    decreases g.len(),
{
    let gu = g.update(i, b);
    if i == g.len() - 1 {
        assert(gu.drop_last() =~= g.drop_last());
    } else {
        assert(gu.drop_last() =~= g.drop_last().update(i, b));
        lemma_dot_count_update(g.drop_last(), i, b);
    }
}

/// Law: a buffer holding an edible cell has a positive edible-cell count.
pub proof fn lemma_dot_count_pos(g: Seq<BlockType>, i: int)
    requires
        0 <= i < g.len(),
        g[i].is_dot(),
    ensures
        dot_count_of(g) >= 1,
    decreases g.len(),
{
    if i == g.len() - 1 {
        lemma_dot_count_le_len(g.drop_last());
    } else {
        lemma_dot_count_pos(g.drop_last(), i);
    }
}

/// Smallest width a level is generated with.
pub const MIN_WIDTH: u32 = 13;

/// Smallest height a level is generated with.
pub const MIN_HEIGHT: u32 = 11;

/// A generated level: its dimensions, the cell buffer, and the number of
/// edible cells left on it.
#[derive(Clone)]
pub struct Level {
    width: u32,
    height: u32,
    dot_count: u64,
    field: Vec<BlockType>,
}

impl Level {
    pub closed spec fn spec_width(self) -> int {
        self.width as int
    }

    pub closed spec fn spec_height(self) -> int {
        self.height as int
    }

    pub closed spec fn grid(self) -> Seq<BlockType> {
        self.field@
    }

    pub closed spec fn spec_dot_count(self) -> int {
        self.dot_count as int
    }

    /// The buffer is laid out at full size, with dimensions the generator
    /// accepts.
    pub open spec fn wf(self) -> bool {
        crate::level_gen::Field::dims_ok(self.spec_width(), self.spec_height())
            && self.grid().len() == self.spec_width() * self.spec_height()
    }

    /// The stored dot count matches the edible cells in the buffer.
    pub open spec fn dots_in_sync(self) -> bool {
        self.spec_dot_count() == dot_count_of(self.grid())
    }

    /// What a requested width or height is normalized to: even values drop
    /// to the next odd one, and `min` is the floor.
    pub open spec fn normalize(v: int, min: int) -> int {
        let odd = if v % 2 == 0 {
            v - 1
        } else {
            v
        };
        if odd > min {
            odd
        } else {
            min
        }
    }

    /// Build a level of roughly the requested size: width and height are
    /// normalized to odd values of at least 13 by 11, the grid comes from
    /// the generator, and the dot count is taken from the finished buffer.
    pub fn new(width: u32, height: u32) -> (r: Level)
        requires
            width >= 1,
            height >= 1,
            Self::normalize(width as int, MIN_WIDTH as int) * Self::normalize(
                height as int,
                MIN_HEIGHT as int,
            ) <= u32::MAX,
        ensures
            r.wf(),
            r.dots_in_sync(),
            r.spec_width() == Self::normalize(width as int, MIN_WIDTH as int),
            r.spec_height() == Self::normalize(height as int, MIN_HEIGHT as int),
            crate::level_gen::level_ok(r.grid(), r.spec_width(), r.spec_height()),
    {
        let odd_w = if width % 2 == 0 {
            width - 1
        } else {
            width
        };
        let w = if odd_w > MIN_WIDTH {
            odd_w
        } else {
            MIN_WIDTH
        };
        let odd_h = if height % 2 == 0 {
            height - 1
        } else {
            height
        };
        let h = if odd_h > MIN_HEIGHT {
            odd_h
        } else {
            MIN_HEIGHT
        };
        let field = match crate::level_gen::generate(w, h) {
            Result::Ok(f) => f,
            Result::Err(_) => {
                proof {
                    assert(false);
                }
                Vec::new()
            },
        };
        let dot_count = Self::count_dots(&field);
        Level { width: w, height: h, dot_count, field }
    }

    /// Count the edible cells of a buffer.
    fn count_dots(level: &Vec<BlockType>) -> (r: u64)
        ensures
            r == dot_count_of(level@),
    {
        let mut count: u64 = 0;
        let mut i: usize = 0;
        while i < level.len()
            invariant
                i <= level@.len(),
                count == dot_count_of(level@.take(i as int)),
                count <= i,
            decreases level@.len() - i,
        {
            let b = level[i];
            proof {
                assert(level@.take(i + 1).drop_last() =~= level@.take(i as int));
                assert(level@.take(i + 1).last() == level@[i as int]);
            }
            if b == BlockType::PowerPellet || b == BlockType::PacDot {
                count = count + 1;
            }
            i = i + 1;
        }
        proof {
            assert(level@.take(level@.len() as int) =~= level@);
        }
        count
    }

    pub fn to_idx(&self, cord: Cord) -> (r: usize)
        requires
            self.wf(),
            cord.0 < self.spec_height(),
            cord.1 < self.spec_width(),
        ensures
            r == cord.0 * self.spec_width() + cord.1,
            r < self.grid().len(),
    {
        proof {
            crate::level_gen::lemma_idx_bounds(
                self.spec_width(),
                self.spec_height(),
                cord.0 as int,
                cord.1 as int,
            );
        }
        (cord.0 * self.width + cord.1) as usize
    }

    /// Read one cell.
    pub fn block(&self, cord: Cord) -> (r: BlockType)
        requires
            self.wf(),
            cord.0 < self.spec_height(),
            cord.1 < self.spec_width(),
        ensures
            r == crate::level_gen::cell_of(self.grid(), self.spec_width(), cord.0 as int, cord.1 as int),
    {
        let idx = self.to_idx(cord);
        self.field[idx]
    }

    /// Write one cell; every other cell and the stored dot count keep their
    /// values.
    pub fn set_block(&mut self, cord: Cord, block: BlockType)
        requires
            old(self).wf(),
            cord.0 < old(self).spec_height(),
            cord.1 < old(self).spec_width(),
        ensures
            final(self).wf(),
            final(self).spec_width() == old(self).spec_width(),
            final(self).spec_height() == old(self).spec_height(),
            final(self).spec_dot_count() == old(self).spec_dot_count(),
            final(self).grid() == old(self).grid().update(
                cord.0 * old(self).spec_width() + cord.1,
                block,
            ),
    {
        let idx = self.to_idx(cord);
        self.field.set(idx, block);
    }

    /// One dot eaten: the stored count drops by one.
    pub fn reduce_dot_count(&mut self)
        requires
            old(self).spec_dot_count() >= 1,
        ensures
            final(self).spec_dot_count() == old(self).spec_dot_count() - 1,
            final(self).grid() == old(self).grid(),
            final(self).spec_width() == old(self).spec_width(),
            final(self).spec_height() == old(self).spec_height(),
    {
        self.dot_count = self.dot_count - 1;
    }

    pub fn height(&self) -> (r: u32)
        ensures
            r == self.spec_height(),
    {
        self.height
    }

    pub fn width(&self) -> (r: u32)
        ensures
            r == self.spec_width(),
    {
        self.width
    }

    /// The whole cell buffer, read-only.
    pub fn field(&self) -> (r: &Vec<BlockType>)
        ensures
            r@ == self.grid(),
    {
        &self.field
    }

    pub fn dot_count(&self) -> (r: u64)
        ensures
            r == self.spec_dot_count(),
    {
        self.dot_count
    }
}

} // verus!
