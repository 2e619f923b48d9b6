//! The player entity: movement over a generated level and remaining lives.

use vstd::prelude::*;

use crate::common::{BlockType, Cord, Dir, Entity, Level};
use crate::level_gen::cell_of;

verus! {

/// The coordinate sits strictly inside the level's border ring.
pub open spec fn interior(level: Level, cord: Cord) -> bool {
    1 <= cord.0 <= level.spec_height() - 2 && 1 <= cord.1 <= level.spec_width() - 2
}

/// The cell one step from `cord` along `dir` is open to the player: neither
/// wall nor gate. With `Still` this tests the cell under `cord` itself.
pub open spec fn dir_open(level: Level, cord: Cord, dir: Dir) -> bool {
    &&& cell_of(level.grid(), level.spec_width(), cord.0 + dir.off_y(), cord.1 + dir.off_x())
        != BlockType::Wall
    &&& cell_of(level.grid(), level.spec_width(), cord.0 + dir.off_y(), cord.1 + dir.off_x())
        != BlockType::Gate
}

/// The heading one tick resolves to: the requested one while its next cell
/// is open, else the previous one while its next cell is open, else none.
pub open spec fn resolved_dir(level: Level, e: Entity) -> Dir {
    if dir_open(level, e.cord, e.dir) {
        e.dir
    } else if dir_open(level, e.cord, e.prev_dir) {
        e.prev_dir
    } else {
        Dir::Still
    }
}

/// The player: remaining lives and movement state.
pub struct Pacman {
    pub lives: u8,
    pub data: Entity,
}

impl Pacman {
    pub open spec fn spec_lives(self) -> int {
        self.lives as int
    }

    /// The movement state fits `level`: every stored coordinate stays
    /// strictly inside the border ring.
    pub open spec fn wf(self, level: Level) -> bool {
        &&& interior(level, self.data.cord)
        &&& interior(level, self.data.prev_cord)
        &&& interior(level, self.data.start_cord)
    }

    pub fn new(start_cord: Cord, lives: u8) -> (r: Pacman)
        ensures
            r.data.cord == start_cord,
            r.data.prev_cord == start_cord,
            r.data.start_cord == start_cord,
            r.data.dir == Dir::Still,
            r.data.prev_dir == Dir::Still,
            r.data.tick == 0,
            r.spec_lives() == lives,
    {
        Pacman {
            lives,
            data: Entity {
                start_cord,
                cord: start_cord,
                prev_cord: start_cord,
                dir: Dir::Still,
                prev_dir: Dir::Still,
                tick: 0,
            },
        }
    }

    /// Take the host's requested heading as-is.
    pub fn set_dir_outside(&mut self, dir: Dir)
        ensures
            final(self).data.dir == dir,
            final(self).data.cord == old(self).data.cord,
            final(self).data.prev_cord == old(self).data.prev_cord,
            final(self).data.start_cord == old(self).data.start_cord,
            final(self).data.prev_dir == old(self).data.prev_dir,
            final(self).data.tick == old(self).data.tick,
            final(self).spec_lives() == old(self).spec_lives(),
    {
        self.data.dir = dir;
    }

    /// Whether the player may head from `cord` along `dir` on `level`.
    fn dir_valid(level: &Level, cord: Cord, dir: &Dir) -> (r: bool)
        requires
            level.wf(),
            interior(*level, cord),
        ensures
            r == dir_open(*level, cord, *dir),
    {
        let t = dir.to_tup();
        proof {
            crate::level_gen::Field::lemma_dims_small(level.spec_width(), level.spec_height());
            assert(-1 <= t.0 <= 1 && -1 <= t.1 <= 1);
        }
        let target = cord.translate(t);
        let b = level.block(target);
        b != BlockType::Wall && b != BlockType::Gate
    }

    /// One movement step: from the current cell when the heading is open
    /// there, otherwise from the previous cell; a `Still` heading stays put.
    fn mv(&mut self, level: &Level)
        requires
            level.wf(),
            crate::level_gen::border_all_wall(
                level.grid(),
                level.spec_width(),
                level.spec_height(),
            ),
            old(self).wf(*level),
            old(self).data.dir == Dir::Still || dir_open(
                *level,
                old(self).data.cord,
                old(self).data.dir,
            ),
        ensures
            final(self).wf(*level),
            final(self).data.prev_cord == (if dir_open(
                *level,
                old(self).data.cord,
                old(self).data.dir,
            ) {
                old(self).data.cord
            } else {
                old(self).data.prev_cord
            }),
            final(self).data.cord.0 == final(self).data.prev_cord.0 + old(self).data.dir.off_y(),
            final(self).data.cord.1 == final(self).data.prev_cord.1 + old(self).data.dir.off_x(),
            final(self).data.prev_dir == old(self).data.dir,
            final(self).data.dir == old(self).data.dir,
            final(self).data.start_cord == old(self).data.start_cord,
            final(self).data.tick == old(self).data.tick,
            final(self).spec_lives() == old(self).spec_lives(),
    {
        let dir_ok = Self::dir_valid(level, self.data.cord, &self.data.dir);
        let adjusted = if dir_ok {
            self.data.cord
        } else {
            self.data.prev_cord
        };
        self.data.prev_cord = adjusted;
        let t = self.data.dir.to_tup();
        proof {
            crate::level_gen::Field::lemma_dims_small(level.spec_width(), level.spec_height());
            assert(-1 <= t.0 <= 1 && -1 <= t.1 <= 1);
        }
        self.data.cord = adjusted.translate(t);
        self.data.prev_dir = self.data.dir;
        proof {
            if dir_open(*level, old(self).data.cord, old(self).data.dir) {
                if !interior(*level, self.data.cord) {
                    assert(cell_of(
                        level.grid(),
                        level.spec_width(),
                        self.data.cord.0 as int,
                        self.data.cord.1 as int,
                    ) == BlockType::Wall);
                }
            }
        }
    }

    /// Keep the heading while it is open; fall back to the previous heading
    /// when that one still is; stop otherwise.
    fn set_dir(&mut self, level: &Level)
        requires
            level.wf(),
            old(self).wf(*level),
        ensures
            final(self).wf(*level),
            final(self).data.dir == (if dir_open(*level, old(self).data.cord, old(self).data.dir) {
                old(self).data.dir
            } else if dir_open(*level, old(self).data.cord, old(self).data.prev_dir) {
                old(self).data.prev_dir
            } else {
                Dir::Still
            }),
            final(self).data.dir == Dir::Still || dir_open(
                *level,
                old(self).data.cord,
                final(self).data.dir,
            ),
            final(self).data.cord == old(self).data.cord,
            final(self).data.prev_cord == old(self).data.prev_cord,
            final(self).data.start_cord == old(self).data.start_cord,
            final(self).data.prev_dir == old(self).data.prev_dir,
            final(self).data.tick == old(self).data.tick,
            final(self).spec_lives() == old(self).spec_lives(),
    {
        let cur_ok = Self::dir_valid(level, self.data.cord, &self.data.dir);
        let prev_ok = Self::dir_valid(level, self.data.cord, &self.data.prev_dir);
        if !cur_ok && !prev_ok {
            self.data.dir = Dir::Still;
        } else if !cur_ok {
            self.data.dir = self.data.prev_dir;
        }
    }

    /// One game tick: age, resolve the heading, then move from the current
    /// cell when that heading is open there (a `Still` heading tests the
    /// cell itself), otherwise from the previous cell.
    pub fn tick(&mut self, level: &Level)
        requires
            level.wf(),
            crate::level_gen::border_all_wall(
                level.grid(),
                level.spec_width(),
                level.spec_height(),
            ),
            old(self).wf(*level),
            old(self).data.tick < u64::MAX,
        ensures
            final(self).wf(*level),
            final(self).data.tick == old(self).data.tick + 1,
            final(self).data.start_cord == old(self).data.start_cord,
            final(self).spec_lives() == old(self).spec_lives(),
            final(self).data.dir == resolved_dir(*level, old(self).data),
            final(self).data.prev_dir == resolved_dir(*level, old(self).data),
            final(self).data.prev_cord == (if dir_open(
                *level,
                old(self).data.cord,
                resolved_dir(*level, old(self).data),
            ) {
                old(self).data.cord
            } else {
                old(self).data.prev_cord
            }),
            final(self).data.cord.0 == final(self).data.prev_cord.0 + resolved_dir(
                *level,
                old(self).data,
            ).off_y(),
            final(self).data.cord.1 == final(self).data.prev_cord.1 + resolved_dir(
                *level,
                old(self).data,
            ).off_x(),
    {
        self.data.tick = self.data.tick + 1;
        self.set_dir(level);
        self.mv(level);
    }

    /// Spend a life: with at least two lives left the player returns to its
    /// starting cell with a cleared heading and `true` comes back; the last
    /// life only drops to zero, and with none left nothing changes.
    pub fn revive(&mut self) -> (r: bool)
        ensures
            r == (old(self).spec_lives() >= 2),
            old(self).spec_lives() == 1 ==> final(self).spec_lives() == 0 && final(self).data
                == old(self).data,
            old(self).spec_lives() == 0 ==> *final(self) == *old(self),
            old(self).spec_lives() >= 2 ==> {
                &&& final(self).spec_lives() == old(self).spec_lives() - 1
                &&& final(self).data.cord == old(self).data.start_cord
                &&& final(self).data.dir == Dir::Still
                &&& final(self).data.prev_dir == Dir::Still
                &&& final(self).data.prev_cord == old(self).data.prev_cord
                &&& final(self).data.start_cord == old(self).data.start_cord
                &&& final(self).data.tick == old(self).data.tick
            },
    {
        if self.lives == 1 {
            self.lives = self.lives - 1;
            return false;
        }
        if self.lives < 1 {
            return false;
        }
        self.data.cord = self.data.start_cord;
        self.data.dir = Dir::Still;
        self.data.prev_dir = Dir::Still;
        self.lives = self.lives - 1;
        true
    }

    /// The fields the presentation layer reads: position, previous position,
    /// previous heading code, and lives.
    pub fn parse_for_fe(&self) -> (r: [u32; 6])
        ensures
            r[0] == self.data.cord.0,
            r[1] == self.data.cord.1,
            r[2] == self.data.prev_cord.0,
            r[3] == self.data.prev_cord.1,
            r[4] == self.data.prev_dir.spec_code(),
            r[5] == self.spec_lives(),
    {
        [
            self.data.cord.0,
            self.data.cord.1,
            self.data.prev_cord.0,
            self.data.prev_cord.1,
            self.data.prev_dir.code(),
            self.lives as u32,
        ]
    }

    pub fn lives(&self) -> (r: u8)
        ensures
            r == self.spec_lives(),
    {
        self.lives
    }
}

} // verus!
