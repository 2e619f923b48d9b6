//! The ghost entities: state cycling between scatter, chase and vulnerable,
//! and movement over a generated level.

use vstd::prelude::*;

use crate::common::{BlockType, Color, Cord, Difficulty, Dir, Entity, Level};
use crate::pacman::interior;
use crate::rng::Rand;

verus! {

/// Ticks a ghost stays in one scatter or chase phase.
const TIME_IN_STATE: u8 = 50;

/// Ticks a ghost stays vulnerable after a power pellet.
const VULNERABLE_TIME: u8 = 30;

/// The scheduled phase at a tick count: the first third of each 150-tick
/// cycle scatters, the rest chases.
pub open spec fn phase_at(tick: int) -> GhostState {
    if tick % 150 < 50 {
        GhostState::Scatter
    } else {
        GhostState::Chase
    }
}

/// Whether a ghost may step from `cord` along `d` on `level`.
pub open spec fn ghost_passable(level: Level, cord: Cord, d: Dir) -> bool {
    let b = crate::level_gen::cell_of(
        level.grid(),
        level.spec_width(),
        cord.0 + d.off_y(),
        cord.1 + d.off_x(),
    );
    b != BlockType::Wall && (b != BlockType::Gate || d == Dir::Up)
}

/// Behaviour phase of a ghost; `Vulnerable` remembers the tick it began.
#[derive(Clone, Copy, PartialEq, Eq, Structural)]
pub enum GhostState {
    Chase,
    Scatter,
    Vulnerable(u64),
}

/// One ghost: identity, difficulty, behaviour phase and movement state.
#[derive(Clone, Copy, PartialEq, Eq, Structural)]
pub struct Ghoul {
    pub id: u32,
    pub color: Color,
    pub diff: Difficulty,
    pub state: GhostState,
    pub data: Entity,
}

impl Ghoul {
    /// The movement state fits `level`, and a vulnerable phase never starts
    /// in the future.
    pub open spec fn wf(self, level: Level) -> bool {
        &&& interior(level, self.data.cord)
        &&& interior(level, self.data.prev_cord)
        &&& interior(level, self.data.start_cord)
        &&& (self.state matches GhostState::Vulnerable(x) ==> x <= self.data.tick)
    }

    pub fn new(id: u32, start_cord: Cord, color: Color, diff: Difficulty) -> (r: Ghoul)
        ensures
            r.id == id,
            r.color == color,
            r.diff == diff,
            r.state == GhostState::Scatter,
            r.data.cord == start_cord,
            r.data.prev_cord == start_cord,
            r.data.start_cord == start_cord,
            r.data.dir == Dir::Still,
            r.data.prev_dir == Dir::Still,
            r.data.tick == 0,
    {
        Ghoul {
            id,
            color,
            diff,
            state: GhostState::Scatter,
            data: Entity {
                cord: start_cord,
                prev_cord: start_cord,
                start_cord,
                dir: Dir::Still,
                prev_dir: Dir::Still,
                tick: 0,
            },
        }
    }

    /// Re-derive the phase from the tick counter: scatter for the first
    /// third of each 150-tick cycle, chase for the rest; a vulnerable phase
    /// holds until its 30 ticks have passed.
    fn calc_state(&mut self)
        requires
            old(self).state matches GhostState::Vulnerable(x) ==> x <= old(self).data.tick,
        ensures
            final(self).data == old(self).data,
            final(self).id == old(self).id,
            final(self).color == old(self).color,
            final(self).diff == old(self).diff,
            final(self).state matches GhostState::Vulnerable(x) ==> x <= final(self).data.tick,
            old(self).state matches GhostState::Vulnerable(x) ==> final(self).state == (if old(
                self,
            ).data.tick - x >= 30 {
                phase_at(old(self).data.tick as int)
            } else {
                old(self).state
            }),
            !(old(self).state is Vulnerable) ==> final(self).state == phase_at(
                old(self).data.tick as int,
            ),
    {
        let state_c = self.data.tick % (TIME_IN_STATE as u64 * 3);
        let expected = if state_c < TIME_IN_STATE as u64 {
            GhostState::Scatter
        } else {
            GhostState::Chase
        };
        if let GhostState::Vulnerable(x) = self.state {
            if self.data.tick - x >= VULNERABLE_TIME as u64 {
                self.state = expected;
            }
        } else {
            self.state = expected;
        }
    }

    /// One movement step in the current heading. A step that would enter
    /// the outer ring is skipped: unclamped, the unsigned index arithmetic
    /// could leave the grid.
    fn mv(&mut self, level: &Level)
        requires
            level.wf(),
            old(self).wf(*level),
        ensures
            final(self).wf(*level),
            final(self).data.prev_cord == old(self).data.cord,
            final(self).data.prev_dir == old(self).data.dir,
            final(self).data.dir == old(self).data.dir,
            final(self).data.start_cord == old(self).data.start_cord,
            final(self).data.tick == old(self).data.tick,
            final(self).state == old(self).state,
            final(self).id == old(self).id,
            final(self).color == old(self).color,
            final(self).diff == old(self).diff,
            (1 <= old(self).data.cord.0 + old(self).data.dir.off_y() <= level.spec_height() - 2
                && 1 <= old(self).data.cord.1 + old(self).data.dir.off_x() <= level.spec_width()
                - 2) ==> (final(self).data.cord.0 == old(self).data.cord.0
                + old(self).data.dir.off_y() && final(self).data.cord.1 == old(self).data.cord.1
                + old(self).data.dir.off_x()),
            !(1 <= old(self).data.cord.0 + old(self).data.dir.off_y() <= level.spec_height() - 2
                && 1 <= old(self).data.cord.1 + old(self).data.dir.off_x() <= level.spec_width()
                - 2) ==> final(self).data.cord == old(self).data.cord,
    {
        let t = self.data.dir.to_tup();
        proof {
            crate::level_gen::Field::lemma_dims_small(level.spec_width(), level.spec_height());
            assert(-1 <= t.0 <= 1 && -1 <= t.1 <= 1);
        }
        let target = self.data.cord.translate(t);
        self.data.prev_cord = self.data.cord;
        let h = level.height();
        let w = level.width();
        if 1 <= target.0 && target.0 + 1 < h && 1 <= target.1 && target.1 + 1 < w {
            self.data.cord = target;
        }
        self.data.prev_dir = self.data.dir;
    }

    /// Pick the first heading from the preference list (completed with the
    /// remaining directions, minus the reverse of the previous heading)
    /// whose next cell is passable for a ghost. Nothing passable keeps the
    /// old heading, and a ghost that has never moved starts with `Up`.
    fn set_dir(&mut self, preferred_dirs: &mut Vec<Dir>, level: &Level)
        requires
            level.wf(),
            old(self).wf(*level),
            forall|i: int, j: int|
                0 <= i < j < old(preferred_dirs)@.len() ==> old(preferred_dirs)@[i] != old(
                    preferred_dirs,
                )@[j],
        ensures
            final(self).data.cord == old(self).data.cord,
            final(self).data.prev_cord == old(self).data.prev_cord,
            final(self).data.start_cord == old(self).data.start_cord,
            final(self).data.prev_dir == old(self).data.prev_dir,
            final(self).data.tick == old(self).data.tick,
            final(self).state == old(self).state,
            final(self).id == old(self).id,
            final(self).color == old(self).color,
            final(self).diff == old(self).diff,
            old(self).data.prev_dir == Dir::Still ==> final(self).data.dir == Dir::Up,
            old(self).data.prev_dir != Dir::Still ==> (final(self).data.dir == old(self).data.dir
                || (ghost_passable(*level, old(self).data.cord, final(self).data.dir)
                    && final(self).data.dir != old(self).data.prev_dir.spec_opposite())),
    {
        if self.data.prev_dir == Dir::Still {
            self.data.dir = Dir::Up;
            return ;
        }
        let ghost lvl = *level;
        let all_dirs: [Dir; 4] = [Dir::Down, Dir::Right, Dir::Left, Dir::Up];
        let mut i: usize = 0;
        while i < 4
            invariant
                i <= 4,
                forall|k1: int, k2: int|
                    0 <= k1 < k2 < preferred_dirs@.len() ==> preferred_dirs@[k1]
                        != preferred_dirs@[k2],
            decreases 4 - i,
        {
            let d = all_dirs[i];
            if !dir_list_contains(preferred_dirs, d) {
                preferred_dirs.push(d);
            }
            i = i + 1;
        }
        let opposite = self.data.prev_dir.get_opposite();
        let mut found: usize = preferred_dirs.len();
        let mut j: usize = 0;
        let n = preferred_dirs.len();
        while j < n
            invariant
                j <= n,
                n == preferred_dirs@.len(),
                forall|k1: int, k2: int|
                    0 <= k1 < k2 < preferred_dirs@.len() ==> preferred_dirs@[k1]
                        != preferred_dirs@[k2],
                found == n || (found < n && preferred_dirs@[found as int] == opposite
                    && forall|k: int| 0 <= k < found ==> preferred_dirs@[k] != opposite),
                found == n ==> forall|k: int| 0 <= k < j ==> preferred_dirs@[k] != opposite,
            decreases n - j,
        {
            if found == n && preferred_dirs[j] == opposite {
                found = j;
            }
            j = j + 1;
        }
        if found < n {
            let ghost before = preferred_dirs@;
            preferred_dirs.remove(found);
            proof {
                before.remove_ensures(found as int);
                assert forall|k: int|
                    0 <= k < preferred_dirs@.len() implies preferred_dirs@[k] != opposite by {
                    if k < found {
                        assert(preferred_dirs@[k] == before[k]);
                    } else {
                        assert(preferred_dirs@[k] == before[k + 1]);
                        assert(before[k + 1] != before[found as int]);
                    }
                }
            }
        }
        let mut k: usize = 0;
        let m = preferred_dirs.len();
        while k < m
            invariant
                level.wf(),
                lvl == *level,
                self.wf(*level),
                m == preferred_dirs@.len(),
                k <= m,
                self.data == old(self).data,
                self.state == old(self).state,
                self.id == old(self).id,
                self.color == old(self).color,
                self.diff == old(self).diff,
                old(self).data.prev_dir != Dir::Still,
                opposite == old(self).data.prev_dir.spec_opposite(),
                forall|kk: int| 0 <= kk < preferred_dirs@.len() ==> preferred_dirs@[kk] != opposite,
            decreases m - k,
        {
            let d = preferred_dirs[k];
            let t = d.to_tup();
            proof {
                crate::level_gen::Field::lemma_dims_small(
                    level.spec_width(),
                    level.spec_height(),
                );
                assert(-1 <= t.0 <= 1 && -1 <= t.1 <= 1);
            }
            let target = self.data.cord.translate(t);
            let b = level.block(target);
            let valid_move = b != BlockType::Wall && (b != BlockType::Gate || d == Dir::Up);
            if valid_move {
                self.data.dir = d;
                proof {
                    assert(ghost_passable(lvl, old(self).data.cord, d));
                }
                return ;
            }
            k = k + 1;
        }
    }

    /// Scatter movement: each ghost prefers its own corner pair, in random
    /// order.
    fn set_dir_scatter(&mut self, level: &Level)
        requires
            level.wf(),
            old(self).wf(*level),
        ensures
            final(self).data.cord == old(self).data.cord,
            final(self).data.prev_cord == old(self).data.prev_cord,
            final(self).data.start_cord == old(self).data.start_cord,
            final(self).data.prev_dir == old(self).data.prev_dir,
            final(self).data.tick == old(self).data.tick,
            final(self).state == old(self).state,
            final(self).id == old(self).id,
            final(self).color == old(self).color,
            final(self).diff == old(self).diff,
            old(self).data.prev_dir == Dir::Still ==> final(self).data.dir == Dir::Up,
            old(self).data.prev_dir != Dir::Still ==> (final(self).data.dir == old(self).data.dir
                || (ghost_passable(*level, old(self).data.cord, final(self).data.dir)
                    && final(self).data.dir != old(self).data.prev_dir.spec_opposite())),
    {
        let rem = self.id % 4;
        let (a, b) = if rem == 0 {
            (Dir::Up, Dir::Left)
        } else if rem == 1 {
            (Dir::Up, Dir::Right)
        } else if rem == 2 {
            (Dir::Down, Dir::Right)
        } else {
            (Dir::Down, Dir::Left)
        };
        let mut rng = Rand::system();
        let flip = rng.next_bool();
        let mut dirs: Vec<Dir> = Vec::new();
        if flip {
            dirs.push(b);
            dirs.push(a);
        } else {
            dirs.push(a);
            dirs.push(b);
        }
        self.set_dir(&mut dirs, level);
    }

    /// Chase movement: prefer headings that close in on the player, in
    /// random order.
    fn set_dir_chase(&mut self, pacman: Cord, level: &Level)
        requires
            level.wf(),
            old(self).wf(*level),
            pacman.0 < level.spec_height(),
            pacman.1 < level.spec_width(),
        ensures
            final(self).data.cord == old(self).data.cord,
            final(self).data.prev_cord == old(self).data.prev_cord,
            final(self).data.start_cord == old(self).data.start_cord,
            final(self).data.prev_dir == old(self).data.prev_dir,
            final(self).data.tick == old(self).data.tick,
            final(self).state == old(self).state,
            final(self).id == old(self).id,
            final(self).color == old(self).color,
            final(self).diff == old(self).diff,
            old(self).data.prev_dir == Dir::Still ==> final(self).data.dir == Dir::Up,
            old(self).data.prev_dir != Dir::Still ==> (final(self).data.dir == old(self).data.dir
                || (ghost_passable(*level, old(self).data.cord, final(self).data.dir)
                    && final(self).data.dir != old(self).data.prev_dir.spec_opposite())),
    {
        proof {
            crate::level_gen::Field::lemma_dims_small(level.spec_width(), level.spec_height());
        }
        let off_y = pacman.0 as i32 - self.data.cord.0 as i32;
        let off_x = pacman.0 as i32 - self.data.cord.0 as i32;
        let mut dirs: Vec<Dir> = Vec::new();
        if off_y > 0 {
            dirs.push(Dir::Down);
        } else if off_y != 0 {
            dirs.push(Dir::Up);
        }
        if off_x > 0 {
            dirs.push(Dir::Right);
        } else if off_x != 0 {
            dirs.push(Dir::Left);
        }
        let mut rng = Rand::system();
        let flip = rng.next_bool();
        if flip {
            let n = dirs.len();
            if n == 2 {
                let first = dirs[0];
                let second = dirs[1];
                let mut swapped: Vec<Dir> = Vec::new();
                swapped.push(second);
                swapped.push(first);
                dirs = swapped;
            }
        }
        self.set_dir(&mut dirs, level);
    }

    /// One game tick: age, re-derive the phase, pick a heading, move one
    /// step along it (skipped where the step would enter the outer ring).
    pub fn tick(&mut self, pacman: Cord, level: &Level)
        requires
            level.wf(),
            old(self).wf(*level),
            old(self).data.tick < u64::MAX,
            pacman.0 < level.spec_height(),
            pacman.1 < level.spec_width(),
        ensures
            final(self).wf(*level),
            final(self).data.tick == old(self).data.tick + 1,
            final(self).data.start_cord == old(self).data.start_cord,
            final(self).id == old(self).id,
            final(self).color == old(self).color,
            final(self).diff == old(self).diff,
            final(self).data.prev_cord == old(self).data.cord,
            final(self).data.prev_dir == final(self).data.dir,
            old(self).data.prev_dir == Dir::Still ==> final(self).data.dir == Dir::Up,
            old(self).data.prev_dir != Dir::Still ==> (final(self).data.dir == old(self).data.dir
                || (ghost_passable(*level, old(self).data.cord, final(self).data.dir)
                    && final(self).data.dir != old(self).data.prev_dir.spec_opposite())),
            (1 <= old(self).data.cord.0 + final(self).data.dir.off_y() <= level.spec_height() - 2
                && 1 <= old(self).data.cord.1 + final(self).data.dir.off_x() <= level.spec_width()
                - 2) ==> (final(self).data.cord.0 == old(self).data.cord.0
                + final(self).data.dir.off_y() && final(self).data.cord.1 == old(self).data.cord.1
                + final(self).data.dir.off_x()),
            !(1 <= old(self).data.cord.0 + final(self).data.dir.off_y() <= level.spec_height() - 2
                && 1 <= old(self).data.cord.1 + final(self).data.dir.off_x() <= level.spec_width()
                - 2) ==> final(self).data.cord == old(self).data.cord,
            !(old(self).state is Vulnerable) ==> final(self).state == phase_at(
                old(self).data.tick + 1,
            ),
            old(self).state matches GhostState::Vulnerable(x) ==> final(self).state == (if old(
                self,
            ).data.tick + 1 - x >= 30 {
                phase_at(old(self).data.tick + 1)
            } else {
                old(self).state
            }),
    {
        self.data.tick = self.data.tick + 1;
        self.calc_state();
        let st = self.state;
        match st {
            GhostState::Vulnerable(_) | GhostState::Scatter => self.set_dir_scatter(level),
            _ => self.set_dir_chase(pacman, level),
        }
        self.mv(level);
    }

    /// Back to the spawn cell, with the previous heading cleared.
    pub fn die(&mut self)
        ensures
            final(self).data.cord == old(self).data.start_cord,
            final(self).data.prev_dir == Dir::Still,
            final(self).data.prev_cord == old(self).data.prev_cord,
            final(self).data.start_cord == old(self).data.start_cord,
            final(self).data.dir == old(self).data.dir,
            final(self).data.tick == old(self).data.tick,
            final(self).state == old(self).state,
            final(self).id == old(self).id,
            final(self).color == old(self).color,
            final(self).diff == old(self).diff,
    {
        self.data.cord = self.data.start_cord;
        self.data.prev_dir = Dir::Still;
    }

    /// Become vulnerable as of the current tick.
    pub fn set_vulnerable(&mut self)
        ensures
            final(self).state == GhostState::Vulnerable(old(self).data.tick),
            final(self).data == old(self).data,
            final(self).id == old(self).id,
            final(self).color == old(self).color,
            final(self).diff == old(self).diff,
    {
        self.state = GhostState::Vulnerable(self.data.tick);
    }

    pub fn vulnerable(&self) -> (r: bool)
        ensures
            r == (self.state is Vulnerable),
    {
        if let GhostState::Vulnerable(_) = self.state {
            return true;
        }
        false
    }

    /// The fields the presentation layer reads: identity, position,
    /// previous position, color code, previous heading code, vulnerability.
    pub fn parse_for_fe(&self) -> (r: [u32; 8])
        ensures
            r[0] == self.id,
            r[1] == self.data.cord.0,
            r[2] == self.data.cord.1,
            r[3] == self.data.prev_cord.0,
            r[4] == self.data.prev_cord.1,
            r[5] == self.color.spec_code(),
            r[6] == self.data.prev_dir.spec_code(),
            r[7] == (if self.state is Vulnerable {
                1int
            } else {
                0int
            }),
    {
        let vul: u32 = if self.vulnerable() {
            1
        } else {
            0
        };
        [
            self.id,
            self.data.cord.0,
            self.data.cord.1,
            self.data.prev_cord.0,
            self.data.prev_cord.1,
            self.color.code(),
            self.data.prev_dir.code(),
            vul,
        ]
    }
}

/// Whether `v` holds `d`.
fn dir_list_contains(v: &Vec<Dir>, d: Dir) -> (r: bool)
    ensures
        r == v@.contains(d),
{
    let mut i: usize = 0;
    while i < v.len()
        invariant
            i <= v@.len(),
            forall|k: int| 0 <= k < i ==> v@[k] != d,
        decreases v@.len() - i,
    {
        if v[i] == d {
            return true;
        }
        i = i + 1;
    }
    false
}

} // verus!
