//! A maze-based arcade game: procedural level generation (a bordered grid
//! carved with randomized wall clusters, a ghost spawn enclosure with a
//! one-way gate, and dot/pellet placement), plus the entity state machines
//! that play on the generated grid.

use vstd::prelude::*;

pub mod common;
pub mod ghosts;
pub mod pacman;
pub mod level_gen;
pub mod rng;

use crate::common::{lemma_dot_count_pos, lemma_dot_count_update, BlockType, Color, Cord,
    Difficulty, Dir, Level};
use crate::ghosts::{GhostState, Ghoul};
use crate::level_gen::{border_all_wall, cell_of, lemma_idx_bounds, lemma_idx_injective};
use crate::pacman::Pacman;

verus! {

/// Points for eating a dot.
const SCORE_PACDOT: u32 = 10;

/// Points for eating a power pellet.
const SCORE_PALLET: u32 = 50;

/// Points for eating a vulnerable ghost.
const SCORE_GHOST: u32 = 200;

/// One running game: the generated level, the player, the four ghosts, and
/// the score bookkeeping.
pub struct Game {
    level: Level,
    pacman: Pacman,
    ghosts: Vec<Ghoul>,
    diff: Difficulty,
    score: u32,
    game_over: bool,
}

/// The eight values of one ghost's render encoding stand at positions
/// 8j .. 8j+7 of the flattened buffer.
pub open spec fn fe_ok(out: Seq<u32>, gs: Seq<Ghoul>, j: int) -> bool {
    &&& out[8 * j] == gs[j].id
    &&& out[8 * j + 1] == gs[j].data.cord.0
    &&& out[8 * j + 2] == gs[j].data.cord.1
    &&& out[8 * j + 3] == gs[j].data.prev_cord.0
    &&& out[8 * j + 4] == gs[j].data.prev_cord.1
    &&& out[8 * j + 5] == gs[j].color.spec_code()
    &&& out[8 * j + 6] == gs[j].data.prev_dir.spec_code()
    &&& out[8 * j + 7] == (if gs[j].state is Vulnerable {
        1int
    } else {
        0int
    })
}

impl Game {
    pub closed spec fn spec_width(self) -> int {
        self.level.spec_width()
    }

    pub closed spec fn spec_height(self) -> int {
        self.level.spec_height()
    }

    pub closed spec fn grid(self) -> Seq<BlockType> {
        self.level.grid()
    }

    pub closed spec fn spec_dot_count(self) -> int {
        self.level.spec_dot_count()
    }

    pub closed spec fn spec_score(self) -> int {
        self.score as int
    }

    pub closed spec fn spec_game_over(self) -> bool {
        self.game_over
    }

    pub closed spec fn spec_diff(self) -> Difficulty {
        self.diff
    }

    pub closed spec fn spec_lives(self) -> int {
        self.pacman.spec_lives()
    }

    pub closed spec fn spec_ghosts(self) -> Seq<Ghoul> {
        self.ghosts@
    }

    pub closed spec fn spec_pacman(self) -> Pacman {
        self.pacman
    }

    /// Everything a game keeps true between ticks: a well-formed level
    /// whose stored dot count matches its buffer and whose border is all
    /// wall, entities inside the border, and exactly four ghosts.
    pub closed spec fn wf(self) -> bool {
        &&& self.level.wf()
        &&& self.level.dots_in_sync()
        &&& border_all_wall(self.level.grid(), self.level.spec_width(), self.level.spec_height())
        &&& self.pacman.wf(self.level)
        &&& self.ghosts@.len() == 4
        &&& (forall|i: int|
            0 <= i < self.ghosts@.len() ==> (#[trigger] self.ghosts@[i]).wf(self.level))
    }

    /// Tick counters have room to grow.
    pub closed spec fn ticks_ok(self) -> bool {
        &&& self.pacman.data.tick < u64::MAX
        &&& (forall|i: int|
            0 <= i < self.ghosts@.len() ==> (#[trigger] self.ghosts@[i]).data.tick < u64::MAX)
    }

    /// Start a game on a freshly generated level of roughly the requested
    /// size, with four ghosts in the spawn enclosure, the player two rows
    /// below its center, three lives, and a zero score.
    pub fn new(width: u32, height: u32, diff: Difficulty) -> (r: Game)
        requires
            width >= 1,
            height >= 1,
            Level::normalize(width as int, common::MIN_WIDTH as int) * Level::normalize(
                height as int,
                common::MIN_HEIGHT as int,
            ) <= u32::MAX,
        ensures
            r.wf(),
            r.ticks_ok(),
            r.spec_score() == 0,
            !r.spec_game_over(),
            r.spec_diff() == diff,
            r.spec_lives() == 3,
            level_gen::level_ok(r.grid(), r.spec_width(), r.spec_height()),
            r.spec_width() == Level::normalize(width as int, common::MIN_WIDTH as int),
            r.spec_height() == Level::normalize(height as int, common::MIN_HEIGHT as int),
            r.spec_ghosts().len() == 4,
            forall|i: int|
                0 <= i < 4 ==> {
                    let g = #[trigger] r.spec_ghosts()[i];
                    &&& g.id == i
                    &&& g.diff == diff
                    &&& g.state == GhostState::Scatter
                    &&& g.data.cord.0 == r.spec_height() / 2
                    &&& g.data.cord.1 == r.spec_width() / 2
                    &&& g.data.prev_cord == g.data.cord
                    &&& g.data.start_cord == g.data.cord
                    &&& g.data.dir == Dir::Still
                    &&& g.data.prev_dir == Dir::Still
                    &&& g.data.tick == 0
                },
            r.spec_ghosts()[0].color == Color::Red,
            r.spec_ghosts()[1].color == Color::Pink,
            r.spec_ghosts()[2].color == Color::Cyan,
            r.spec_ghosts()[3].color == Color::Orange,
            r.spec_pacman().data.cord.0 == r.spec_height() / 2 + 2,
            r.spec_pacman().data.cord.1 == r.spec_width() / 2,
            r.spec_pacman().data.prev_cord == r.spec_pacman().data.cord,
            r.spec_pacman().data.start_cord == r.spec_pacman().data.cord,
            r.spec_pacman().data.dir == Dir::Still,
            r.spec_pacman().data.prev_dir == Dir::Still,
            r.spec_pacman().data.tick == 0,
    {
        let level = Level::new(width, height);
        let my = level.height() / 2;
        let mx = level.width() / 2;
        let center = Cord(my, mx);
        let mut ghosts: Vec<Ghoul> = Vec::new();
        ghosts.push(Ghoul::new(0, center, Color::Red, diff));
        ghosts.push(Ghoul::new(1, center, Color::Pink, diff));
        ghosts.push(Ghoul::new(2, center, Color::Cyan, diff));
        ghosts.push(Ghoul::new(3, center, Color::Orange, diff));
        let pac_start = Cord(my + 2, mx);
        let pacman = Pacman::new(pac_start, 3);
        Game { level, ghosts, pacman, diff, score: 0, game_over: false }
    }

    /// Hand a key press on to the player as its requested heading.
    pub fn set_dir(&mut self, key_code: &str)
        requires
            old(self).wf(),
        ensures
            final(self).wf(),
            final(self).spec_pacman().data.dir == Dir::spec_from_keycode(key_code@),
            final(self).spec_pacman().data.cord == old(self).spec_pacman().data.cord,
            final(self).spec_pacman().data.prev_cord == old(self).spec_pacman().data.prev_cord,
            final(self).spec_pacman().data.start_cord == old(self).spec_pacman().data.start_cord,
            final(self).spec_pacman().data.prev_dir == old(self).spec_pacman().data.prev_dir,
            final(self).spec_pacman().data.tick == old(self).spec_pacman().data.tick,
            final(self).grid() == old(self).grid(),
            final(self).spec_ghosts() == old(self).spec_ghosts(),
            final(self).spec_lives() == old(self).spec_lives(),
            final(self).spec_dot_count() == old(self).spec_dot_count(),
            final(self).spec_score() == old(self).spec_score(),
            final(self).spec_game_over() == old(self).spec_game_over(),
    {
        let dir = Dir::from_keycode(key_code);
        self.pacman.set_dir_outside(dir);
    }

    /// Consume whatever the player stands on: the cell becomes empty, a dot
    /// or pellet is scored and leaves the stored count, a pellet makes every
    /// ghost vulnerable. Then resolve ghost contact: a vulnerable ghost dies
    /// for points, any other ghost costs a life and may end the game.
    fn process_block(&mut self) -> (r: bool)
        requires
            old(self).wf(),
            old(self).spec_score() + 850 <= u32::MAX,
        ensures
            final(self).wf(),
            r == final(self).spec_game_over(),
            final(self).spec_score() >= old(self).spec_score(),
            final(self).spec_score() <= old(self).spec_score() + 850,
            final(self).spec_width() == old(self).spec_width(),
            final(self).spec_height() == old(self).spec_height(),
            old(self).spec_game_over() ==> final(self).spec_game_over(),
            cell_of(
                final(self).grid(),
                final(self).spec_width(),
                old(self).spec_pacman().data.cord.0 as int,
                old(self).spec_pacman().data.cord.1 as int,
            ) == BlockType::Empty,
            forall|y: int, x: int|
                level_gen::on_grid(final(self).spec_width(), final(self).spec_height(), y, x)
                    && !(y == old(self).spec_pacman().data.cord.0 && x
                    == old(self).spec_pacman().data.cord.1) ==> #[trigger] cell_of(
                    final(self).grid(),
                    final(self).spec_width(),
                    y,
                    x,
                ) == cell_of(old(self).grid(), old(self).spec_width(), y, x),
            final(self).spec_dot_count() == old(self).spec_dot_count() - (if cell_of(
                old(self).grid(),
                old(self).spec_width(),
                old(self).spec_pacman().data.cord.0 as int,
                old(self).spec_pacman().data.cord.1 as int,
            ).is_dot() {
                1int
            } else {
                0int
            }),
            cell_of(
                old(self).grid(),
                old(self).spec_width(),
                old(self).spec_pacman().data.cord.0 as int,
                old(self).spec_pacman().data.cord.1 as int,
            ) == BlockType::PowerPellet ==> forall|i: int|
                0 <= i < final(self).spec_ghosts().len()
                    ==> (#[trigger] final(self).spec_ghosts()[i]).state is Vulnerable,
    {
        let ghost w = self.level.spec_width();
        let ghost h = self.level.spec_height();
        let pac_cord = self.pacman.data.cord;
        let pac_block = self.level.block(pac_cord);
        let score_gained: u32 = match pac_block {
            BlockType::PacDot => SCORE_PACDOT,
            BlockType::PowerPellet => {
                let mut i: usize = 0;
                while i < self.ghosts.len()
                    invariant
                        self.level == old(self).level,
                        self.pacman == old(self).pacman,
                        self.score == old(self).score,
                        self.game_over == old(self).game_over,
                        self.ghosts@.len() == old(self).ghosts@.len(),
                        i <= self.ghosts@.len(),
                        forall|j: int|
                            0 <= j < self.ghosts@.len() ==> (#[trigger] self.ghosts@[j]).wf(
                                self.level,
                            ),
                        forall|j: int|
                            0 <= j < i ==> (#[trigger] self.ghosts@[j]).state is Vulnerable,
                    decreases self.ghosts@.len() - i,
                {
                    let mut g = self.ghosts[i];
                    g.set_vulnerable();
                    self.ghosts.set(i, g);
                    i = i + 1;
                }
                SCORE_PALLET
            },
            _ => 0,
        };
        if score_gained > 0 {
            proof {
                lemma_idx_bounds(w, h, pac_cord.0 as int, pac_cord.1 as int);
                lemma_dot_count_pos(self.level.grid(), pac_cord.0 * w + pac_cord.1);
            }
            self.level.reduce_dot_count();
        }
        let ghost pre_level = self.level;
        let ghost was_pellet = (pac_block == BlockType::PowerPellet);
        self.level.set_block(pac_cord, BlockType::Empty);
        proof {
            let idx = pac_cord.0 * w + pac_cord.1;
            lemma_idx_bounds(w, h, pac_cord.0 as int, pac_cord.1 as int);
            lemma_dot_count_update(pre_level.grid(), idx, BlockType::Empty);
            assert forall|y: int, x: int|
                level_gen::on_grid(w, h, y, x) && level_gen::on_border(w, h, y, x)
                implies #[trigger] cell_of(self.level.grid(), w, y, x) == BlockType::Wall by {
                lemma_idx_bounds(w, h, y, x);
                assert(cell_of(pre_level.grid(), w, y, x) == BlockType::Wall);
                if y * w + x == idx {
                    lemma_idx_injective(w, h, y, x, pac_cord.0 as int, pac_cord.1 as int);
                }
                assert(self.level.grid()[y * w + x] == pre_level.grid()[y * w + x]);
            }
            assert forall|y: int, x: int|
                level_gen::on_grid(w, h, y, x) && !(y == pac_cord.0 && x == pac_cord.1)
                implies #[trigger] cell_of(self.level.grid(), w, y, x) == cell_of(
                old(self).grid(),
                w,
                y,
                x,
            ) by {
                lemma_idx_bounds(w, h, y, x);
                if y * w + x == idx {
                    lemma_idx_injective(w, h, y, x, pac_cord.0 as int, pac_cord.1 as int);
                }
                assert(self.level.grid()[y * w + x] == pre_level.grid()[y * w + x]);
            }
        }
        self.score = self.score + score_gained;
        let ghost lvl = self.level;
        let mut i: usize = 0;
        while i < self.ghosts.len()
            invariant
                self.level == lvl,
                self.level.wf(),
                self.level.dots_in_sync(),
                border_all_wall(
                    self.level.grid(),
                    self.level.spec_width(),
                    self.level.spec_height(),
                ),
                self.pacman.wf(self.level),
                self.ghosts@.len() == 4,
                forall|j: int|
                    0 <= j < self.ghosts@.len() ==> (#[trigger] self.ghosts@[j]).wf(self.level),
                i <= self.ghosts@.len(),
                self.score >= old(self).spec_score(),
                self.score <= old(self).spec_score() + 50 + 200 * i,
                old(self).spec_score() + 850 <= u32::MAX,
                old(self).spec_game_over() ==> self.game_over,
                was_pellet ==> forall|j: int|
                    0 <= j < self.ghosts@.len() ==> (#[trigger] self.ghosts@[j]).state
                        is Vulnerable,
            decreases self.ghosts@.len() - i,
        {
            let g = self.ghosts[i];
            let ate_pacman = g.data.prev_cord == self.pacman.data.cord
                && self.pacman.data.prev_cord == g.data.cord;
            if ate_pacman || g.data.cord == self.pacman.data.cord {
                if g.vulnerable() {
                    let mut g2 = g;
                    g2.die();
                    self.ghosts.set(i, g2);
                    proof {
                        assert(200 * (i + 1) == 200 * i + 200) by (nonlinear_arith);
                        assert(200 * i <= 200 * 4) by (nonlinear_arith)
                            requires
                                0 <= i < 4,
                        ;
                    }
                    self.score = self.score + SCORE_GHOST;
                } else {
                    if !self.pacman.revive() {
                        self.game_over = true;
                    }
                    break ;
                }
            }
            i = i + 1;
        }
        proof {
            let ghost sc: int = self.score as int;
            let ghost s0: int = old(self).spec_score();
            let ghost ii: int = i as int;
            assert(sc <= s0 + 850) by (nonlinear_arith)
                requires
                    sc <= s0 + 50 + 200 * ii,
                    0 <= ii <= 4,
            ;
        }
        self.game_over
    }

    /// One game tick: an over game stays as it is; otherwise the player and
    /// every ghost move, and the player's cell is resolved. Returns whether
    /// the game has ended.
    pub fn tick(&mut self) -> (r: bool)
        requires
            old(self).wf(),
            old(self).ticks_ok(),
            old(self).spec_score() + 850 <= u32::MAX,
        ensures
            final(self).wf(),
            r == final(self).spec_game_over(),
            final(self).spec_score() >= old(self).spec_score(),
            final(self).spec_dot_count() <= old(self).spec_dot_count(),
            final(self).spec_width() == old(self).spec_width(),
            final(self).spec_height() == old(self).spec_height(),
            old(self).spec_game_over() ==> *final(self) == *old(self),
    {
        if self.game_over {
            return self.game_over;
        }
        self.pacman.tick(&self.level);
        let mut i: usize = 0;
        while i < self.ghosts.len()
            invariant
                self.level.wf(),
                self.level.dots_in_sync(),
                border_all_wall(
                    self.level.grid(),
                    self.level.spec_width(),
                    self.level.spec_height(),
                ),
                self.pacman.wf(self.level),
                self.pacman.data.cord.0 < self.level.spec_height(),
                self.pacman.data.cord.1 < self.level.spec_width(),
                self.ghosts@.len() == 4,
                forall|j: int|
                    0 <= j < self.ghosts@.len() ==> (#[trigger] self.ghosts@[j]).wf(self.level),
                forall|j: int|
                    i <= j < self.ghosts@.len() ==> (#[trigger] self.ghosts@[j]).data.tick
                        < u64::MAX,
                i <= self.ghosts@.len(),
                self.score == old(self).score,
                self.game_over == old(self).game_over,
                self.level == old(self).level,
                old(self).spec_score() + 850 <= u32::MAX,
            decreases self.ghosts@.len() - i,
        {
            let mut g = self.ghosts[i];
            g.tick(self.pacman.data.cord, &self.level);
            self.ghosts.set(i, g);
            i = i + 1;
        }
        self.process_block()
    }

    pub fn diff(&self) -> (r: Difficulty)
        ensures
            r == self.spec_diff(),
    {
        self.diff
    }

    pub fn score(&self) -> (r: u32)
        ensures
            r == self.spec_score(),
    {
        self.score
    }

    pub fn game_over(&self) -> (r: bool)
        ensures
            r == self.spec_game_over(),
    {
        self.game_over
    }

    /// The whole cell buffer, read-only.
    pub fn field(&self) -> (r: &Vec<BlockType>)
        ensures
            r@ == self.grid(),
    {
        self.level.field()
    }

    pub fn width(&self) -> (r: u32)
        ensures
            r == self.spec_width(),
    {
        self.level.width()
    }

    pub fn height(&self) -> (r: u32)
        ensures
            r == self.spec_height(),
    {
        self.level.height()
    }

    pub fn dot_count(&self) -> (r: u64)
        ensures
            r == self.spec_dot_count(),
    {
        self.level.dot_count()
    }

    pub fn lives(&self) -> (r: u8)
        ensures
            r == self.spec_lives(),
    {
        self.pacman.lives()
    }

    /// The cell at row `y`, column `x`.
    pub fn field_at(&self, y: u32, x: u32) -> (r: BlockType)
        requires
            self.wf(),
            y < self.spec_height(),
            x < self.spec_width(),
        ensures
            r == cell_of(self.grid(), self.spec_width(), y as int, x as int),
    {
        self.level.block(Cord(y, x))
    }

    /// The four ghosts' render encodings, flattened to eight values each.
    pub fn ghosts(&self) -> (r: Vec<u32>)
        ensures
            r@.len() == 8 * self.spec_ghosts().len(),
            forall|j: int|
                0 <= j < self.spec_ghosts().len() ==> #[trigger] fe_ok(r@, self.spec_ghosts(), j),
    {
        let mut out: Vec<u32> = Vec::new();
        let mut i: usize = 0;
        while i < self.ghosts.len()
            invariant
                i <= self.ghosts@.len(),
                out@.len() == 8 * i,
                forall|j: int| 0 <= j < i ==> #[trigger] fe_ok(out@, self.ghosts@, j),
            decreases self.ghosts@.len() - i,
        {
            let ghost pre = out@;
            let fe = self.ghosts[i].parse_for_fe();
            out.push(fe[0]);
            out.push(fe[1]);
            out.push(fe[2]);
            out.push(fe[3]);
            out.push(fe[4]);
            out.push(fe[5]);
            out.push(fe[6]);
            out.push(fe[7]);
            proof {
                assert(fe_ok(out@, self.ghosts@, i as int));
                assert forall|j: int| 0 <= j < i + 1 implies #[trigger] fe_ok(
                    out@,
                    self.ghosts@,
                    j,
                ) by {
                    if j < i {
                        assert(fe_ok(pre, self.ghosts@, j));
                    }
                }
            }
            i = i + 1;
        }
        out
    }

    /// The player's render encoding.
    pub fn pacman(&self) -> (r: [u32; 6])
        ensures
            r[0] == self.spec_pacman().data.cord.0,
            r[1] == self.spec_pacman().data.cord.1,
            r[2] == self.spec_pacman().data.prev_cord.0,
            r[3] == self.spec_pacman().data.prev_cord.1,
            r[4] == self.spec_pacman().data.prev_dir.spec_code(),
            r[5] == self.spec_pacman().spec_lives(),
    {
        self.pacman.parse_for_fe()
    }
}

} // verus!
