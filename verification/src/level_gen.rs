//! Procedural level generation: a bordered grid carved with randomized
//! rectangular and star-shaped wall clusters, a central ghost-spawn enclosure
//! with a one-way gate, a legality pass that closes fully-open 2-by-2
//! pockets, and pellet placement in the four interior corners.

use vstd::arithmetic::div_mod::{lemma_fundamental_div_mod_converse, lemma_fundamental_div_mod};
use vstd::prelude::*;

use crate::common::{BlockType, Cord, Dir};
use crate::rng::Rand;

verus! {

broadcast use vstd::arithmetic::mul::group_mul_basics;

/// Longest wall run the generator places in one direction.
pub const MAX_WALL_LENGTH: u32 = 7;

/// Shortest run the generator prefers when it has room to choose.
pub const PREFERRED_LEN: u32 = 3;

/// Reported when requested geometry cannot make a legal level.
#[derive(Clone, Copy, PartialEq, Eq, Structural, Debug)]
pub enum GenError {
    InvalidGeometry,
}

/// The cell of a row-major buffer `g` of width `w` at row `y`, column `x`.
pub open spec fn cell_of(g: Seq<BlockType>, w: int, y: int, x: int) -> BlockType {
    g[y * w + x]
}

/// Row `y`, column `x` lies on the grid.
pub open spec fn on_grid(w: int, h: int, y: int, x: int) -> bool {
    0 <= y < h && 0 <= x < w
}

/// Row `y`, column `x` lies on the outermost ring.
pub open spec fn on_border(w: int, h: int, y: int, x: int) -> bool {
    y == 0 || y == h - 1 || x == 0 || x == w - 1
}

/// The outermost ring of the buffer is entirely wall.
pub open spec fn border_all_wall(g: Seq<BlockType>, w: int, h: int) -> bool {
    forall|y: int, x: int|
        on_grid(w, h, y, x) && on_border(w, h, y, x) ==> #[trigger] cell_of(g, w, y, x)
            == BlockType::Wall
}

/// Gate cells appear nowhere but one row above the grid center.
pub open spec fn gate_confined(g: Seq<BlockType>, w: int, h: int) -> bool {
    forall|y: int, x: int|
        on_grid(w, h, y, x) && #[trigger] cell_of(g, w, y, x) == BlockType::Gate ==> y == h / 2 - 1
            && x == w / 2
}

/// Exactly one gate cell, one row above the grid center.
pub open spec fn gate_exactly_center(g: Seq<BlockType>, w: int, h: int) -> bool {
    cell_of(g, w, h / 2 - 1, w / 2) == BlockType::Gate && gate_confined(g, w, h)
}

/// The four interior corner cells hold power pellets.
pub open spec fn corner_pellets(g: Seq<BlockType>, w: int, h: int) -> bool {
    &&& cell_of(g, w, 1, 1) == BlockType::PowerPellet
    &&& cell_of(g, w, 1, w - 2) == BlockType::PowerPellet
    &&& cell_of(g, w, h - 2, 1) == BlockType::PowerPellet
    &&& cell_of(g, w, h - 2, w - 2) == BlockType::PowerPellet
}

/// Everything generation promises of a finished buffer of the given
/// dimensions: full size, walled border, a unique centered gate, and pellets
/// in the four interior corners.
pub open spec fn level_ok(g: Seq<BlockType>, w: int, h: int) -> bool {
    &&& g.len() == w * h
    &&& border_all_wall(g, w, h)
    &&& gate_exactly_center(g, w, h)
    &&& corner_pellets(g, w, h)
}

/// Number of cells the directional walk from (y, x) visits on a w-by-h
/// grid: it stops at the grid edge, and immediately after any cell in row
/// or column 0, where one more step would take an unsigned coordinate
/// below zero.
pub open spec fn ray_len_g(w: int, h: int, y: int, x: int, dir: Dir) -> int {
    if !on_grid(w, h, y, x) {
        0
    } else if y == 0 || x == 0 {
        1
    } else {
        match dir {
            Dir::Right => w - x,
            Dir::Left => x + 1,
            Dir::Down => h - y,
            Dir::Up => y + 1,
            Dir::Still => 1,
        }
    }
}

/// The step index of the first wall at or after step i along the walk, or
/// the walk length when no wall follows.
pub open spec fn first_wall_from_g(
    g: Seq<BlockType>,
    w: int,
    h: int,
    y: int,
    x: int,
    dir: Dir,
    i: int,
) -> int
    decreases ray_len_g(w, h, y, x, dir) - i,
{
    if i >= ray_len_g(w, h, y, x, dir) {
        ray_len_g(w, h, y, x, dir)
    } else if cell_of(g, w, y + i * dir.off_y(), x + i * dir.off_x()) == BlockType::Wall {
        i
    } else {
        first_wall_from_g(g, w, h, y, x, dir, i + 1)
    }
}

/// Steps before the first wall strictly past the start, or the full visit
/// count when no wall follows on the walk.
pub open spec fn dist_g(g: Seq<BlockType>, w: int, h: int, y: int, x: int, dir: Dir) -> int {
    let n = ray_len_g(w, h, y, x, dir);
    let f = first_wall_from_g(g, w, h, y, x, dir, 1);
    if f == n {
        n
    } else {
        f - 1
    }
}

/// The run-eligibility test at one cell: both perpendicular wall distances
/// nonzero, and for star placement also different from 2.
pub open spec fn usable_g(
    g: Seq<BlockType>,
    w: int,
    h: int,
    y: int,
    x: int,
    dir: Dir,
    for_star: bool,
) -> bool {
    let p = dir.spec_perpendicular();
    let d0 = dist_g(g, w, h, y, x, p[0]);
    let d1 = dist_g(g, w, h, y, x, p[1]);
    (d0 != 0 && d1 != 0) && (!for_star || (d0 != 2 && d1 != 2))
}

/// The step index of the first unusable-or-wall cell at or after step i, or
/// the walk length when every visited cell is usable open floor.
pub open spec fn first_blocked_from_g(
    g: Seq<BlockType>,
    w: int,
    h: int,
    y: int,
    x: int,
    dir: Dir,
    for_star: bool,
    i: int,
) -> int
    decreases ray_len_g(w, h, y, x, dir) - i,
{
    if i >= ray_len_g(w, h, y, x, dir) {
        ray_len_g(w, h, y, x, dir)
    } else if !usable_g(g, w, h, y + i * dir.off_y(), x + i * dir.off_x(), dir, for_star)
        || cell_of(g, w, y + i * dir.off_y(), x + i * dir.off_x()) == BlockType::Wall {
        i
    } else {
        first_blocked_from_g(g, w, h, y, x, dir, for_star, i + 1)
    }
}

/// The length of the run of usable open cells from (y, x); a walk with no
/// blocked cell at all reports 0.
pub open spec fn max_run_g(
    g: Seq<BlockType>,
    w: int,
    h: int,
    y: int,
    x: int,
    dir: Dir,
    for_star: bool,
) -> int {
    let n = ray_len_g(w, h, y, x, dir);
    let f = first_blocked_from_g(g, w, h, y, x, dir, for_star, 0);
    if f == n || f == 0 {
        0
    } else {
        f - 1
    }
}

/// A usable run clamped to the generator's wall-length limit.
pub open spec fn capped(m: int) -> int {
    if m < MAX_WALL_LENGTH {
        m
    } else {
        MAX_WALL_LENGTH as int
    }
}

/// The run length handed back for a drawn base length: stretched by one
/// exactly when the cell one step past the run sits at wall distance 2
/// along the same direction.
pub open spec fn stretched_run(
    g: Seq<BlockType>,
    w: int,
    h: int,
    y: int,
    x: int,
    dir: Dir,
    base: int,
) -> int {
    if dist_g(g, w, h, y + (base - 1) * dir.off_y(), x + (base - 1) * dir.off_x(), dir) == 2 {
        base + 1
    } else {
        base
    }
}

/// In `b`, every cell of the `ht`-by-`wd` box anchored at (oy, ox) is wall,
/// and every other cell keeps its value from `a`.
pub open spec fn box_stamped(
    a: Seq<BlockType>,
    b: Seq<BlockType>,
    w: int,
    h: int,
    oy: int,
    ox: int,
    ht: int,
    wd: int,
) -> bool {
    &&& forall|y: int, x: int|
        oy <= y < oy + ht && ox <= x < ox + wd ==> #[trigger] cell_of(b, w, y, x)
            == BlockType::Wall
    &&& forall|y: int, x: int|
        on_grid(w, h, y, x) && !(oy <= y < oy + ht && ox <= x < ox + wd) ==> #[trigger] cell_of(
            b,
            w,
            y,
            x,
        ) == cell_of(a, w, y, x)
}

/// The cells of `st`'s footprint anchored at (oy, ox): the vertical spine
/// and the horizontal crossbar at spine row `offset`.
pub open spec fn star_covers(st: Star, oy: int, ox: int, y: int, x: int) -> bool {
    ||| (x == ox && oy <= y < oy + st.height)
    ||| (y == oy + st.offset && ox - (st.left - 1) <= x <= ox + st.right - 1)
}

/// In `b`, every cell of `st`'s footprint anchored at (oy, ox) is wall, and
/// every other cell keeps its value from `a`.
pub open spec fn star_stamped(
    a: Seq<BlockType>,
    b: Seq<BlockType>,
    w: int,
    h: int,
    oy: int,
    ox: int,
    st: Star,
) -> bool {
    &&& forall|y: int, x: int|
        #[trigger] star_covers(st, oy, ox, y, x) ==> cell_of(b, w, y, x) == BlockType::Wall
    &&& forall|y: int, x: int|
        on_grid(w, h, y, x) && !star_covers(st, oy, ox, y, x) ==> #[trigger] cell_of(b, w, y, x)
            == cell_of(a, w, y, x)
}

/// The first blocked step lies between the probe start and the walk length.
proof fn lemma_first_blocked_bounds_g(
    g: Seq<BlockType>,
    w: int,
    h: int,
    y: int,
    x: int,
    dir: Dir,
    for_star: bool,
    i: int,
)
    requires
        0 <= i <= ray_len_g(w, h, y, x, dir),
    ensures
        i <= first_blocked_from_g(g, w, h, y, x, dir, for_star, i) <= ray_len_g(w, h, y, x, dir),
    decreases ray_len_g(w, h, y, x, dir) - i,
{
    if i < ray_len_g(w, h, y, x, dir) && usable_g(
        g,
        w,
        h,
        y + i * dir.off_y(),
        x + i * dir.off_x(),
        dir,
        for_star,
    ) && cell_of(g, w, y + i * dir.off_y(), x + i * dir.off_x()) != BlockType::Wall {
        lemma_first_blocked_bounds_g(g, w, h, y, x, dir, for_star, i + 1);
    }
}

/// A wall at step j stops the walk at or before j.
proof fn lemma_first_blocked_hits(
    g: Seq<BlockType>,
    w: int,
    h: int,
    y: int,
    x: int,
    dir: Dir,
    for_star: bool,
    i: int,
    j: int,
)
    requires
        0 <= i <= j < ray_len_g(w, h, y, x, dir),
        cell_of(g, w, y + j * dir.off_y(), x + j * dir.off_x()) == BlockType::Wall,
    ensures
        first_blocked_from_g(g, w, h, y, x, dir, for_star, i) <= j,
    decreases j - i,
{
    if i < j && usable_g(g, w, h, y + i * dir.off_y(), x + i * dir.off_x(), dir, for_star)
        && cell_of(g, w, y + i * dir.off_y(), x + i * dir.off_x()) != BlockType::Wall {
        lemma_first_blocked_hits(g, w, h, y, x, dir, for_star, i + 1, j);
    }
}

/// The star test only makes cells blocked sooner, never later.
proof fn lemma_first_blocked_mono(
    g: Seq<BlockType>,
    w: int,
    h: int,
    y: int,
    x: int,
    dir: Dir,
    i: int,
)
    requires
        0 <= i,
    ensures
        first_blocked_from_g(g, w, h, y, x, dir, true, i) <= first_blocked_from_g(
            g,
            w,
            h,
            y,
            x,
            dir,
            false,
            i,
        ),
    decreases ray_len_g(w, h, y, x, dir) - i,
{
    let n = ray_len_g(w, h, y, x, dir);
    if i < n {
        let yy = y + i * dir.off_y();
        let xx = x + i * dir.off_x();
        if usable_g(g, w, h, yy, xx, dir, true) && cell_of(g, w, yy, xx) != BlockType::Wall {
            lemma_first_blocked_mono(g, w, h, y, x, dir, i + 1);
            lemma_first_blocked_bounds_g(g, w, h, y, x, dir, false, i);
        } else {
            lemma_first_blocked_bounds_g(g, w, h, y, x, dir, false, i);
        }
    }
}

/// With a walled border, the star test never allows a longer run than the
/// rectangle test.
pub proof fn lemma_max_run_star_le(g: Seq<BlockType>, w: int, h: int, y: int, x: int, dir: Dir)
    requires
        on_grid(w, h, y, x),
        dir != Dir::Still,
        border_all_wall(g, w, h),
    ensures
        max_run_g(g, w, h, y, x, dir, true) <= max_run_g(g, w, h, y, x, dir, false),
{
    let n = ray_len_g(w, h, y, x, dir);
    let last = n - 1;
    assert(cell_of(g, w, y + last * dir.off_y(), x + last * dir.off_x()) == BlockType::Wall) by {
        if y == 0 || x == 0 {
            assert(last * dir.off_y() == 0 && last * dir.off_x() == 0);
            assert(on_border(w, h, y, x));
        } else {
            match dir {
                Dir::Right => {
                    assert(last * dir.off_y() == 0 && last * dir.off_x() == last);
                    assert(on_border(w, h, y, x + last));
                },
                Dir::Left => {
                    assert(last * dir.off_y() == 0 && last * dir.off_x() == -last) by {
                        assert(last * -1 == -last) by (nonlinear_arith);
                    }
                    assert(on_border(w, h, y, x - last));
                },
                Dir::Down => {
                    assert(last * dir.off_y() == last && last * dir.off_x() == 0);
                    assert(on_border(w, h, y + last, x));
                },
                Dir::Up => {
                    assert(last * dir.off_y() == -last && last * dir.off_x() == 0) by {
                        assert(last * -1 == -last) by (nonlinear_arith);
                    }
                    assert(on_border(w, h, y - last, x));
                },
                Dir::Still => {},
            }
        }
    }
    lemma_first_blocked_hits(g, w, h, y, x, dir, true, 0, last);
    lemma_first_blocked_hits(g, w, h, y, x, dir, false, 0, last);
    lemma_first_blocked_bounds_g(g, w, h, y, x, dir, true, 0);
    lemma_first_blocked_bounds_g(g, w, h, y, x, dir, false, 0);
    lemma_first_blocked_mono(g, w, h, y, x, dir, 0);
}

/// No wall among the four cells of the 2-by-2 block whose top-left corner
/// is (r, c).
pub open spec fn open_square_at(g: Seq<BlockType>, w: int, r: int, c: int) -> bool {
    &&& cell_of(g, w, r, c) != BlockType::Wall
    &&& cell_of(g, w, r, c + 1) != BlockType::Wall
    &&& cell_of(g, w, r + 1, c) != BlockType::Wall
    &&& cell_of(g, w, r + 1, c + 1) != BlockType::Wall
}

/// Cell (y, x) belongs to some fully-open 2-by-2 block that the legality
/// pass examines, its top-left corner at least two cells from every edge.
pub open spec fn in_open_square(g: Seq<BlockType>, w: int, h: int, y: int, x: int) -> bool {
    exists|r: int, c: int|
        2 <= r <= h - 3 && 2 <= c <= w - 3 && (r == y || r + 1 == y) && (c == x || c + 1 == x)
            && #[trigger] open_square_at(g, w, r, c)
}

/// Pointwise wall-monotonicity carries over to the wall count.
proof fn lemma_monotone_count(a: Seq<BlockType>, b: Seq<BlockType>, w: int, h: int)
    requires
        a.len() == w * h,
        b.len() == w * h,
        w >= 1,
        h >= 1,
        walls_monotone(a, b, w, h),
    ensures
        wall_count_of(b) >= wall_count_of(a),
{
    assert forall|i: int| 0 <= i < a.len() implies b[i] == a[i] || b[i] == BlockType::Wall by {
        lemma_fundamental_div_mod(i, w);
        assert(0 <= i / w < h && (i / w) * w + (i % w) == i) by (nonlinear_arith)
            requires
                i == w * (i / w) + (i % w),
                0 <= i % w < w,
                0 <= i < w * h,
                w >= 1,
        ;
        assert(on_grid(w, h, i / w, i % w));
        assert(cell_of(b, w, i / w, i % w) == cell_of(a, w, i / w, i % w) || cell_of(
            b,
            w,
            i / w,
            i % w,
        ) == BlockType::Wall);
    }
    lemma_walls_only_added_count(a, b);
}

/// Walls staying walls keeps a walled border and confined gates.
proof fn lemma_monotone_preserves(a: Seq<BlockType>, b: Seq<BlockType>, w: int, h: int)
    requires
        walls_monotone(a, b, w, h),
        border_all_wall(a, w, h),
        gate_confined(a, w, h),
    ensures
        border_all_wall(b, w, h),
        gate_confined(b, w, h),
{
    assert forall|y: int, x: int|
        on_grid(w, h, y, x) && on_border(w, h, y, x) implies #[trigger] cell_of(b, w, y, x)
        == BlockType::Wall by {
        assert(cell_of(a, w, y, x) == BlockType::Wall);
    }
    assert forall|y: int, x: int|
        on_grid(w, h, y, x) && #[trigger] cell_of(b, w, y, x) == BlockType::Gate implies y == h / 2
        - 1 && x == w / 2 by {
        assert(cell_of(b, w, y, x) == cell_of(a, w, y, x) || cell_of(b, w, y, x)
            == BlockType::Wall);
    }
}

/// Number of wall cells in the buffer.
pub open spec fn wall_count_of(g: Seq<BlockType>) -> int
    decreases g.len(),
{
    if g.len() == 0 {
        0
    } else {
        wall_count_of(g.drop_last()) + if g.last() == BlockType::Wall {
            1int
        } else {
            0int
        }
    }
}

/// Law: a pass that only ever turns cells into walls never lowers the wall
/// count.
pub proof fn lemma_walls_only_added_count(a: Seq<BlockType>, b: Seq<BlockType>)
    requires
        a.len() == b.len(),
        forall|i: int| 0 <= i < a.len() ==> b[i] == a[i] || b[i] == BlockType::Wall,
    ensures
        wall_count_of(b) >= wall_count_of(a),
    decreases a.len(),
{
    if a.len() > 0 {
        assert(forall|i: int|
            0 <= i < a.drop_last().len() ==> a.drop_last()[i] == a[i] && b.drop_last()[i] == b[i]);
        lemma_walls_only_added_count(a.drop_last(), b.drop_last());
    }
}

/// A solid block of wall cells, `width` columns wide and `height` rows tall.
pub struct Rectangle {
    pub width: u32,
    pub height: u32,
}

impl Rectangle {
    /// Every offset (y, x) with 0 <= y < height and 0 <= x < width, in
    /// row-major order: exactly width * height offsets, pairwise distinct,
    /// covering the whole box.
    pub fn offsets(&self) -> (r: Vec<(i32, i32)>)
        requires
            self.width < 0x8000_0000,
            self.height < 0x8000_0000,
            self.width * self.height <= usize::MAX,
        ensures
            r@.len() == self.width * self.height,
            forall|y: int, x: int|
                0 <= y < self.height && 0 <= x < self.width ==> #[trigger] r@[y * self.width + x]
                    == ((y as i32, x as i32)),
            forall|k: int|
                0 <= k < r@.len() ==> 0 <= (#[trigger] r@[k]).0 < self.height && 0 <= r@[k].1
                    < self.width,
            forall|k1: int, k2: int| 0 <= k1 < k2 < r@.len() ==> r@[k1] != r@[k2],
    {
        let w = self.width;
        let h = self.height;
        let ghost wi = w as int;
        let mut positions: Vec<(i32, i32)> = Vec::new();
        let mut y: u32 = 0;
        while y < h
            invariant
                y <= h,
                w == self.width,
                h == self.height,
                w < 0x8000_0000,
                h < 0x8000_0000,
                w * h <= usize::MAX,
                positions@.len() == y * w,
                forall|k: int|
                    0 <= k < positions@.len() ==> #[trigger] positions@[k] == (((k / (
                    w as int)) as i32, (k % (w as int)) as i32)),
            decreases h - y,
        {
            proof {
                assert((y + 1) * w == y * w + w) by (nonlinear_arith);
                assert(y * w + w <= w * h) by (nonlinear_arith)
                    requires
                        y < h,
                        w >= 0,
                        (y + 1) * w == y * w + w,
                ;
            }
            let mut x: u32 = 0;
            while x < w
                invariant
                    x <= w,
                    y < h,
                    w == self.width,
                    h == self.height,
                    w < 0x8000_0000,
                    h < 0x8000_0000,
                    y * w + w <= usize::MAX,
                    positions@.len() == y * w + x,
                    forall|k: int|
                        0 <= k < positions@.len() ==> #[trigger] positions@[k] == (((k / (
                        w as int)) as i32, (k % (w as int)) as i32)),
                decreases w - x,
            {
                proof {
                    lemma_fundamental_div_mod_converse(
                        y * (w as int) + x,
                        w as int,
                        y as int,
                        x as int,
                    );
                }
                positions.push((y as i32, x as i32));
                x = x + 1;
            }
            y = y + 1;
        }
        proof {
            assert((h as int) * (w as int) == (w as int) * (h as int)) by (nonlinear_arith);
            assert forall|yy: int, xx: int|
                0 <= yy < h && 0 <= xx < w implies #[trigger] positions@[yy * (w as int) + xx] == ((
            yy as i32,
            xx as i32,
            )) by {
                assert(0 <= yy * wi + xx < wi * (h as int)) by (nonlinear_arith)
                    requires
                        0 <= yy < h,
                        0 <= xx < w,
                        wi == w,
                ;
                assert(wi * (h as int) == (h as int) * wi) by (nonlinear_arith);
                lemma_fundamental_div_mod_converse(yy * wi + xx, wi, yy, xx);
            }
            assert forall|k: int|
                0 <= k < positions@.len() implies 0 <= (#[trigger] positions@[k]).0 < h
                && 0 <= positions@[k].1 < w by {
                lemma_fundamental_div_mod(k, wi);
                assert(0 <= k / wi < h) by (nonlinear_arith)
                    requires
                        k == wi * (k / wi) + (k % wi),
                        0 <= k % wi < wi,
                        0 <= k < (h as int) * wi,
                        wi > 0,
                ;
            }
            assert forall|k1: int, k2: int|
                0 <= k1 < k2 < positions@.len() implies positions@[k1] != positions@[k2] by {
                if positions@[k1] == positions@[k2] {
                    lemma_fundamental_div_mod(k1, wi);
                    lemma_fundamental_div_mod(k2, wi);
                    assert(0 <= k1 / wi < h && 0 <= k2 / wi < h) by (nonlinear_arith)
                        requires
                            k1 == wi * (k1 / wi) + (k1 % wi),
                            k2 == wi * (k2 / wi) + (k2 % wi),
                            0 <= k1 % wi < wi,
                            0 <= k2 % wi < wi,
                            0 <= k1 < (h as int) * wi,
                            0 <= k2 < (h as int) * wi,
                            wi > 0,
                    ;
                    assert(k1 / wi == k2 / wi && k1 % wi == k2 % wi);
                    assert(false);
                }
            }
        }
        positions
    }
}

/// A vertical spine of `height` cells with a horizontal crossbar at spine row
/// `offset`, reaching `left` cells one way and `right` cells the other; the
/// origin column is shared by spine and crossbar.
pub struct Star {
    pub height: u32,
    pub offset: u32,
    pub left: u32,
    pub right: u32,
}

impl Star {
    /// Degenerate spine or crossbar arms make no star.
    pub open spec fn valid(self) -> bool {
        self.height >= 1 && self.left >= 1 && self.right >= 1
    }

    /// The spine offsets (i, 0) for i < height, followed by the crossbar
    /// offsets (offset, x) for -(left-1) <= x <= right-1: height + left +
    /// right - 1 offsets in all (spine and crossbar share the origin column).
    pub open spec fn spec_offset(self, k: int) -> (int, int) {
        if k < self.height {
            (k, 0)
        } else {
            (self.offset as int, k - self.height - (self.left - 1))
        }
    }

    fn offsets_checked(&self) -> (r: Vec<(i32, i32)>)
        requires
            self.valid(),
            self.height < 0x8000_0000,
            self.left < 0x8000_0000,
            self.right < 0x8000_0000,
            self.offset < 0x8000_0000,
            self.left + self.right < 0x8000_0000,
            self.height + self.left + self.right <= usize::MAX,
        ensures
            r@.len() == self.height + self.left + self.right - 1,
            forall|k: int|
                0 <= k < r@.len() ==> #[trigger] r@[k] == ((self.spec_offset(k).0 as i32,
                self.spec_offset(k).1 as i32)),
    {
        let mut positions: Vec<(i32, i32)> = Vec::new();
        let mut i: u32 = 0;
        while i < self.height
            invariant
                i <= self.height,
                positions@.len() == i,
                self.height < 0x8000_0000,
                forall|k: int|
                    0 <= k < i ==> #[trigger] positions@[k] == ((self.spec_offset(k).0 as i32,
                    self.spec_offset(k).1 as i32)),
            decreases self.height - i,
        {
            positions.push((i as i32, 0));
            i = i + 1;
        }
        let arm_span = self.left + self.right - 1;
        let mut j: u32 = 0;
        while j < arm_span
            invariant
                self.valid(),
                j <= arm_span,
                arm_span == self.left + self.right - 1,
                self.height < 0x8000_0000,
                self.left < 0x8000_0000,
                self.right < 0x8000_0000,
                self.offset < 0x8000_0000,
                self.left + self.right < 0x8000_0000,
                positions@.len() == self.height + j,
                forall|k: int|
                    0 <= k < positions@.len() ==> #[trigger] positions@[k] == ((self.spec_offset(
                        k,
                    ).0 as i32, self.spec_offset(k).1 as i32)),
            decreases arm_span - j,
        {
            let x: i32 = (j as i64 - (self.left as i64 - 1)) as i32;
            positions.push((self.offset as i32, x));
            j = j + 1;
        }
        positions
    }

    /// The star's offsets, or an error for degenerate parameters: fails
    /// exactly when height, left or right is zero.
    pub fn offsets(&self) -> (r: Result<Vec<(i32, i32)>, GenError>)
        requires
            self.height < 0x8000_0000,
            self.left < 0x8000_0000,
            self.right < 0x8000_0000,
            self.offset < 0x8000_0000,
            self.left + self.right < 0x8000_0000,
            self.height + self.left + self.right <= usize::MAX,
        ensures
            r is Ok <==> self.valid(),
            r matches Ok(v) ==> {
                &&& v@.len() == self.height + self.left + self.right - 1
                &&& forall|k: int|
                    0 <= k < v@.len() ==> #[trigger] v@[k] == ((self.spec_offset(k).0 as i32,
                    self.spec_offset(k).1 as i32))
            },
    {
        if self.height < 1 || self.right < 1 || self.left < 1 {
            Result::Err(GenError::InvalidGeometry)
        } else {
            Result::Ok(self.offsets_checked())
        }
    }
}

/// Row-major indices of on-grid cells stay below the cell count.
pub(crate) proof fn lemma_idx_bounds(w: int, h: int, y: int, x: int)
    requires
        0 <= y < h,
        0 <= x < w,
    ensures
        0 <= y * w + x < w * h,
        y * w <= y * w + x,
{
    assert(0 <= y * w + x < w * h) by (nonlinear_arith)
        requires
            0 <= y < h,
            0 <= x < w,
    ;
}

/// Row-major indexing is injective over on-grid cells.
pub(crate) proof fn lemma_idx_injective(w: int, h: int, y1: int, x1: int, y2: int, x2: int)
    requires
        0 <= y1 < h,
        0 <= x1 < w,
        0 <= y2 < h,
        0 <= x2 < w,
        y1 * w + x1 == y2 * w + x2,
    ensures
        y1 == y2,
        x1 == x2,
{
    lemma_fundamental_div_mod_converse(y1 * w + x1, w, y1, x1);
    lemma_fundamental_div_mod_converse(y2 * w + x2, w, y2, x2);
}

/// The eleven wall offsets of the spawn enclosure, relative to the grid
/// center.
pub open spec fn spawn_wall_off(dy: int, dx: int) -> bool {
    ||| (dy == -1 && (dx == -2 || dx == -1 || dx == 1 || dx == 2))
    ||| (dy == 0 && (dx == -2 || dx == 2))
    ||| (dy == 1 && -2 <= dx <= 2)
}

/// What the spawn pass leaves at center offset (dy, dx).
pub open spec fn spawn_cell_at(dy: int, dx: int) -> BlockType {
    if dy == -1 && dx == 0 {
        BlockType::Gate
    } else if spawn_wall_off(dy, dx) {
        BlockType::Wall
    } else {
        BlockType::Empty
    }
}

/// The cell `init` leaves at (y, x): the spawn pattern near the center, wall
/// on the outer ring, dots everywhere else.
pub open spec fn init_cell(w: int, h: int, y: int, x: int) -> BlockType {
    if h / 2 - 2 <= y <= h / 2 + 2 && w / 2 - 3 <= x <= w / 2 + 3 {
        spawn_cell_at(y - h / 2, x - w / 2)
    } else if on_border(w, h, y, x) {
        BlockType::Wall
    } else {
        BlockType::PacDot
    }
}

fn spawn_block(dy: i32, dx: i32) -> (r: BlockType)
    ensures
        r == spawn_cell_at(dy as int, dx as int),
{
    if dy == -1 && dx == 0 {
        BlockType::Gate
    } else if (dy == -1 && (dx == -2 || dx == -1 || dx == 1 || dx == 2)) || (dy == 0 && (dx == -2
        || dx == 2)) || (dy == 1 && -2 <= dx && dx <= 2) {
        BlockType::Wall
    } else {
        BlockType::Empty
    }
}

/// The field under construction: grid dimensions, the cell buffer, and the
/// random source driving placement decisions.
pub struct Field {
    width: u32,
    height: u32,
    field: Vec<BlockType>,
    rand: Rand,
}

impl Field {
    pub closed spec fn spec_width(self) -> int {
        self.width as int
    }

    pub closed spec fn spec_height(self) -> int {
        self.height as int
    }

    pub closed spec fn grid(self) -> Seq<BlockType> {
        self.field@
    }

    /// Dimensions the generator accepts: odd, at least 9 wide and 7 tall,
    /// and small enough that the cell count fits the index type.
    pub open spec fn dims_ok(w: int, h: int) -> bool {
        w % 2 == 1 && h % 2 == 1 && w >= 9 && h >= 7 && w * h <= u32::MAX
    }

    /// The buffer has been laid out at its full size.
    pub open spec fn ready(self) -> bool {
        Self::dims_ok(self.spec_width(), self.spec_height()) && self.grid().len()
            == self.spec_width() * self.spec_height()
    }

    #[verifier::inline]
    pub open spec fn in_bounds(self, y: int, x: int) -> bool {
        on_grid(self.spec_width(), self.spec_height(), y, x)
    }

    /// The cell at row y, column x.
    #[verifier::inline]
    pub open spec fn cell(self, y: int, x: int) -> BlockType {
        cell_of(self.grid(), self.spec_width(), y, x)
    }

    pub open spec fn center_row(self) -> int {
        self.spec_height() / 2
    }

    pub open spec fn center_col(self) -> int {
        self.spec_width() / 2
    }

    /// The 5-by-7 block around the center that the spawn pass rewrites.
    pub open spec fn in_spawn_region(self, y: int, x: int) -> bool {
        self.center_row() - 2 <= y <= self.center_row() + 2 && self.center_col() - 3 <= x
            <= self.center_col() + 3
    }

    /// The same grid, other than dimensions or random state.
    pub open spec fn same_dims(self, other: Field) -> bool {
        self.spec_width() == other.spec_width() && self.spec_height() == other.spec_height()
    }

    /// Rejects construction for dimensions the generator cannot use: an even
    /// width or height, or a grid smaller than 9 by 7. The buffer stays empty
    /// until `init` lays it out.
    pub fn new(width: u32, height: u32, rng: Rand) -> (r: Result<Field, GenError>)
        requires
            width * height <= u32::MAX,
        ensures
            r is Ok <==> (width % 2 == 1 && height % 2 == 1 && width >= 9 && height >= 7),
            r matches Ok(f) ==> f.spec_width() == width && f.spec_height() == height
                && f.grid().len() == 0,
    {
        if width % 2 == 0 || height % 2 == 0 || width < 9 || height < 7 {
            Result::Err(GenError::InvalidGeometry)
        } else {
            Result::Ok(Field { width, height, field: Vec::new(), rand: rng })
        }
    }

    /// The finished buffer, surrendered to the caller.
    fn into_blocks(self) -> (r: Vec<BlockType>)
        ensures
            r@ == self.grid(),
    {
        self.field
    }

    fn to_idx(&self, cord: Cord) -> (r: usize)
        requires
            self.ready(),
            self.in_bounds(cord.0 as int, cord.1 as int),
        ensures
            r == cord.0 * self.spec_width() + cord.1,
            r < self.grid().len(),
    {
        proof {
            lemma_idx_bounds(
                self.spec_width(),
                self.spec_height(),
                cord.0 as int,
                cord.1 as int,
            );
        }
        (cord.0 * self.width + cord.1) as usize
    }

    /// Read one cell.
    pub fn block_at(&self, cord: Cord) -> (r: BlockType)
        requires
            self.ready(),
            self.in_bounds(cord.0 as int, cord.1 as int),
        ensures
            r == self.cell(cord.0 as int, cord.1 as int),
    {
        let idx = self.to_idx(cord);
        self.field[idx]
    }

    /// Write one cell; every other cell keeps its value.
    fn set_cell(&mut self, y: u32, x: u32, b: BlockType)
        requires
            old(self).ready(),
            old(self).in_bounds(y as int, x as int),
        ensures
            final(self).ready(),
            final(self).same_dims(*old(self)),
            final(self).rand == old(self).rand,
            final(self).grid().len() == old(self).grid().len(),
            final(self).cell(y as int, x as int) == b,
            final(self).grid() == old(self).grid().update(y * old(self).spec_width() + x, b),
            forall|yy: int, xx: int|
                old(self).in_bounds(yy, xx) && !(yy == y && xx == x) ==> final(self).cell(yy, xx)
                    == old(self).cell(yy, xx),
    {
        let idx = self.to_idx(Cord(y, x));
        self.field.set(idx, b);
        proof {
            let w = self.spec_width();
            let h = self.spec_height();
            assert forall|yy: int, xx: int|
                old(self).in_bounds(yy, xx) && !(yy == y && xx == x) implies self.cell(yy, xx)
                == old(self).cell(yy, xx) by {
                lemma_idx_bounds(w, h, yy, xx);
                if yy * w + xx == y * w + x {
                    lemma_idx_injective(w, h, yy, xx, y as int, x as int);
                }
            }
        }
    }

    /// The spawn region stays away from the outer ring.
    proof fn lemma_spawn_region_interior(self)
        requires
            Self::dims_ok(self.spec_width(), self.spec_height()),
        ensures
            1 <= self.center_row() - 2,
            self.center_row() + 2 <= self.spec_height() - 2,
            1 <= self.center_col() - 3,
            self.center_col() + 3 <= self.spec_width() - 2,
    {
    }

    /// Carve the ghost spawn enclosure: rewrite the 5-by-7 block around the
    /// grid center with the enclosure walls, the one-way gate a row above
    /// the center, and empty floor elsewhere in the block. Cells outside the
    /// block keep their value.
    pub fn insert_spawn(&mut self)
        requires
            old(self).ready(),
        ensures
            final(self).ready(),
            final(self).same_dims(*old(self)),
            final(self).grid().len() == old(self).grid().len(),
            forall|y: int, x: int|
                final(self).in_spawn_region(y, x) ==> #[trigger] final(self).cell(y, x)
                    == spawn_cell_at(y - final(self).center_row(), x - final(self).center_col()),
            forall|y: int, x: int|
                old(self).in_bounds(y, x) && !old(self).in_spawn_region(y, x)
                    ==> #[trigger] final(self).cell(y, x) == old(self).cell(y, x),
    {
        proof {
            old(self).lemma_spawn_region_interior();
        }
        let my = self.height / 2;
        let mx = self.width / 2;
        let ghost myi = my as int;
        let ghost mxi = mx as int;
        let mut y = my - 2;
        while y <= my + 2
            invariant
                self.ready(),
                self.same_dims(*old(self)),
                self.grid().len() == old(self).grid().len(),
                myi == self.center_row(),
                mxi == self.center_col(),
                my == myi,
                mx == mxi,
                3 <= myi,
                myi + 2 <= self.spec_height() - 2,
                4 <= mxi,
                mxi + 3 <= self.spec_width() - 2,
                myi - 2 <= y <= myi + 3,
                forall|yy: int, xx: int|
                    self.in_spawn_region(yy, xx) && yy < y ==> #[trigger] self.cell(yy, xx)
                        == spawn_cell_at(yy - myi, xx - mxi),
                forall|yy: int, xx: int|
                    old(self).in_bounds(yy, xx) && !old(self).in_spawn_region(yy, xx)
                        ==> #[trigger] self.cell(yy, xx) == old(self).cell(yy, xx),
            decreases myi + 3 - y,
        {
            let mut x = mx - 3;
            while x <= mx + 3
                invariant
                    self.ready(),
                    self.same_dims(*old(self)),
                    self.grid().len() == old(self).grid().len(),
                    myi == self.center_row(),
                    mxi == self.center_col(),
                    my == myi,
                    mx == mxi,
                    3 <= myi,
                    myi + 2 <= self.spec_height() - 2,
                    4 <= mxi,
                    mxi + 3 <= self.spec_width() - 2,
                    myi - 2 <= y <= myi + 2,
                    mxi - 3 <= x <= mxi + 4,
                    forall|yy: int, xx: int|
                        self.in_spawn_region(yy, xx) && (yy < y || (yy == y && xx < x))
                            ==> #[trigger] self.cell(yy, xx) == spawn_cell_at(yy - myi, xx - mxi),
                    forall|yy: int, xx: int|
                        old(self).in_bounds(yy, xx) && !old(self).in_spawn_region(yy, xx)
                            ==> #[trigger] self.cell(yy, xx) == old(self).cell(yy, xx),
                decreases mxi + 4 - x,
            {
                let dy = (y as i64 - my as i64) as i32;
                let dx = (x as i64 - mx as i64) as i32;
                let b = spawn_block(dy, dx);
                self.set_cell(y, x, b);
                x = x + 1;
            }
            y = y + 1;
        }
    }

    /// Lay the buffer out afresh: dots everywhere, wall on the outer ring,
    /// and the spawn enclosure carved at the center.
    pub fn init(&mut self)
        requires
            Self::dims_ok(old(self).spec_width(), old(self).spec_height()),
        ensures
            final(self).ready(),
            final(self).same_dims(*old(self)),
            forall|y: int, x: int|
                final(self).in_bounds(y, x) ==> #[trigger] final(self).cell(y, x) == init_cell(
                    final(self).spec_width(),
                    final(self).spec_height(),
                    y,
                    x,
                ),
    {
        let w = self.width;
        let h = self.height;
        let ghost wi = w as int;
        let ghost hi = h as int;
        let mut cells: Vec<BlockType> = Vec::new();
        let mut y: u32 = 0;
        while y < h
            invariant
                y <= h,
                w == self.width,
                h == self.height,
                Self::dims_ok(wi, hi),
                wi == w,
                hi == h,
                cells@.len() == y * w,
                forall|k: int|
                    0 <= k < cells@.len() ==> #[trigger] cells@[k] == (if on_border(
                        wi,
                        hi,
                        k / wi,
                        k % wi,
                    ) {
                        BlockType::Wall
                    } else {
                        BlockType::PacDot
                    }),
            decreases h - y,
        {
            proof {
                assert((y + 1) * w == y * w + w) by (nonlinear_arith);
                assert(y * w + w <= w * h) by (nonlinear_arith)
                    requires
                        y < h,
                        w >= 0,
                        (y + 1) * w == y * w + w,
                ;
            }
            let mut x: u32 = 0;
            while x < w
                invariant
                    x <= w,
                    y < h,
                    w == self.width,
                    h == self.height,
                    Self::dims_ok(wi, hi),
                    wi == w,
                    hi == h,
                    y * w + w <= u32::MAX,
                    cells@.len() == y * w + x,
                    forall|k: int|
                        0 <= k < cells@.len() ==> #[trigger] cells@[k] == (if on_border(
                            wi,
                            hi,
                            k / wi,
                            k % wi,
                        ) {
                            BlockType::Wall
                        } else {
                            BlockType::PacDot
                        }),
                decreases w - x,
            {
                proof {
                    lemma_fundamental_div_mod_converse(
                        y * wi + x,
                        wi,
                        y as int,
                        x as int,
                    );
                }
                let border = y == 0 || y == h - 1 || x == 0 || x == w - 1;
                cells.push(if border {
                    BlockType::Wall
                } else {
                    BlockType::PacDot
                });
                x = x + 1;
            }
            y = y + 1;
        }
        self.field = cells;
        proof {
            assert(self.grid().len() == wi * hi) by (nonlinear_arith)
                requires
                    self.grid().len() == (h as int) * wi,
                    hi == h,
            ;
            assert forall|yy: int, xx: int|
                self.in_bounds(yy, xx) implies #[trigger] self.cell(yy, xx) == (if on_border(
                wi,
                hi,
                yy,
                xx,
            ) {
                BlockType::Wall
            } else {
                BlockType::PacDot
            }) by {
                lemma_idx_bounds(wi, hi, yy, xx);
                lemma_fundamental_div_mod_converse(yy * wi + xx, wi, yy, xx);
            }
        }
        self.insert_spawn();
        proof {
            self.lemma_spawn_region_interior();
            assert forall|yy: int, xx: int|
                self.in_bounds(yy, xx) implies #[trigger] self.cell(yy, xx) == init_cell(
                wi,
                hi,
                yy,
                xx,
            ) by {
                if !self.in_spawn_region(yy, xx) {
                    assert(!on_border(wi, hi, yy, xx) || self.cell(yy, xx) == BlockType::Wall);
                }
            }
        }
    }

    /// Valid dimensions leave both sides far below the `u32` range.
    pub(crate) proof fn lemma_dims_small(w: int, h: int)
        requires
            Self::dims_ok(w, h),
        ensures
            w < 0x4000_0000,
            h < 0x4000_0000,
    {
        assert(w < 0x4000_0000 && h < 0x4000_0000) by (nonlinear_arith)
            requires
                w >= 9,
                h >= 7,
                w * h <= u32::MAX,
        ;
    }

    /// Number of cells the directional walk from (y, x) visits: it stops at
    /// the grid edge, and immediately after any cell in row or column 0.
    #[verifier::inline]
    pub open spec fn ray_len(self, y: int, x: int, dir: Dir) -> int {
        ray_len_g(self.spec_width(), self.spec_height(), y, x, dir)
    }

    /// Every step of the walk stays on the grid.
    proof fn lemma_ray_step_in_bounds(self, y: int, x: int, dir: Dir, i: int)
        requires
            self.in_bounds(y, x),
            0 <= i < self.ray_len(y, x, dir),
        ensures
            self.in_bounds(y + i * dir.off_y(), x + i * dir.off_x()),
    {
        match dir {
            Dir::Right => {
                assert(i * dir.off_y() == 0 && i * dir.off_x() == i);
            },
            Dir::Left => {
                assert(i * dir.off_y() == 0 && i * dir.off_x() == -i) by {
                    assert(i * -1 == -i) by (nonlinear_arith);
                }
            },
            Dir::Down => {
                assert(i * dir.off_y() == i && i * dir.off_x() == 0);
            },
            Dir::Up => {
                assert(i * dir.off_y() == -i && i * dir.off_x() == 0) by {
                    assert(i * -1 == -i) by (nonlinear_arith);
                }
            },
            Dir::Still => {
                assert(i * dir.off_y() == 0 && i * dir.off_x() == 0);
            },
        }
    }

    /// The step index of the first wall at or after step i along the walk,
    /// or the walk length when no wall follows.
    #[verifier::inline]
    pub open spec fn first_wall_from(self, y: int, x: int, dir: Dir, i: int) -> int {
        first_wall_from_g(self.grid(), self.spec_width(), self.spec_height(), y, x, dir, i)
    }


    /// What `get_distance_to_wall` returns: the number of steps before the
    /// first wall strictly past the start, or the full visit count when no
    /// wall follows on the walk.
    #[verifier::inline]
    pub open spec fn dist_spec(self, y: int, x: int, dir: Dir) -> int {
        dist_g(self.grid(), self.spec_width(), self.spec_height(), y, x, dir)
    }

    /// The `get_max_dir` eligibility test at one cell: both perpendicular
    /// wall distances nonzero, and for star placement also different from 2.
    #[verifier::inline]
    pub open spec fn usable(self, y: int, x: int, dir: Dir, for_star: bool) -> bool {
        usable_g(self.grid(), self.spec_width(), self.spec_height(), y, x, dir, for_star)
    }

    /// The step index of the first unusable-or-wall cell at or after step i,
    /// or the walk length when every visited cell is usable open floor.
    #[verifier::inline]
    pub open spec fn first_blocked_from(
        self,
        y: int,
        x: int,
        dir: Dir,
        for_star: bool,
        i: int,
    ) -> int {
        first_blocked_from_g(
            self.grid(),
            self.spec_width(),
            self.spec_height(),
            y,
            x,
            dir,
            for_star,
            i,
        )
    }


    /// What `get_max_dir` returns: the length of the run of usable open
    /// cells from (y, x); a walk with no blocked cell at all reports 0.
    #[verifier::inline]
    pub open spec fn max_run(self, y: int, x: int, dir: Dir, for_star: bool) -> int {
        max_run_g(self.grid(), self.spec_width(), self.spec_height(), y, x, dir, for_star)
    }

    /// A nonzero run ends at least two cells before the end of the walk.
    pub proof fn lemma_max_run_range(self, y: int, x: int, dir: Dir, for_star: bool)
        requires
            self.in_bounds(y, x),
        ensures
            0 <= self.max_run(y, x, dir, for_star),
            self.max_run(y, x, dir, for_star) != 0 ==> self.max_run(y, x, dir, for_star)
                <= self.ray_len(y, x, dir) - 2,
    {
        lemma_first_blocked_bounds_g(
            self.grid(),
            self.spec_width(),
            self.spec_height(),
            y,
            x,
            dir,
            for_star,
            0,
        );
    }

    /// The cells the directional walk from `cord` visits, in step order.
    pub fn get_blocks(&self, cord: Cord, dir: &Dir) -> (r: Vec<Cord>)
        requires
            self.ready(),
            self.in_bounds(cord.0 as int, cord.1 as int),
            *dir != Dir::Still,
        ensures
            r@.len() == self.ray_len(cord.0 as int, cord.1 as int, *dir),
            forall|i: int|
                0 <= i < r@.len() ==> (#[trigger] r@[i]).0 == cord.0 + i * dir.off_y() && r@[i].1
                    == cord.1 + i * dir.off_x(),
    {
        let ghost y0 = cord.0 as int;
        let ghost x0 = cord.1 as int;
        let off = dir.to_tup();
        let n: u32 = if cord.0 == 0 || cord.1 == 0 {
            1
        } else {
            match dir {
                Dir::Right => self.width - cord.1,
                Dir::Left => cord.1 + 1,
                Dir::Down => self.height - cord.0,
                Dir::Up => cord.0 + 1,
                Dir::Still => 1,
            }
        };
        let mut cords: Vec<Cord> = Vec::new();
        let mut cur = cord;
        let mut i: u32 = 0;
        while i < n
            invariant
                self.ready(),
                self.in_bounds(y0, x0),
                *dir != Dir::Still,
                n == self.ray_len(y0, x0, *dir),
                i <= n,
                off.0 == dir.off_y(),
                off.1 == dir.off_x(),
                cords@.len() == i,
                forall|j: int|
                    0 <= j < i ==> (#[trigger] cords@[j]).0 == y0 + j * dir.off_y() && cords@[j].1
                        == x0 + j * dir.off_x(),
                i < n ==> cur.0 == y0 + i * dir.off_y() && cur.1 == x0 + i * dir.off_x(),
            decreases n - i,
        {
            cords.push(cur);
            i = i + 1;
            if i < n {
                proof {
                    self.lemma_ray_step_in_bounds(y0, x0, *dir, i as int);
                    assert(i * dir.off_y() == (i - 1) * dir.off_y() + dir.off_y())
                        by (nonlinear_arith);
                    assert(i * dir.off_x() == (i - 1) * dir.off_x() + dir.off_x())
                        by (nonlinear_arith);
                }
                cur = cur.translate(off);
            }
        }
        cords
    }

    /// Steps from `cord` along `dir` until a wall: 0 when the very next
    /// cell is already wall.
    pub fn get_distance_to_wall(&self, cord: Cord, dir: &Dir) -> (r: u32)
        requires
            self.ready(),
            self.in_bounds(cord.0 as int, cord.1 as int),
            *dir != Dir::Still,
        ensures
            r == self.dist_spec(cord.0 as int, cord.1 as int, *dir),
    {
        let ghost y0 = cord.0 as int;
        let ghost x0 = cord.1 as int;
        proof {
            Self::lemma_dims_small(self.spec_width(), self.spec_height());
        }
        let blocks = self.get_blocks(cord, dir);
        let n = blocks.len();
        let mut i: usize = 1;
        while i < n
            invariant
                self.ready(),
                self.in_bounds(y0, x0),
                *dir != Dir::Still,
                n == blocks@.len(),
                n == self.ray_len(y0, x0, *dir),
                n < 0x4000_0000,
                y0 == cord.0 as int,
                x0 == cord.1 as int,
                1 <= i <= n,
                forall|j: int|
                    0 <= j < n ==> (#[trigger] blocks@[j]).0 == y0 + j * dir.off_y()
                        && blocks@[j].1 == x0 + j * dir.off_x(),
                self.first_wall_from(y0, x0, *dir, 1) == self.first_wall_from(
                    y0,
                    x0,
                    *dir,
                    i as int,
                ),
            decreases n - i,
        {
            proof {
                self.lemma_ray_step_in_bounds(y0, x0, *dir, i as int);
            }
            if self.block_at(blocks[i]) == BlockType::Wall {
                proof {
                    assert(self.cell(y0 + (i as int) * dir.off_y(), x0 + (i as int) * dir.off_x())
                        == BlockType::Wall);
                    assert(self.first_wall_from(y0, x0, *dir, i as int) == i);
                }
                return (i - 1) as u32;
            }
            i = i + 1;
        }
        n as u32
    }

    /// The `get_max_dir` eligibility test, on one cell.
    fn cell_usable(&self, cord: Cord, dir: &Dir, for_star: bool) -> (r: bool)
        requires
            self.ready(),
            self.in_bounds(cord.0 as int, cord.1 as int),
            *dir != Dir::Still,
        ensures
            r == self.usable(cord.0 as int, cord.1 as int, *dir, for_star),
    {
        let perpendicular = dir.get_perpendicular_dirs();
        let d0 = self.get_distance_to_wall(cord, &perpendicular[0]);
        let d1 = self.get_distance_to_wall(cord, &perpendicular[1]);
        (d0 != 0 && d1 != 0) && (!for_star || (d0 != 2 && d1 != 2))
    }

    /// Longest run of cells from `cord` along `dir` that can host a wall
    /// cluster; `cord` itself is included in the count.
    pub fn get_max_dir(&self, cord: Cord, dir: &Dir, for_star: bool) -> (r: u32)
        requires
            self.ready(),
            self.in_bounds(cord.0 as int, cord.1 as int),
            *dir != Dir::Still,
        ensures
            r == self.max_run(cord.0 as int, cord.1 as int, *dir, for_star),
    {
        let ghost y0 = cord.0 as int;
        let ghost x0 = cord.1 as int;
        proof {
            Self::lemma_dims_small(self.spec_width(), self.spec_height());
        }
        let blocks = self.get_blocks(cord, dir);
        let n = blocks.len();
        let mut i: usize = 0;
        while i < n
            invariant
                self.ready(),
                self.in_bounds(y0, x0),
                *dir != Dir::Still,
                n == blocks@.len(),
                n == self.ray_len(y0, x0, *dir),
                n < 0x4000_0000,
                y0 == cord.0 as int,
                x0 == cord.1 as int,
                0 <= i <= n,
                forall|j: int|
                    0 <= j < n ==> (#[trigger] blocks@[j]).0 == y0 + j * dir.off_y()
                        && blocks@[j].1 == x0 + j * dir.off_x(),
                self.first_blocked_from(y0, x0, *dir, for_star, 0) == self.first_blocked_from(
                    y0,
                    x0,
                    *dir,
                    for_star,
                    i as int,
                ),
            decreases n - i,
        {
            proof {
                self.lemma_ray_step_in_bounds(y0, x0, *dir, i as int);
            }
            let b = blocks[i];
            if !self.cell_usable(b, dir, for_star) || self.block_at(b) == BlockType::Wall {
                proof {
                    assert(!self.usable(
                        y0 + (i as int) * dir.off_y(),
                        x0 + (i as int) * dir.off_x(),
                        *dir,
                        for_star,
                    ) || self.cell(y0 + (i as int) * dir.off_y(), x0 + (i as int) * dir.off_x())
                        == BlockType::Wall);
                    assert(self.first_blocked_from(y0, x0, *dir, for_star, i as int) == i);
                }
                if i == 0 {
                    return 0;
                }
                return (i - 1) as u32;
            }
            i = i + 1;
        }
        0
    }

    /// A random run length from `cord` along `direction`: 0 when no usable
    /// run exists; otherwise a base length drawn from the random source --
    /// the clamped usable run itself when that is at most the preferred
    /// minimum, else uniform between the preferred minimum and the clamp --
    /// stretched by one exactly when the cell one step past the run sits at
    /// wall distance 2.
    pub fn get_rand_size(&mut self, cord: Cord, direction: &Dir, for_star: bool) -> (r: u32)
        requires
            old(self).ready(),
            old(self).in_bounds(cord.0 as int, cord.1 as int),
            *direction != Dir::Still,
        ensures
            final(self).ready(),
            final(self).same_dims(*old(self)),
            final(self).grid() == old(self).grid(),
            (r == 0) <==> (old(self).max_run(cord.0 as int, cord.1 as int, *direction, for_star)
                == 0),
            r != 0 ==> r <= old(self).max_run(cord.0 as int, cord.1 as int, *direction, for_star)
                + 1,
            r <= MAX_WALL_LENGTH + 1,
            r != 0 ==> exists|base: int|
                {
                    &&& (if capped(
                        old(self).max_run(cord.0 as int, cord.1 as int, *direction, for_star),
                    ) <= PREFERRED_LEN {
                        base == capped(
                            old(self).max_run(cord.0 as int, cord.1 as int, *direction, for_star),
                        )
                    } else {
                        PREFERRED_LEN <= base <= capped(
                            old(self).max_run(cord.0 as int, cord.1 as int, *direction, for_star),
                        )
                    })
                    &&& r == #[trigger] stretched_run(
                        old(self).grid(),
                        old(self).spec_width(),
                        old(self).spec_height(),
                        cord.0 as int,
                        cord.1 as int,
                        *direction,
                        base,
                    )
                },
    {
        let ghost y0 = cord.0 as int;
        let ghost x0 = cord.1 as int;
        let m = self.get_max_dir(cord, direction, for_star);
        let max = if m < MAX_WALL_LENGTH {
            m
        } else {
            MAX_WALL_LENGTH
        };
        if max == 0 {
            return 0;
        }
        proof {
            self.lemma_max_run_range(y0, x0, *direction, for_star);
        }
        let mut rand: u32;
        if max > PREFERRED_LEN {
            rand = self.rand.next_in_range_u32(PREFERRED_LEN, max);
        } else {
            rand = max;
        }
        let off = direction.to_tup();
        proof {
            let ri: int = rand as i32 - 1;
            assert(ri == rand - 1);
            assert(-1 <= off.0 <= 1 && -1 <= off.1 <= 1);
            assert(off.0 * ri == ri * off.0 && -8 <= off.0 * ri <= 8) by (nonlinear_arith)
                requires
                    -1 <= off.0 <= 1,
                    0 <= ri <= 7,
            ;
            assert(off.1 * ri == ri * off.1 && -8 <= off.1 * ri <= 8) by (nonlinear_arith)
                requires
                    -1 <= off.1 <= 1,
                    0 <= ri <= 7,
            ;
            assert(off.0 * ri == (rand - 1) * direction.off_y());
            assert(off.1 * ri == (rand - 1) * direction.off_x());
            self.lemma_ray_step_in_bounds(y0, x0, *direction, rand - 1);
        }
        let step = (off.0 * (rand as i32 - 1), off.1 * (rand as i32 - 1));
        let probe = cord.translate(step);
        let ghost base = rand as int;
        if self.get_distance_to_wall(probe, direction) == 2 {
            rand = rand + 1;
        }
        proof {
            assert(rand == stretched_run(
                old(self).grid(),
                old(self).spec_width(),
                old(self).spec_height(),
                y0,
                x0,
                *direction,
                base,
            ));
        }
        rand
    }

    /// Stamp every cell of `shape`, anchored at `org`, as wall; every other
    /// cell keeps its value.
    fn insert_shape(&mut self, org: Cord, shape: &Vec<(i32, i32)>)
        requires
            old(self).ready(),
            forall|k: int|
                0 <= k < shape@.len() ==> old(self).in_bounds(
                    org.0 + (#[trigger] shape@[k]).0,
                    org.1 + shape@[k].1,
                ),
        ensures
            final(self).ready(),
            final(self).same_dims(*old(self)),
            final(self).grid().len() == old(self).grid().len(),
            final(self).rand == old(self).rand,
            forall|y: int, x: int|
                old(self).in_bounds(y, x) && #[trigger] shape_covers(
                    shape@,
                    org.0 as int,
                    org.1 as int,
                    y,
                    x,
                ) ==> final(self).cell(y, x) == BlockType::Wall,
            forall|y: int, x: int|
                old(self).in_bounds(y, x) && !#[trigger] shape_covers(
                    shape@,
                    org.0 as int,
                    org.1 as int,
                    y,
                    x,
                ) ==> final(self).cell(y, x) == old(self).cell(y, x),
    {
        let ghost oy = org.0 as int;
        let ghost ox = org.1 as int;
        let mut k: usize = 0;
        while k < shape.len()
            invariant
                self.ready(),
                self.same_dims(*old(self)),
                self.grid().len() == old(self).grid().len(),
                self.rand == old(self).rand,
                oy == org.0 as int,
                ox == org.1 as int,
                k <= shape@.len(),
                forall|kk: int|
                    0 <= kk < shape@.len() ==> old(self).in_bounds(
                        oy + (#[trigger] shape@[kk]).0,
                        ox + shape@[kk].1,
                    ),
                forall|y: int, x: int|
                    old(self).in_bounds(y, x) && #[trigger] covers_upto(
                        shape@,
                        oy,
                        ox,
                        y,
                        x,
                        k as int,
                    ) ==> self.cell(y, x) == BlockType::Wall,
                forall|y: int, x: int|
                    old(self).in_bounds(y, x) && !#[trigger] shape_covers(shape@, oy, ox, y, x)
                        ==> self.cell(y, x) == old(self).cell(y, x),
            decreases shape@.len() - k,
        {
            let off = shape[k];
            let target = org.translate(off);
            let ghost mid = *self;
            self.set_cell(target.0, target.1, BlockType::Wall);
            proof {
                assert forall|y: int, x: int|
                    old(self).in_bounds(y, x) && #[trigger] covers_upto(
                        shape@,
                        oy,
                        ox,
                        y,
                        x,
                        k + 1,
                    ) implies self.cell(y, x) == BlockType::Wall by {
                    let kk = choose|kk: int|
                        0 <= kk < k + 1 && y == oy + (#[trigger] shape@[kk]).0 && x == ox
                            + shape@[kk].1;
                    if y == target.0 as int && x == target.1 as int {
                    } else {
                        assert(kk < k);
                        assert(covers_upto(shape@, oy, ox, y, x, k as int));
                    }
                }
                assert forall|y: int, x: int|
                    old(self).in_bounds(y, x) && !#[trigger] shape_covers(shape@, oy, ox, y, x)
                        implies self.cell(y, x) == old(self).cell(y, x) by {
                    assert(y == oy + shape@[k as int].0 && x == ox + shape@[k as int].1
                        ==> covers_upto(shape@, oy, ox, y, x, shape@.len() as int));
                    assert(!(y == target.0 as int && x == target.1 as int));
                    assert(self.cell(y, x) == mid.cell(y, x));
                }
            }
            k = k + 1;
        }
    }

    /// Number of wall cells among the eight neighbours of `cord`.
    pub fn neighbours(&self, cord: Cord) -> (r: u32)
        requires
            self.ready(),
            1 <= cord.0,
            cord.0 + 1 < self.spec_height(),
            1 <= cord.1,
            cord.1 + 1 < self.spec_width(),
        ensures
            r == wall_neighbours_g(self.grid(), self.spec_width(), cord.0 as int, cord.1 as int),
            r <= 8,
    {
        let mut count: u32 = 0;
        if self.block_at(cord.translate((-1, -1))) == BlockType::Wall {
            count = count + 1;
        }
        if self.block_at(cord.translate((-1, 0))) == BlockType::Wall {
            count = count + 1;
        }
        if self.block_at(cord.translate((-1, 1))) == BlockType::Wall {
            count = count + 1;
        }
        if self.block_at(cord.translate((0, -1))) == BlockType::Wall {
            count = count + 1;
        }
        if self.block_at(cord.translate((0, 1))) == BlockType::Wall {
            count = count + 1;
        }
        if self.block_at(cord.translate((1, -1))) == BlockType::Wall {
            count = count + 1;
        }
        if self.block_at(cord.translate((1, 0))) == BlockType::Wall {
            count = count + 1;
        }
        if self.block_at(cord.translate((1, 1))) == BlockType::Wall {
            count = count + 1;
        }
        count
    }

    /// Place a randomly sized rectangle of wall anchored at `cord`: the
    /// height is drawn first and shrunk while no width fits, then the width
    /// is drawn at the narrowest row and the block is stamped. Exactly that
    /// box becomes wall, everything else keeps its value; the returned
    /// width is the box's width and advances the caller's scan cursor.
    pub fn insert_random_rect(&mut self, cord: Cord) -> (r: u32)
        requires
            old(self).ready(),
            old(self).in_bounds(cord.0 as int, cord.1 as int),
            cord.0 >= 1,
            cord.1 >= 1,
        ensures
            final(self).ready(),
            final(self).same_dims(*old(self)),
            final(self).grid().len() == old(self).grid().len(),
            walls_monotone(
                old(self).grid(),
                final(self).grid(),
                final(self).spec_width(),
                final(self).spec_height(),
            ),
            r <= MAX_WALL_LENGTH + 1,
            exists|ht: int|
                0 <= ht <= MAX_WALL_LENGTH + 1 && #[trigger] box_stamped(
                    old(self).grid(),
                    final(self).grid(),
                    final(self).spec_width(),
                    final(self).spec_height(),
                    cord.0 as int,
                    cord.1 as int,
                    ht,
                    r as int,
                ),
            max_run_g(
                old(self).grid(),
                old(self).spec_width(),
                old(self).spec_height(),
                cord.0 as int,
                cord.1 as int,
                Dir::Right,
                false,
            ) >= 1 ==> r >= 1,
    {
        let ghost y0 = cord.0 as int;
        let ghost x0 = cord.1 as int;
        let ghost g0 = old(self).grid();
        proof {
            self.lemma_max_run_range(y0, x0, Dir::Down, false);
        }
        let mut height = self.get_rand_size(cord, &Dir::Down, false);
        loop
            invariant
                self.ready(),
                self.same_dims(*old(self)),
                self.grid() == g0,
                g0 == old(self).grid(),
                y0 == cord.0 as int,
                x0 == cord.1 as int,
                1 <= y0,
                1 <= x0,
                self.in_bounds(y0, x0),
                height <= MAX_WALL_LENGTH + 1,
                height != 0 ==> y0 + height <= self.spec_height() - 1,
            decreases height,
        {
            let mut max_width: u32 = u32::MAX;
            let mut off_y: u32 = 0;
            let mut yy: u32 = 0;
            while yy < height
                invariant
                    self.ready(),
                    self.grid() == g0,
                    y0 == cord.0 as int,
                    x0 == cord.1 as int,
                    1 <= y0,
                    1 <= x0,
                    self.in_bounds(y0, x0),
                    yy <= height,
                    height <= MAX_WALL_LENGTH + 1,
                    height != 0 ==> y0 + height <= self.spec_height() - 1,
                    off_y == 0 || off_y < height,
                    yy == 0 ==> max_width == u32::MAX && off_y == 0,
                    yy > 0 ==> max_width == max_run_g(
                        g0,
                        self.spec_width(),
                        self.spec_height(),
                        y0 + off_y,
                        x0,
                        Dir::Right,
                        false,
                    ),
                decreases height - yy,
            {
                let row = cord.translate((yy as i32, 0));
                let curr = self.get_max_dir(row, &Dir::Right, false);
                proof {
                    Self::lemma_dims_small(self.spec_width(), self.spec_height());
                    self.lemma_max_run_range(y0 + yy, x0, Dir::Right, false);
                }
                if curr < max_width {
                    max_width = curr;
                    off_y = yy;
                }
                yy = yy + 1;
            }
            if max_width == 0 {
                height = height - 1;
                continue;
            }
            let row = cord.translate((off_y as i32, 0));
            proof {
                self.lemma_max_run_range(y0 + off_y, x0, Dir::Right, false);
            }
            let width = self.get_rand_size(row, &Dir::Right, false);
            let rect = Rectangle { width, height };
            proof {
                assert(rect.width * rect.height <= 64) by (nonlinear_arith)
                    requires
                        0 <= rect.width <= 8,
                        0 <= rect.height <= 8,
                ;
            }
            let shape = rect.offsets();
            proof {
                assert forall|k: int|
                    0 <= k < shape@.len() implies self.in_bounds(
                    cord.0 + (#[trigger] shape@[k]).0,
                    cord.1 + shape@[k].1,
                ) by {
                    assert(0 <= shape@[k].0 < height && 0 <= shape@[k].1 < width);
                }
            }
            let ghost pre = *self;
            self.insert_shape(cord, &shape);
            proof {
                let w = self.spec_width();
                let h = self.spec_height();
                assert forall|y: int, x: int|
                    on_grid(w, h, y, x) implies #[trigger] cell_of(self.grid(), w, y, x)
                    == cell_of(g0, w, y, x) || cell_of(self.grid(), w, y, x)
                    == BlockType::Wall by {
                    if shape_covers(shape@, cord.0 as int, cord.1 as int, y, x) {
                        assert(self.cell(y, x) == BlockType::Wall);
                    } else {
                        assert(self.cell(y, x) == pre.cell(y, x));
                    }
                }
                assert forall|y: int, x: int|
                    y0 <= y < y0 + height && x0 <= x < x0 + width implies #[trigger] cell_of(
                    self.grid(),
                    w,
                    y,
                    x,
                ) == BlockType::Wall by {
                    let yr = y - y0;
                    let xr = x - x0;
                    lemma_idx_bounds(width as int, height as int, yr, xr);
                    assert(shape@[yr * width + xr] == ((yr as i32, xr as i32)));
                    assert(pre.in_bounds(y, x));
                    assert(shape_covers(shape@, y0, x0, y, x)) by {
                        assert(y == y0 + shape@[yr * width + xr].0 && x == x0 + shape@[yr * width
                            + xr].1);
                    }
                    assert(self.cell(y, x) == BlockType::Wall);
                }
                assert forall|y: int, x: int|
                    on_grid(w, h, y, x) && !(y0 <= y < y0 + height && x0 <= x < x0 + width)
                    implies #[trigger] cell_of(self.grid(), w, y, x) == cell_of(
                    g0,
                    w,
                    y,
                    x,
                ) by {
                    if shape_covers(shape@, y0, x0, y, x) {
                        let k = choose|k: int|
                            0 <= k < shape@.len() && y == y0 + (#[trigger] shape@[k]).0 && x == x0
                                + shape@[k].1;
                        assert(0 <= shape@[k].0 < height && 0 <= shape@[k].1 < width);
                        assert(false);
                    }
                    assert(self.cell(y, x) == pre.cell(y, x));
                }
                assert(box_stamped(
                    g0,
                    self.grid(),
                    w,
                    h,
                    y0,
                    x0,
                    height as int,
                    width as int,
                ));
                if height > 0 {
                    assert(width >= 1);
                }
            }
            return width;
        }
    }

    /// Place a randomly sized star of wall anchored at `cord`: a vertical
    /// spine of drawn height, with a crossbar at a row picked from a pool
    /// weighted by the room it offers, or a minimal one-cell crossbar at the
    /// spine's top when no row qualifies. Exactly the star's footprint
    /// becomes wall, everything else keeps its value; the scan cursor
    /// always advances by the returned 1.
    pub fn insert_random_star(&mut self, cord: Cord) -> (r: u32)
        requires
            old(self).ready(),
            old(self).in_bounds(cord.0 as int, cord.1 as int),
            cord.0 >= 1,
            cord.1 >= 1,
            max_run_g(
                old(self).grid(),
                old(self).spec_width(),
                old(self).spec_height(),
                cord.0 as int,
                cord.1 as int,
                Dir::Down,
                false,
            ) >= 1,
        ensures
            final(self).ready(),
            final(self).same_dims(*old(self)),
            final(self).grid().len() == old(self).grid().len(),
            walls_monotone(
                old(self).grid(),
                final(self).grid(),
                final(self).spec_width(),
                final(self).spec_height(),
            ),
            r == 1,
            exists|st: Star|
                {
                    &&& st.valid()
                    &&& st.height <= MAX_WALL_LENGTH + 1
                    &&& st.left <= MAX_WALL_LENGTH + 1
                    &&& st.right <= MAX_WALL_LENGTH + 1
                    &&& st.offset < st.height
                    &&& ((st.offset == 0 && st.left == 1 && st.right == 1) || (max_run_g(
                        old(self).grid(),
                        old(self).spec_width(),
                        old(self).spec_height(),
                        cord.0 + st.offset,
                        cord.1 as int,
                        Dir::Right,
                        true,
                    ) >= 1 && max_run_g(
                        old(self).grid(),
                        old(self).spec_width(),
                        old(self).spec_height(),
                        cord.0 + st.offset,
                        cord.1 as int,
                        Dir::Left,
                        true,
                    ) >= 1 && st.right <= max_run_g(
                        old(self).grid(),
                        old(self).spec_width(),
                        old(self).spec_height(),
                        cord.0 + st.offset,
                        cord.1 as int,
                        Dir::Right,
                        true,
                    ) + 1 && st.left <= max_run_g(
                        old(self).grid(),
                        old(self).spec_width(),
                        old(self).spec_height(),
                        cord.0 + st.offset,
                        cord.1 as int,
                        Dir::Left,
                        true,
                    ) + 1))
                    &&& #[trigger] star_stamped(
                        old(self).grid(),
                        final(self).grid(),
                        final(self).spec_width(),
                        final(self).spec_height(),
                        cord.0 as int,
                        cord.1 as int,
                        st,
                    )
                },
    {
        let ghost y0 = cord.0 as int;
        let ghost x0 = cord.1 as int;
        let ghost g0 = old(self).grid();
        let ghost w = old(self).spec_width();
        let ghost h = old(self).spec_height();
        proof {
            self.lemma_max_run_range(y0, x0, Dir::Down, false);
        }
        let height = self.get_rand_size(cord, &Dir::Down, false);

        let mut pool: Vec<u32> = Vec::new();
        let mut diff_y: u32 = 0;
        while diff_y < height
            invariant
                self.ready(),
                self.grid() == g0,
                self.spec_width() == w,
                self.spec_height() == h,
                y0 == cord.0 as int,
                x0 == cord.1 as int,
                1 <= y0,
                1 <= x0,
                self.in_bounds(y0, x0),
                diff_y <= height,
                1 <= height <= MAX_WALL_LENGTH + 1,
                y0 + height <= h - 1,
                forall|k: int|
                    0 <= k < pool@.len() ==> #[trigger] pool@[k] < height && max_run_g(
                        g0,
                        w,
                        h,
                        y0 + pool@[k],
                        x0,
                        Dir::Right,
                        true,
                    ) >= 1 && max_run_g(g0, w, h, y0 + pool@[k], x0, Dir::Left, true) >= 1,
            decreases height - diff_y,
        {
            let row = cord.translate((diff_y as i32, 0));
            let max_right = self.get_max_dir(row, &Dir::Right, true);
            let max_left = self.get_max_dir(row, &Dir::Left, true);
            proof {
                Self::lemma_dims_small(w, h);
                self.lemma_max_run_range(y0 + diff_y, x0, Dir::Right, true);
                self.lemma_max_run_range(y0 + diff_y, x0, Dir::Left, true);
            }
            if (max_right != 1 || max_left != 1) && (max_right != 0 && max_left != 0) {
                let reps = max_left + max_right - 1;
                let mut j: u32 = 0;
                while j < reps
                    invariant
                        j <= reps,
                        diff_y < height,
                        max_run_g(g0, w, h, y0 + diff_y, x0, Dir::Right, true) >= 1,
                        max_run_g(g0, w, h, y0 + diff_y, x0, Dir::Left, true) >= 1,
                        forall|k: int|
                            0 <= k < pool@.len() ==> #[trigger] pool@[k] < height && max_run_g(
                                g0,
                                w,
                                h,
                                y0 + pool@[k],
                                x0,
                                Dir::Right,
                                true,
                            ) >= 1 && max_run_g(g0, w, h, y0 + pool@[k], x0, Dir::Left, true) >= 1,
                    decreases reps - j,
                {
                    pool.push(diff_y);
                    j = j + 1;
                }
            }
            diff_y = diff_y + 1;
        }

        let mut star = Star { height, offset: 0, left: 1, right: 1 };
        if pool.len() != 0 {
            let idx = self.rand.next_below_usize(pool.len());
            let offset = pool[idx];
            let row = cord.translate((offset as i32, 0));
            proof {
                self.lemma_max_run_range(y0 + offset, x0, Dir::Right, true);
                self.lemma_max_run_range(y0 + offset, x0, Dir::Left, true);
            }
            let right = self.get_rand_size(row, &Dir::Right, true);
            let left = self.get_rand_size(row, &Dir::Left, true);
            star = Star { height, offset, right, left };
        }
        proof {
            assert(star.valid());
            assert(star.offset < star.height);
            assert((star.offset == 0 && star.left == 1 && star.right == 1) || (max_run_g(
                g0,
                w,
                h,
                y0 + star.offset,
                x0,
                Dir::Right,
                true,
            ) >= 1 && max_run_g(g0, w, h, y0 + star.offset, x0, Dir::Left, true) >= 1
                && star.right <= max_run_g(g0, w, h, y0 + star.offset, x0, Dir::Right, true) + 1
                && star.left <= max_run_g(g0, w, h, y0 + star.offset, x0, Dir::Left, true) + 1));
        }
        let shape = star.offsets_checked();
        proof {
            assert forall|k: int|
                0 <= k < shape@.len() implies self.in_bounds(
                cord.0 + (#[trigger] shape@[k]).0,
                cord.1 + shape@[k].1,
            ) by {
                assert(shape@[k] == ((star.spec_offset(k).0 as i32, star.spec_offset(k).1 as i32)));
                if k < star.height {
                    assert(star.spec_offset(k) == (k, 0int));
                } else {
                    assert(star.spec_offset(k).0 == star.offset);
                    assert(1 - star.left <= star.spec_offset(k).1 <= star.right - 1);
                }
            }
        }
        let ghost pre = *self;
        self.insert_shape(cord, &shape);
        proof {
            assert forall|y: int, x: int|
                on_grid(w, h, y, x) implies #[trigger] cell_of(self.grid(), w, y, x) == cell_of(
                g0,
                w,
                y,
                x,
            ) || cell_of(self.grid(), w, y, x) == BlockType::Wall by {
                if shape_covers(shape@, cord.0 as int, cord.1 as int, y, x) {
                    assert(self.cell(y, x) == BlockType::Wall);
                } else {
                    assert(self.cell(y, x) == pre.cell(y, x));
                }
            }
            assert forall|y: int, x: int|
                #[trigger] star_covers(star, y0, x0, y, x) implies cell_of(self.grid(), w, y, x)
                == BlockType::Wall by {
                if x == x0 && y0 <= y < y0 + star.height {
                    let k = y - y0;
                    assert(shape@[k] == ((star.spec_offset(k).0 as i32, star.spec_offset(
                        k,
                    ).1 as i32)));
                    assert(star.spec_offset(k) == (k, 0int));
                    assert(shape_covers(shape@, y0, x0, y, x)) by {
                        assert(y == y0 + shape@[k].0 && x == x0 + shape@[k].1);
                    }
                } else {
                    let d = x - x0;
                    let k = star.height + d + (star.left - 1);
                    assert(star.height <= k < shape@.len());
                    assert(shape@[k] == ((star.spec_offset(k).0 as i32, star.spec_offset(
                        k,
                    ).1 as i32)));
                    assert(star.spec_offset(k).0 == star.offset && star.spec_offset(k).1 == d);
                    assert(shape_covers(shape@, y0, x0, y, x)) by {
                        assert(y == y0 + shape@[k].0 && x == x0 + shape@[k].1);
                    }
                }
                assert(self.cell(y, x) == BlockType::Wall);
            }
            assert forall|y: int, x: int|
                on_grid(w, h, y, x) && !star_covers(star, y0, x0, y, x) implies #[trigger] cell_of(
                self.grid(),
                w,
                y,
                x,
            ) == cell_of(g0, w, y, x) by {
                if shape_covers(shape@, y0, x0, y, x) {
                    let k = choose|k: int|
                        0 <= k < shape@.len() && y == y0 + (#[trigger] shape@[k]).0 && x == x0
                            + shape@[k].1;
                    assert(shape@[k] == ((star.spec_offset(k).0 as i32, star.spec_offset(
                        k,
                    ).1 as i32)));
                    if k < star.height {
                        assert(star_covers(star, y0, x0, y, x));
                    } else {
                        assert(star.spec_offset(k).0 == star.offset);
                        assert(1 - star.left <= star.spec_offset(k).1 <= star.right - 1);
                        assert(star_covers(star, y0, x0, y, x));
                    }
                    assert(false);
                }
                assert(self.cell(y, x) == pre.cell(y, x));
            }
            assert(star_stamped(g0, self.grid(), w, h, y0, x0, star));
        }
        1
    }

    /// The legality pass's balance test at `cord`: counts the wall
    /// directions around the cell together with their fresh diagonal
    /// reinforcements, and accepts the cell when its wall-neighbour count
    /// does not exceed that sum.
    fn balance_ok(&self, cord: Cord) -> (r: bool)
        requires
            self.ready(),
            1 <= cord.0,
            cord.0 + 1 < self.spec_height(),
            1 <= cord.1,
            cord.1 + 1 < self.spec_width(),
        ensures
            r == balance_at(self.grid(), self.spec_width(), cord),
    {
        let ghost g = self.grid();
        let ghost w = self.spec_width();
        let dirs: [Dir; 4] = [Dir::Down, Dir::Right, Dir::Left, Dir::Up];
        let mut visited: Vec<Cord> = Vec::new();
        let mut count: u32 = 0;
        let mut i: usize = 0;
        while i < 4
            invariant
                self.ready(),
                g == self.grid(),
                w == self.spec_width(),
                1 <= cord.0,
                cord.0 + 1 < self.spec_height(),
                1 <= cord.1,
                cord.1 + 1 < self.spec_width(),
                dirs@[0] == Dir::Down && dirs@[1] == Dir::Right && dirs@[2] == Dir::Left
                    && dirs@[3] == Dir::Up,
                i <= 4,
                count <= 3 * i,
                balance_count_from(g, w, cord, i as int, visited@, count as int)
                    == balance_count_from(g, w, cord, 0, Seq::empty(), 0),
            decreases 4 - i,
        {
            let d = dirs[i];
            proof {
                assert(d == Dir::Down || d == Dir::Right || d == Dir::Left || d == Dir::Up);
                assert(d == scan_dir(i as int));
            }
            let step = d.to_tup();
            let nb = cord.translate(step);
            if self.block_at(nb) == BlockType::Wall {
                let perp = d.get_perpendicular_dirs();
                let t0 = perp[0].to_tup();
                let t1 = perp[1].to_tup();
                let cord1 = nb.translate(t0);
                let cord2 = nb.translate(t1);
                proof {
                    let ny = cord.0 + d.off_y();
                    let nx = cord.1 + d.off_x();
                    let p = d.spec_perpendicular();
                    assert(cord1 == Cord((ny + p[0].off_y()) as u32, (nx + p[0].off_x()) as u32));
                    assert(cord2 == Cord((ny + p[1].off_y()) as u32, (nx + p[1].off_x()) as u32));
                }
                let mut c: u32 = 1;
                if !cord_list_contains(&visited, cord1) && self.block_at(cord1)
                    == BlockType::Wall {
                    c = c + 1;
                }
                if !cord_list_contains(&visited, cord2) && self.block_at(cord2)
                    == BlockType::Wall {
                    c = c + 1;
                }
                let ghost pre_visited = visited@;
                let ghost pre_count = count as int;
                visited.push(cord1);
                visited.push(cord2);
                count = count + c;
                proof {
                    assert(visited@ == pre_visited.push(cord1).push(cord2));
                    assert(balance_count_from(g, w, cord, i as int, pre_visited, pre_count)
                        == balance_count_from(g, w, cord, i + 1, visited@, count as int));
                }
            }
            i = i + 1;
        }
        let nb_count = self.neighbours(cord);
        nb_count as i32 - count as i32 <= 0
    }

    /// Close fully-open 2-by-2 pockets: scan every interior block two cells
    /// from the edge; where none of its four cells is wall, turn the first
    /// cell that passes the balance test into wall. Walls are only added,
    /// and only inside such pockets, so the wall count never drops.
    pub fn post_processing(&mut self)
        requires
            old(self).ready(),
        ensures
            final(self).ready(),
            final(self).same_dims(*old(self)),
            final(self).grid().len() == old(self).grid().len(),
            walls_monotone(
                old(self).grid(),
                final(self).grid(),
                final(self).spec_width(),
                final(self).spec_height(),
            ),
            forall|y: int, x: int|
                final(self).in_bounds(y, x) && #[trigger] final(self).cell(y, x)
                    != old(self).cell(y, x) ==> final(self).cell(y, x) == BlockType::Wall
                    && in_open_square(
                    old(self).grid(),
                    final(self).spec_width(),
                    final(self).spec_height(),
                    y,
                    x,
                ),
            wall_count_of(final(self).grid()) >= wall_count_of(old(self).grid()),
            final(self).grid() == legality_pass(
                old(self).grid(),
                final(self).spec_width(),
                final(self).spec_height(),
            ),
    {
        let ghost g0 = old(self).grid();
        let ghost w = old(self).spec_width();
        let ghost h = old(self).spec_height();
        let height = self.height;
        let width = self.width;
        let mut y: u32 = 2;
        while y < height - 2
            invariant
                self.ready(),
                self.same_dims(*old(self)),
                self.grid().len() == old(self).grid().len(),
                g0 == old(self).grid(),
                w == self.spec_width(),
                h == self.spec_height(),
                width == self.spec_width(),
                height == self.spec_height(),
                2 <= y,
                forall|yy: int, xx: int|
                    self.in_bounds(yy, xx) && #[trigger] self.cell(yy, xx) != cell_of(
                        g0,
                        w,
                        yy,
                        xx,
                    ) ==> self.cell(yy, xx) == BlockType::Wall && in_open_square(g0, w, h, yy, xx),
                legality_rows_from(self.grid(), w, h, y as int) == legality_pass(g0, w, h),
            decreases height - 2 - y,
        {
            let mut x: u32 = 2;
            while x < width - 2
                invariant
                    self.ready(),
                    self.same_dims(*old(self)),
                    self.grid().len() == old(self).grid().len(),
                    g0 == old(self).grid(),
                    w == self.spec_width(),
                    h == self.spec_height(),
                    width == self.spec_width(),
                    height == self.spec_height(),
                    2 <= y < height - 2,
                    2 <= x,
                    forall|yy: int, xx: int|
                        self.in_bounds(yy, xx) && #[trigger] self.cell(yy, xx) != cell_of(
                            g0,
                            w,
                            yy,
                            xx,
                        ) ==> self.cell(yy, xx) == BlockType::Wall && in_open_square(
                            g0,
                            w,
                            h,
                            yy,
                            xx,
                        ),
                    legality_rows_from(
                        legality_row_from(self.grid(), w, h, y as int, x as int),
                        w,
                        h,
                        y + 1,
                    ) == legality_pass(g0, w, h),
                decreases width - 2 - x,
            {
                let ghost gs = self.grid();
                let cord = Cord(y, x);
                if self.block_at(cord) == BlockType::Wall {
                    proof {
                        assert(legality_cell(gs, w, h, y as int, x as int) == gs);
                        assert(legality_row_from(gs, w, h, y as int, x as int)
                            == legality_row_from(gs, w, h, y as int, x + 1));
                    }
                    x = x + 1;
                    continue ;
                }
                let c_tr = Cord(y, x + 1);
                let c_br = Cord(y + 1, x + 1);
                let c_tl = Cord(y, x);
                let c_bl = Cord(y + 1, x);
                if self.block_at(c_tr) == BlockType::Wall || self.block_at(c_br)
                    == BlockType::Wall || self.block_at(c_tl) == BlockType::Wall
                    || self.block_at(c_bl) == BlockType::Wall {
                    proof {
                        assert(legality_cell(gs, w, h, y as int, x as int) == gs);
                        assert(legality_row_from(gs, w, h, y as int, x as int)
                            == legality_row_from(gs, w, h, y as int, x + 1));
                    }
                    x = x + 1;
                    continue ;
                }
                let cords: [Cord; 4] = [c_tr, c_br, c_tl, c_bl];
                let mut chosen: usize = 4;
                let mut i: usize = 0;
                while i < 4
                    invariant
                        self.ready(),
                        gs == self.grid(),
                        w == self.spec_width(),
                        2 <= y,
                        y + 1 < self.spec_height() - 1,
                        2 <= x,
                        x + 1 < self.spec_width() - 1,
                        cords@[0] == c_tr && cords@[1] == c_br && cords@[2] == c_tl && cords@[3]
                            == c_bl,
                        c_tr.0 == y && c_tr.1 == x + 1 && c_br.0 == y + 1 && c_br.1 == x + 1
                            && c_tl.0 == y && c_tl.1 == x && c_bl.0 == y + 1 && c_bl.1 == x,
                        i <= 4,
                        chosen <= 4,
                        chosen == 4 ==> forall|j: int| 0 <= j < i ==> !balance_at(gs, w, cords@[j]),
                        chosen < 4 ==> (balance_at(gs, w, cords@[chosen as int]) && forall|j: int|
                            0 <= j < chosen ==> !balance_at(gs, w, cords@[j])),
                    decreases 4 - i,
                {
                    let cand = cords[i];
                    if chosen == 4 && self.balance_ok(cand) {
                        chosen = i;
                    }
                    i = i + 1;
                }
                if chosen < 4 {
                    let cand = cords[chosen];
                    proof {
                        assert(cand == c_tr || cand == c_br || cand == c_tl || cand == c_bl);
                        assert(open_square_at(self.grid(), w, y as int, x as int));
                        assert(open_square_at(g0, w, y as int, x as int)) by {
                            assert(self.cell(y as int, x as int) != BlockType::Wall);
                            assert(self.cell(y as int, x + 1) != BlockType::Wall);
                            assert(self.cell(y + 1, x as int) != BlockType::Wall);
                            assert(self.cell(y + 1, x + 1) != BlockType::Wall);
                        }
                        assert(in_open_square(g0, w, h, cand.0 as int, cand.1 as int));
                    }
                    self.set_cell(cand.0, cand.1, BlockType::Wall);
                    proof {
                        assert(c_tr == Cord(y, (x + 1) as u32) && c_br == Cord(
                            (y + 1) as u32,
                            (x + 1) as u32,
                        ) && c_tl == Cord(y, x) && c_bl == Cord((y + 1) as u32, x));
                        if chosen == 0 {
                            assert(self.grid() == gs.update(y * w + (x + 1), BlockType::Wall));
                        } else if chosen == 1 {
                            assert(self.grid() == gs.update(
                                (y + 1) * w + (x + 1),
                                BlockType::Wall,
                            ));
                        } else if chosen == 2 {
                            assert(self.grid() == gs.update(y * w + x, BlockType::Wall));
                        } else {
                            assert(self.grid() == gs.update((y + 1) * w + x, BlockType::Wall));
                        }
                        assert(self.grid() == legality_cell(gs, w, h, y as int, x as int));
                        assert(legality_row_from(gs, w, h, y as int, x as int)
                            == legality_row_from(self.grid(), w, h, y as int, x + 1));
                    }
                } else {
                    proof {
                        assert(c_tr == Cord(y, (x + 1) as u32) && c_br == Cord(
                            (y + 1) as u32,
                            (x + 1) as u32,
                        ) && c_tl == Cord(y, x) && c_bl == Cord((y + 1) as u32, x));
                        assert(!balance_at(gs, w, cords@[0]) && !balance_at(gs, w, cords@[1])
                            && !balance_at(gs, w, cords@[2]) && !balance_at(gs, w, cords@[3]));
                        assert(legality_cell(gs, w, h, y as int, x as int) == gs);
                        assert(legality_row_from(gs, w, h, y as int, x as int)
                            == legality_row_from(gs, w, h, y as int, x + 1));
                    }
                }
                x = x + 1;
            }
            y = y + 1;
        }
        proof {
            lemma_monotone_count(g0, self.grid(), w, h);
            assert(legality_rows_from(self.grid(), w, h, y as int) == self.grid());
        }
    }

    /// Set the four interior corner cells to power pellets; every other
    /// cell keeps its value.
    pub fn insert_pallets(&mut self)
        requires
            old(self).ready(),
        ensures
            final(self).ready(),
            final(self).same_dims(*old(self)),
            final(self).grid().len() == old(self).grid().len(),
            corner_pellets(
                final(self).grid(),
                final(self).spec_width(),
                final(self).spec_height(),
            ),
            forall|y: int, x: int|
                final(self).in_bounds(y, x) && !((y == 1 && x == 1) || (y == 1 && x
                    == final(self).spec_width() - 2) || (y == final(self).spec_height() - 2 && x
                    == 1) || (y == final(self).spec_height() - 2 && x == final(self).spec_width()
                    - 2)) ==> #[trigger] final(self).cell(y, x) == old(self).cell(y, x),
    {
        let w = self.width;
        let h = self.height;
        self.set_cell(1, 1, BlockType::PowerPellet);
        self.set_cell(1, w - 2, BlockType::PowerPellet);
        self.set_cell(h - 2, 1, BlockType::PowerPellet);
        self.set_cell(h - 2, w - 2, BlockType::PowerPellet);
    }

    /// Carve corridors: scan the interior two cells in from every edge; at
    /// each open cell with no wall neighbour, stamp a rectangle (preferred
    /// on the first scanned cell, on a low random byte, or when no star
    /// fits) or a star, advancing the column cursor past the placed shape.
    /// Then re-carve the spawn enclosure, close illegal open pockets, and
    /// place the corner pellets.
    pub fn create_passages(&mut self)
        requires
            old(self).ready(),
            border_all_wall(old(self).grid(), old(self).spec_width(), old(self).spec_height()),
            gate_confined(old(self).grid(), old(self).spec_width(), old(self).spec_height()),
        ensures
            final(self).ready(),
            final(self).same_dims(*old(self)),
            border_all_wall(final(self).grid(), final(self).spec_width(), final(self).spec_height()),
            gate_exactly_center(
                final(self).grid(),
                final(self).spec_width(),
                final(self).spec_height(),
            ),
            corner_pellets(
                final(self).grid(),
                final(self).spec_width(),
                final(self).spec_height(),
            ),
            forall|y: int, x: int|
                final(self).in_spawn_region(y, x) && !is_pellet_corner(
                    final(self).spec_width(),
                    final(self).spec_height(),
                    y,
                    x,
                ) ==> #[trigger] final(self).cell(y, x) == spawn_cell_at(
                    y - final(self).center_row(),
                    x - final(self).center_col(),
                ) || final(self).cell(y, x) == BlockType::Wall,
            forall|y: int, x: int|
                final(self).in_bounds(y, x) && !final(self).in_spawn_region(y, x)
                    && !is_pellet_corner(final(self).spec_width(), final(self).spec_height(), y, x)
                    ==> #[trigger] final(self).cell(y, x) == old(self).cell(y, x)
                    || final(self).cell(y, x) == BlockType::Wall,
    {
        let ghost w = old(self).spec_width();
        let ghost h = old(self).spec_height();
        proof {
            Self::lemma_dims_small(w, h);
        }
        let height = self.height;
        let width = self.width;
        let mut y: u32 = 2;
        while y < height - 2
            invariant
                self.ready(),
                self.same_dims(*old(self)),
                w == self.spec_width(),
                h == self.spec_height(),
                width == w,
                height == h,
                w < 0x4000_0000,
                border_all_wall(self.grid(), w, h),
                gate_confined(self.grid(), w, h),
                walls_monotone(old(self).grid(), self.grid(), w, h),
                2 <= y,
            decreases height - 2 - y,
        {
            let mut x: u32 = 2;
            while x < width - 2
                invariant
                    self.ready(),
                    self.same_dims(*old(self)),
                    w == self.spec_width(),
                    h == self.spec_height(),
                    width == w,
                    height == h,
                    w < 0x4000_0000,
                    border_all_wall(self.grid(), w, h),
                    gate_confined(self.grid(), w, h),
                    walls_monotone(old(self).grid(), self.grid(), w, h),
                    2 <= y < height - 2,
                    2 <= x <= width + 6,
                decreases width + 7 - x,
            {
                let cord = Cord(y, x);
                if self.block_at(cord) == BlockType::Wall || self.neighbours(cord) > 0 {
                    x = x + 1;
                    continue ;
                }
                let max_bottom_s = self.get_max_dir(cord, &Dir::Down, true);
                let max_right_s = self.get_max_dir(cord, &Dir::Right, true);
                let star_valid = max_right_s > 0 && max_bottom_s > 0;
                let max_bottom_r = self.get_max_dir(cord, &Dir::Down, false);
                let max_right_r = self.get_max_dir(cord, &Dir::Right, false);
                let rect_valid = max_bottom_r > 0 && max_right_r > 0;
                let rand_byte = self.rand.next_byte();
                let is_first_element = y == 2 && x == 2;
                let ghost pre = *self;
                if (is_first_element || rand_byte < u8::MAX / 3 || !star_valid) && rect_valid {
                    let adv = self.insert_random_rect(cord);
                    proof {
                        lemma_monotone_preserves(pre.grid(), self.grid(), w, h);
                        lemma_monotone_trans(old(self).grid(), pre.grid(), self.grid(), w, h);
                    }
                    x = x + adv;
                } else if star_valid {
                    proof {
                        lemma_max_run_star_le(self.grid(), w, h, y as int, x as int, Dir::Down);
                    }
                    let adv = self.insert_random_star(cord);
                    proof {
                        lemma_monotone_preserves(pre.grid(), self.grid(), w, h);
                        lemma_monotone_trans(old(self).grid(), pre.grid(), self.grid(), w, h);
                    }
                    x = x + adv;
                }
                x = x + 1;
            }
            y = y + 1;
        }
        let ghost my = h / 2;
        let ghost mx = w / 2;
        let ghost s0 = *self;
        self.insert_spawn();
        proof {
            self.lemma_spawn_region_interior();
            assert(self.in_spawn_region(my - 1, mx) && spawn_cell_at(-1, 0) == BlockType::Gate);
            assert(cell_of(self.grid(), w, my - 1, mx) == BlockType::Gate);
            assert(self.in_spawn_region(my - 1, mx - 1) && spawn_cell_at(-1, -1)
                == BlockType::Wall);
            assert(cell_of(self.grid(), w, my - 1, mx - 1) == BlockType::Wall);
            assert(self.in_spawn_region(my - 1, mx + 1) && spawn_cell_at(-1, 1)
                == BlockType::Wall);
            assert(cell_of(self.grid(), w, my - 1, mx + 1) == BlockType::Wall);
            assert forall|yy: int, xx: int|
                on_grid(w, h, yy, xx) && on_border(w, h, yy, xx) implies #[trigger] cell_of(
                self.grid(),
                w,
                yy,
                xx,
            ) == BlockType::Wall by {
                assert(!self.in_spawn_region(yy, xx));
                assert(cell_of(self.grid(), w, yy, xx) == cell_of(s0.grid(), w, yy, xx));
            }
            assert forall|yy: int, xx: int|
                on_grid(w, h, yy, xx) && #[trigger] cell_of(self.grid(), w, yy, xx)
                == BlockType::Gate implies yy == my - 1 && xx == mx by {
                if self.in_spawn_region(yy, xx) {
                    assert(cell_of(self.grid(), w, yy, xx) == spawn_cell_at(yy - my, xx - mx));
                } else {
                    assert(cell_of(self.grid(), w, yy, xx) == cell_of(s0.grid(), w, yy, xx));
                }
            }
        }
        let ghost s1 = *self;
        self.post_processing();
        proof {
            lemma_monotone_preserves(s1.grid(), self.grid(), w, h);
            if cell_of(self.grid(), w, my - 1, mx) != BlockType::Gate {
                assert(in_open_square(s1.grid(), w, h, my - 1, mx));
                let (r, c) = choose|r: int, c: int|
                    2 <= r <= h - 3 && 2 <= c <= w - 3 && (r == my - 1 || r + 1 == my - 1) && (c
                        == mx || c + 1 == mx) && #[trigger] open_square_at(s1.grid(), w, r, c);
                if c == mx {
                    assert(cell_of(s1.grid(), w, my - 1, mx + 1) != BlockType::Wall);
                } else {
                    assert(cell_of(s1.grid(), w, my - 1, mx - 1) != BlockType::Wall);
                }
                assert(false);
            }
            assert(gate_exactly_center(self.grid(), w, h));
        }
        let ghost s2 = *self;
        self.insert_pallets();
        proof {
            assert(3 <= my && my <= h - 4 && 4 <= mx && mx <= w - 5);
            assert(cell_of(self.grid(), w, my - 1, mx) == cell_of(s2.grid(), w, my - 1, mx));
            assert forall|yy: int, xx: int|
                on_grid(w, h, yy, xx) && #[trigger] cell_of(self.grid(), w, yy, xx)
                == BlockType::Gate implies yy == my - 1 && xx == mx by {
                assert(cell_of(self.grid(), w, yy, xx) == cell_of(s2.grid(), w, yy, xx));
            }
            assert forall|yy: int, xx: int|
                on_grid(w, h, yy, xx) && on_border(w, h, yy, xx) implies #[trigger] cell_of(
                self.grid(),
                w,
                yy,
                xx,
            ) == BlockType::Wall by {
                assert(cell_of(self.grid(), w, yy, xx) == cell_of(s2.grid(), w, yy, xx));
            }
        }
    }
}


/// Whether `v` holds `c`.
fn cord_list_contains(v: &Vec<Cord>, c: Cord) -> (r: bool)
    ensures
        r == v@.contains(c),
{
    let mut i: usize = 0;
    while i < v.len()
        invariant
            i <= v@.len(),
            forall|k: int| 0 <= k < i ==> v@[k] != c,
        decreases v@.len() - i,
    {
        if v[i] == c {
            return true;
        }
        i = i + 1;
    }
    false
}

/// Every cell either keeps its value or turns into wall.

pub open spec fn walls_monotone(a: Seq<BlockType>, b: Seq<BlockType>, w: int, h: int) -> bool {
    forall|y: int, x: int|
        on_grid(w, h, y, x) ==> #[trigger] cell_of(b, w, y, x) == cell_of(a, w, y, x) || cell_of(
            b,
            w,
            y,
            x,
        ) == BlockType::Wall
}

/// Walls staying walls composes.
proof fn lemma_monotone_trans(a: Seq<BlockType>, b: Seq<BlockType>, c: Seq<BlockType>, w: int, h: int)
    requires
        walls_monotone(a, b, w, h),
        walls_monotone(b, c, w, h),
    ensures
        walls_monotone(a, c, w, h),
{
    assert forall|y: int, x: int|
        on_grid(w, h, y, x) implies #[trigger] cell_of(c, w, y, x) == cell_of(a, w, y, x)
        || cell_of(c, w, y, x) == BlockType::Wall by {
        assert(cell_of(b, w, y, x) == cell_of(a, w, y, x) || cell_of(b, w, y, x)
            == BlockType::Wall);
    }
}

/// One of the four interior corner cells that receive a power pellet.
pub open spec fn is_pellet_corner(w: int, h: int, y: int, x: int) -> bool {
    ||| (y == 1 && x == 1)
    ||| (y == 1 && x == w - 2)
    ||| (y == h - 2 && x == 1)
    ||| (y == h - 2 && x == w - 2)
}

/// Number of wall cells among the eight neighbours of (y, x).
pub open spec fn wall_neighbours_g(g: Seq<BlockType>, w: int, y: int, x: int) -> int {
    (if cell_of(g, w, y - 1, x - 1) == BlockType::Wall {
        1int
    } else {
        0int
    }) + (if cell_of(g, w, y - 1, x) == BlockType::Wall {
        1int
    } else {
        0int
    }) + (if cell_of(g, w, y - 1, x + 1) == BlockType::Wall {
        1int
    } else {
        0int
    }) + (if cell_of(g, w, y, x - 1) == BlockType::Wall {
        1int
    } else {
        0int
    }) + (if cell_of(g, w, y, x + 1) == BlockType::Wall {
        1int
    } else {
        0int
    }) + (if cell_of(g, w, y + 1, x - 1) == BlockType::Wall {
        1int
    } else {
        0int
    }) + (if cell_of(g, w, y + 1, x) == BlockType::Wall {
        1int
    } else {
        0int
    }) + (if cell_of(g, w, y + 1, x + 1) == BlockType::Wall {
        1int
    } else {
        0int
    })
}

/// The fixed direction order of the balance scan.
pub open spec fn scan_dir(i: int) -> Dir {
    if i == 0 {
        Dir::Down
    } else if i == 1 {
        Dir::Right
    } else if i == 2 {
        Dir::Left
    } else {
        Dir::Up
    }
}

/// The balance scan's reinforcement count, walking the four directions from
/// step i with the diagonal cells seen so far in `visited`: a wall
/// neighbour adds one, plus one for each of its two not-yet-visited
/// diagonal wall cells.
pub open spec fn balance_count_from(
    g: Seq<BlockType>,
    w: int,
    cand: Cord,
    i: int,
    visited: Seq<Cord>,
    count: int,
) -> int
    decreases 4 - i,
{
    if i < 0 || i >= 4 {
        count
    } else {
        let d = scan_dir(i);
        let ny = cand.0 + d.off_y();
        let nx = cand.1 + d.off_x();
        if cell_of(g, w, ny, nx) == BlockType::Wall {
            let p = d.spec_perpendicular();
            let c1 = Cord((ny + p[0].off_y()) as u32, (nx + p[0].off_x()) as u32);
            let c2 = Cord((ny + p[1].off_y()) as u32, (nx + p[1].off_x()) as u32);
            let add = 1 + (if !visited.contains(c1) && cell_of(g, w, c1.0 as int, c1.1 as int)
                == BlockType::Wall {
                1int
            } else {
                0int
            }) + (if !visited.contains(c2) && cell_of(g, w, c2.0 as int, c2.1 as int)
                == BlockType::Wall {
                1int
            } else {
                0int
            });
            balance_count_from(g, w, cand, i + 1, visited.push(c1).push(c2), count + add)
        } else {
            balance_count_from(g, w, cand, i + 1, visited, count)
        }
    }
}

/// The legality pass's balance test at `cand`: the wall-neighbour count
/// does not exceed the reinforcement count.
pub open spec fn balance_at(g: Seq<BlockType>, w: int, cand: Cord) -> bool {
    wall_neighbours_g(g, w, cand.0 as int, cand.1 as int) - balance_count_from(
        g,
        w,
        cand,
        0,
        Seq::empty(),
        0,
    ) <= 0
}

/// What one visit of the legality scan leaves at block (y, x): a wall or a
/// not-fully-open block stays; otherwise the first of the four block cells
/// (right, below-right, the cell itself, below) that passes the balance
/// test becomes wall.
pub open spec fn legality_cell(g: Seq<BlockType>, w: int, h: int, y: int, x: int) -> Seq<
    BlockType,
> {
    if cell_of(g, w, y, x) == BlockType::Wall {
        g
    } else if cell_of(g, w, y, x + 1) == BlockType::Wall || cell_of(g, w, y + 1, x + 1)
        == BlockType::Wall || cell_of(g, w, y, x) == BlockType::Wall || cell_of(g, w, y + 1, x)
        == BlockType::Wall {
        g
    } else if balance_at(g, w, Cord(y as u32, (x + 1) as u32)) {
        g.update(y * w + (x + 1), BlockType::Wall)
    } else if balance_at(g, w, Cord((y + 1) as u32, (x + 1) as u32)) {
        g.update((y + 1) * w + (x + 1), BlockType::Wall)
    } else if balance_at(g, w, Cord(y as u32, x as u32)) {
        g.update(y * w + x, BlockType::Wall)
    } else if balance_at(g, w, Cord((y + 1) as u32, x as u32)) {
        g.update((y + 1) * w + x, BlockType::Wall)
    } else {
        g
    }
}

/// The legality scan over row y, from column x on.
pub open spec fn legality_row_from(g: Seq<BlockType>, w: int, h: int, y: int, x: int) -> Seq<
    BlockType,
>
    decreases w - 2 - x,
{
    if x < 2 || x >= w - 2 {
        g
    } else {
        legality_row_from(legality_cell(g, w, h, y, x), w, h, y, x + 1)
    }
}

/// The legality scan over the rows from y down, each from column 2.
pub open spec fn legality_rows_from(g: Seq<BlockType>, w: int, h: int, y: int) -> Seq<BlockType>
    decreases h - 2 - y,
{
    if y < 2 || y >= h - 2 {
        g
    } else {
        legality_rows_from(legality_row_from(g, w, h, y, 2), w, h, y + 1)
    }
}

/// The whole legality pass as a function of the grid.
pub open spec fn legality_pass(g: Seq<BlockType>, w: int, h: int) -> Seq<BlockType> {
    legality_rows_from(g, w, h, 2)
}

/// Cells that `shape`, anchored at (oy, ox), writes among its first n
/// offsets.
pub open spec fn covers_upto(
    shape: Seq<(i32, i32)>,
    oy: int,
    ox: int,
    y: int,
    x: int,
    n: int,
) -> bool {
    exists|k: int| 0 <= k < n && y == oy + (#[trigger] shape[k]).0 && x == ox + shape[k].1
}

/// Cells that `shape`, anchored at (oy, ox), writes.
pub open spec fn shape_covers(shape: Seq<(i32, i32)>, oy: int, ox: int, y: int, x: int) -> bool {
    covers_upto(shape, oy, ox, y, x, shape.len() as int)
}


/// Generate a complete level for the given dimensions, drawing every
/// placement decision from `rng`: a fully walled border, randomized interior
/// wall clusters, the spawn enclosure with its unique gate one row above the
/// grid center, and power pellets in the four interior corners. Fails
/// exactly on an even or too-small width or height.
pub fn generate_with(width: u32, height: u32, rng: Rand) -> (r: Result<Vec<BlockType>, GenError>)
    requires
        width * height <= u32::MAX,
    ensures
        r is Ok <==> (width % 2 == 1 && height % 2 == 1 && width >= 9 && height >= 7),
        r matches Ok(g) ==> level_ok(g@, width as int, height as int),
        r matches Ok(g) ==> forall|y: int, x: int|
            on_grid(width as int, height as int, y, x) && !is_pellet_corner(
                width as int,
                height as int,
                y,
                x,
            ) ==> #[trigger] cell_of(g@, width as int, y, x) == init_cell(
                width as int,
                height as int,
                y,
                x,
            ) || cell_of(g@, width as int, y, x) == BlockType::Wall,
{
    let mut pf = match Field::new(width, height, rng) {
        Result::Ok(f) => f,
        Result::Err(e) => { return Result::Err(e) },
    };
    pf.init();
    let ghost w = width as int;
    let ghost h = height as int;
    proof {
        pf.lemma_spawn_region_interior();
        assert forall|y: int, x: int|
            on_grid(w, h, y, x) && on_border(w, h, y, x) implies #[trigger] cell_of(
            pf.grid(),
            w,
            y,
            x,
        ) == BlockType::Wall by {
            assert(cell_of(pf.grid(), w, y, x) == init_cell(w, h, y, x));
            assert(!pf.in_spawn_region(y, x));
        }
        assert forall|y: int, x: int|
            on_grid(w, h, y, x) && #[trigger] cell_of(pf.grid(), w, y, x) == BlockType::Gate
            implies y == h / 2 - 1 && x == w / 2 by {
            assert(cell_of(pf.grid(), w, y, x) == init_cell(w, h, y, x));
        }
    }
    pf.create_passages();
    Result::Ok(pf.into_blocks())
}

/// Generate a complete level with the system random source; see
/// `generate_with` for everything the returned buffer satisfies.
pub fn generate(width: u32, height: u32) -> (r: Result<Vec<BlockType>, GenError>)
    requires
        width * height <= u32::MAX,
    ensures
        r is Ok <==> (width % 2 == 1 && height % 2 == 1 && width >= 9 && height >= 7),
        r matches Ok(g) ==> level_ok(g@, width as int, height as int),
        r matches Ok(g) ==> forall|y: int, x: int|
            on_grid(width as int, height as int, y, x) && !is_pellet_corner(
                width as int,
                height as int,
                y,
                x,
            ) ==> #[trigger] cell_of(g@, width as int, y, x) == init_cell(
                width as int,
                height as int,
                y,
                x,
            ) || cell_of(g@, width as int, y, x) == BlockType::Wall,
{
    generate_with(width, height, Rand::system())
}

} // verus!
