use pacmaze::common::{BlockType, Cord, Dir};
use pacmaze::level_gen::{generate, generate_with, Field, GenError, Rectangle, Star};
use pacmaze::rng::Rand;

fn idx(w: u32, y: u32, x: u32) -> usize {
    (y * w + x) as usize
}

fn check_level_invariants(field: &[BlockType], w: u32, h: u32) {
    // full size
    assert!(field.len() == (w * h) as usize);
    // the outermost ring is entirely wall
    for y in 0..h {
        for x in 0..w {
            if y == 0 || y == h - 1 || x == 0 || x == w - 1 {
                assert!(field[idx(w, y, x)] == BlockType::Wall);
            }
        }
    }
    // exactly one gate, one row above the center
    let (my, mx) = (h / 2, w / 2);
    let mut gates = 0;
    for y in 0..h {
        for x in 0..w {
            if field[idx(w, y, x)] == BlockType::Gate {
                gates += 1;
                assert!(y == my - 1 && x == mx);
            }
        }
    }
    assert!(gates == 1);
    // power pellets in the four interior corners
    assert!(field[idx(w, 1, 1)] == BlockType::PowerPellet);
    assert!(field[idx(w, 1, w - 2)] == BlockType::PowerPellet);
    assert!(field[idx(w, h - 2, 1)] == BlockType::PowerPellet);
    assert!(field[idx(w, h - 2, w - 2)] == BlockType::PowerPellet);
}

#[test]
fn generate_minimum_size_satisfies_invariants() {
    let field = generate(13, 11).unwrap();
    check_level_invariants(&field, 13, 11);
}

#[test]
fn generate_larger_sizes_satisfy_invariants() {
    let field = generate(15, 15).unwrap();
    check_level_invariants(&field, 15, 15);
    let field = generate(21, 13).unwrap();
    check_level_invariants(&field, 21, 13);
    let field = generate(31, 27).unwrap();
    check_level_invariants(&field, 31, 27);
}

#[test]
fn generate_accepts_the_raw_grid_minimum() {
    let field = generate(9, 7).unwrap();
    check_level_invariants(&field, 9, 7);
}

#[test]
fn generate_rejects_even_or_small_dimensions() {
    assert!(matches!(generate(12, 11), Err(GenError::InvalidGeometry)));
    assert!(matches!(generate(13, 10), Err(GenError::InvalidGeometry)));
    assert!(matches!(generate(7, 11), Err(GenError::InvalidGeometry)));
    assert!(matches!(generate(13, 5), Err(GenError::InvalidGeometry)));
}

#[test]
fn field_new_rejects_even_or_small_dimensions() {
    assert!(Field::new(13, 11, Rand::system()).is_ok());
    assert!(Field::new(9, 7, Rand::system()).is_ok());
    assert!(matches!(Field::new(8, 7, Rand::system()), Err(GenError::InvalidGeometry)));
    assert!(matches!(Field::new(9, 6, Rand::system()), Err(GenError::InvalidGeometry)));
    assert!(matches!(Field::new(7, 7, Rand::system()), Err(GenError::InvalidGeometry)));
    assert!(matches!(Field::new(9, 5, Rand::system()), Err(GenError::InvalidGeometry)));
}

#[test]
fn rectangle_offsets_cover_the_box() {
    let rect = Rectangle { width: 3, height: 2 };
    let offs = rect.offsets();
    assert!(offs == vec![(0, 0), (0, 1), (0, 2), (1, 0), (1, 1), (1, 2)]);
    for k1 in 0..offs.len() {
        for k2 in (k1 + 1)..offs.len() {
            assert!(offs[k1] != offs[k2]);
        }
    }
    let empty = Rectangle { width: 0, height: 5 };
    assert!(empty.offsets().len() == 0);
}

#[test]
fn star_offsets_spine_and_crossbar() {
    let star = Star { height: 3, offset: 1, left: 2, right: 2 };
    let offs = star.offsets().unwrap();
    assert!(offs.len() == 3 + 2 + 2 - 1);
    assert!(offs == vec![(0, 0), (1, 0), (2, 0), (1, -1), (1, 0), (1, 1)]);
}

#[test]
fn star_with_zero_arm_fails() {
    let star = Star { height: 1, offset: 0, left: 0, right: 1 };
    assert!(matches!(star.offsets(), Err(GenError::InvalidGeometry)));
    let star = Star { height: 0, offset: 0, left: 1, right: 1 };
    assert!(matches!(star.offsets(), Err(GenError::InvalidGeometry)));
    let star = Star { height: 1, offset: 0, left: 1, right: 0 };
    assert!(matches!(star.offsets(), Err(GenError::InvalidGeometry)));
}

#[test]
fn post_processing_never_reduces_wall_count() {
    let mut field = Field::new(13, 11, Rand::system()).unwrap();
    field.init();
    let count_walls = |f: &Field| {
        let mut n = 0;
        for y in 0..11u32 {
            for x in 0..13u32 {
                if f.block_at(Cord(y, x)) == BlockType::Wall {
                    n += 1;
                }
            }
        }
        n
    };
    let before = count_walls(&field);
    field.post_processing();
    let after = count_walls(&field);
    assert!(after >= before);

    // the same through a full randomized carve
    let mut field = Field::new(21, 15, Rand::system()).unwrap();
    field.init();
    field.create_passages();
    let mid: i32 = {
        let mut n = 0;
        for y in 0..15u32 {
            for x in 0..21u32 {
                if field.block_at(Cord(y, x)) == BlockType::Wall {
                    n += 1;
                }
            }
        }
        n
    };
    field.post_processing();
    let fin: i32 = {
        let mut n = 0;
        for y in 0..15u32 {
            for x in 0..21u32 {
                if field.block_at(Cord(y, x)) == BlockType::Wall {
                    n += 1;
                }
            }
        }
        n
    };
    assert!(fin >= mid);
}

#[test]
fn generate_is_deterministic_for_a_fixed_source() {
    let draws: Vec<u64> = (0..512).map(|i| (i * 2654435761u64) ^ 0x9e3779b9).collect();
    let a = generate_with(17, 13, Rand::fixed(draws.clone())).unwrap();
    let b = generate_with(17, 13, Rand::fixed(draws.clone())).unwrap();
    assert!(a == b);
    check_level_invariants(&a, 17, 13);
    // an exhausted queue keeps replaying zeros, still deterministically
    let c = generate_with(13, 11, Rand::fixed(vec![7])).unwrap();
    let d = generate_with(13, 11, Rand::fixed(vec![7])).unwrap();
    assert!(c == d);
}

#[test]
fn distance_to_wall_next_to_a_wall_is_zero() {
    let mut field = Field::new(13, 11, Rand::system()).unwrap();
    field.init();
    // one step up from (1, 5) is the border wall
    assert!(field.get_distance_to_wall(Cord(1, 5), &Dir::Up) == 0);
    // and one step right from (1, 11) as well
    assert!(field.get_distance_to_wall(Cord(1, 11), &Dir::Right) == 0);
    // from (2, 1) the first wall upward is two cells away: distance 1
    assert!(field.get_distance_to_wall(Cord(2, 1), &Dir::Up) == 1);
}

#[test]
fn fixed_source_replays_its_queue() {
    let mut r = Rand::fixed(vec![5, 6]);
    assert!(r.next_in_range_u32(0, 3) == 1); // 5 % 4
    assert!(r.next_byte() == 6);
    assert!(r.next_byte() == 0); // exhausted queue hands out zeros
    assert!(r.next_bool() == false);
    let mut r2 = Rand::fixed(vec![9]);
    assert!(r2.next_below_usize(4) == 1); // 9 % 4
    let mut r3 = Rand::fixed(vec![3, 7]);
    assert!(r3.next_bool() == true);
    assert!(r3.next_in_range_u32(3, 7) == 3 + (7 % 5));
}
