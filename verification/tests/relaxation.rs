use bloup::flower::Flower;
use bloup::garden::Garden;
use bloup::gene::{FlowerGene, GeneParams};
use bloup::geometry::{distance, Point};
use bloup::relax::separate;

fn gene_of_size(size: u32) -> FlowerGene {
    FlowerGene::new(GeneParams { size, ..FlowerGene::default().params() }).unwrap()
}

fn bloom(x: i32, y: i32, size: u32) -> Flower {
    Flower::new(Point { x, y }, gene_of_size(size), 7, 11)
}

fn garden_of(flowers: &[Flower]) -> Garden {
    let mut garden = Garden::new();
    for f in flowers {
        garden.insert(*f);
    }
    garden
}

#[test]
fn two_overlapping_blooms_end_up_exactly_apart() {
    let mut garden = garden_of(&[bloom(0, 0, 30_000), bloom(10_000, 0, 30_000)]);
    garden.relax(0);
    let a = garden.flowers()[0];
    let b = garden.flowers()[1];
    assert_eq!(a.pos, Point { x: -25_000, y: 0 });
    assert_eq!(b.pos, Point { x: 35_000, y: 0 });
    assert_eq!(distance(a.pos, b.pos), 60_000);
    garden.relax(0);
    assert_eq!(garden.flowers()[0], a);
    assert_eq!(garden.flowers()[1], b);
}

#[test]
fn relax_keeps_a_settled_garden_bit_for_bit() {
    let flowers = [bloom(0, 0, 30_000), bloom(60_000, 0, 30_000), bloom(0, 100_000, 70_000), bloom(-45_000, -45_000, 33_000)];
    let mut garden = garden_of(&flowers);
    garden.relax(0);
    assert_eq!(garden.flowers(), &flowers[..]);
    garden.relax(0);
    assert_eq!(garden.flowers(), &flowers[..]);
}

#[test]
fn relax_changes_positions_only() {
    let flowers = [bloom(0, 0, 30_000), bloom(10_000, 5_000, 40_000), bloom(-3_000, 8_000, 20_000)];
    let mut garden = garden_of(&flowers);
    garden.relax(1_000);
    assert_eq!(garden.len(), 3);
    for (after, before) in garden.flowers().iter().zip(flowers.iter()) {
        assert_eq!(after.gene, before.gene);
        assert_eq!(after.orientation, before.orientation);
        assert_eq!(after.start_time, before.start_time);
        assert_ne!(after.pos, before.pos);
    }
}

#[test]
fn the_margin_counts_as_part_of_the_blooms() {
    let a = bloom(0, 0, 30_000);
    let b = bloom(60_000, 0, 30_000);
    assert_eq!(separate(a, b, 0), (a, b));
    let (a2, b2) = separate(a, b, 50_000);
    assert_eq!(a2.pos, Point { x: -25_000, y: 0 });
    assert_eq!(b2.pos, Point { x: 85_000, y: 0 });
}

#[test]
fn an_odd_overlap_gives_the_larger_half_to_the_second() {
    let a = bloom(0, 0, 3);
    let b = bloom(0, 1, 3);
    // overlap 5: two for the first, three for the second
    let (a2, b2) = separate(a, b, 0);
    assert_eq!(a2.pos, Point { x: 0, y: -2 });
    assert_eq!(b2.pos, Point { x: 0, y: 4 });
}

#[test]
fn a_slanted_pair_is_pushed_clear() {
    let a = bloom(0, 0, 5);
    let b = bloom(3, 4, 5);
    // distance 5, overlap 5: pushes of 2 and 3, each share rounded up
    let (a2, b2) = separate(a, b, 0);
    assert_eq!(a2.pos, Point { x: -2, y: -2 });
    assert_eq!(b2.pos, Point { x: 5, y: 7 });
    assert!(distance(a2.pos, b2.pos) >= 10);
    assert_eq!(separate(a2, b2, 0), (a2, b2));
}

#[test]
fn coincident_blooms_are_nudged_apart_first() {
    let a = bloom(100, 100, 10);
    let b = bloom(100, 100, 10);
    // the first moves one unit to the right; overlap 19: pushes of 9 and 10
    let (a2, b2) = separate(a, b, 0);
    assert_eq!(a2.pos, Point { x: 110, y: 100 });
    assert_eq!(b2.pos, Point { x: 90, y: 100 });
    assert_eq!(distance(a2.pos, b2.pos), 20);
}

#[test]
fn coincident_blooms_without_extent_are_still_nudged() {
    let a = bloom(5, 5, 0);
    let b = bloom(5, 5, 0);
    let (a2, b2) = separate(a, b, 0);
    assert_eq!(a2.pos, Point { x: 6, y: 5 });
    assert_eq!(b2.pos, Point { x: 5, y: 5 });
}

#[test]
fn a_nudge_at_the_right_end_goes_left() {
    let a = bloom(i32::MAX, 0, 0);
    let b = bloom(i32::MAX, 0, 0);
    let (a2, b2) = separate(a, b, 0);
    assert_eq!(a2.pos, Point { x: i32::MAX - 1, y: 0 });
    assert_eq!(b2.pos, Point { x: i32::MAX, y: 0 });
}

#[test]
fn a_push_stops_at_the_end_of_the_range() {
    let a = bloom(i32::MIN + 5, 0, 100);
    let b = bloom(i32::MIN + 15, 0, 100);
    let (a2, b2) = separate(a, b, 0);
    assert_eq!(a2.pos, Point { x: i32::MIN, y: 0 });
    assert_eq!(b2.pos, Point { x: i32::MIN + 110, y: 0 });
    let c = bloom(i32::MIN, i32::MAX, u32::MAX);
    let d = bloom(i32::MIN + 1, i32::MAX - 1, u32::MAX);
    let (c2, d2) = separate(c, d, u32::MAX);
    assert_eq!(c2.pos, Point { x: i32::MIN, y: i32::MAX });
    assert_eq!(d2.pos, Point { x: i32::MAX, y: i32::MIN });
}

#[test]
fn pairs_are_visited_in_planting_order() {
    let mut garden = garden_of(&[bloom(0, 0, 10), bloom(10, 0, 10), bloom(20, 0, 10)]);
    garden.relax(0);
    // (0,1): overlap 10 -> -5 and 15; (0,2): 25 apart, clear;
    // (1,2): 5 apart, overlap 15 -> 15-7 = 8 and 20+8 = 28
    let xs: Vec<i32> = garden.flowers().iter().map(|f| f.pos.x).collect();
    assert_eq!(xs, vec![-5, 8, 28]);
}

#[test]
fn repeated_passes_come_to_rest() {
    let mut garden = garden_of(&[
        bloom(0, 0, 30_000),
        bloom(5_000, 2_000, 30_000),
        bloom(-4_000, 7_000, 30_000),
        bloom(1_000, -6_000, 30_000),
        bloom(9_000, 9_000, 30_000),
    ]);
    let mut passes = 0;
    loop {
        let before: Vec<Flower> = garden.flowers().to_vec();
        garden.relax(0);
        passes += 1;
        if garden.flowers() == &before[..] {
            break;
        }
        assert!(passes < 1_000, "no rest after a thousand passes");
    }
    assert_eq!(passes, 10);
    let places: Vec<(i32, i32)> = garden.flowers().iter().map(|f| (f.pos.x, f.pos.y)).collect();
    assert_eq!(
        places,
        vec![(-51_854, -21_699), (74_472, 9_112), (-30_536, 54_134), (4_176, -44_304), (14_739, 14_760)]
    );
    // A pass promises no garden free of overlaps: here the last bloom is
    // pushed to and fro by two neighbours within one pass, and an overlap of
    // one length unit, a thousandth of a pixel, stays.
    let all = garden.flowers();
    for i in 0..all.len() {
        for j in (i + 1)..all.len() {
            assert!(distance(all[i].pos, all[j].pos) >= 59_999);
        }
    }
    assert_eq!(distance(all[1].pos, all[4].pos), 59_999);
}

#[test]
fn relax_of_a_small_garden_does_nothing() {
    let mut empty = Garden::new();
    empty.relax(10);
    assert!(empty.is_empty());
    let mut single = garden_of(&[bloom(1, 2, 3)]);
    single.relax(10);
    assert_eq!(single.flowers(), &[bloom(1, 2, 3)][..]);
}

#[test]
fn close_centres_are_not_pushed_too_far() {
    // a thousandth of a pixel apart on the diagonal: each bloom moves
    // 30_000 / sqrt(2) on each axis, rounded up
    let a = bloom(0, 0, 30_000);
    let b = bloom(1, 1, 30_000);
    let (a2, b2) = separate(a, b, 0);
    assert_eq!(a2.pos, Point { x: -21_213, y: -21_213 });
    assert_eq!(b2.pos, Point { x: 21_215, y: 21_215 });
    assert_eq!(distance(a2.pos, b2.pos), 60_002);
    assert_eq!(separate(a2, b2, 0), (a2, b2));
}

#[test]
fn a_diagonal_pair_ends_up_at_its_clearance() {
    // ten pixels apart on the diagonal
    let a = bloom(0, 0, 30_000);
    let b = bloom(7_071, 7_071, 30_000);
    let (a2, b2) = separate(a, b, 0);
    assert_eq!(a2.pos, Point { x: -17_678, y: -17_678 });
    assert_eq!(b2.pos, Point { x: 24_750, y: 24_750 });
    assert_eq!(distance(a2.pos, b2.pos), 60_002);
}

#[test]
fn an_uneven_pair_is_pushed_along_its_line() {
    let a = Flower::new(Point { x: 0, y: 0 }, gene_of_size(40_000), 7, 11);
    let b = Flower::new(Point { x: 12_345, y: -6_789 }, gene_of_size(25_000), 7, 11);
    let (a2, b2) = separate(a, b, 100);
    assert_eq!(a2.pos, Point { x: -22_350, y: 12_291 });
    assert_eq!(b2.pos, Point { x: 34_695, y: -19_080 });
    assert_eq!(distance(a2.pos, b2.pos), 65_102);
}

#[test]
fn a_corrected_pair_is_clear_and_close_and_keeps_its_middle() {
    let first = Point { x: 1_000, y: -2_000 };
    let offsets = [-40_000, -7_071, -300, -3, -1, 0, 1, 2, 5, 999, 12_345, 39_999];
    let sizes = [(30_000, 30_000), (1, 60_000), (25_000, 40_000), (0, 3)];
    let mut corrected = 0;
    for dx in offsets {
        for dy in offsets {
            if dx == 0 && dy == 0 {
                continue;
            }
            for (size_a, size_b) in sizes {
                for margin in [0, 77] {
                    let a = Flower::new(first, gene_of_size(size_a), 0, 0);
                    let b = Flower::new(Point { x: first.x + dx, y: first.y + dy }, gene_of_size(size_b), 0, 0);
                    let clearance = (size_a + size_b + margin) as u64;
                    let overlapped = distance(a.pos, b.pos) < clearance;
                    let (a2, b2) = separate(a, b, margin);
                    let apart = distance(a2.pos, b2.pos);
                    assert!(apart >= clearance, "overlap left at {} {}", dx, dy);
                    if overlapped {
                        corrected += 1;
                        assert!(apart <= clearance + 4, "{} too far at {} {}", apart - clearance, dx, dy);
                    } else {
                        assert_eq!((a2, b2), (a, b));
                    }
                    let shift_x = (a2.pos.x + b2.pos.x) - (a.pos.x + b.pos.x);
                    let shift_y = (a2.pos.y + b2.pos.y) - (a.pos.y + b.pos.y);
                    assert!(shift_x.abs() <= 1 && shift_y.abs() <= 1, "middle moved at {} {}", dx, dy);
                    assert_eq!(separate(a2, b2, margin), (a2, b2));
                }
            }
        }
    }
    assert!(corrected > 500);
}

#[test]
fn the_largest_blooms_are_pushed_within_the_slack() {
    // radii near two million pixels: the clearance holds FINE twice, so the
    // slack is six length units
    let a = bloom(-5, 3, 2_100_000_000);
    let b = bloom(7, -4, 2_194_967_296);
    let clearance: u64 = 4_294_967_296;
    let (a2, b2) = separate(a, b, 0);
    let apart = distance(a2.pos, b2.pos);
    assert!(apart >= clearance);
    assert!(apart <= clearance + 6);
}

#[test]
fn one_pass_clears_a_garden_of_two() {
    let mut garden = garden_of(&[bloom(0, 0, 30_000), bloom(1, 1, 30_000)]);
    garden.relax(0);
    let a = garden.flowers()[0];
    let b = garden.flowers()[1];
    assert_eq!(a.pos, Point { x: -21_213, y: -21_213 });
    assert_eq!(b.pos, Point { x: 21_215, y: 21_215 });
    let apart = distance(a.pos, b.pos);
    assert!(apart >= 60_000 && apart <= 60_004);
    garden.relax(0);
    assert_eq!(garden.flowers(), &[a, b][..]);
}
