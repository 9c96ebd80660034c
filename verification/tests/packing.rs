use bloup::flower::Flower;
use bloup::garden::Garden;
use bloup::gene::{FlowerGene, GeneParams};
use bloup::geometry::{distance, Point, Rect};
use bloup::packing::try_place;

fn gene_of_size(size: u32) -> FlowerGene {
    FlowerGene::new(GeneParams { size, ..FlowerGene::default().params() }).unwrap()
}

fn bloom(x: i32, y: i32, size: u32) -> Flower {
    Flower::new(Point { x, y }, gene_of_size(size), 0, 0)
}

fn square(half: i32) -> Rect {
    Rect { left: -half, right: half, bottom: -half, top: half }
}

#[test]
fn an_empty_garden_is_bounded_by_the_canvas_alone() {
    let canvas = square(500_000);
    assert_eq!(Flower::max_radius(canvas, Point { x: 0, y: 0 }, &[]), 500_000);
    assert_eq!(Flower::max_radius(canvas, Point { x: 400_000, y: -100_000 }, &[]), 100_000);
    let garden = Garden::new();
    assert_eq!(garden.max_admissible_radius(Point { x: 0, y: 499_999 }, canvas), 1);
}

#[test]
fn the_nearest_rim_bounds_the_radius() {
    let canvas = square(500_000);
    let others = [bloom(100_000, 0, 30_000), bloom(0, 90_000, 50_000), bloom(-300_000, 0, 10_000)];
    // gaps: 70_000, 40_000, 290_000
    assert_eq!(Flower::max_radius(canvas, Point { x: 0, y: 0 }, &others), 40_000);
}

#[test]
fn the_canvas_edge_bounds_the_radius() {
    let canvas = square(500_000);
    let others = [bloom(0, 0, 30_000)];
    // gap 450_000 - 30_000, edge 50_000
    assert_eq!(Flower::max_radius(canvas, Point { x: 450_000, y: 0 }, &others), 50_000);
}

#[test]
fn the_radius_is_zero_inside_a_bloom() {
    let canvas = square(500_000);
    let others = [bloom(0, 0, 50_000)];
    assert_eq!(Flower::max_radius(canvas, Point { x: 40_000, y: 0 }, &others), 0);
    assert_eq!(Flower::max_radius(canvas, Point { x: 0, y: 0 }, &others), 0);
    assert_eq!(Flower::max_radius(canvas, Point { x: 50_000, y: 0 }, &others), 0);
    assert_eq!(Flower::max_radius(canvas, Point { x: 50_001, y: 0 }, &others), 1);
}

#[test]
fn the_radius_is_zero_off_the_canvas() {
    let canvas = square(500_000);
    assert_eq!(Flower::max_radius(canvas, Point { x: 600_000, y: 0 }, &[]), 0);
    assert_eq!(Flower::max_radius(canvas, Point { x: 500_001, y: 0 }, &[]), 0);
    assert_eq!(Flower::max_radius(canvas, Point { x: 500_000, y: 0 }, &[]), 0);
    assert_eq!(Flower::max_radius(canvas, Point { x: 499_999, y: 0 }, &[]), 1);
    let others = [bloom(0, 0, 50_000)];
    assert_eq!(Flower::max_radius(canvas, Point { x: 600_000, y: 0 }, &others), 0);
    assert_eq!(Flower::max_radius(canvas, Point { x: 0, y: -600_000 }, &others), 0);
    let garden = Garden::new();
    assert_eq!(garden.max_admissible_radius(Point { x: i32::MIN, y: i32::MAX }, canvas), 0);
}

#[test]
fn the_radius_is_never_negative() {
    let canvases = [
        square(500_000),
        Rect { left: 100, right: -100, bottom: 0, top: 0 },
        Rect { left: i32::MAX, right: i32::MIN, bottom: i32::MAX, top: i32::MIN },
        Rect { left: i32::MIN, right: i32::MAX, bottom: i32::MIN, top: i32::MAX },
    ];
    let others = [bloom(0, 0, 50_000), bloom(i32::MAX, i32::MIN, u32::MAX)];
    let coordinates = [i32::MIN, -600_000, -500_000, -1, 0, 40_000, 500_000, 600_000, i32::MAX];
    for canvas in canvases {
        for x in coordinates {
            for y in coordinates {
                assert!(Flower::max_radius(canvas, Point { x, y }, &[]) >= 0);
                assert!(Flower::max_radius(canvas, Point { x, y }, &others) >= 0);
            }
        }
    }
    let whole = Rect { left: i32::MIN, right: i32::MAX, bottom: i32::MIN, top: i32::MAX };
    assert_eq!(Flower::max_radius(whole, Point { x: 0, y: 0 }, &[]), i32::MAX as i64);
}

#[test]
fn the_radius_never_exceeds_the_edge_distance_nor_a_gap() {
    let canvas = Rect { left: -200_000, right: 300_000, bottom: -100_000, top: 150_000 };
    let others = [bloom(50_000, 20_000, 30_000), bloom(-120_000, -40_000, 45_000), bloom(200_000, 100_000, 5_000)];
    let mut x = -200_000;
    while x <= 300_000 {
        let mut y = -100_000;
        while y <= 150_000 {
            let p = Point { x, y };
            let r = Flower::max_radius(canvas, p, &others);
            let edge = bloup::geometry::edge_distance(canvas, p);
            assert!(r >= 0);
            assert!(r <= edge);
            for other in others.iter() {
                let gap = distance(other.pos, p) as i64 - other.footprint_radius() as i64;
                assert!(r <= gap.max(0));
            }
            y += 12_500;
        }
        x += 12_500;
    }
}

#[test]
fn try_place_returns_the_gene_unscaled_where_it_fits() {
    let canvas = square(500_000);
    let gene = gene_of_size(50_000);
    let placed = try_place(Point { x: 0, y: 0 }, &gene, &[], canvas, 250_000);
    assert_eq!(placed, Some(gene));
}

#[test]
fn try_place_scales_the_gene_down_to_the_room() {
    let canvas = square(500_000);
    let gene = gene_of_size(50_000);
    let others = [bloom(0, 0, 50_000)];
    // room 80_000 - 50_000 = 30_000, scale 0.6
    let placed = try_place(Point { x: 80_000, y: 0 }, &gene, &others, canvas, 250_000).unwrap();
    assert_eq!(placed.params(), GeneParams { size: 30_000, ..gene.params() });
}

#[test]
fn try_place_rejects_a_scale_below_the_threshold() {
    let canvas = square(500_000);
    let gene = gene_of_size(50_000);
    let others = [bloom(0, 0, 50_000)];
    // room 12_499: scale just below a quarter
    assert_eq!(try_place(Point { x: 62_499, y: 0 }, &gene, &others, canvas, 250_000), None);
    // room 12_500: scale exactly a quarter
    let placed = try_place(Point { x: 62_500, y: 0 }, &gene, &others, canvas, 250_000).unwrap();
    assert_eq!(placed.full_radius(), 12_500);
}

#[test]
fn try_place_rejects_a_point_off_the_canvas() {
    let canvas = square(500_000);
    let gene = gene_of_size(50_000);
    assert_eq!(try_place(Point { x: 600_000, y: 0 }, &gene, &[], canvas, 250_000), None);
    assert_eq!(try_place(Point { x: 600_000, y: 0 }, &gene, &[], canvas, 1), None);
    assert_eq!(try_place(Point { x: 500_000, y: 0 }, &gene, &[], canvas, 1), None);
}

#[test]
fn a_scale_of_zero_is_not_below_a_threshold_of_zero() {
    let canvas = square(500_000);
    let gene = gene_of_size(50_000);
    let on_edge = try_place(Point { x: 500_000, y: 0 }, &gene, &[], canvas, 0).unwrap();
    assert_eq!(on_edge.params(), GeneParams { size: 0, ..gene.params() });
    let beyond = try_place(Point { x: 600_000, y: 0 }, &gene, &[], canvas, 0).unwrap();
    assert_eq!(beyond.params(), GeneParams { size: 0, ..gene.params() });
    let others = [bloom(0, 0, 50_000)];
    let inside = try_place(Point { x: 10_000, y: 0 }, &gene, &others, canvas, 0).unwrap();
    assert_eq!(inside.full_radius(), 0);
}

#[test]
fn try_place_always_places_a_gene_without_extent() {
    let canvas = square(500_000);
    let gene = gene_of_size(0);
    let others = [bloom(0, 0, 50_000)];
    assert_eq!(try_place(Point { x: 10_000, y: 0 }, &gene, &others, canvas, 250_000), Some(gene));
    assert_eq!(try_place(Point { x: 900_000, y: 0 }, &gene, &others, canvas, 1_000_000), Some(gene));
}

#[test]
fn try_place_with_a_threshold_above_one_places_nothing() {
    let canvas = square(500_000);
    assert_eq!(try_place(Point { x: 0, y: 0 }, &gene_of_size(50_000), &[], canvas, 1_000_001), None);
    assert_eq!(try_place(Point { x: 0, y: 0 }, &gene_of_size(0), &[], canvas, 1_000_001), None);
    assert!(try_place(Point { x: 0, y: 0 }, &gene_of_size(50_000), &[], canvas, 1_000_000).is_some());
}

#[test]
fn a_placed_bloom_overlaps_no_other() {
    let canvas = square(500_000);
    let gene = gene_of_size(80_000);
    let others = [bloom(50_000, 20_000, 30_000), bloom(-120_000, -40_000, 45_000), bloom(200_000, 100_000, 5_000)];
    let mut placed_some = 0;
    let mut x = -500_000;
    while x <= 500_000 {
        let mut y = -500_000;
        while y <= 500_000 {
            let p = Point { x, y };
            if let Some(placed) = try_place(p, &gene, &others, canvas, 250_000) {
                placed_some += 1;
                assert!(placed.full_radius() >= 20_000);
                assert!(placed.full_radius() <= 80_000);
                for other in others.iter() {
                    let dx = (other.pos.x - x) as i128;
                    let dy = (other.pos.y - y) as i128;
                    let reach = (placed.full_radius() + other.footprint_radius()) as i128;
                    assert!(reach * reach <= dx * dx + dy * dy);
                }
            }
            y += 31_250;
        }
        x += 31_250;
    }
    assert!(placed_some > 0);
}

#[test]
fn end_to_end_first_fits_second_is_rejected() {
    let canvas = square(500_000);
    let gene = gene_of_size(50_000);
    let mut garden = Garden::new();
    let first = garden.try_place(Point { x: 0, y: 0 }, &gene, canvas, 250_000);
    assert_eq!(first, Some(gene));
    garden.insert(Flower::new(Point { x: 0, y: 0 }, first.unwrap(), 0, 0));
    let second = Point { x: 40_000, y: 0 };
    assert_eq!(garden.max_admissible_radius(second, canvas), 0);
    assert_eq!(garden.try_place(second, &gene, canvas, 250_000), None);
    assert_eq!(garden.len(), 1);
}
