use bloup::colour::Colour;
use bloup::flower::{Flower, Shape};
use bloup::gene::{FlowerGene, GeneParams};
use bloup::geometry::Point;

fn params() -> GeneParams {
    GeneParams {
        size: 100_000,
        centre_radius_inner_prop: 300_000,
        centre_radius_outer_prop: 400_000,
        centre_dist_prop: 600_000,
        petal_width_prop: 500_000,
        num_petals: 4,
        bloom_duration: 4_000,
        life_span: Some(10_000),
        centre_colour: Colour { red: 1, green: 2, blue: 3, alpha: 1_000_000 },
        petal_colour: Colour { red: 4, green: 5, blue: 6, alpha: 1_000_000 },
    }
}

fn flower(orientation: u32) -> Flower {
    Flower::new(Point { x: 10, y: -20 }, FlowerGene::new(params()).unwrap(), orientation, 0)
}

#[test]
fn a_new_flower_keeps_what_it_was_given() {
    let gene = FlowerGene::new(params()).unwrap();
    let f = Flower::new(Point { x: 1, y: 2 }, gene, 3, 4);
    assert_eq!(f.pos, Point { x: 1, y: 2 });
    assert_eq!(f.gene, gene);
    assert_eq!(f.orientation, 3);
    assert_eq!(f.start_time, 4);
    assert_eq!(f.footprint_radius(), 100_000);
}

#[test]
fn the_footprint_does_not_grow_with_the_bloom() {
    let f = flower(0);
    assert_eq!(f.bloom_progress(0), 0);
    assert_eq!(f.footprint_radius(), 100_000);
}

#[test]
fn a_full_bloom_has_its_petals_and_two_discs() {
    let shapes = flower(125_000).render_geometry(4_000);
    let petal_colour = Colour { red: 4, green: 5, blue: 6, alpha: 1_000_000 };
    let centre_colour = Colour { red: 1, green: 2, blue: 3, alpha: 1_000_000 };
    let anchor = Point { x: 10, y: -20 };
    let petal = |angle: u64| Shape::Petal {
        anchor,
        angle,
        offset: 60_000,
        half_length: 40_000,
        half_width: 20_000,
        colour: petal_colour,
    };
    assert_eq!(
        shapes,
        vec![
            petal(125_000),
            petal(375_000),
            petal(625_000),
            petal(875_000),
            Shape::Disc { centre: anchor, radius: 40_000, colour: petal_colour },
            Shape::Disc { centre: anchor, radius: 30_000, colour: centre_colour },
        ]
    );
}

#[test]
fn a_growing_bloom_is_scaled_by_its_progress() {
    // half the bloom duration: progress 0.875
    let shapes = flower(0).render_geometry(2_000);
    assert_eq!(shapes.len(), 6);
    match shapes[1] {
        Shape::Petal { angle, offset, half_length, half_width, .. } => {
            assert_eq!(angle, 250_000);
            assert_eq!(offset, 52_500);
            assert_eq!(half_length, 35_000);
            assert_eq!(half_width, 17_500);
        }
        Shape::Disc { .. } => panic!("a petal comes first"),
    }
    match shapes[4] {
        Shape::Disc { radius, .. } => assert_eq!(radius, 35_000),
        Shape::Petal { .. } => panic!("the outer disc follows the petals"),
    }
    match shapes[5] {
        Shape::Disc { radius, .. } => assert_eq!(radius, 26_250),
        Shape::Petal { .. } => panic!("the inner disc comes last"),
    }
}

#[test]
fn a_seed_has_no_extent() {
    let shapes = flower(0).render_geometry(0);
    for shape in shapes {
        match shape {
            Shape::Petal { offset, half_length, half_width, .. } => {
                assert_eq!((offset, half_length, half_width), (0, 0, 0));
            }
            Shape::Disc { radius, .. } => assert_eq!(radius, 0),
        }
    }
}

#[test]
fn a_fading_bloom_carries_its_opacity() {
    // 2 s into a fade of 4 s: opacity 1 - 0.875
    let shapes = flower(0).render_geometry(12_000);
    for shape in shapes {
        let colour = match shape {
            Shape::Petal { colour, .. } => colour,
            Shape::Disc { colour, .. } => colour,
        };
        assert_eq!(colour.alpha, 125_000);
    }
    let gone = flower(0).render_geometry(14_000);
    match gone[0] {
        Shape::Petal { colour, half_length, .. } => {
            assert_eq!(colour.alpha, 0);
            assert_eq!(half_length, 40_000);
        }
        Shape::Disc { .. } => panic!("a petal comes first"),
    }
}

#[test]
fn petal_angles_round_down() {
    let three = GeneParams { num_petals: 3, ..params() };
    let f = Flower::new(Point { x: 0, y: 0 }, FlowerGene::new(three).unwrap(), 999_999, 0);
    let angles: Vec<u64> = f
        .render_geometry(0)
        .iter()
        .filter_map(|s| match s {
            Shape::Petal { angle, .. } => Some(*angle),
            Shape::Disc { .. } => None,
        })
        .collect();
    assert_eq!(angles, vec![999_999, 1_333_332, 1_666_665]);
}

#[test]
fn the_largest_orientation_does_not_overflow() {
    let f = flower(u32::MAX);
    let shapes = f.render_geometry(4_000);
    match shapes[3] {
        Shape::Petal { angle, .. } => assert_eq!(angle, 750_000 + u32::MAX as u64),
        Shape::Disc { .. } => panic!("a petal comes first"),
    }
}

#[test]
fn a_snapshot_tells_the_state_at_one_moment() {
    let gene = FlowerGene::new(params()).unwrap();
    let f = Flower::new(Point { x: 10, y: -20 }, gene, 125_000, 1_000);
    let young = f.snapshot(3_000);
    assert_eq!(young.position, Point { x: 10, y: -20 });
    assert_eq!(young.orientation, 125_000);
    assert_eq!(young.bloom_progress, 875_000);
    assert_eq!(young.death_progress, 1_000_000);
    assert_eq!(young.gene, gene);
    let old = f.snapshot(13_000);
    assert_eq!(old.bloom_progress, 1_000_000);
    assert_eq!(old.death_progress, 125_000);
    let unborn = f.snapshot(0);
    assert_eq!(unborn.bloom_progress, 0);
    assert_eq!(unborn.death_progress, 1_000_000);
}

#[test]
fn a_snapshot_of_a_bloom_without_life_span_stays_opaque() {
    let gene = FlowerGene::new(GeneParams { life_span: None, ..params() }).unwrap();
    let f = Flower::new(Point { x: 0, y: 0 }, gene, 0, 0);
    assert_eq!(f.snapshot(u64::MAX).death_progress, 1_000_000);
    assert_eq!(f.snapshot(u64::MAX).bloom_progress, 1_000_000);
}

#[test]
fn the_lengths_of_a_gene_are_proportions_of_its_size() {
    let gene = FlowerGene::new(params()).unwrap();
    assert_eq!(gene.petal_offset(), 60_000);
    assert_eq!(gene.petal_half_length(), 40_000);
    assert_eq!(gene.petal_half_width(), 20_000);
    assert_eq!(gene.centre_radius_outer(), 40_000);
    assert_eq!(gene.centre_radius_inner(), 30_000);
    let standard = FlowerGene::default();
    assert_eq!(standard.petal_offset(), 40_300);
    assert_eq!(standard.petal_half_length(), 24_700);
    assert_eq!(standard.petal_half_width(), 15_314);
    assert_eq!(standard.centre_radius_outer(), 26_000);
    assert_eq!(standard.centre_radius_inner(), 19_500);
    let largest = standard.with_size(u32::MAX);
    assert_eq!(largest.petal_offset() as u64 + largest.petal_half_length() as u64, u32::MAX as u64 - 1);
}
