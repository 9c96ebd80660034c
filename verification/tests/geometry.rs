use bloup::colour::{mult_colour, Colour};
use bloup::fixed::{isqrt, portion, UNIT};
use bloup::geometry::{distance, edge_distance, fine_distance, squared_distance, Point, Rect, FINE};

#[test]
fn isqrt_rounds_down() {
    assert_eq!(isqrt(0), 0);
    assert_eq!(isqrt(1), 1);
    assert_eq!(isqrt(3), 1);
    assert_eq!(isqrt(4), 2);
    assert_eq!(isqrt(24), 4);
    assert_eq!(isqrt(25), 5);
    assert_eq!(isqrt(26), 5);
    assert_eq!(isqrt(1_000_000_000_000), 1_000_000);
    assert_eq!(isqrt(999_999_999_999), 999_999);
}

#[test]
fn isqrt_of_the_largest_number() {
    assert_eq!(isqrt(u128::MAX), u64::MAX);
    assert_eq!(isqrt((u64::MAX as u128) * (u64::MAX as u128)), u64::MAX);
    assert_eq!(isqrt((u64::MAX as u128) * (u64::MAX as u128) - 1), u64::MAX - 1);
}

#[test]
fn portion_rounds_down() {
    assert_eq!(portion(65_000, 620_000), 40_300);
    assert_eq!(portion(10, 333_333), 3);
    assert_eq!(portion(3, 333_333), 0);
    assert_eq!(portion(u32::MAX, UNIT), u32::MAX as u64);
    assert_eq!(portion(u32::MAX, u32::MAX), 18_446_744_065_119);
}

#[test]
fn distance_of_a_right_triangle() {
    let a = Point { x: 0, y: 0 };
    let b = Point { x: 3_000, y: 4_000 };
    assert_eq!(squared_distance(a, b), 25_000_000);
    assert_eq!(distance(a, b), 5_000);
    assert_eq!(distance(b, a), 5_000);
    assert_eq!(distance(a, a), 0);
}

#[test]
fn distance_rounds_down() {
    let a = Point { x: 0, y: 0 };
    assert_eq!(distance(a, Point { x: 1, y: 1 }), 1);
    assert_eq!(distance(a, Point { x: 2, y: 2 }), 2);
    assert_eq!(distance(a, Point { x: -5, y: 7 }), 8);
}

#[test]
fn distance_across_the_whole_plane() {
    let a = Point { x: i32::MIN, y: i32::MIN };
    let b = Point { x: i32::MAX, y: i32::MAX };
    assert_eq!(squared_distance(a, b), 2 * (u32::MAX as u128) * (u32::MAX as u128));
    assert_eq!(distance(a, b), 6_074_000_998);
}

#[test]
fn edge_distance_is_the_least_of_four() {
    let canvas = Rect { left: -500, right: 500, bottom: -300, top: 300 };
    assert_eq!(edge_distance(canvas, Point { x: 0, y: 0 }), 300);
    assert_eq!(edge_distance(canvas, Point { x: 450, y: 0 }), 50);
    assert_eq!(edge_distance(canvas, Point { x: -499, y: 0 }), 1);
    assert_eq!(edge_distance(canvas, Point { x: 0, y: 290 }), 10);
    assert_eq!(edge_distance(canvas, Point { x: 0, y: -300 }), 0);
}

#[test]
fn edge_distance_is_negative_outside() {
    let canvas = Rect { left: -500, right: 500, bottom: -500, top: 500 };
    assert_eq!(edge_distance(canvas, Point { x: 600, y: 0 }), -100);
    assert_eq!(edge_distance(canvas, Point { x: 0, y: -501 }), -1);
    let wide = Rect { left: i32::MAX, right: i32::MIN, bottom: 0, top: 0 };
    assert_eq!(edge_distance(wide, Point { x: i32::MIN, y: 0 }), -4_294_967_295);
}

#[test]
fn mult_colour_scales_three_channels() {
    let c = Colour { red: 1_000_000, green: 500_000, blue: 250_000, alpha: 700_000 };
    let darker = mult_colour(c, 800_000);
    assert_eq!(darker, Colour { red: 800_000, green: 400_000, blue: 200_000, alpha: 700_000 });
    assert_eq!(mult_colour(c, UNIT), c);
    assert_eq!(mult_colour(c, 0), Colour { red: 0, green: 0, blue: 0, alpha: 700_000 });
}

#[test]
fn mult_colour_rounds_down_and_saturates() {
    let c = Colour { red: 3, green: u32::MAX, blue: 1, alpha: 1 };
    let half = mult_colour(c, 500_000);
    assert_eq!(half, Colour { red: 1, green: 2_147_483_647, blue: 0, alpha: 1 });
    let bright = mult_colour(c, 2_000_000);
    assert_eq!(bright, Colour { red: 6, green: u32::MAX, blue: 2, alpha: 1 });
}

#[test]
fn with_alpha_changes_only_the_opacity() {
    let c = Colour { red: 1, green: 2, blue: 3, alpha: 4 };
    assert_eq!(c.with_alpha(9), Colour { red: 1, green: 2, blue: 3, alpha: 9 });
}

#[test]
fn a_fine_distance_counts_parts_of_a_length_unit() {
    assert_eq!(FINE, 1 << 31);
    let a = Point { x: 0, y: 0 };
    assert_eq!(fine_distance(a, a), 0);
    assert_eq!(fine_distance(a, Point { x: 3, y: 4 }), 5 * FINE);
    assert_eq!(fine_distance(a, Point { x: -1, y: 0 }), FINE);
    // sqrt(2) * 2^31 = 3_037_000_499.97...
    assert_eq!(fine_distance(a, Point { x: 1, y: 1 }), 3_037_000_499);
    assert_eq!(fine_distance(Point { x: 1, y: 1 }, a), 3_037_000_499);
}

#[test]
fn a_fine_distance_across_the_whole_plane() {
    let a = Point { x: i32::MIN, y: i32::MIN };
    let b = Point { x: i32::MAX, y: i32::MAX };
    // sqrt(2) * (2^32 - 1) * 2^31
    assert_eq!(fine_distance(a, b), 13_043_817_822_295_781_712);
    assert_eq!(fine_distance(a, b) / FINE, distance(a, b));
}
