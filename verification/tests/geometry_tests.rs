use arena_core::geometry::{overlaps, Hitbox, Point, Rotation, Transform};
use arena_core::movement::{rotate_towards, Speed, Velocity, FULL_TURN};

fn circle(radius: u32) -> Hitbox {
    Hitbox::Circle { radius }
}

fn square(half: u32) -> Hitbox {
    Hitbox::Rectangle { half_width: half, half_height: half }
}

fn turned(x: i32, y: i32, cos: i16, sin: i16) -> Transform {
    Transform { translation: Point { x, y }, rotation: Rotation { cos, sin } }
}

#[test]
fn circles_eleven_apart_with_radii_five_do_not_collide() {
    let a = circle(5_000);
    let b = circle(5_000);
    assert!(!overlaps(&a, &Transform::at(0, 0), &b, &Transform::at(11_000, 0)));
    assert!(!overlaps(&b, &Transform::at(11_000, 0), &a, &Transform::at(0, 0)));
}

#[test]
fn circles_that_touch_collide() {
    let a = circle(5_000);
    assert!(overlaps(&a, &Transform::at(0, 0), &a, &Transform::at(10_000, 0)));
    assert!(!overlaps(&a, &Transform::at(0, 0), &a, &Transform::at(10_001, 0)));
    assert!(overlaps(&a, &Transform::at(0, 0), &a, &Transform::at(6_000, 8_000)));
    assert!(!overlaps(&a, &Transform::at(0, 0), &a, &Transform::at(6_000, 8_001)));
}

#[test]
fn squares_nine_apart_with_side_ten_collide() {
    let a = square(5_000);
    assert!(overlaps(&a, &Transform::at(0, 0), &a, &Transform::at(9_000, 0)));
    assert!(overlaps(&a, &Transform::at(9_000, 0), &a, &Transform::at(0, 0)));
}

#[test]
fn squares_collide_up_to_touching() {
    let a = square(5_000);
    assert!(overlaps(&a, &Transform::at(0, 0), &a, &Transform::at(10_000, 0)));
    assert!(!overlaps(&a, &Transform::at(0, 0), &a, &Transform::at(10_001, 0)));
    assert!(!overlaps(&a, &Transform::at(0, 0), &a, &Transform::at(0, -10_001)));
    assert!(overlaps(&a, &Transform::at(0, 0), &a, &Transform::at(-10_000, 10_000)));
}

#[test]
fn a_turned_square_reaches_further() {
    let a = square(5_000);
    // An eighth of a turn: cosine and sine are both 11585 / 16384.
    let far = turned(12_071, 0, 11_585, 11_585);
    let too_far = turned(12_072, 0, 11_585, 11_585);
    // 2 * 11585 * 5000 / 16384 = 7070.9..., so the boxes meet up to 12070.9.
    assert!(!overlaps(&a, &Transform::at(0, 0), &a, &far));
    assert!(!overlaps(&a, &Transform::at(0, 0), &a, &too_far));
    assert!(overlaps(&a, &Transform::at(0, 0), &a, &turned(12_070, 0, 11_585, 11_585)));
    assert!(!overlaps(&a, &Transform::at(0, 0), &a, &Transform::at(12_070, 0)));
}

#[test]
fn a_quarter_turn_swaps_the_sides() {
    let long = Hitbox::Rectangle { half_width: 10_000, half_height: 1_000 };
    let dot = circle(0);
    assert!(overlaps(&long, &Transform::at(0, 0), &dot, &Transform::at(9_000, 0)));
    assert!(!overlaps(&long, &turned(0, 0, 0, 16_384), &dot, &Transform::at(9_000, 0)));
    assert!(overlaps(&long, &turned(0, 0, 0, 16_384), &dot, &Transform::at(0, 9_000)));
    assert!(overlaps(&long, &turned(0, 0, 0, -16_384), &dot, &Transform::at(1_000, -10_000)));
}

#[test]
fn a_circle_meets_a_square_at_side_and_corner() {
    let c = circle(5_000);
    let s = square(5_000);
    assert!(overlaps(&c, &Transform::at(10_000, 0), &s, &Transform::at(0, 0)));
    assert!(!overlaps(&c, &Transform::at(10_001, 0), &s, &Transform::at(0, 0)));
    // From the corner (5000, 5000): 3000 and 4000 away is 5000 away.
    assert!(overlaps(&s, &Transform::at(0, 0), &c, &Transform::at(8_000, 9_000)));
    assert!(!overlaps(&s, &Transform::at(0, 0), &c, &Transform::at(8_000, 9_001)));
    assert!(overlaps(&c, &Transform::at(1_000, 1_000), &s, &Transform::at(0, 0)));
}

#[test]
fn a_capsule_is_never_reported() {
    let capsule = Hitbox::Capsule {
        radius: 5_500,
        start: Point { x: 0, y: 0 },
        end: Point { x: 0, y: -3_000 },
    };
    let here = Transform::at(0, 0);
    assert!(!overlaps(&capsule, &here, &capsule, &here));
    assert!(!overlaps(&capsule, &here, &circle(5_000), &here));
    assert!(!overlaps(&square(5_000), &here, &capsule, &here));
}

#[test]
fn overlap_at_the_ends_of_the_coordinate_range() {
    let big = circle(u32::MAX);
    let low = Transform::at(i32::MIN, i32::MIN);
    let high = Transform::at(i32::MAX, i32::MAX);
    assert!(overlaps(&big, &low, &big, &high));
    assert!(!overlaps(&circle(1), &low, &circle(1), &high));
    let wide = square(u32::MAX);
    assert!(overlaps(&wide, &low, &wide, &high));
    assert!(!overlaps(&wide, &turned(i32::MIN, 0, i16::MIN, i16::MIN), &big, &high));
}

#[test]
fn turned_squares_are_tested_as_they_lie() {
    let a = square(5_000);
    // Both turned by an eighth of a turn, one diagonally behind the other: the
    // boxes around them overlap, the squares do not.
    let here = turned(0, 0, 11_585, 11_585);
    assert!(!overlaps(&a, &here, &a, &turned(8_000, 8_000, 11_585, 11_585)));
    assert!(!overlaps(&a, &turned(8_000, 8_000, 11_585, 11_585), &a, &here));
    assert!(overlaps(&a, &here, &a, &turned(7_000, 7_000, 11_585, 11_585)));
    assert!(overlaps(&a, &here, &a, &turned(7_070, 7_070, 11_585, 11_585)));
    assert!(!overlaps(&a, &here, &a, &turned(7_071, 7_071, 11_585, 11_585)));
}

#[test]
fn a_corner_meets_a_turned_side() {
    let a = square(5_000);
    let plain = Transform::at(0, 0);
    assert!(overlaps(&a, &plain, &a, &turned(8_500, 8_500, 11_585, 11_585)));
    assert!(overlaps(&a, &plain, &a, &turned(8_535, 8_535, 11_585, 11_585)));
    assert!(!overlaps(&a, &plain, &a, &turned(8_536, 8_536, 11_585, 11_585)));
    assert!(!overlaps(&a, &turned(9_000, 9_000, 11_585, 11_585), &a, &plain));
}

#[test]
fn a_circle_meets_a_turned_square() {
    let c = circle(5_000);
    let s = square(5_000);
    let lying = turned(0, 0, 11_585, 11_585);
    assert!(overlaps(&c, &Transform::at(12_071, 0), &s, &lying));
    assert!(!overlaps(&c, &Transform::at(12_072, 0), &s, &lying));
    assert!(overlaps(&s, &lying, &c, &Transform::at(7_071, 7_071)));
    assert!(!overlaps(&s, &lying, &c, &Transform::at(7_072, 7_072)));
}

#[test]
fn relative_position_is_exact() {
    let offset = Point::new(i32::MAX, -5).relative_to(&Point::new(i32::MIN, 7));
    assert_eq!(offset.dx, 4_294_967_295);
    assert_eq!(offset.dy, -12);
}

#[test]
fn rotate_towards_turns_the_short_way() {
    assert_eq!(rotate_towards(0, 1_000_000, 500_000), 500_000);
    assert_eq!(rotate_towards(0, 1_000_000, 1_000_000), 1_000_000);
    assert_eq!(rotate_towards(0, 1_000_000, 2_000_000), 1_000_000);
    assert_eq!(rotate_towards(0, 6_000_000, 100_000), 6_183_185);
    assert_eq!(rotate_towards(100, 200, 500_000), 200);
    assert_eq!(rotate_towards(6_000_000, 100_000, 200_000), 6_200_000);
    assert_eq!(rotate_towards(6_200_000, 100_000, 200_000), 100_000);
    assert_eq!(rotate_towards(6_200_000, 200_000, 200_000), 116_815);
    assert_eq!(rotate_towards(5, 5, 0), 5);
    assert_eq!(rotate_towards(1_000, 2_000, 0), 1_000);
}

#[test]
fn rotate_towards_brings_angles_into_range() {
    assert_eq!(rotate_towards(FULL_TURN + 7, FULL_TURN + 7, 0), 7);
    assert_eq!(rotate_towards(u32::MAX, 0, u64::MAX), 0);
    assert!(rotate_towards(u32::MAX, 12, 1) < FULL_TURN);
}

#[test]
fn velocity_and_speed_are_built_as_given() {
    assert_eq!(Velocity::new(FULL_TURN + 3, 9), Velocity { heading: 3, speed: 9 });
    assert_eq!(Velocity::zero(), Velocity { heading: 0, speed: 0 });
    assert_eq!(Speed::new(150_000), Speed { default: 150_000, current: 150_000 });
}
