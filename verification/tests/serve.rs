use pong::fixed::{clamp, isqrt};
use pong::heading::Direction;
use pong::random::{draw_jitter, draw_serve, draw_step};
use pong::serve::{ServeDraw, SERVE_ANGLE_MAX, SERVE_ANGLE_MIN, SERVE_SLANT};

fn serve(angle: i64, flip_x: bool, flip_y: bool) -> Direction {
    ServeDraw { angle, flip_x, flip_y }.direction()
}

#[test]
fn serve_headings_at_known_angles() {
    assert_eq!(serve(392_700, false, false), Direction { x: -382_684, y: 923_880 });
    assert_eq!(serve(500_000, false, false), Direction { x: -479_426, y: 877_583 });
    assert_eq!(serve(785_398, false, false), Direction { x: -707_107, y: 707_107 });
    assert_eq!(serve(1_000_000, false, false), Direction { x: -841_471, y: 540_302 });
    assert_eq!(serve(1_178_097, false, false), Direction { x: -923_880, y: 382_684 });
}

#[test]
fn serve_mirrors_each_axis_on_its_own() {
    assert_eq!(serve(1_000_000, true, false), Direction { x: 841_471, y: 540_302 });
    assert_eq!(serve(1_000_000, false, true), Direction { x: -841_471, y: -540_302 });
    assert_eq!(serve(1_000_000, true, true), Direction { x: 841_471, y: -540_302 });
}

#[test]
fn every_serve_heading_is_a_slanted_unit_vector() {
    let mut angle = SERVE_ANGLE_MIN;
    while angle <= SERVE_ANGLE_MAX {
        let d = serve(angle, false, false);
        assert!(d.check_unit());
        assert!(d.x <= -SERVE_SLANT && d.y >= SERVE_SLANT);
        assert!(d.x <= -382_682 && d.y >= 382_682);
        angle += 101;
    }
}

#[test]
fn serve_draw_knows_its_range() {
    assert!(ServeDraw { angle: SERVE_ANGLE_MIN, flip_x: false, flip_y: true }.check());
    assert!(ServeDraw { angle: SERVE_ANGLE_MAX, flip_x: true, flip_y: false }.check());
    assert!(!ServeDraw { angle: SERVE_ANGLE_MIN - 1, flip_x: false, flip_y: false }.check());
    assert!(!ServeDraw { angle: SERVE_ANGLE_MAX + 1, flip_x: false, flip_y: false }.check());
    assert_eq!((SERVE_ANGLE_MIN, SERVE_ANGLE_MAX), (392_700, 1_178_097));
}

#[test]
fn drawn_serve_angles_lie_in_the_serve_range() {
    let mut flips = [0u32; 4];
    let mut lowest = i64::MAX;
    let mut highest = i64::MIN;
    for _ in 0..2_000 {
        let draw = draw_serve();
        assert!(draw.check());
        assert!(SERVE_ANGLE_MIN <= draw.angle && draw.angle <= SERVE_ANGLE_MAX);
        lowest = lowest.min(draw.angle);
        highest = highest.max(draw.angle);
        flips[(draw.flip_x as usize) * 2 + draw.flip_y as usize] += 1;
    }
    assert!(lowest < 500_000 && highest > 1_000_000);
    assert!(flips.iter().all(|&n| n > 0));
}

#[test]
fn drawn_jitter_lies_in_its_range_and_varies() {
    let first = draw_jitter();
    let mut varied = false;
    for _ in 0..500 {
        let j = draw_jitter();
        assert!(-10_000 <= j && j <= 10_000);
        if j != first {
            varied = true;
        }
    }
    assert!(varied);
    for _ in 0..100 {
        assert!(draw_step().check());
    }
}

#[test]
fn normalize_scales_to_unit_length() {
    assert_eq!(Direction::normalize(3, 4), Direction { x: 600_000, y: 800_000 });
    assert_eq!(Direction::normalize(-3, 4), Direction { x: -600_000, y: 800_000 });
    assert_eq!(Direction::normalize(0, -7), Direction { x: 0, y: -1_000_000 });
    assert_eq!(Direction::normalize(1_010_000, -10_000), Direction { x: 999_951, y: -9_900 });
    assert_eq!(
        Direction::normalize(2_000_000_000, 2_000_000_000),
        Direction { x: 707_106, y: 707_106 }
    );
}

#[test]
fn jitter_is_added_before_scaling() {
    let d = Direction { x: 707_107, y: 707_107 };
    assert_eq!(d.jittered(5_000, -3_000), Direction { x: 711_090, y: 703_101 });
    assert_eq!(d.jittered(0, 0), Direction { x: 707_107, y: 707_107 });
    assert!(d.jittered(-10_000, 10_000).check_unit());
}

#[test]
fn reflection_negates_one_component() {
    let d = Direction { x: 600_000, y: -800_000 };
    assert_eq!(d.reflect_x(), Direction { x: -600_000, y: -800_000 });
    assert_eq!(d.reflect_y(), Direction { x: 600_000, y: 800_000 });
}

#[test]
fn unit_check_allows_two_millionths_of_slack() {
    assert!(Direction { x: 1_000_000, y: 0 }.check_unit());
    assert!(Direction { x: 1_000_002, y: 0 }.check_unit());
    assert!(Direction { x: 0, y: -999_998 }.check_unit());
    assert!(!Direction { x: 1_000_003, y: 0 }.check_unit());
    assert!(!Direction { x: 0, y: 999_997 }.check_unit());
    assert!(!Direction { x: 0, y: 0 }.check_unit());
    assert!(!Direction { x: i64::MIN, y: i64::MIN }.check_unit());
    assert!(!Direction { x: i64::MAX, y: 0 }.check_unit());
}

#[test]
fn integer_square_root_rounds_down() {
    assert_eq!(isqrt(0), 0);
    assert_eq!(isqrt(1), 1);
    assert_eq!(isqrt(3), 1);
    assert_eq!(isqrt(4), 2);
    assert_eq!(isqrt(10), 3);
    assert_eq!(isqrt(999_999_999_999), 999_999);
    assert_eq!(isqrt(1_000_000_000_000), 1_000_000);
    assert_eq!(isqrt(u64::MAX), 4_294_967_295);
}

#[test]
fn clamp_holds_a_value_in_its_interval() {
    assert_eq!(clamp(5, -3, 9), 5);
    assert_eq!(clamp(-4, -3, 9), -3);
    assert_eq!(clamp(10, -3, 9), 9);
    assert_eq!(clamp(i128::MAX, -3, 9), 9);
    assert_eq!(clamp(i128::MIN, -3, -3), -3);
}
