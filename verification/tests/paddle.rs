use pong::field::Playfield;
use pong::paddle::{Key, Keys, Paddle, Player, SPEED};

fn held(w: bool, s: bool, up: bool, down: bool) -> Keys {
    Keys { w, s, up, down }
}

#[test]
fn paddle_at_the_top_stays_there_with_the_up_key_held() {
    let field = Playfield::standard();
    let top = field.bounds().paddle_ceiling;
    assert_eq!(top, 120_500);
    let mut paddle = Paddle { owner: Player::Player1, y: top };
    paddle.step(&field, &held(true, false, false, false), 16_667);
    assert_eq!(paddle.y, top);
    paddle.step(&field, &held(true, false, false, false), u64::MAX);
    assert_eq!(paddle.y, top);
}

#[test]
fn paddle_at_the_bottom_stays_there_with_the_down_key_held() {
    let field = Playfield::standard();
    let bottom = field.bounds().paddle_floor;
    assert_eq!(bottom, -167_500);
    let mut paddle = Paddle { owner: Player::Player2, y: bottom };
    paddle.step(&field, &held(false, false, false, true), 1_000_000);
    assert_eq!(paddle.y, bottom);
}

#[test]
fn paddle_moves_by_speed_times_time() {
    let field = Playfield::standard();
    let mut paddle = Paddle { owner: Player::Player1, y: 0 };
    paddle.step(&field, &held(true, false, false, false), 10_000);
    assert_eq!(paddle.y, 5_000);
    paddle.step(&field, &held(false, true, false, false), 16_667);
    assert_eq!(paddle.y, 5_000 - 8_333);
    paddle.step(&field, &held(false, false, true, true), 16_667);
    assert_eq!(paddle.y, -3_333);
    assert_eq!(SPEED, 500_000);
}

#[test]
fn up_key_wins_over_down_key() {
    let field = Playfield::standard();
    let mut one = Paddle { owner: Player::Player1, y: 0 };
    one.step(&field, &held(true, true, false, true), 2_000);
    assert_eq!(one.y, 1_000);
    let mut two = Paddle { owner: Player::Player2, y: 0 };
    two.step(&field, &held(false, true, true, true), 2_000);
    assert_eq!(two.y, 1_000);
}

#[test]
fn each_player_has_their_own_keys() {
    assert_eq!(Player::Player1.get_keys(), (Key::W, Key::S));
    assert_eq!(Player::Player2.get_keys(), (Key::Up, Key::Down));
    let field = Playfield::standard();
    let mut one = Paddle { owner: Player::Player1, y: 0 };
    one.step(&field, &held(false, false, true, false), 2_000);
    assert_eq!(one.y, 0);
    let mut two = Paddle { owner: Player::Player2, y: 0 };
    two.step(&field, &held(true, false, false, true), 2_000);
    assert_eq!(two.y, -1_000);
    assert_eq!(two.owner, Player::Player2);
}

#[test]
fn keys_report_what_is_held() {
    let keys = held(true, false, false, true);
    assert!(keys.pressed(Key::W));
    assert!(!keys.pressed(Key::S));
    assert!(!keys.pressed(Key::Up));
    assert!(keys.pressed(Key::Down));
    let none = Keys::none();
    assert!(!none.pressed(Key::W) && !none.pressed(Key::S));
    assert!(!none.pressed(Key::Up) && !none.pressed(Key::Down));
}

#[test]
fn paddle_ends_within_its_band_from_anywhere() {
    let field = Playfield::standard();
    let bounds = field.bounds();
    let starts = [i64::MIN, -1_000_000, -167_500, 0, 120_500, 7_000_000, i64::MAX];
    let times = [0u64, 1, 16_667, 1_000_000, u64::MAX];
    for &y in starts.iter() {
        for &dt in times.iter() {
            for k in 0..3 {
                let mut paddle = Paddle { owner: Player::Player1, y };
                paddle.step(&field, &held(k == 1, k == 2, false, false), dt);
                assert!(bounds.paddle_floor <= paddle.y && paddle.y <= bounds.paddle_ceiling);
            }
        }
    }
}

#[test]
fn new_paddle_starts_below_the_score_bar() {
    let field = Playfield::standard();
    let paddle = Paddle::new(Player::Player2, &field);
    assert_eq!(paddle, Paddle { owner: Player::Player2, y: -23_500 });
}
