use pong::ball::{Ball, Outcome, StepDraws, BALL_SPEED, MAX_SPEED};
use pong::field::{Playfield, SCOREBAR_HEIGHT, WINDOW_HEIGHT, WINDOW_WIDTH};
use pong::game::Game;
use pong::heading::Direction;
use pong::paddle::{Keys, Paddle, Player};
use pong::score::Score;
use pong::serve::ServeDraw;
use pong::state::{AppState, MenuControl, Transition};

fn first_serve() -> ServeDraw {
    ServeDraw { angle: 785_398, flip_x: false, flip_y: false }
}

fn quiet(angle: i64) -> StepDraws {
    StepDraws { jitter_x: 0, jitter_y: 0, serve: ServeDraw { angle, flip_x: false, flip_y: false } }
}

#[test]
fn a_step_in_the_menu_changes_nothing() {
    let mut game = Game::new_with(Playfield::standard(), &first_serve());
    game.state = AppState::Menu;
    let before = game;
    let keys = Keys { w: true, s: false, up: false, down: true };
    assert!(game.check_step(16_667));
    assert_eq!(game.step_with(16_667, &keys, &quiet(500_000)), None);
    assert_eq!(game, before);
    assert_eq!(game.step(16_667, &keys), None);
    assert_eq!(game, before);
}

#[test]
fn a_new_game_is_in_progress_at_nil_nil() {
    let field = Playfield::standard();
    let game = Game::new_with(field, &first_serve());
    assert_eq!(game.state, AppState::InGame);
    assert_eq!(game.field, field);
    assert_eq!(game.score, Score { player1: 0, player2: 0 });
    assert_eq!(game.player1, Paddle { owner: Player::Player1, y: -23_500 });
    assert_eq!(game.player2, Paddle { owner: Player::Player2, y: -23_500 });
    assert_eq!(
        game.ball,
        Ball { x: 0, y: -23_500, velocity: BALL_SPEED, direction: Direction { x: -707_107, y: 707_107 } }
    );
    assert!(game.check());
    let drawn = Game::new(field);
    assert!(drawn.check());
    assert_eq!(drawn.state, AppState::InGame);
    assert_eq!((drawn.ball.x, drawn.ball.y, drawn.ball.velocity), (0, -23_500, BALL_SPEED));
    assert_eq!(AppState::default(), AppState::InGame);
}

#[test]
fn a_frame_moves_the_paddles_and_then_the_ball() {
    let mut game = Game::new_with(Playfield::standard(), &first_serve());
    game.ball = Ball { x: -351_000, y: 61_000, velocity: BALL_SPEED, direction: Direction { x: -1_000_000, y: 0 } };
    game.player1.y = 0;
    game.player2.y = 0;
    let keys = Keys { w: true, s: false, up: false, down: true };
    let outcome = game.step_with(16_667, &keys, &quiet(500_000));
    assert_eq!(outcome, Some(Outcome::InPlay));
    assert_eq!(game.player1.y, 8_333);
    assert_eq!(game.player2.y, -8_333);
    assert_eq!(game.ball.direction, Direction { x: 1_000_000, y: 0 });
    assert_eq!((game.ball.x, game.ball.y), (-342_664, 61_000));
    assert_eq!(game.ball.velocity, 500_166);
    assert_eq!(game.state, AppState::InGame);
}

#[test]
fn a_frame_can_end_in_a_point() {
    let mut game = Game::new_with(Playfield::standard(), &first_serve());
    game.ball.x = 385_000;
    game.ball.y = 0;
    game.ball.direction = Direction { x: 1_000_000, y: 0 };
    let outcome = game.step_with(1_000_000, &Keys::none(), &quiet(1_000_000));
    assert_eq!(outcome, Some(Outcome::Point(Player::Player1)));
    assert_eq!(game.score, Score { player1: 1, player2: 0 });
    assert_eq!(
        game.ball,
        Ball { x: 0, y: -23_500, velocity: BALL_SPEED, direction: Direction { x: -841_471, y: 540_302 } }
    );
    assert_eq!(game.player1.y, -23_500);
}

#[test]
fn a_long_random_game_keeps_its_shape() {
    let mut game = Game::new(Playfield::standard());
    let bounds = game.field.bounds();
    let mut points = 0;
    for i in 0..20_000u32 {
        let keys = Keys { w: i % 3 == 0, s: i % 5 == 0, up: i % 7 == 0, down: i % 2 == 0 };
        assert!(game.check_step(16_667));
        let before = game;
        match game.step(16_667, &keys) {
            Some(Outcome::InPlay) => {
                assert_eq!(game.score, before.score);
                assert!(game.ball.velocity >= before.ball.velocity);
            }
            Some(Outcome::Point(player)) => {
                points += 1;
                assert_eq!(game.score.points(player), before.score.points(player) + 1);
                assert_eq!(game.ball.velocity, BALL_SPEED);
                assert_eq!((game.ball.x, game.ball.y), (0, bounds.start_y));
            }
            None => panic!("the game is in progress"),
        }
        assert!(game.ball.direction.check_unit());
        assert!(bounds.paddle_floor <= game.player1.y && game.player1.y <= bounds.paddle_ceiling);
        assert!(bounds.paddle_floor <= game.player2.y && game.player2.y <= bounds.paddle_ceiling);
        assert!(bounds.left_wall <= game.ball.x && game.ball.x <= bounds.right_wall);
        assert!(bounds.floor <= game.ball.y && game.ball.y <= bounds.ceiling);
    }
    assert!(points > 0);
    assert_eq!(game.score.player1 + game.score.player2, points);
}

#[test]
fn start_leaves_the_menu_and_exit_asks_to_end() {
    assert_eq!(
        AppState::Menu.press(MenuControl::Start),
        Transition { next: AppState::InGame, exit: false }
    );
    assert_eq!(
        AppState::Menu.press(MenuControl::Exit),
        Transition { next: AppState::Menu, exit: true }
    );
    assert_eq!(
        AppState::InGame.press(MenuControl::Start),
        Transition { next: AppState::InGame, exit: false }
    );
    assert_eq!(
        AppState::InGame.press(MenuControl::Exit),
        Transition { next: AppState::InGame, exit: false }
    );
    assert!(AppState::InGame.is_running());
    assert!(!AppState::Menu.is_running());
}

#[test]
fn pressing_a_control_changes_only_the_mode() {
    let mut game = Game::new_with(Playfield::standard(), &first_serve());
    game.state = AppState::Menu;
    let before = game;
    assert!(game.press(MenuControl::Exit));
    assert_eq!(game, before);
    assert!(!game.press(MenuControl::Start));
    assert_eq!(game.state, AppState::InGame);
    assert_eq!(game, Game { state: AppState::InGame, ..before });
    assert!(!game.press(MenuControl::Exit));
    assert_eq!(game.state, AppState::InGame);
}

#[test]
fn playfield_must_hold_paddles_and_ball() {
    assert_eq!(
        Playfield::new(802_000, 455_000, 47_000),
        Some(Playfield { width: 802_000, height: 455_000, scorebar: 47_000 })
    );
    assert_eq!(Playfield::standard(), Playfield { width: WINDOW_WIDTH, height: WINDOW_HEIGHT, scorebar: SCOREBAR_HEIGHT });
    assert_eq!(Playfield::new(802_000, 167_000, 47_000), Some(Playfield { width: 802_000, height: 167_000, scorebar: 47_000 }));
    assert_eq!(Playfield::new(802_000, 166_999, 47_000), None);
    assert_eq!(Playfield::new(802_000, 119_000, 0), None);
    assert_eq!(Playfield::new(98_000, 455_000, 47_000), Some(Playfield { width: 98_000, height: 455_000, scorebar: 47_000 }));
    assert_eq!(Playfield::new(97_999, 455_000, 47_000), None);
    assert_eq!(Playfield::new(0, 455_000, 47_000), None);
    assert_eq!(Playfield::new(802_000, 455_000, -1), None);
    assert_eq!(Playfield::new(1_000_000_000_001, 455_000, 47_000), None);
    assert_eq!(Playfield::new(802_000, 1_000_000_000_001, 47_000), None);
    assert!(!Playfield { width: -5, height: 455_000, scorebar: 47_000 }.check());
}

#[test]
fn bounds_follow_from_the_dimensions() {
    let b = Playfield::standard().bounds();
    assert_eq!((b.left_wall, b.right_wall), (-386_000, 386_000));
    assert_eq!((b.floor, b.ceiling), (-212_500, 165_500));
    assert_eq!((b.left_guard, b.right_guard), (-352_000, 352_000));
    assert_eq!((b.paddle_floor, b.paddle_ceiling), (-167_500, 120_500));
    assert_eq!(b.start_y, -23_500);
}

#[test]
fn resize_takes_only_dimensions_that_fit() {
    let mut game = Game::new_with(Playfield::standard(), &first_serve());
    let before = game;
    assert!(!game.resize(802_000, 100_000, 47_000));
    assert_eq!(game, before);
    assert!(game.resize(1_604_000, 910_000, 94_000));
    assert_eq!(game.field, Playfield { width: 1_604_000, height: 910_000, scorebar: 94_000 });
    assert_eq!(game, Game { field: game.field, ..before });
    game.player1.y = 300_000;
    game.resize(802_000, 455_000, 47_000);
    game.step_with(0, &Keys::none(), &quiet(500_000));
    assert_eq!(game.player1.y, 120_500);
}

#[test]
fn score_counts_each_side_on_its_own() {
    let mut score = Score::new();
    assert_eq!(score, Score { player1: 0, player2: 0 });
    score.award(Player::Player2);
    score.award(Player::Player2);
    score.award(Player::Player1);
    assert_eq!(score, Score { player1: 1, player2: 2 });
    assert_eq!(score.points(Player::Player1), 1);
    assert_eq!(score.points(Player::Player2), 2);
    assert!(score.check_room());
    assert!(!Score { player1: u32::MAX, player2: 0 }.check_room());
    assert!(!Score { player1: 0, player2: u32::MAX }.check_room());
}

#[test]
fn a_game_that_cannot_step_says_so() {
    let mut game = Game::new_with(Playfield::standard(), &first_serve());
    assert!(game.check_step(3_600_000_000));
    assert!(!game.check_step(u64::MAX));
    game.ball.velocity = MAX_SPEED;
    assert!(game.check_step(99));
    assert!(!game.check_step(100));
    game.state = AppState::Menu;
    assert!(game.check_step(100));
    game.state = AppState::InGame;
    game.ball.velocity = BALL_SPEED;
    game.score.player2 = u32::MAX;
    assert!(!game.check_step(0));
    game.score.player2 = 0;
    game.player1.owner = Player::Player2;
    assert!(!game.check());
    assert!(!game.check_step(0));
    game.player1.owner = Player::Player1;
    game.ball.direction = Direction { x: 1, y: 1 };
    assert!(!game.check());
    game.ball.direction = Direction { x: 600_000, y: 800_000 };
    game.field.height = 10;
    assert!(!game.check());
}
