use spool::entity::BallType;
use spool::game::{Cue, Game, GameState, Upgrade};
use spool::vec2::Vec2;

fn last_player_ball(game: &Game) -> usize {
    let balls = &game.world().balls;
    let mut found = None;
    for (index, ball) in balls.iter().enumerate() {
        if ball.letypedelaboule == BallType::Player {
            found = Some(index);
        }
    }
    found.unwrap()
}

fn through_the_tutorial(seed: u64) -> Game {
    let mut game = Game::new(seed);
    game.press_space(0);
    game.press_space(0);
    game.press_space(0);
    assert_eq!(game.state(), GameState::Playing);
    game
}

/// Plays rounds, each time launching the last player ball by `aim`, until
/// the game is over. Returns the ticks of each round.
fn play_to_the_end(game: &mut Game, aim: Vec2) -> Vec<usize> {
    let mut rounds = Vec::new();
    while game.state() == GameState::Playing {
        let index = last_player_ball(game);
        let position = game.world().balls[index].position;
        game.press(position);
        assert_eq!(game.selected(), Some(index));
        assert_eq!(game.drag(position.plus(aim), true), Some(aim));
        assert_eq!(game.selected(), None);
        assert_eq!(game.aim(index), Some(aim));
        assert_eq!(game.press_space(0), Some(Cue::Shot));
        assert_eq!(game.state(), GameState::Running);
        let mut ticks = 0;
        while game.state() == GameState::Running {
            game.game_tick();
            ticks += 1;
            assert!(ticks < 100_000);
        }
        assert!(game.is_valid());
        rounds.push(ticks);
    }
    rounds
}

#[test]
fn game_starts_at_the_menu() {
    let game = Game::new(7);
    assert_eq!(game.state(), GameState::Menu);
    assert_eq!(game.total_money(), 0);
    assert_eq!(game.best_round(), 0);
    assert_eq!(game.selected(), None);
    assert_eq!(game.aim(0), None);
    assert_eq!(game.level(Upgrade::AimAssist), 0);
    assert_eq!(game.level(Upgrade::MaxSpeed), 0);
    assert_eq!(game.level(Upgrade::Profitability), 0);
    assert_eq!(game.level(Upgrade::StartMass), 0);
    assert_eq!(game.level(Upgrade::Sliding), 0);
    assert_eq!(game.world().balls.len(), 3);
    assert_eq!(game.world().round, 0);
    assert!(game.is_valid());
}

#[test]
fn space_turns_the_pages_of_the_tutorial() {
    let mut game = Game::new(7);
    assert_eq!(game.press_space(0), Some(Cue::Button));
    assert_eq!(game.state(), GameState::Tuto1);
    assert_eq!(game.press_space(0), Some(Cue::Button));
    assert_eq!(game.state(), GameState::Tuto2);
    assert_eq!(game.press_space(0), Some(Cue::Button));
    assert_eq!(game.state(), GameState::Playing);
    assert!(game.is_valid());
}

#[test]
fn escape_leaves_the_tutorial() {
    let mut game = Game::new(7);
    assert_eq!(game.press_escape(), None);
    assert_eq!(game.state(), GameState::Menu);
    game.press_space(0);
    assert_eq!(game.press_escape(), Some(Cue::Button));
    assert_eq!(game.state(), GameState::Playing);
    assert_eq!(game.press_escape(), None);
    assert_eq!(game.state(), GameState::Playing);

    let mut game = Game::new(7);
    game.press_space(0);
    game.press_space(0);
    assert_eq!(game.state(), GameState::Tuto2);
    assert_eq!(game.press_escape(), Some(Cue::Button));
    assert_eq!(game.state(), GameState::Playing);
}

#[test]
fn clock_stands_still_outside_a_round() {
    let mut game = Game::new(7);
    assert!(game.game_tick().is_empty());
    assert_eq!(game.state(), GameState::Menu);
    let mut game = through_the_tutorial(7);
    assert!(game.game_tick().is_empty());
    assert_eq!(game.state(), GameState::Playing);
    assert_eq!(game.world().round, 0);
    assert!(game.world().coins.is_empty());
}

#[test]
fn space_without_an_aim_launches_nothing() {
    let mut game = through_the_tutorial(7);
    assert_eq!(game.press_space(0), None);
    assert_eq!(game.state(), GameState::Playing);
    assert_eq!(game.world().balls.len(), 3);
}

#[test]
fn press_takes_hold_of_a_player_ball_only() {
    let mut game = through_the_tutorial(7);
    // On an enemy ball.
    game.press(Vec2::new(76_000_000, 76_000_000));
    assert_eq!(game.selected(), None);
    // Beside the player's ball, whose radius is 50000000.
    game.press(Vec2::new(963_000_000 + 50_000_000, 505_000_000));
    assert_eq!(game.selected(), None);
    game.press(Vec2::new(963_000_000 + 49_999_999, 505_000_000));
    assert_eq!(game.selected(), Some(0));
    // A press beside every ball keeps the hold.
    game.press(Vec2::new(100_000_000, 900_000_000));
    assert_eq!(game.selected(), Some(0));
}

#[test]
fn press_outside_a_round_does_nothing() {
    let mut game = Game::new(7);
    game.press(Vec2::new(963_000_000, 505_000_000));
    assert_eq!(game.selected(), None);
    assert_eq!(game.drag(Vec2::new(963_000_000, 505_000_000), true), None);
}

#[test]
fn drag_gives_the_aim_and_cuts_it() {
    let mut game = through_the_tutorial(7);
    assert_eq!(game.drag(Vec2::new(0, 0), false), None);
    game.press(Vec2::new(963_000_000, 505_000_000));
    assert_eq!(
        game.drag(Vec2::new(963_000_000 + 30_000_000, 505_000_000 - 40_000_000), false),
        Some(Vec2::new(30_000_000, -40_000_000))
    );
    assert_eq!(game.selected(), Some(0));
    assert_eq!(game.aim(0), None);
    // An aim of length 200000000 is cut to 150000000.
    assert_eq!(
        game.drag(Vec2::new(963_000_000 + 120_000_000, 505_000_000 + 160_000_000), false),
        Some(Vec2::new(90_000_000, 120_000_000))
    );
    assert_eq!(game.selected(), Some(0));
    // Beyond 200000000 the ball is let go.
    assert_eq!(
        game.drag(Vec2::new(963_000_000 + 120_000_001, 505_000_000 + 160_000_000), false),
        Some(Vec2::new(90_000_000, 120_000_000))
    );
    assert_eq!(game.selected(), None);
    assert_eq!(game.aim(0), None);
}

#[test]
fn release_sets_the_aim() {
    let mut game = through_the_tutorial(7);
    game.press(Vec2::new(963_000_000, 505_000_000));
    assert_eq!(
        game.drag(Vec2::new(963_000_000 - 100_000_000, 505_000_000), true),
        Some(Vec2::new(-100_000_000, 0))
    );
    assert_eq!(game.selected(), None);
    assert_eq!(game.aim(0), Some(Vec2::new(-100_000_000, 0)));
    assert_eq!(game.aim(1), None);
    assert_eq!(game.aim(2), None);
    assert_eq!(game.aim(3), None);
    // A second aim for the same ball replaces the first.
    game.press(Vec2::new(963_000_000, 505_000_000));
    game.drag(Vec2::new(963_000_000, 505_000_000 + 10), true);
    assert_eq!(game.aim(0), Some(Vec2::new(0, 10)));
    assert!(game.is_valid());
}

#[test]
fn release_out_of_reach_still_sets_the_aim() {
    let mut game = through_the_tutorial(7);
    game.press(Vec2::new(963_000_000, 505_000_000));
    assert_eq!(
        game.drag(Vec2::new(963_000_000, 505_000_000 + 300_000_000), true),
        Some(Vec2::new(0, 150_000_000))
    );
    assert_eq!(game.aim(0), Some(Vec2::new(0, 150_000_000)));
}

#[test]
fn pointer_far_off_the_table_is_brought_into_range() {
    let mut game = through_the_tutorial(7);
    game.press(Vec2::new(963_000_000, 505_000_000));
    assert_eq!(
        game.drag(Vec2::new(i64::MAX, 505_000_000), false),
        Some(Vec2::new(150_000_000, 0))
    );
    assert_eq!(game.selected(), None);
    game.press(Vec2::new(i64::MIN, i64::MIN));
    assert_eq!(game.selected(), None);
}

#[test]
fn space_launches_the_aimed_balls() {
    let mut game = through_the_tutorial(7);
    game.press(Vec2::new(963_000_000, 505_000_000));
    game.drag(Vec2::new(963_000_000 + 150_000_000, 505_000_000), true);
    assert_eq!(game.press_space(0), Some(Cue::Shot));
    assert_eq!(game.state(), GameState::Running);
    assert_eq!(game.aim(0), None);
    assert_eq!(game.selected(), None);
    let balls = &game.world().balls;
    assert_eq!(balls.len(), 4);
    assert_eq!(balls[2].speed, Vec2::new(1_500_000, 0));
    assert_eq!(balls[3].speed, Vec2::new(-1_500_000, 0));
    assert_eq!(game.press_space(0), None);
    assert_eq!(game.state(), GameState::Running);
    assert!(game.is_valid());
}

#[test]
fn round_ends_when_the_balls_have_settled() {
    let mut game = through_the_tutorial(7);
    game.press(Vec2::new(963_000_000, 505_000_000));
    game.drag(Vec2::new(963_000_000 + 150_000_000, 505_000_000), true);
    game.press_space(0);
    let mut ticks = 0;
    while game.state() == GameState::Running {
        game.game_tick();
        ticks += 1;
    }
    assert_eq!(ticks, 2088);
    assert_eq!(game.state(), GameState::Playing);
    assert_eq!(game.world().round, 1);
    assert_eq!(
        game.world().coins,
        vec![Vec2::new(1_796_856_955, 876_610_301), Vec2::new(547_126_115, 291_470_830)]
    );
    assert_eq!(game.world().balls.len(), 4);
    assert_eq!(game.aim(0), None);
    assert!(game.is_valid());
}

#[test]
fn whole_game_and_the_shop() {
    let mut game = through_the_tutorial(11);
    let aim = Vec2::new(106_000_000, 106_000_000);
    let rounds = play_to_the_end(&mut game, aim);
    assert_eq!(rounds, vec![6455, 6455, 6455, 6455, 6455]);
    assert_eq!(game.state(), GameState::GameOver);
    assert_eq!(game.total_money(), 700);
    assert_eq!(game.best_round(), 5);
    assert_eq!(game.world().money, 0);
    assert_eq!(game.world().round, 5);
    assert_eq!(game.world().balls.len(), 10);
    assert_eq!(game.world().coins.len(), 14);
    assert!(game.world().is_game_over());

    // Nothing is for sale before the shop opens.
    assert_eq!(game.buy(Upgrade::MaxSpeed), None);
    assert!(game.game_tick().is_empty());
    assert_eq!(game.state(), GameState::GameOver);

    assert_eq!(game.press_space(0), None);
    assert_eq!(game.state(), GameState::Shopping);
    assert_eq!(game.buy(Upgrade::Sliding), Some(Cue::Button));
    assert_eq!(game.total_money(), 200);
    assert_eq!(game.level(Upgrade::Sliding), 1);
    // The next level costs 1500, a first level of anything else 500.
    assert_eq!(game.buy(Upgrade::Sliding), None);
    assert_eq!(game.buy(Upgrade::StartMass), None);
    assert_eq!(game.total_money(), 200);
    assert_eq!(game.level(Upgrade::Sliding), 1);
    assert_eq!(game.level(Upgrade::StartMass), 0);
    assert!(game.is_valid());

    assert_eq!(game.press_space(99), None);
    assert_eq!(game.state(), GameState::Playing);
    assert_eq!(game.total_money(), 200);
    assert_eq!(game.best_round(), 5);
    let world = game.world();
    assert_eq!(world.balls.len(), 3);
    assert!(world.coins.is_empty());
    assert_eq!(world.round, 0);
    assert_eq!(world.money, 0);
    assert!(!world.is_game_over());
    assert_eq!(world.balls[0].friction_coeff, 999_450_000);
    assert_eq!(world.balls[0].mass, 300_000_000);
    assert!(game.is_valid());
}

#[test]
fn money_adds_up_over_games() {
    let mut game = through_the_tutorial(11);
    let aim = Vec2::new(106_000_000, 106_000_000);
    play_to_the_end(&mut game, aim);
    assert_eq!(game.total_money(), 700);
    game.press_space(0);
    game.press_space(11);
    assert_eq!(game.state(), GameState::Playing);
    play_to_the_end(&mut game, aim);
    assert_eq!(game.state(), GameState::GameOver);
    assert_eq!(game.total_money(), 1400);
    assert_eq!(game.best_round(), 5);
}
