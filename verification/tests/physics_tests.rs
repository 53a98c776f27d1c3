use spool::entity::{Ball, BallType, EnemyData};
use spool::fixed::LIMIT;
use spool::physics::Contact;
use spool::sounds::{SoundSet, Sounds};
use spool::table::{HOLE_RADIUS, WORLD_HEIGHT, WORLD_WIDTH};
use spool::vec2::Vec2;
use spool::world::World;

fn player(mass: i64, x: i64, y: i64, vx: i64, vy: i64, radius: i64) -> Ball {
    Ball::new(mass, Vec2::new(x, y), Vec2::new(vx, vy), 999_400_000, radius, BallType::Player)
}

fn enemy(mass: i64, x: i64, y: i64, vx: i64, vy: i64, radius: i64, timer: usize) -> Ball {
    Ball::new(
        mass,
        Vec2::new(x, y),
        Vec2::new(vx, vy),
        999_400_000,
        radius,
        BallType::Enemy(EnemyData { timer }),
    )
}

#[test]
fn ball_is_built_from_its_parts() {
    let ball = Ball::new(
        7,
        Vec2::new(1, 2),
        Vec2::new(3, 4),
        5,
        6,
        BallType::Enemy(EnemyData { timer: 9 }),
    );
    assert_eq!(ball.mass, 7);
    assert_eq!(ball.position, Vec2::new(1, 2));
    assert_eq!(ball.speed, Vec2::new(3, 4));
    assert_eq!(ball.friction_coeff, 5);
    assert_eq!(ball.radius, 6);
    assert_eq!(ball.letypedelaboule, BallType::Enemy(EnemyData { timer: 9 }));
    assert!(!ball.is_player());
    assert!(player(1, 0, 0, 0, 0, 1).is_player());
}

#[test]
fn ball_validity() {
    assert!(player(1, 0, 0, 0, 0, 1).is_valid());
    assert!(player(LIMIT, LIMIT, -LIMIT, LIMIT, -LIMIT, LIMIT).is_valid());
    assert!(!player(0, 0, 0, 0, 0, 1).is_valid());
    assert!(!player(1, 0, 0, 0, 0, 0).is_valid());
    assert!(!player(LIMIT + 1, 0, 0, 0, 0, 1).is_valid());
    assert!(!player(1, LIMIT + 1, 0, 0, 0, 1).is_valid());
    assert!(!player(1, 0, 0, 0, -LIMIT - 1, 1).is_valid());
    let mut frictionless = player(1, 0, 0, 0, 0, 1);
    frictionless.friction_coeff = 1_000_000_000;
    assert!(!frictionless.is_valid());
    frictionless.friction_coeff = 0;
    assert!(!frictionless.is_valid());
    frictionless.friction_coeff = 999_999_999;
    assert!(frictionless.is_valid());
}

#[test]
fn integration_moves_then_slows() {
    let mut ball = player(300_000_000, 963_000_000, 505_000_000, 1_000_000, -2_000_000, 50_000_000);
    ball.integrate();
    assert_eq!(ball.position, Vec2::new(964_000_000, 503_000_000));
    assert_eq!(ball.speed, Vec2::new(999_400, -1_998_800));
    assert_eq!(ball.mass, 300_000_000);
    assert_eq!(ball.radius, 50_000_000);
}

#[test]
fn integration_never_speeds_a_ball_up() {
    let mut ball = player(1, 500_000_000, 500_000_000, 123_457, -98_765, 10);
    let mut last = ball.speed.length_squared();
    for _ in 0..2000 {
        ball.integrate();
        let now = ball.speed.length_squared();
        assert!(now <= last);
        last = now;
    }
}

#[test]
fn friction_brings_a_ball_to_rest() {
    let mut ball = player(1, 963_000_000, 505_000_000, 40_000, 0, 10);
    let mut ticks = 0;
    while ball.is_moving() {
        ball.integrate();
        ticks += 1;
        assert!(ticks < 1000);
    }
    assert_eq!(ticks, 468);
}

#[test]
fn border_left_and_bottom() {
    let mut ball = player(1, 40_000_000, 30_000_000, -5_000_000, -3_000_000, 50_000_000);
    let mut sounds = SoundSet::new();
    World::check_border(&mut ball, &mut sounds);
    assert_eq!(ball.position, Vec2::new(50_000_000, 50_000_000));
    assert_eq!(ball.speed, Vec2::new(5_000_000, 3_000_000));
    assert_eq!(sounds.to_vec(), vec![Sounds::Border]);
}

#[test]
fn border_right_and_top() {
    let mut ball = player(1, 1_900_000_000, 1_000_000_000, 5_000_000, 3_000_000, 50_000_000);
    let mut sounds = SoundSet::new();
    World::check_border(&mut ball, &mut sounds);
    assert_eq!(ball.position, Vec2::new(1_876_000_000, 960_000_000));
    assert_eq!(ball.speed, Vec2::new(-5_000_000, -3_000_000));
    assert!(sounds.contains(Sounds::Border));
}

#[test]
fn border_on_one_axis_only() {
    let mut ball = player(1, 40_000_000, 500_000_000, -5_000_000, 3_000_000, 50_000_000);
    let mut sounds = SoundSet::new();
    World::check_border(&mut ball, &mut sounds);
    assert_eq!(ball.position, Vec2::new(50_000_000, 500_000_000));
    assert_eq!(ball.speed, Vec2::new(5_000_000, 3_000_000));
    assert!(sounds.contains(Sounds::Border));
}

#[test]
fn border_leaves_a_ball_inside_alone() {
    let mut ball = player(1, 50_000_000, 960_000_000, -5_000_000, 3_000_000, 50_000_000);
    let before = ball;
    let mut sounds = SoundSet::new();
    World::check_border(&mut ball, &mut sounds);
    assert_eq!(ball, before);
    assert!(sounds.is_empty());
}

#[test]
fn border_keeps_other_sounds() {
    let mut ball = player(1, 500_000_000, 500_000_000, 0, 0, 50_000_000);
    let mut sounds = SoundSet::new();
    sounds.insert(Sounds::Coin);
    World::check_border(&mut ball, &mut sounds);
    assert_eq!(sounds.to_vec(), vec![Sounds::Coin]);
}

#[test]
fn hole_test_is_strict() {
    let at_pocket = player(1, HOLE_RADIUS, HOLE_RADIUS, 0, 0, 10);
    assert!(at_pocket.in_hole());
    let just_inside = player(1, HOLE_RADIUS + HOLE_RADIUS - 1, HOLE_RADIUS, 0, 0, 10);
    assert!(just_inside.in_hole());
    let on_the_rim = player(1, HOLE_RADIUS + HOLE_RADIUS, HOLE_RADIUS, 0, 0, 10);
    assert!(!on_the_rim.in_hole());
    let middle = player(1, WORLD_WIDTH / 2, WORLD_HEIGHT / 2, 0, 0, 10);
    assert!(!middle.in_hole());
}

#[test]
fn every_pocket_swallows() {
    let pockets = [
        (38_000_000, 38_000_000),
        (38_000_000, 972_000_000),
        (963_000_000, 38_000_000),
        (963_000_000, 972_000_000),
        (1_888_000_000, 38_000_000),
        (1_888_000_000, 972_000_000),
    ];
    for (x, y) in pockets {
        assert!(player(1, x + 20_000_000, y - 20_000_000, 0, 0, 10).in_hole());
        assert!(!player(1, x + 30_000_000, y - 30_000_000, 0, 0, 10).in_hole());
    }
    let world = World::new(0, 0, 0, 0, 1);
    assert!(world.in_hole(&player(1, 963_000_000, 972_000_000, 0, 0, 10)));
    assert!(!world.in_hole(&player(1, 963_000_000, 505_000_000, 0, 0, 10)));
}

#[test]
fn overlap_is_strict() {
    let a = player(1, 100, 100, 0, 0, 30);
    let touching = player(1, 150, 100, 0, 0, 20);
    assert!(!a.overlaps(&touching));
    assert_eq!(a.overlap(&touching), 0);
    let inside = player(1, 149, 100, 0, 0, 20);
    assert!(a.overlaps(&inside));
    assert_eq!(a.overlap(&inside), 1);
    let apart = player(1, 200, 100, 0, 0, 20);
    assert!(!a.overlaps(&apart));
    assert_eq!(a.overlap(&apart), -50);
    let same = player(1, 100, 100, 0, 0, 20);
    assert!(a.overlaps(&same));
    assert_eq!(a.overlap(&same), 50);
}

#[test]
fn overlap_uses_the_rounded_distance() {
    let a = player(1, 0, 0, 0, 0, 1);
    let b = player(1, 1, 1, 0, 0, 1);
    // The distance is the square root of 2, which rounds down to 1.
    assert_eq!(a.overlap(&b), 1);
    assert!(a.overlaps(&b));
}

#[test]
fn merge_adds_masses_and_areas() {
    let a = player(300_000_000, 100_000_000, 200_000_000, 6_000_000, 8_000_000, 30_000_000);
    let mut b = player(100_000_000, 140_000_000, 200_000_000, -2_000_000, -4_000_000, 40_000_000);
    b.friction_coeff = 999_500_000;
    let merged = a.merge(&b);
    assert_eq!(merged.mass, 400_000_000);
    assert_eq!(merged.position, Vec2::new(110_000_000, 200_000_000));
    assert_eq!(merged.radius, 50_000_000);
    assert_eq!(merged.friction_coeff, 999_400_000);
    assert_eq!(merged.letypedelaboule, BallType::Player);
}

#[test]
fn merge_halves_the_speed_across_the_table() {
    let a = player(300_000_000, 100_000_000, 200_000_000, 6_000_000, 8_000_000, 30_000_000);
    let b = player(100_000_000, 140_000_000, 200_000_000, -2_000_000, -4_000_000, 40_000_000);
    let merged = a.merge(&b);
    assert_eq!(merged.speed, Vec2::new(4_000_000, 2_500_000));
}

#[test]
fn merge_saturates_mass_and_radius() {
    let a = player(LIMIT, 0, 0, 0, 0, LIMIT);
    let b = player(LIMIT, 10, 10, 0, 0, LIMIT);
    let merged = a.merge(&b);
    assert_eq!(merged.mass, LIMIT);
    assert_eq!(merged.radius, LIMIT);
    assert_eq!(merged.position, Vec2::new(5, 5));
    assert!(merged.is_valid());
}

#[test]
fn bounce_pushes_each_ball_by_the_mass_of_the_other() {
    let a = player(300_000_000, 100_000_000, 200_000_000, 6_000_000, 8_000_000, 30_000_000);
    let e = enemy(150_000_000, 140_000_000, 230_000_000, 0, 0, 35_000_000, 5);
    assert_eq!(a.overlap(&e), 15_000_000);
    let (a2, e2) = a.bounce(&e);
    assert_eq!(a2.speed, Vec2::new(5_820_000, 7_865_000));
    assert_eq!(e2.speed, Vec2::new(720_000, 540_000));
    assert_eq!(a2.position, a.position);
    assert_eq!(e2.position, e.position);
    assert_eq!(a2.mass, a.mass);
    assert_eq!(e2.mass, e.mass);
    assert_eq!(e2.letypedelaboule, e.letypedelaboule);
}

#[test]
fn bounce_of_concentric_balls_pushes_nowhere() {
    let a = player(300_000_000, 100_000_000, 200_000_000, 1, 2, 30_000_000);
    let e = enemy(150_000_000, 100_000_000, 200_000_000, 3, 4, 35_000_000, 5);
    let (a2, e2) = a.bounce(&e);
    assert_eq!(a2, a);
    assert_eq!(e2, e);
}

#[test]
fn contact_of_balls_apart() {
    let a = player(1, 100, 100, 0, 0, 30);
    let b = player(1, 150, 100, 0, 0, 20);
    assert_eq!(a.contact(&b), Contact::Apart);
}

#[test]
fn contact_of_two_player_balls_is_a_merge() {
    let a = player(300_000_000, 100_000_000, 200_000_000, 6_000_000, 8_000_000, 30_000_000);
    let b = player(100_000_000, 140_000_000, 200_000_000, -2_000_000, -4_000_000, 40_000_000);
    assert_eq!(a.contact(&b), Contact::Merge(a.merge(&b)));
}

#[test]
fn contact_of_player_and_enemy_is_a_bounce() {
    let a = player(300_000_000, 100_000_000, 200_000_000, 6_000_000, 8_000_000, 30_000_000);
    let e = enemy(150_000_000, 140_000_000, 230_000_000, 0, 0, 35_000_000, 5);
    let (a2, e2) = a.bounce(&e);
    assert_eq!(a.contact(&e), Contact::Bounce(a2, e2, Sounds::SlimeEnemy));
    let (e3, a3) = e.bounce(&a);
    assert_eq!(e.contact(&a), Contact::Bounce(e3, a3, Sounds::SlimeEnemy));
}

#[test]
fn contact_of_two_enemies_sounds_alike_whatever_their_timers() {
    let a = enemy(150_000_000, 100_000_000, 200_000_000, 0, 0, 35_000_000, 5);
    let b = enemy(150_000_000, 140_000_000, 230_000_000, 0, 0, 35_000_000, 2);
    let (a2, b2) = a.bounce(&b);
    assert_eq!(a.contact(&b), Contact::Bounce(a2, b2, Sounds::EnemyEnemy));
}

#[test]
fn coin_is_touched_by_player_balls_only() {
    let coin = Vec2::new(100_000_000, 100_000_000);
    let near = player(1, 100_000_000 + 59_999_999, 100_000_000, 0, 0, 50_000_000);
    assert!(near.touches_coin(coin));
    let rim = player(1, 100_000_000 + 60_000_000, 100_000_000, 0, 0, 50_000_000);
    assert!(!rim.touches_coin(coin));
    let foe = enemy(1, 100_000_000, 100_000_000, 0, 0, 50_000_000, 5);
    assert!(!foe.touches_coin(coin));
}

#[test]
fn rest_speed_is_strict() {
    assert!(!player(1, 0, 0, 0, 0, 1).is_moving());
    assert!(!player(1, 0, 0, 30_000, 0, 1).is_moving());
    assert!(player(1, 0, 0, 30_001, 0, 1).is_moving());
    assert!(player(1, 0, 0, 0, -30_001, 1).is_moving());
    assert!(!player(1, 0, 0, 18_000, 24_000, 1).is_moving());
    assert!(player(1, 0, 0, 18_000, 24_001, 1).is_moving());
}

#[test]
fn split_halves_mass_and_area() {
    let ball = player(300_000_000, 963_000_000, 505_000_000, 0, 0, 50_000_000);
    let velocity = Vec2::new(900_000, 1_200_000);
    let (one, two) = ball.split(velocity);
    assert_eq!(one.mass, 150_000_000);
    assert_eq!(two.mass, 150_000_000);
    assert_eq!(one.mass + two.mass, ball.mass);
    assert_eq!(one.radius, 35_355_339);
    assert_eq!(two.radius, 35_355_339);
    assert_eq!(one.position, Vec2::new(984_213_203, 533_284_271));
    assert_eq!(two.position, Vec2::new(941_786_797, 476_715_729));
    assert_eq!(one.speed, Vec2::new(900_000, 1_200_000));
    assert_eq!(two.speed, Vec2::new(-900_000, -1_200_000));
    assert_eq!(one.friction_coeff, ball.friction_coeff);
    assert_eq!(two.friction_coeff, ball.friction_coeff);
    assert_eq!(one.letypedelaboule, BallType::Player);
    assert_eq!(two.letypedelaboule, BallType::Player);
}

#[test]
fn split_without_speed_leaves_both_fragments_in_place() {
    let ball = player(300_000_000, 963_000_000, 505_000_000, 5, 5, 50_000_000);
    let (one, two) = ball.split(Vec2::zero());
    assert_eq!(one.position, ball.position);
    assert_eq!(two.position, ball.position);
    assert_eq!(one.speed, Vec2::zero());
    assert_eq!(two.speed, Vec2::zero());
    assert_eq!(one, two);
}

#[test]
fn split_of_odd_mass_loses_one_step() {
    let ball = player(7, 0, 0, 0, 0, 50);
    let (one, two) = ball.split(Vec2::new(1, 0));
    assert_eq!(one.mass, 3);
    assert_eq!(two.mass, 3);
}

#[test]
fn split_of_the_smallest_ball_keeps_it_a_ball() {
    let ball = player(1, 0, 0, 0, 0, 1);
    let (one, two) = ball.split(Vec2::new(1, 0));
    assert_eq!(one.mass, 1);
    assert_eq!(one.radius, 1);
    assert!(one.is_valid());
    assert!(two.is_valid());
}

#[test]
fn split_keeps_the_kind_of_the_ball() {
    let ball = enemy(150_000_000, 500_000_000, 500_000_000, 0, 0, 35_000_000, 3);
    let (one, two) = ball.split(Vec2::new(0, 1_000_000));
    assert_eq!(one.letypedelaboule, BallType::Enemy(EnemyData { timer: 3 }));
    assert_eq!(two.letypedelaboule, BallType::Enemy(EnemyData { timer: 3 }));
}

#[test]
fn split_and_merge_give_back_the_mass() {
    let ball = player(300_000_000, 963_000_000, 505_000_000, 0, 0, 50_000_000);
    let (one, two) = ball.split(Vec2::zero());
    let again = one.merge(&two);
    assert_eq!(again.mass, ball.mass);
    assert_eq!(again.position, ball.position);
    // The area is kept up to rounding.
    assert_eq!(again.radius, 49_999_999);
}
