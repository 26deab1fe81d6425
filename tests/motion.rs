use space_game::enemies::Enemy;
use space_game::fixed::Vec2;
use space_game::kinematics::{enemy_turn, integrate, move_enemy, move_player, normalize};
use space_game::player::{Part, Player};

fn v(x: i64, y: i64) -> Vec2 {
    Vec2 { x, y }
}

fn ship() -> Player {
    Player {
        pos: v(0, 0),
        vel: v(0, 0),
        dir: v(1000, 0),
        speed_original: 500_000,
        left_turn_original: 180_000,
        right_turn_original: 180_000,
        parts: vec![Part {
            pos: v(0, 0),
            location: v(10_000, 0),
            health: 2000,
            starting_health: 2000,
            size: 8000,
            name: "Nose".to_string(),
        }],
        damage: vec![],
        partical_emmiters: vec![],
        bullet_emmiters: vec![],
        speed: 500_000,
        left_turn: 180_000,
        right_turn: 180_000,
    }
}

#[test]
fn ship_thrust_from_rest() {
    let mut p = ship();
    move_player(&mut p, v(1000, 0), 100);
    assert_eq!(p.vel, v(50_000, 0));
    assert_eq!(p.pos, v(5000, 0));
    assert_eq!(p.dir, v(1000, 0));
    assert_eq!(p.parts[0].pos, v(15_000, 0));
}

#[test]
fn ship_zero_dt_stands_still() {
    let mut p = ship();
    p.vel = v(123_000, -45_000);
    p.pos = v(7, -9);
    move_player(&mut p, v(1000, 0), 0);
    assert_eq!(p.vel, v(123_000, -45_000));
    assert_eq!(p.pos, v(7, -9));
}

#[test]
fn lateral_damping_and_drag() {
    let (pos, vel, dir) = integrate(v(0, 0), v(0, 100_000), v(1000, 0), v(1000, 0), 0, 1000, 100);
    assert_eq!(dir, v(1000, 0));
    assert_eq!(vel, v(-5000, 90_000));
    assert_eq!(pos, v(-500, 9000));
}

#[test]
fn turning_keeps_unit_facing() {
    let (_, _, dir) = integrate(v(0, 0), v(0, 0), v(1000, 0), v(0, 1000), 0, 1000, 16);
    assert_eq!(dir, v(0, 1000));
    assert_eq!(normalize(v(3000, 4000), v(1000, 0)), v(600, 800));
    assert_eq!(normalize(v(0, 0), v(1000, 0)), v(1000, 0));
    assert_eq!(normalize(v(707, 706), v(1000, 0)), v(707, 706));
}

#[test]
fn enemy_turns_toward_aim_and_moves() {
    let mut e = Enemy {
        name: "Basic".to_string(),
        pos: v(0, 0),
        vel: v(0, 0),
        dir: v(1000, 0),
        targetpos: v(0, 50_000),
        speed: 400_000,
        turningspeed: 90_000,
        predictive: false,
        texture_scale: 2000,
        friction: 500,
        size: 16_000,
        health: 3000,
        partical_emmiters: vec![],
        bullet_emmiters: vec![],
        texture_id: 0,
        extra_texture_ids: vec![],
    };
    assert_eq!(enemy_turn(&e, 100), 9000);
    e.targetpos = v(0, -50_000);
    assert_eq!(enemy_turn(&e, 100), -9000);
    move_enemy(&mut e, v(1000, 0), 100);
    assert_eq!(e.vel, v(40_000, 0));
    assert_eq!(e.pos, v(4000, 0));
}
