use space_game::bullets::{retain_bullets, update_bullets, Bullet};
use space_game::color::{colorlerp, Color};
use space_game::emitters::{cycle, drain, update_bullet_emitter, update_partical_emitter, BulletEmitter, ParticalEmitter};
use space_game::enemies::{any_part_destroyed, collide_enemies, ram_parts, retain_enemies, spawn_enemy, Enemy};
use space_game::fixed::{advance, closer, rotatevector, world_pose, Vec2};
use space_game::particles::{
    enemy_dies, partical_color, particalexplosion, retain_particals, update_particals, Explosion, Partical,
    ParticalShape,
};
use space_game::player::{apply_damage, player_fire_gate, repair, steer, Damage, DamageType, Part, PartMod, Player};
use space_game::powerups::{power_ups_update, PowerUp, PowerUpType};
use space_game::render::{bullet_sprite, part_debug_color, star_tiles};
use space_game::targeting::{dist, intercept_point, isqrt, length, predict_target, turn_toward_target, update_target};
use space_game::waves::{chain_continues, release_batch, update_wave, Wave};

fn v(x: i64, y: i64) -> Vec2 {
    Vec2 { x, y }
}

fn enemy_at(x: i64, y: i64, size: i64, health: i64) -> Enemy {
    Enemy {
        name: "Basic".to_string(),
        pos: v(x, y),
        vel: v(0, 0),
        dir: v(1000, 0),
        targetpos: v(0, 0),
        speed: 400_000,
        turningspeed: 90_000,
        predictive: false,
        texture_scale: 2000,
        friction: 1000,
        size,
        health,
        partical_emmiters: vec![],
        bullet_emmiters: vec![],
        texture_id: 0,
        extra_texture_ids: vec![],
    }
}

fn part(name: &str, x: i64, y: i64, health: i64) -> Part {
    Part { pos: v(x, y), location: v(x, y), health, starting_health: 2000, size: 10_000, name: name.to_string() }
}

fn player(parts: Vec<Part>, damage: Vec<Damage>) -> Player {
    Player {
        pos: v(0, 0),
        vel: v(0, 0),
        dir: v(1000, 0),
        speed_original: 500_000,
        left_turn_original: 180_000,
        right_turn_original: 180_000,
        parts,
        damage,
        partical_emmiters: vec![],
        bullet_emmiters: vec![],
        speed: 500_000,
        left_turn: 180_000,
        right_turn: 180_000,
    }
}

fn bullet(x: i64, y: i64, friendly: bool, damage: i64, duration: u64, time: u64) -> Bullet {
    Bullet { pos: v(x, y), vel: v(0, 0), size: 2000, damage, friendly, duration, time }
}

fn wave() -> Wave {
    Wave {
        interval: 6000,
        min_interval: 1000,
        double_spawn_chance: 500,
        max_double_spawn_chance: 700,
        time: 1_000_000,
        enemy: enemy_at(0, 0, 16_000, 3000),
    }
}

fn red() -> Color {
    Color::new(255, 0, 0, 255)
}

fn blue() -> Color {
    Color::new(0, 0, 255, 0)
}

#[test]
fn emitter_drain_large_dt() {
    // One second accumulated at a 0.1 s interval: the strict drain releases
    // nine and leaves exactly one interval behind.
    assert_eq!(drain(1000, 100), (9, 100));
    let mut acc: u64 = 0;
    assert_eq!(cycle(&mut acc, 100, 1000), 0);
    assert_eq!(acc, 1000);
    assert_eq!(cycle(&mut acc, 100, 0), 9);
    assert_eq!(acc, 100);
    // A little more than one second owes ten.
    assert_eq!(drain(1001, 100), (10, 1));
}

#[test]
fn emitter_accumulator_stays_bounded() {
    for acc in [0u64, 1, 99, 100, 101, 250, 1000, 12_345] {
        let mut t = acc;
        let n = cycle(&mut t, 100, 16);
        assert!(t <= 100 + 16);
        assert_eq!(acc - n * 100 + 16, t);
    }
}

#[test]
fn friendly_bullet_aging() {
    let mut p = player(vec![part("Core", 500_000, 0, 2000)], vec![]);
    let mut bullets = vec![bullet(0, 0, true, 2000, 2000, 1500)];
    let mut enemies = vec![enemy_at(0, 0, 16_000, 2000)];
    let mut explosions: Vec<Explosion> = vec![];
    update_bullets(&mut p, &mut bullets, &mut enemies, &mut explosions, 0);
    assert_eq!(enemies[0].health, 1500);
    assert_eq!(explosions.len(), 1);
    assert_eq!(explosions[0].amount, 50);
    assert_eq!(explosions[0].start_color, Color::new(255, 0, 0, 255));
    assert_eq!(p.parts[0].health, 2000);
}

#[test]
fn hostile_bullet_hits_parts() {
    let mut p = player(vec![part("Core", 0, 0, 2000), part("Far", 900_000, 0, 2000)], vec![]);
    let mut bullets = vec![bullet(0, 0, false, 1000, 1000, 0)];
    let mut enemies = vec![enemy_at(0, 0, 16_000, 2000)];
    let mut explosions: Vec<Explosion> = vec![];
    update_bullets(&mut p, &mut bullets, &mut enemies, &mut explosions, 500);
    assert_eq!(bullets[0].time, 500);
    // Faded by half: 1000 * (1 - 500 / 1000).
    assert_eq!(p.parts[0].health, 1500);
    assert_eq!(p.parts[1].health, 2000);
    assert_eq!(enemies[0].health, 2000);
    assert_eq!(explosions.len(), 1);
    assert_eq!(explosions[0].start_color, Color::new(140, 255, 251, 255));
}

#[test]
fn bullets_move_and_expire() {
    let mut p = player(vec![part("Core", 0, 0, 2000)], vec![]);
    let mut bullets = vec![
        Bullet { pos: v(0, 0), vel: v(100_000, -50_000), size: 2000, damage: 1000, friendly: true, duration: 2000, time: 1900 },
        Bullet { pos: v(0, 0), vel: v(0, 0), size: 2000, damage: 1000, friendly: true, duration: 2000, time: 0 },
    ];
    let mut enemies: Vec<Enemy> = vec![];
    let mut explosions: Vec<Explosion> = vec![];
    update_bullets(&mut p, &mut bullets, &mut enemies, &mut explosions, 200);
    assert_eq!(bullets[0].pos, v(20_000, -10_000));
    assert_eq!(bullets[0].time, 2100);
    retain_bullets(&mut bullets);
    assert_eq!(bullets.len(), 1);
    assert_eq!(bullets[0].time, 200);
}

#[test]
fn expired_bullet_deals_no_damage() {
    let mut p = player(vec![part("Core", 500_000, 0, 2000)], vec![]);
    let mut bullets = vec![bullet(0, 0, true, 2000, 1000, 1200)];
    let mut enemies = vec![enemy_at(0, 0, 16_000, 2000)];
    let mut explosions: Vec<Explosion> = vec![];
    update_bullets(&mut p, &mut bullets, &mut enemies, &mut explosions, 0);
    assert_eq!(enemies[0].health, 2000);
}

#[test]
fn damage_propagation() {
    let parts = vec![part("Left Engine", -5000, 0, 2000), part("Right Engine", 5000, 0, 0)];
    let link = Damage { src: vec![1], des: PartMod::TurnLeft, index: 0, damage_type: DamageType::Mult };
    let mut p = player(parts, vec![link]);
    apply_damage(&mut p);
    assert_eq!(p.left_turn, 0);
    assert_eq!(p.right_turn, 180_000);
    assert_eq!(p.speed, 500_000);
    assert_eq!(steer(true, false, p.left_turn, p.right_turn, 16), 0);
    assert_eq!(steer(false, true, p.left_turn, p.right_turn, 100), 18_000);
}

#[test]
fn damage_links_scale_by_health_share() {
    let parts = vec![part("A", 0, 0, 1000), part("B", 0, 0, 2000), part("C", 0, 0, 500)];
    let links = vec![
        Damage { src: vec![0, 1], des: PartMod::Speed, index: 0, damage_type: DamageType::Mult },
        Damage { src: vec![2], des: PartMod::Speed, index: 0, damage_type: DamageType::Mult },
    ];
    let mut p = player(parts, links);
    apply_damage(&mut p);
    // 500000 * 750/1000 * 250/1000
    assert_eq!(p.speed, 93_750);
}

#[test]
fn damage_links_order_free() {
    let make = |order: [usize; 3]| {
        let all = [
            Damage { src: vec![0], des: PartMod::Speed, index: 0, damage_type: DamageType::Mult },
            Damage { src: vec![1], des: PartMod::Speed, index: 0, damage_type: DamageType::Mult },
            Damage { src: vec![0, 1], des: PartMod::Gun, index: 0, damage_type: DamageType::Mult },
        ];
        let links: Vec<Damage> = order
            .iter()
            .map(|&i| Damage { src: all[i].src.clone(), des: all[i].des, index: all[i].index, damage_type: all[i].damage_type })
            .collect();
        let mut p = player(vec![part("A", 0, 0, 1333), part("B", 0, 0, 777)], links);
        p.bullet_emmiters = vec![gun(true)];
        apply_damage(&mut p);
        (p.speed, p.bullet_emmiters[0].bullet_interval)
    };
    let first = make([0, 1, 2]);
    assert_eq!(first, make([2, 1, 0]));
    assert_eq!(first, make([1, 0, 2]));
    assert_eq!(first.0, 500_000 * 666 * 388 / 1_000_000);
}

fn gun(friendly: bool) -> BulletEmitter {
    BulletEmitter {
        pos: v(0, 0),
        location: v(10_000, 0),
        size: 2000,
        damage: 1000,
        friendly,
        duration: 2000,
        bullet_interval_orginal: 200,
        bullet_interval: 200,
        time: 0,
    }
}

#[test]
fn mutual_enemy_collision() {
    let mut enemies = vec![enemy_at(5000, 5000, 16_000, 3000), enemy_at(5000, 5000, 16_000, 3000), enemy_at(900_000, 0, 16_000, 3000)];
    let mut explosions: Vec<Explosion> = vec![];
    collide_enemies(&mut enemies, &mut explosions);
    assert_eq!(enemies[0].health, -1);
    assert_eq!(enemies[1].health, -1);
    assert_eq!(enemies[2].health, 3000);
    let total: usize = explosions.iter().map(|e| e.amount).sum();
    assert_eq!(total, 1000);
    let mut particals: Vec<Partical> = vec![];
    for e in &explosions {
        let kicks: Vec<Vec2> = (0..e.amount).map(|i| v(i as i64, -(i as i64))).collect();
        particalexplosion(&mut particals, e, &kicks);
    }
    assert_eq!(particals.len(), 1000);
    retain_enemies(&mut enemies);
    assert_eq!(enemies.len(), 1);
    assert_eq!(enemies[0].pos, v(900_000, 0));
}

#[test]
fn enemy_rams_part() {
    let mut enemies = vec![enemy_at(0, 0, 16_000, 3000), enemy_at(500_000, 0, 16_000, 3000)];
    let mut parts = vec![part("Core", 10_000, 0, 2000), part("Wing", -20_000, 0, 2000), part("Tail", 300_000, 0, 2000)];
    let mut explosions: Vec<Explosion> = vec![];
    ram_parts(&mut enemies, &mut parts, &mut explosions, v(0, 0));
    assert_eq!(enemies[0].health, -1);
    assert_eq!(enemies[1].health, 3000);
    assert_eq!(parts[0].health, 1000);
    assert_eq!(parts[1].health, 1000);
    assert_eq!(parts[2].health, 2000);
    assert_eq!(explosions.len(), 4);
    assert_eq!(explosions[0], enemy_dies(v(0, 0), v(0, 0)));
    assert_eq!(explosions[1].pos, v(10_000, 0));
    assert!(!any_part_destroyed(&parts));
    parts[2].health = 0;
    assert!(any_part_destroyed(&parts));
}

#[test]
fn predictive_intercept_stability() {
    let player_pos = v(1_000_000, 0);
    let player_dir = v(0, 1000);
    let enemy_pos = v(0, 0);
    let t9 = intercept_point(player_pos, player_dir, 100_000, enemy_pos, 600_000, 9);
    let t10 = intercept_point(player_pos, player_dir, 100_000, enemy_pos, 600_000, 10);
    assert!(dist(t9, t10) < 10);
    assert_eq!(t10.x, 1_000_000);
    assert!(t10.y > 160_000 && t10.y < 175_000);
    let aim = predict_target(player_pos, player_dir, v(0, 100_000), enemy_pos, v(600_000, 0));
    assert_eq!(aim, t10);
}

#[test]
fn stationary_enemy_aims_at_player() {
    let aim = predict_target(v(1_000_000, 0), v(0, 1000), v(0, 100_000), v(0, 0), v(0, 0));
    assert_eq!(aim, v(1_000_000, 0));
    let mut e = enemy_at(0, 0, 16_000, 3000);
    e.predictive = true;
    e.vel = v(600_000, 0);
    update_target(&mut e, v(1_000_000, 0), v(0, 1000), v(0, 100_000));
    assert!(e.targetpos.y > 0);
    e.predictive = false;
    update_target(&mut e, v(1_000_000, 0), v(0, 1000), v(0, 100_000));
    assert_eq!(e.targetpos, v(1_000_000, 0));
    // Facing +x, a target at +y is on the right-hand side (y grows downward).
    e.targetpos = v(0, 50_000);
    assert!(turn_toward_target(&e));
    e.targetpos = v(0, -50_000);
    assert!(!turn_toward_target(&e));
}

#[test]
fn wave_escalation_monotonicity() {
    let mut w = wave();
    let mut spawned = 0;
    let mut last_interval = w.interval;
    let mut last_chance = w.double_spawn_chance;
    while spawned < 100 {
        let amount = if 100 - spawned >= 3 { 3 } else { 100 - spawned };
        release_batch(&mut w, amount);
        spawned += amount;
        assert!(w.interval <= last_interval && w.interval >= w.min_interval);
        assert!(w.double_spawn_chance >= last_chance && w.double_spawn_chance <= w.max_double_spawn_chance);
        last_interval = w.interval;
        last_chance = w.double_spawn_chance;
    }
    assert_eq!(w.interval, 1000);
    assert_eq!(w.double_spawn_chance, 700);
}

#[test]
fn wave_batch_uses_up_time() {
    let mut w = wave();
    w.time = 20_000;
    release_batch(&mut w, 2);
    assert_eq!(w.time, 20_000 - 6000 - 5900);
    assert_eq!(w.interval, 5800);
    assert_eq!(w.double_spawn_chance, 550);
}

#[test]
fn wave_update_spawns_when_due() {
    let mut w = wave();
    w.time = 0;
    assert_eq!(update_wave(&mut w, 16), 0);
    assert_eq!(w.time, 16);
    assert_eq!(w.interval, 6000);
    let mut w2 = wave();
    w2.time = 6001;
    w2.double_spawn_chance = 0;
    w2.max_double_spawn_chance = 0;
    assert_eq!(update_wave(&mut w2, 10), 1);
    assert_eq!(w2.time, 11);
    assert_eq!(w2.interval, 5900);
}

#[test]
fn double_spawn_chain() {
    assert!(chain_continues(499, 500, 1));
    assert!(!chain_continues(500, 500, 1));
    assert!(chain_continues(124, 500, 2));
    assert!(!chain_continues(125, 500, 2));
}

#[test]
fn spawned_enemy_is_placed_around_player() {
    let template = enemy_at(0, 0, 16_000, 3000);
    let e = spawn_enemy(&template, v(1000, 2000), v(0, -1000), v(707, 707));
    assert_eq!(e.pos, v(1000, 2000 - 2_000_000));
    assert_eq!(e.dir, v(707, 707));
    assert_eq!(e.health, 3000);
    assert_eq!(e.name, "Basic");
}

#[test]
fn color_lerp_endpoints_and_middle() {
    assert_eq!(colorlerp(red(), blue(), 0), red());
    assert_eq!(colorlerp(red(), blue(), 1000), blue());
    assert_eq!(colorlerp(red(), blue(), 500), Color::new(127, 0, 127, 127));
    assert_eq!(colorlerp(Color::new(10, 10, 10, 10), Color::new(20, 0, 255, 10), 2000), Color::new(30, 0, 255, 10));
}

#[test]
fn particles_step_fade_and_expire() {
    let p = Partical {
        pos: v(0, 0),
        vel: v(-10_000, 20_000),
        size: 5000,
        shape: ParticalShape::Circle,
        starting_color: red(),
        ending_color: blue(),
        duration: 300,
        time: 0,
    };
    let mut ps = vec![p, Partical { time: 250, ..p }];
    update_particals(&mut ps, 100);
    assert_eq!(ps[0].pos, v(-1000, 2000));
    assert_eq!(ps[0].time, 100);
    assert_eq!(partical_color(&ps[0]), colorlerp(red(), blue(), 333));
    retain_particals(&mut ps);
    assert_eq!(ps.len(), 1);
}

#[test]
fn zero_dt_tick_changes_nothing() {
    let p = Partical {
        pos: v(3, 4),
        vel: v(-10_000, 20_000),
        size: 5000,
        shape: ParticalShape::Square,
        starting_color: red(),
        ending_color: blue(),
        duration: 300,
        time: 7,
    };
    let mut ps = vec![p];
    update_particals(&mut ps, 0);
    assert_eq!(ps[0], p);
    let mut acc: u64 = 40;
    assert_eq!(cycle(&mut acc, 100, 0), 0);
    assert_eq!(acc, 40);
    let mut pl = player(vec![part("Core", 900_000, 0, 2000)], vec![]);
    let mut bullets = vec![Bullet { vel: v(50_000, 0), ..bullet(0, 0, true, 1000, 1000, 10) }];
    let mut enemies = vec![enemy_at(500_000, 0, 16_000, 3000)];
    let mut explosions: Vec<Explosion> = vec![];
    update_bullets(&mut pl, &mut bullets, &mut enemies, &mut explosions, 0);
    assert_eq!(bullets[0].pos, v(0, 0));
    assert_eq!(bullets[0].time, 10);
    assert_eq!(enemies[0].health, 3000);
}

#[test]
fn partical_emitter_releases_owed_particles() {
    let mut em = ParticalEmitter {
        pos: v(0, 0),
        location: v(-10_000, 0),
        speed_orginal: 100_000,
        vel: v(0, 0),
        size: 3000,
        shape: ParticalShape::RotSquare,
        starting_color: red(),
        ending_color: blue(),
        duration: 500,
        partical_interval: 50,
        time: 120,
        speed: 100_000,
    };
    let mut ps: Vec<Partical> = vec![];
    update_partical_emitter(&mut em, v(1_000_000, 0), v(0, 0), v(0, 1000), 1000, v(0, 0), 16, &mut ps);
    assert_eq!(em.pos, v(1_000_000, -10_000));
    assert_eq!(em.vel, v(0, -100_000));
    assert_eq!(ps.len(), 2);
    assert_eq!(em.time, 20 + 16);
    assert_eq!(ps[0].pos, em.pos);
    assert_eq!(ps[0].time, 0);
}

#[test]
fn bullet_emitter_fires_only_through_gate() {
    let mut g = gun(true);
    g.time = 450;
    let mut bullets: Vec<Bullet> = vec![];
    update_bullet_emitter(&mut g, v(0, 0), v(1000, 0), v(800_000, 0), false, 16, &mut bullets);
    assert!(bullets.is_empty());
    assert_eq!(g.time, 50 + 16);
    g.time = 450;
    update_bullet_emitter(&mut g, v(0, 0), v(1000, 0), v(800_000, 0), true, 16, &mut bullets);
    assert_eq!(bullets.len(), 2);
    assert_eq!(bullets[0].pos, v(10_000, 0));
    assert_eq!(bullets[0].vel, v(800_000, 0));
}

#[test]
fn player_fire_gate_window() {
    let ahead = vec![enemy_at(1_000_000, 300_000, 16_000, 1)];
    assert!(player_fire_gate(v(0, 0), v(1000, 0), &ahead));
    let aside = vec![enemy_at(1_000_000, 1_000_000, 16_000, 1)];
    assert!(!player_fire_gate(v(0, 0), v(1000, 0), &aside));
    let behind = vec![enemy_at(-1_000_000, 0, 16_000, 1)];
    assert!(!player_fire_gate(v(0, 0), v(1000, 0), &behind));
    assert!(!player_fire_gate(v(0, 0), v(1000, 0), &vec![]));
}

#[test]
fn repair_power_up_restores_and_moves() {
    let mut pl = player(vec![part("Core", 0, 0, 500), part("Wing", 50_000, 0, 1200)], vec![]);
    let mut pu = PowerUp { pos: v(5000, 0), power_type: PowerUpType::Repair };
    assert!(power_ups_update(&mut pu, &mut pl, v(1000, 0)));
    assert_eq!(pl.parts[0].health, 2000);
    assert_eq!(pl.parts[1].health, 2000);
    assert_eq!(pu.pos.y, 0);
    assert!(pu.pos.x >= 2_000_000 && pu.pos.x < 2_500_000);
    let mut far = PowerUp { pos: v(9_000_000, 0), power_type: PowerUpType::Repair };
    pl.parts[0].health = 100;
    assert!(!power_ups_update(&mut far, &mut pl, v(1000, 0)));
    assert_eq!(pl.parts[0].health, 100);
    let mut shield = PowerUp { pos: v(0, 0), power_type: PowerUpType::Shield };
    assert!(power_ups_update(&mut shield, &mut pl, v(1000, 0)));
    assert_eq!(shield.pos, v(0, 0));
    assert_eq!(pl.parts[0].health, 100);
    repair(&mut pl.parts);
    assert_eq!(pl.parts[0].health, 2000);
}

#[test]
fn integer_geometry() {
    assert_eq!(isqrt(0), 0);
    assert_eq!(isqrt(15), 3);
    assert_eq!(isqrt(16), 4);
    assert_eq!(isqrt(u64::MAX as u128 * u64::MAX as u128), u64::MAX - 0);
    assert_eq!(length(v(3000, 4000)), 5000);
    assert_eq!(dist(v(1, 1), v(4, 5)), 5);
    assert!(closer(v(0, 0), v(3, 4), 6));
    assert!(!closer(v(0, 0), v(3, 4), 5));
    assert_eq!(advance(v(0, 0), v(-1500, 999), 1), v(-1, 0));
    assert_eq!(rotatevector(v(1000, 0), v(0, 1000)), v(0, 1000));
    assert_eq!(rotatevector(v(0, 2000), v(0, -1000)), v(2000, 0));
    assert_eq!(world_pose(v(100, 100), v(0, 1000), v(10_000, 0)), v(100, 10_100));
}

#[test]
fn draw_helpers() {
    let b = Bullet { pos: v(10_000, 0), vel: v(0, 0), size: 4000, damage: 1, friendly: false, duration: 1000, time: 250 };
    let s = bullet_sprite(&b, v(0, 0), 800, 600);
    assert_eq!(s.pos, v(410_000, 300_000));
    assert_eq!(s.width, 3000);
    assert_eq!(s.length, 6000);
    assert_eq!(s.color, Color::new(230, 41, 55, 255));
    assert_eq!(part_debug_color(&part("Core", 0, 0, 2000)), Color::new(0, 228, 48, 255));
    assert_eq!(part_debug_color(&part("Core", 0, 0, 0)), Color::new(0, 121, 241, 255));
    let tiles = star_tiles(30, 15, v(20_000, -1000));
    assert_eq!(tiles.len(), 5 * 4);
    assert_eq!(tiles[0].world_x, -1 + 1);
    assert_eq!(tiles[0].world_y, -1);
    assert_eq!(tiles[0].seed, 1);
    assert_eq!(tiles[0].screen, v(-15_000 - 5000, -15_000 + 1000));
    assert_eq!(tiles[4 + 2].world_x, 1);
    assert_eq!(tiles[4 + 2].seed, 2);
    let t = star_tiles(0, 0, v(-16_000, -31_000));
    assert_eq!(t[0].world_x, -2);
    assert_eq!(t[0].world_y, -3);
    assert_eq!(t[0].seed, 7);
}
