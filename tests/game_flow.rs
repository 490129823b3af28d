use elfparty::abilities::{get_ability_cooldown, get_ability_description, get_ability_name, Ability};
use elfparty::geometry::Point;
use elfparty::members::ClassTag;
use elfparty::object::ActorTag;
use elfparty::rng::Rng;
use elfparty::spawns::{
    enemy_make_forsaken_warrior, make_barbarian, make_bard, make_cleric, make_guardian, make_hunter,
    make_woodcutter, spawn_band_of_forsaken, spawn_elf_pickup, spawn_player,
};
use elfparty::state::{exec_all_systems, player_input, process_action, Actions, ContextState, Key, State, TurnState, World};
use elfparty::tilemap::{TileClass, TileMap};

fn open_map(w: i32, h: i32) -> TileMap {
    let mut map = TileMap::new(w, h);
    for y in 1..h - 1 {
        for x in 1..w - 1 {
            map.tiles[(y * w + x) as usize] = TileClass::Floor;
        }
    }
    map.starting_pos = Point::new(2, 2);
    for y in 1..h - 1 {
        for x in 1..w - 1 {
            if x > 4 || y > 4 {
                map.valid_spawns.push(Point::new(x, y));
            }
        }
    }
    map
}

fn names() -> Vec<String> {
    (0..12).map(|i| format!("Elf {}", i)).collect()
}

fn game() -> State {
    State::init(World::new_game(open_map(20, 20), 42, names()))
}

#[test]
fn new_game_layout() {
    let w = World::new_game(open_map(20, 20), 9, names());
    assert_eq!(w.objects.len(), 35);
    assert_eq!(w.objects[0].tag, ActorTag::Player);
    assert_eq!(w.objects[0].pos, Some(Point::new(2, 2)));
    assert!(w.objects[1..25].iter().all(|o| o.tag == ActorTag::Enemy));
    assert!(w.objects[25..].iter().all(|o| o.tag == ActorTag::Elf));
    assert_eq!(w.map.valid_spawns.len(), 18 * 18 - 16 - 34);
    assert_eq!(w.depth, 1);
    assert_eq!(w.camera, Point::new(2, 2));
}

#[test]
fn same_seed_same_world() {
    let a = World::new_game(open_map(20, 20), 77, names());
    let b = World::new_game(open_map(20, 20), 77, names());
    let pa: Vec<_> = a.objects.iter().map(|o| (o.pos, o.members.len())).collect();
    let pb: Vec<_> = b.objects.iter().map(|o| (o.pos, o.members.len())).collect();
    assert_eq!(pa, pb);
}

#[test]
fn waiting_runs_one_ai_phase() {
    let mut gs = game();
    gs.world.objects[0].members[0].abilities[0].set_on_cooldown();
    exec_all_systems(&mut gs);
    assert!(!gs.proc);
    assert_eq!(gs.turns, 0);
    player_input(&mut gs, Some(Key::Period));
    assert!(gs.passed_turn && gs.proc && gs.refresh);
    exec_all_systems(&mut gs);
    assert_eq!(gs.turn_state, TurnState::Player);
    assert_eq!(gs.turns, 1);
    assert!(!gs.passed_turn && !gs.proc);
    assert_eq!(gs.world.objects[0].members[0].abilities[0].timer, 1);
    assert!(gs.world.objects[0].members.iter().all(|m| m.attack.able));
}

#[test]
fn tick_with_wait_key() {
    let mut gs = game();
    gs.tick(None);
    gs.tick(Some(Key::Numpad5));
    assert_eq!(gs.turns, 1);
    assert_eq!(gs.turn_state, TurnState::Player);
    gs.tick(Some(Key::Other));
    assert_eq!(gs.turns, 1);
}

#[test]
fn moving_uses_a_turn() {
    let mut gs = game();
    process_action(&mut gs, Actions::MoveRight);
    assert!(gs.passed_turn);
    assert_eq!(gs.world.objects[0].pos, Some(Point::new(3, 2)));
    assert_eq!(gs.world.camera, Point::new(3, 2));
    exec_all_systems(&mut gs);
    assert_eq!(gs.turns, 1);
}

#[test]
fn blocked_move_uses_no_turn() {
    let mut gs = game();
    process_action(&mut gs, Actions::MoveUpLeft);
    assert_eq!(gs.world.objects[0].pos, Some(Point::new(1, 1)));
    process_action(&mut gs, Actions::MoveUp);
    assert!(!gs.passed_turn);
    assert_eq!(gs.world.objects[0].pos, Some(Point::new(1, 1)));
    exec_all_systems(&mut gs);
    assert_eq!(gs.turns, 0);
}

#[test]
fn keys_outside_the_game_are_ignored() {
    let mut gs = game();
    gs.status = ContextState::Paused;
    player_input(&mut gs, Some(Key::Period));
    assert!(!gs.passed_turn);
}

#[test]
fn game_over_is_terminal() {
    let mut gs = game();
    gs.world.objects[0].members.clear();
    gs.player_died = true;
    gs.turn_state = TurnState::GameOver;
    gs.tick(Some(Key::Period));
    assert_eq!(gs.turn_state, TurnState::GameOver);
    assert_eq!(gs.turns, 0);
}

#[test]
fn init_opens_in_game() {
    let gs = game();
    assert_eq!(gs.status, ContextState::InGame);
    assert_eq!(gs.turn_state, TurnState::Player);
    assert_eq!(gs.logs.messages.len(), 1);
    assert!(gs.proc && gs.refresh);
    let w = World::empty();
    assert!(w.objects.is_empty());
    assert_eq!(w.depth, 0);
}

#[test]
fn ability_catalog() {
    assert_eq!(get_ability_name(Ability::PsyBolt), "Psy-Bolt");
    assert_eq!(get_ability_name(Ability::LesserCureWounds), "Lesser Cure");
    assert_eq!(get_ability_cooldown(Ability::KillShot), 30);
    assert_eq!(get_ability_cooldown(Ability::PsyBolt), 3);
    assert_eq!(get_ability_cooldown(Ability::Block), 10);
    assert_eq!(get_ability_description(Ability::Block), "Blocks 5 damage from enemy attacks for the next 2 turns.");
    assert_eq!(get_ability_description(Ability::PsyBolt), "");
    assert_eq!(get_ability_description(Ability::LesserMagicMissile), get_ability_description(Ability::MagicMissile));
}

#[test]
fn class_templates() {
    let b = make_bard("b".to_string());
    assert_eq!((b.health.max, b.attack.count, b.attack.sides), (20, 2, 3));
    assert_eq!(b.abilities.len(), 2);
    assert_eq!(b.modifiers.len(), 1);
    let g = make_guardian("g".to_string());
    assert_eq!((g.health.current, g.threat.rate, g.threat.value), (30, 6, 1));
    assert_eq!(g.abilities[1].ability, Ability::Block);
    assert_eq!(make_barbarian("x".to_string()).health.max, 40);
    assert_eq!(make_woodcutter("x".to_string()).abilities[0].ability, Ability::Deforest);
    assert_eq!(make_hunter("x".to_string()).abilities[0].ability, Ability::KillShot);
    assert_eq!(make_cleric("x".to_string()).class, ClassTag::Cleric);
    let w = enemy_make_forsaken_warrior();
    assert_eq!(w.name, "Forsaken Elf");
    assert_eq!(w.health.max, 12);
}

#[test]
fn spawned_parties() {
    let p = spawn_player(Point::new(1, 2), "g".to_string(), "h".to_string());
    assert_eq!(p.members.len(), 2);
    assert_eq!(p.members[1].class, ClassTag::Hunter);
    let mut rng = Rng::new(4);
    for f in 1..4u32 {
        let band = spawn_band_of_forsaken(&mut rng, Point::new(3, 3), f);
        assert!(band.members.len() >= f as usize && band.members.len() <= 2 * f as usize);
        assert!(band.ai.is_some());
    }
    let elf = spawn_elf_pickup(&mut rng, Point::new(3, 3), 1, "Lia".to_string());
    assert_eq!(elf.members.len(), 1);
    assert_eq!(elf.members[0].name, "Lia");
    assert!(elf.viewshed.is_none());
}

#[test]
fn dice_stay_in_range() {
    let mut rng = Rng::new(123);
    for _ in 0..200 {
        let r = rng.roll_dice(2, 6);
        assert!((2..=12).contains(&r));
        let k = rng.range(3, 8);
        assert!((3..8).contains(&k));
    }
    let mut a = Rng::new(5);
    let mut b = Rng::new(5);
    assert_eq!(a.roll_dice(3, 4), b.roll_dice(3, 4));
}

#[test]
fn spawn_points_are_drawn_and_used_up() {
    let map = open_map(20, 20);
    let spawns = map.valid_spawns.clone();
    let w = World::new_game(map, 5, names());
    let mut seen = Vec::new();
    for o in w.objects[1..].iter() {
        let p = o.pos.unwrap();
        assert_eq!(o.floor, 1);
        assert!(spawns.contains(&p));
        assert!(!w.map.valid_spawns.contains(&p));
        assert!(!seen.contains(&p));
        seen.push(p);
    }
}

#[test]
fn tick_with_move_key() {
    let mut gs = game();
    gs.tick(None);
    gs.tick(Some(Key::L));
    assert_eq!(gs.world.objects[0].pos, Some(Point::new(3, 2)));
    assert_eq!(gs.turns, 1);
    assert_eq!(gs.turn_state, TurnState::Player);
    gs.tick(Some(Key::K));
    assert_eq!(gs.world.objects[0].pos, Some(Point::new(3, 3)));
    assert_eq!(gs.turns, 2);
}
