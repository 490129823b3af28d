use elfparty::abilities::{handle_abilities, Ability, StoredAbility};
use elfparty::combat::{process_all_cooldowns, process_combat, reset_attack_capabilities, TargetedAttack};
use elfparty::geometry::Point;
use elfparty::log::LogBuffer;
use elfparty::members::{AbilityClass, Attack, ClassTag, Health, PartyMember, Threat};
use elfparty::object::{highest_threat_index, most_injured_index, AIClass, AIState, ActorTag, Object, Viewshed};
use elfparty::rng::Rng;
use elfparty::tilemap::TileMap;

fn member(name: &str, class: ClassTag, hp: i32, threat: u32) -> PartyMember {
    PartyMember {
        name: name.to_string(),
        class,
        abilities: Vec::new(),
        health: Health::new(hp),
        attack: Attack::new(1, 4),
        threat: Threat::new(1, threat),
        modifiers: Vec::new(),
    }
}

fn party(name: &str, tag: ActorTag, pos: Point, members: Vec<PartyMember>) -> Object {
    Object {
        name: name.to_string(),
        floor: 1,
        tag,
        pos: Some(pos),
        block_tile: false,
        members,
        inc_attacks: Vec::new(),
        in_combat: false,
        viewshed: Some(Viewshed { range: 6, visible: Vec::new(), refresh: false }),
        ai: if tag == ActorTag::Enemy { Some(AIClass::new()) } else { None },
    }
}

fn player(members: Vec<PartyMember>) -> Object {
    party("Band of Heroic Elves", ActorTag::Player, Point::new(5, 5), members)
}

fn resolve(objects: &mut Vec<Object>, logs: &mut LogBuffer) -> (bool, bool, u32, u32) {
    let mut died = false;
    let mut stale = false;
    let mut f = 0u32;
    let mut b = 0u32;
    process_combat(objects, logs, &mut died, &mut stale, &mut f, &mut b);
    (died, stale, f, b)
}

#[test]
fn damage_sums_over_a_phase() {
    let mut objects = vec![
        player(vec![member("A", ClassTag::Guardian, 30, 0)]),
        party("foes", ActorTag::Enemy, Point::new(6, 5), vec![member("X", ClassTag::Warrior, 20, 0), member("Y", ClassTag::Warrior, 20, 0)]),
    ];
    objects[0].inc_attacks.push(TargetedAttack::new((1, 0), 3));
    objects[0].inc_attacks.push(TargetedAttack::new((1, 0), 4));
    objects[1].inc_attacks.push(TargetedAttack::new((0, 0), 5));
    let mut logs = LogBuffer::new();
    let (died, stale, f, b) = resolve(&mut objects, &mut logs);
    assert_eq!(objects[1].members[0].health.current, 13);
    assert_eq!(objects[1].members[1].health.current, 20);
    assert_eq!(objects[0].members[0].health.current, 25);
    assert!(objects.iter().all(|o| o.inc_attacks.is_empty()));
    assert!(!died && !stale);
    assert_eq!((f, b), (0, 0));
}

#[test]
fn healing_stops_at_max() {
    let mut h = Health::new(10);
    h.lose_life(4);
    h.gain_life(100);
    assert_eq!(h.current, 10);
    h.lose_life(3);
    h.gain_life(2);
    assert_eq!(h.current, 9);
}

#[test]
fn lethal_damage_removes_never_leaves_negative() {
    let mut objects = vec![
        player(vec![member("A", ClassTag::Guardian, 30, 0)]),
        party("foes", ActorTag::Enemy, Point::new(6, 5), vec![member("X", ClassTag::Warrior, 5, 0), member("Y", ClassTag::Warrior, 20, 0)]),
    ];
    objects[0].inc_attacks.push(TargetedAttack::new((1, 0), 9));
    let mut logs = LogBuffer::new();
    let (_, stale, f, _) = resolve(&mut objects, &mut logs);
    assert_eq!(objects[1].members.len(), 1);
    assert_eq!(objects[1].members[0].name, "Y");
    assert!(objects.iter().all(|o| o.members.iter().all(|m| m.health.current > 0)));
    assert_eq!(f, 1);
    assert!(!stale);
}

#[test]
fn threat_tie_goes_to_lowest_index() {
    let ms = vec![member("a", ClassTag::Warrior, 10, 5), member("b", ClassTag::Warrior, 10, 5), member("c", ClassTag::Warrior, 10, 3)];
    assert_eq!(highest_threat_index(&ms), 0);
    let target = party("foes", ActorTag::Enemy, Point::new(6, 5), ms);
    let mut me = player(vec![member("A", ClassTag::Guardian, 30, 0)]);
    let mut rng = Rng::new(7);
    let mut logs = LogBuffer::new();
    me.try_attack(&target, 1, &mut rng, &mut logs);
    assert_eq!(me.inc_attacks.len(), 1);
    assert_eq!(me.inc_attacks[0].target, (1, 0));
    let d = me.inc_attacks[0].damage;
    assert!((1..=4).contains(&d));
    assert_eq!(me.members[0].threat.value, d as u32);
    assert!(!me.members[0].attack.able);
    me.try_attack(&target, 1, &mut rng, &mut logs);
    assert_eq!(me.inc_attacks.len(), 1);
    assert!(me.members[0].attack.able);
}

#[test]
fn highest_threat_wins() {
    let ms = vec![member("a", ClassTag::Warrior, 10, 1), member("b", ClassTag::Warrior, 10, 9), member("c", ClassTag::Warrior, 10, 9)];
    assert_eq!(highest_threat_index(&ms), 1);
}

fn wounded(deficits: &[i32]) -> Vec<PartyMember> {
    deficits
        .iter()
        .map(|d| {
            let mut m = member("w", ClassTag::Warrior, 20, 0);
            m.health.lose_life(*d);
            m
        })
        .collect()
}

#[test]
fn most_injured_is_targeted() {
    assert_eq!(most_injured_index(&wounded(&[2, 0, 5])), 2);
    assert_eq!(most_injured_index(&wounded(&[4, 4, 1])), 0);
}

#[test]
fn kill_shot_hits_most_injured() {
    let mut hunter = member("H", ClassTag::Hunter, 16, 0);
    hunter.abilities.push(AbilityClass::new(Ability::KillShot));
    let mut objects = vec![player(vec![hunter]), party("foes", ActorTag::Enemy, Point::new(9, 9), wounded(&[2, 0, 5]))];
    let mut map = TileMap::new(12, 12);
    let mut stored = StoredAbility::new(Ability::KillShot, 0, 0, 0, false);
    let mut rng = Rng::new(3);
    let mut logs = LogBuffer::new();
    assert!(handle_abilities(&mut objects, &mut map, &mut stored, &mut rng, &mut logs, Some(1)));
    assert_eq!(objects[0].inc_attacks.len(), 1);
    assert_eq!(objects[0].inc_attacks[0].target, (1, 2));
    assert!((2..=12).contains(&objects[0].inc_attacks[0].damage));
    assert_eq!(objects[0].members[0].threat.value, 30);
    assert!(objects[0].members[0].abilities[0].on_cooldown);
}

#[test]
fn cure_wounds_heals_most_injured() {
    let mut cleric = member("C", ClassTag::Cleric, 10, 0);
    cleric.abilities.push(AbilityClass::new(Ability::CureWounds));
    let mut ms = vec![cleric];
    ms.extend(wounded(&[2, 0, 15]));
    let mut objects = vec![player(ms)];
    let mut map = TileMap::new(12, 12);
    let mut stored = StoredAbility::new(Ability::CureWounds, 0, 0, 0, false);
    let mut rng = Rng::new(11);
    let mut logs = LogBuffer::new();
    assert!(handle_abilities(&mut objects, &mut map, &mut stored, &mut rng, &mut logs, None));
    let healed = objects[0].members[3].health.current - 5;
    assert!((3..=12).contains(&healed));
    assert_eq!(objects[0].members[1].health.current, 18);
    assert!(!objects[0].members[0].attack.able);
    assert!(objects[0].members[0].abilities[0].on_cooldown);
}

#[test]
fn invalid_targets_are_refused() {
    let mut hunter = member("H", ClassTag::Hunter, 16, 0);
    hunter.abilities.push(AbilityClass::new(Ability::KillShot));
    let elf = party("Lost Elf", ActorTag::Elf, Point::new(8, 8), vec![member("E", ClassTag::Bard, 20, 0)]);
    let mut objects = vec![player(vec![hunter]), elf];
    let mut map = TileMap::new(12, 12);
    let mut stored = StoredAbility::new(Ability::KillShot, 0, 0, 0, false);
    let mut rng = Rng::new(3);
    let mut logs = LogBuffer::new();
    assert!(!handle_abilities(&mut objects, &mut map, &mut stored, &mut rng, &mut logs, None));
    assert!(!handle_abilities(&mut objects, &mut map, &mut stored, &mut rng, &mut logs, Some(1)));
    assert_eq!(logs.messages.len(), 2);
    assert!(!objects[0].members[0].abilities[0].on_cooldown);
    assert!(objects[0].inc_attacks.is_empty());
    assert_eq!(objects[0].members[0].threat.value, 0);
}

#[test]
fn ability_on_cooldown_is_refused() {
    let mut g = member("G", ClassTag::Guardian, 30, 0);
    g.abilities.push(AbilityClass::new(Ability::Taunt));
    let mut objects = vec![player(vec![g])];
    let mut map = TileMap::new(4, 4);
    let mut stored = StoredAbility::new(Ability::Taunt, 0, 0, 0, true);
    let mut rng = Rng::new(1);
    let mut logs = LogBuffer::new();
    assert!(!handle_abilities(&mut objects, &mut map, &mut stored, &mut rng, &mut logs, None));
    assert_eq!(logs.messages.len(), 1);
    assert!(objects[0].members[0].modifiers.is_empty());
    assert!(objects[0].viewshed.as_ref().unwrap().refresh);
}

#[test]
fn cleave_hits_every_member_with_one_roll() {
    let mut barb = member("B", ClassTag::Barbarian, 40, 0);
    barb.attack = Attack::new(4, 1);
    barb.abilities.push(AbilityClass::new(Ability::Cleave));
    let foes = party("foes", ActorTag::Enemy, Point::new(6, 6), vec![
        member("x", ClassTag::Warrior, 12, 0),
        member("y", ClassTag::Warrior, 12, 0),
        member("z", ClassTag::Warrior, 12, 0),
    ]);
    let mut objects = vec![player(vec![barb]), foes];
    let mut map = TileMap::new(12, 12);
    let mut stored = StoredAbility::new(Ability::Cleave, 0, 0, 0, false);
    let mut rng = Rng::new(5);
    let mut logs = LogBuffer::new();
    assert!(handle_abilities(&mut objects, &mut map, &mut stored, &mut rng, &mut logs, Some(1)));
    assert_eq!(objects[0].members[0].threat.value, 45);
    assert_eq!(objects[0].inc_attacks.len(), 3);
    resolve(&mut objects, &mut logs);
    for m in objects[1].members.iter() {
        assert_eq!(m.health.current, 8);
    }
}

#[test]
fn cleave_needs_melee_range() {
    let mut barb = member("B", ClassTag::Barbarian, 40, 0);
    barb.abilities.push(AbilityClass::new(Ability::Cleave));
    let foes = party("foes", ActorTag::Enemy, Point::new(8, 5), vec![member("x", ClassTag::Warrior, 12, 0)]);
    let mut objects = vec![player(vec![barb]), foes];
    let mut map = TileMap::new(12, 12);
    let mut stored = StoredAbility::new(Ability::Cleave, 0, 0, 0, false);
    let mut rng = Rng::new(5);
    let mut logs = LogBuffer::new();
    assert!(!handle_abilities(&mut objects, &mut map, &mut stored, &mut rng, &mut logs, Some(1)));
    assert_eq!(logs.messages.len(), 1);
    assert!(objects[0].inc_attacks.is_empty());
    assert!(!objects[0].members[0].abilities[0].on_cooldown);
}

#[test]
fn wiping_an_enemy_party_removes_it() {
    let mut objects = vec![
        player(vec![member("A", ClassTag::Guardian, 30, 0)]),
        party("foes", ActorTag::Enemy, Point::new(6, 5), vec![member("X", ClassTag::Warrior, 4, 0)]),
        party("more", ActorTag::Enemy, Point::new(9, 9), vec![member("Z", ClassTag::Warrior, 4, 0)]),
    ];
    objects[0].inc_attacks.push(TargetedAttack::new((1, 0), 4));
    let mut logs = LogBuffer::new();
    let (died, stale, f, b) = resolve(&mut objects, &mut logs);
    assert_eq!(objects.len(), 2);
    assert_eq!(objects[1].name, "more");
    assert_eq!((f, b), (1, 0));
    assert!(stale && !died);
    assert_eq!(logs.messages.len(), 2);
}

#[test]
fn slain_beast_counts_as_beast() {
    let mut objects = vec![
        player(vec![member("A", ClassTag::Guardian, 30, 0)]),
        party("wolf", ActorTag::Enemy, Point::new(6, 5), vec![member("W", ClassTag::Beast, 3, 0)]),
    ];
    objects[0].inc_attacks.push(TargetedAttack::new((1, 0), 5));
    let mut logs = LogBuffer::new();
    let (_, _, f, b) = resolve(&mut objects, &mut logs);
    assert_eq!(objects.len(), 1);
    assert_eq!((f, b), (0, 1));
}

#[test]
fn wiped_player_party_ends_game_but_stays() {
    let mut objects = vec![
        player(vec![member("A", ClassTag::Guardian, 2, 0)]),
        party("foes", ActorTag::Enemy, Point::new(6, 5), vec![member("X", ClassTag::Warrior, 4, 0)]),
    ];
    objects[1].inc_attacks.push(TargetedAttack::new((0, 0), 2));
    let mut logs = LogBuffer::new();
    let (died, stale, f, _) = resolve(&mut objects, &mut logs);
    assert!(died && !stale);
    assert_eq!(objects.len(), 2);
    assert!(objects[0].members.is_empty());
    assert_eq!(f, 1);
}

#[test]
fn player_hit_makes_ai_chase() {
    let mut objects = vec![
        player(vec![member("A", ClassTag::Guardian, 30, 0)]),
        party("foes", ActorTag::Enemy, Point::new(6, 5), vec![member("X", ClassTag::Warrior, 12, 0)]),
        party("others", ActorTag::Enemy, Point::new(7, 5), vec![member("Y", ClassTag::Warrior, 12, 0)]),
    ];
    objects[0].inc_attacks.push(TargetedAttack::new((1, 0), 1));
    objects[1].inc_attacks.push(TargetedAttack::new((2, 0), 1));
    let mut logs = LogBuffer::new();
    resolve(&mut objects, &mut logs);
    let ai = objects[1].ai.as_ref().unwrap();
    assert_eq!(ai.target, Some(0));
    assert_eq!(ai.state, AIState::Chasing);
    assert_eq!(ai.tgt_memory, 24);
    assert_eq!(ai.tgt_heatmap, vec![Point::new(5, 5)]);
    let other = objects[2].ai.as_ref().unwrap();
    assert_eq!(other.target, None);
    assert_eq!(other.state, AIState::Wandering);
}

#[test]
fn aggro_ticks_in_combat_and_resets_out() {
    let mut objects = vec![
        player(vec![member("A", ClassTag::Guardian, 30, 7)]),
        party("foes", ActorTag::Enemy, Point::new(6, 5), vec![member("X", ClassTag::Warrior, 12, 7)]),
    ];
    objects[0].in_combat = true;
    objects[0].viewshed.as_mut().unwrap().visible.push(Point::new(6, 5));
    let mut logs = LogBuffer::new();
    resolve(&mut objects, &mut logs);
    assert_eq!(objects[0].members[0].threat.value, 8);
    assert_eq!(objects[1].members[0].threat.value, 0);
    assert!(objects[0].in_combat);
    objects[0].viewshed.as_mut().unwrap().visible.clear();
    resolve(&mut objects, &mut logs);
    assert!(!objects[0].in_combat);
    assert_eq!(objects[0].members[0].threat.value, 9);
}

#[test]
fn cooldowns_advance_and_expire() {
    let mut m = member("G", ClassTag::Guardian, 30, 0);
    let mut slot = AbilityClass::new(Ability::PsyBolt);
    slot.set_on_cooldown();
    m.abilities.push(slot);
    m.abilities.push(AbilityClass::new(Ability::Taunt));
    let mut objects = vec![player(vec![m])];
    process_all_cooldowns(&mut objects);
    assert_eq!(objects[0].members[0].abilities[0].timer, 1);
    process_all_cooldowns(&mut objects);
    assert!(objects[0].members[0].abilities[0].on_cooldown);
    process_all_cooldowns(&mut objects);
    assert!(!objects[0].members[0].abilities[0].on_cooldown);
    assert_eq!(objects[0].members[0].abilities[0].timer, 0);
    assert!(!objects[0].members[0].abilities[1].on_cooldown);
}

#[test]
fn attack_stance_resets() {
    let mut ms = vec![member("a", ClassTag::Warrior, 10, 0), member("b", ClassTag::Warrior, 10, 0)];
    ms[0].attack.disable_attack();
    reset_attack_capabilities(&mut ms);
    assert!(ms.iter().all(|m| m.attack.able));
}

#[test]
fn psybolt_needs_the_player_as_target() {
    let mut objects = vec![
        player(vec![member("A", ClassTag::Guardian, 30, 0), member("B", ClassTag::Hunter, 16, 0)]),
        party("foes", ActorTag::Enemy, Point::new(6, 5), vec![member("X", ClassTag::Warrior, 12, 0)]),
    ];
    let mut rng = Rng::new(21);
    let mut logs = LogBuffer::new();
    assert!(!elfparty::abilities::run_psybolt(&mut objects, Some(1), (1, 0), &mut logs, &mut rng));
    assert!(!elfparty::abilities::run_psybolt(&mut objects, None, (1, 0), &mut logs, &mut rng));
    assert!(logs.messages.is_empty());
    assert!(objects[1].inc_attacks.is_empty());
    assert!(elfparty::abilities::run_psybolt(&mut objects, Some(0), (1, 0), &mut logs, &mut rng));
    assert_eq!(objects[1].inc_attacks.len(), 1);
    let hit = objects[1].inc_attacks[0];
    assert_eq!(hit.target.0, 0);
    assert!(hit.target.1 < 2);
    assert!((1..=3).contains(&hit.damage));
    assert_eq!(objects[1].members[0].threat.value, 5);
    assert!(!objects[1].members[0].attack.able);
    assert_eq!(logs.messages.len(), 1);
}

#[test]
fn magic_missile_strikes_an_enemy_member() {
    let mut mage = member("M", ClassTag::Bard, 20, 0);
    mage.abilities.push(AbilityClass::new(Ability::LesserMagicMissile));
    let mut objects = vec![
        player(vec![mage]),
        party("foes", ActorTag::Enemy, Point::new(9, 9), vec![member("X", ClassTag::Warrior, 12, 0), member("Y", ClassTag::Warrior, 12, 0)]),
    ];
    let mut map = TileMap::new(12, 12);
    let mut stored = StoredAbility::new(Ability::LesserMagicMissile, 0, 0, 0, false);
    let mut rng = Rng::new(8);
    let mut logs = LogBuffer::new();
    assert!(handle_abilities(&mut objects, &mut map, &mut stored, &mut rng, &mut logs, Some(1)));
    let hit = objects[0].inc_attacks[0];
    assert_eq!(hit.target.0, 1);
    assert!(hit.target.1 < 2 && (1..=3).contains(&hit.damage));
    assert_eq!(objects[0].members[0].threat.value, 5);
    let before: i32 = objects[1].members.iter().map(|m| m.health.current).sum();
    resolve(&mut objects, &mut logs);
    let after: i32 = objects[1].members.iter().map(|m| m.health.current).sum();
    assert_eq!(before - after, hit.damage);
}

#[test]
fn refused_request_keeps_the_dice() {
    let mut hunter = member("H", ClassTag::Hunter, 16, 0);
    hunter.abilities.push(AbilityClass::new(Ability::KillShot));
    let mut objects = vec![player(vec![hunter])];
    let mut map = TileMap::new(4, 4);
    let mut stored = StoredAbility::new(Ability::KillShot, 0, 0, 0, false);
    let mut rng = Rng::new(99);
    let mut twin = Rng::new(99);
    let mut logs = LogBuffer::new();
    assert!(!handle_abilities(&mut objects, &mut map, &mut stored, &mut rng, &mut logs, None));
    for _ in 0..10 {
        assert_eq!(rng.roll_dice(3, 6), twin.roll_dice(3, 6));
    }
}
