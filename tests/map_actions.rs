use elfparty::abilities::{handle_abilities, Ability, StoredAbility};
use elfparty::geometry::Point;
use elfparty::log::LogBuffer;
use elfparty::members::{AbilityClass, Attack, ClassTag, Health, PartyMember, Threat};
use elfparty::object::{ActorTag, Object, Viewshed};
use elfparty::rng::Rng;
use elfparty::tilemap::{TileClass, TileMap};

fn woodcutter() -> Object {
    let mut m = PartyMember {
        name: "W".to_string(),
        class: ClassTag::Woodcutter,
        abilities: Vec::new(),
        health: Health::new(18),
        attack: Attack::new(1, 8),
        threat: Threat::new(2, 4),
        modifiers: Vec::new(),
    };
    m.abilities.push(AbilityClass::new(Ability::Deforest));
    Object {
        name: "band".to_string(),
        floor: 1,
        tag: ActorTag::Player,
        pos: Some(Point::new(1, 1)),
        block_tile: false,
        members: vec![m],
        inc_attacks: Vec::new(),
        in_combat: false,
        viewshed: Some(Viewshed { range: 6, visible: Vec::new(), refresh: false }),
        ai: None,
    }
}

#[test]
fn deforest_clears_inner_neighbours() {
    let mut map = TileMap::new(5, 5);
    for t in map.tiles.iter_mut() {
        *t = TileClass::Tree;
    }
    let mut objects = vec![woodcutter()];
    let mut stored = StoredAbility::new(Ability::Deforest, 0, 0, 0, false);
    let mut rng = Rng::new(1);
    let mut logs = LogBuffer::new();
    assert!(handle_abilities(&mut objects, &mut map, &mut stored, &mut rng, &mut logs, None));
    assert_eq!(map.tiles[map.point2d_to_index(Point::new(2, 2))], TileClass::ForestFloor);
    assert_eq!(map.tiles[map.point2d_to_index(Point::new(2, 1))], TileClass::ForestFloor);
    assert_eq!(map.tiles[map.point2d_to_index(Point::new(0, 0))], TileClass::Tree);
    assert_eq!(map.tiles[map.point2d_to_index(Point::new(1, 1))], TileClass::Tree);
    assert_eq!(map.tiles[map.point2d_to_index(Point::new(3, 3))], TileClass::Tree);
    assert!(objects[0].members[0].abilities[0].on_cooldown);
    let mut again = StoredAbility::new(Ability::Deforest, 0, 0, 0, false);
    objects[0].members[0].abilities[0].on_cooldown = false;
    assert!(!handle_abilities(&mut objects, &mut map, &mut again, &mut rng, &mut logs, None));
}

#[test]
fn moves_only_onto_walkable() {
    let mut map = TileMap::new(4, 4);
    let i = map.point2d_to_index(Point::new(2, 1));
    map.tiles[i] = TileClass::Floor;
    let mut o = woodcutter();
    o.try_move(Point::new(1, 2), &map);
    assert_eq!(o.pos, Some(Point::new(1, 1)));
    assert!(!o.viewshed.as_ref().unwrap().refresh);
    o.try_move(Point::new(2, 1), &map);
    assert_eq!(o.pos, Some(Point::new(2, 1)));
    assert!(o.viewshed.as_ref().unwrap().refresh);
    assert!(!map.walkable(Point::new(-1, 0)));
}

#[test]
fn buffs_take_effect() {
    let mut g = woodcutter();
    g.members[0].abilities.push(AbilityClass::new(Ability::Taunt));
    g.members[0].abilities.push(AbilityClass::new(Ability::Block));
    g.members[0].abilities.push(AbilityClass::new(Ability::RallyingCry));
    let mut objects = vec![g];
    let mut map = TileMap::new(4, 4);
    let mut rng = Rng::new(1);
    let mut logs = LogBuffer::new();
    let mut taunt = StoredAbility::new(Ability::Taunt, 0, 0, 1, false);
    assert!(handle_abilities(&mut objects, &mut map, &mut taunt, &mut rng, &mut logs, None));
    assert_eq!(objects[0].members[0].threat.value, 19);
    let mut block = StoredAbility::new(Ability::Block, 0, 0, 2, false);
    assert!(handle_abilities(&mut objects, &mut map, &mut block, &mut rng, &mut logs, None));
    assert!(!objects[0].members[0].attack.able);
    let mut rally = StoredAbility::new(Ability::RallyingCry, 0, 0, 3, false);
    assert!(handle_abilities(&mut objects, &mut map, &mut rally, &mut rng, &mut logs, None));
    assert_eq!(objects[0].members[0].threat.value, 24);
    assert_eq!(objects[0].members[0].modifiers.len(), 3);
    assert_eq!(logs.messages.len(), 3);
}
