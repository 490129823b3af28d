use vstd::prelude::*;

use crate::abilities::Ability;
use crate::geometry::Point;
use crate::members::{
    AbilityClass, Attack, ClassTag, Health, Modifier, ModifierEffect, PartyMember, Threat,
};
use crate::object::{AIClass, AIState, ActorTag, Object, Viewshed};
use crate::rng::Rng;

verus! {

/// A fresh member of class `class` named `name`: full health `hp`, `count`d`sides` attack
/// ready, threat at `init` growing by `rate`.
pub open spec fn fresh(
    m: PartyMember,
    name: Seq<char>,
    class: ClassTag,
    hp: i32,
    count: u32,
    sides: u32,
    rate: u32,
    init: u32,
) -> bool {
    &&& m.wf()
    &&& m.name@ == name
    &&& m.class == class
    &&& m.health == (Health { current: hp, max: hp })
    &&& m.attack == (Attack { count, sides, able: true })
    &&& m.threat == (Threat { value: init, rate })
}

/// The ability slots of a fresh member: each ability of `abilities`, ready.
pub open spec fn ready_slots(slots: Seq<AbilityClass>, abilities: Seq<Ability>) -> bool {
    slots.len() == abilities.len() && forall|i: int|
        0 <= i < slots.len() ==> slots[i] == (AbilityClass {
            ability: abilities[i],
            on_cooldown: false,
            timer: 0,
        })
}

fn slots(a: Ability, b: Option<Ability>) -> (r: Vec<AbilityClass>)
    ensures
        ready_slots(
            r@,
            match b {
                Some(b) => seq![a, b],
                None => seq![a],
            },
        ),
{
    let mut v: Vec<AbilityClass> = Vec::new();
    v.push(AbilityClass::new(a));
    if let Some(b) = b {
        v.push(AbilityClass::new(b));
    }
    v
}

fn member(
    name: String,
    class: ClassTag,
    hp: i32,
    count: u32,
    sides: u32,
    rate: u32,
    init: u32,
    abilities: Vec<AbilityClass>,
    modifiers: Vec<Modifier>,
) -> (r: PartyMember)
    requires
        hp > 0,
        1 <= count,
        1 <= sides,
        count * sides <= 100,
    ensures
        fresh(r, name@, class, hp, count, sides, rate, init),
        r.abilities == abilities,
        r.modifiers == modifiers,
{
    PartyMember {
        name,
        class,
        abilities,
        health: Health::new(hp),
        attack: Attack::new(count, sides),
        threat: Threat::new(rate, init),
        modifiers,
    }
}

/// A bard: 20 hit points, 2d3 attack, Rallying Cry and Lesser Cure, and a lasting +1 to
/// attack.
pub fn make_bard(name: String) -> (r: PartyMember)
    ensures
        fresh(r, name@, ClassTag::Bard, 20, 2, 3, 4, 2),
        ready_slots(r.abilities@, seq![Ability::RallyingCry, Ability::LesserCureWounds]),
        r.modifiers@ == seq![Modifier { effect: ModifierEffect::PlusAttack(1), remaining: 0, permanent: true }],
{
    let mut mods: Vec<Modifier> = Vec::new();
    mods.push(Modifier::new(ModifierEffect::PlusAttack(1), 0, true));
    proof {
        assert(mods@ =~= seq![Modifier { effect: ModifierEffect::PlusAttack(1), remaining: 0, permanent: true }]);
    }
    member(name, ClassTag::Bard, 20, 2, 3, 4, 2, slots(Ability::RallyingCry, Some(Ability::LesserCureWounds)), mods)
}

/// A guardian: 30 hit points, 1d6 attack, Taunt and Block.
pub fn make_guardian(name: String) -> (r: PartyMember)
    ensures
        fresh(r, name@, ClassTag::Guardian, 30, 1, 6, 6, 1),
        ready_slots(r.abilities@, seq![Ability::Taunt, Ability::Block]),
        r.modifiers@.len() == 0,
{
    member(name, ClassTag::Guardian, 30, 1, 6, 6, 1, slots(Ability::Taunt, Some(Ability::Block)), Vec::new())
}

/// A barbarian: 40 hit points, 2d6 attack, no ability.
pub fn make_barbarian(name: String) -> (r: PartyMember)
    ensures
        fresh(r, name@, ClassTag::Barbarian, 40, 2, 6, 7, 2),
        r.abilities@.len() == 0,
        r.modifiers@.len() == 0,
{
    member(name, ClassTag::Barbarian, 40, 2, 6, 7, 2, Vec::new(), Vec::new())
}

/// A woodcutter: 18 hit points, 1d8 attack, Deforest.
pub fn make_woodcutter(name: String) -> (r: PartyMember)
    ensures
        fresh(r, name@, ClassTag::Woodcutter, 18, 1, 8, 2, 4),
        ready_slots(r.abilities@, seq![Ability::Deforest]),
        r.modifiers@.len() == 0,
{
    member(name, ClassTag::Woodcutter, 18, 1, 8, 2, 4, slots(Ability::Deforest, None), Vec::new())
}

/// A hunter: 16 hit points, 1d6 attack, Kill Shot.
pub fn make_hunter(name: String) -> (r: PartyMember)
    ensures
        fresh(r, name@, ClassTag::Hunter, 16, 1, 6, 1, 3),
        ready_slots(r.abilities@, seq![Ability::KillShot]),
        r.modifiers@.len() == 0,
{
    member(name, ClassTag::Hunter, 16, 1, 6, 1, 3, slots(Ability::KillShot, None), Vec::new())
}

/// A cleric: 10 hit points, 1d3 attack, Cure Wounds.
pub fn make_cleric(name: String) -> (r: PartyMember)
    ensures
        fresh(r, name@, ClassTag::Cleric, 10, 1, 3, 8, 0),
        ready_slots(r.abilities@, seq![Ability::CureWounds]),
        r.modifiers@.len() == 0,
{
    member(name, ClassTag::Cleric, 10, 1, 3, 8, 0, slots(Ability::CureWounds, None), Vec::new())
}

/// A Forsaken Elf warrior: 12 hit points, 1d4 attack, no ability.
pub fn enemy_make_forsaken_warrior() -> (r: PartyMember)
    ensures
        fresh(r, "Forsaken Elf"@, ClassTag::Warrior, 12, 1, 4, 4, 2),
        r.abilities@.len() == 0,
        r.modifiers@.len() == 0,
{
    member(String::from_str("Forsaken Elf"), ClassTag::Warrior, 12, 1, 4, 4, 2, Vec::new(), Vec::new())
}

/// Sight range of the parties that see.
pub const VIEW_RANGE: i32 = 6;

/// A viewshed that has seen nothing yet and asks to be computed.
fn fresh_view() -> (r: Viewshed)
    ensures
        r.range == VIEW_RANGE,
        r.visible@.len() == 0,
        r.refresh,
{
    Viewshed { range: VIEW_RANGE, visible: Vec::new(), refresh: true }
}

/// A placed party with an empty queue, out of combat.
pub open spec fn placed(o: Object, tag: ActorTag, pos: Point, floor: u32) -> bool {
    &&& o.tag == tag
    &&& o.pos == Some(pos)
    &&& o.floor == floor
    &&& o.inc_attacks@.len() == 0
    &&& !o.in_combat
    &&& !o.block_tile
}

/// The player's starting party: a guardian and a hunter, on the first floor.
pub fn spawn_player(pos: Point, guardian_name: String, hunter_name: String) -> (r: Object)
    ensures
        placed(r, ActorTag::Player, pos, 1),
        r.name@ == "Band of Heroic Elves"@,
        r.viewshed matches Some(v) && v.range == VIEW_RANGE && v.visible@.len() == 0 && v.refresh,
        r.ai is None,
        r.members@.len() == 2,
        fresh(r.members@[0], guardian_name@, ClassTag::Guardian, 30, 1, 6, 6, 1),
        fresh(r.members@[1], hunter_name@, ClassTag::Hunter, 16, 1, 6, 1, 3),
{
    let mut members: Vec<PartyMember> = Vec::new();
    members.push(make_guardian(guardian_name));
    members.push(make_hunter(hunter_name));
    Object {
        name: String::from_str("Band of Heroic Elves"),
        floor: 1,
        tag: ActorTag::Player,
        pos: Some(pos),
        block_tile: false,
        members,
        inc_attacks: Vec::new(),
        in_combat: false,
        viewshed: Some(fresh_view()),
        ai: None,
    }
}

/// A band of between `f` and `2f` Forsaken warriors on floor `f`, driven by the AI.
pub fn spawn_band_of_forsaken(rng: &mut Rng, pos: Point, f: u32) -> (r: Object)
    requires
        f < u32::MAX,
    ensures
        placed(r, ActorTag::Enemy, pos, f),
        r.name@ == "band of Forsaken Warriors"@,
        r.viewshed matches Some(v) && v.range == VIEW_RANGE && v.visible@.len() == 0 && v.refresh,
        r.ai matches Some(ai) && ai.target is None && ai.state == AIState::Wandering,
        f <= r.members@.len() <= 2 * f,
        forall|j: int|
            0 <= j < r.members@.len() ==> fresh(
                #[trigger] r.members@[j],
                "Forsaken Elf"@,
                ClassTag::Warrior,
                12,
                1,
                4,
                4,
                2,
            ),
{
    let extra = rng.range(0, f as usize + 1);
    let num: u64 = f as u64 + extra as u64;
    let mut members: Vec<PartyMember> = Vec::new();
    let mut j: u64 = 0;
    while j < num
        invariant
            j <= num,
            members@.len() == j,
            forall|k: int|
                0 <= k < j ==> fresh(#[trigger] members@[k], "Forsaken Elf"@, ClassTag::Warrior, 12, 1, 4, 4, 2),
        decreases num - j,
    {
        members.push(enemy_make_forsaken_warrior());
        j = j + 1;
    }
    Object {
        name: String::from_str("band of Forsaken Warriors"),
        floor: f,
        tag: ActorTag::Enemy,
        pos: Some(pos),
        block_tile: false,
        members,
        inc_attacks: Vec::new(),
        in_combat: false,
        viewshed: Some(fresh_view()),
        ai: Some(AIClass::new()),
    }
}

/// A lost elf on floor `f`, waiting to join the player: a bard, a guardian, a barbarian
/// or a woodcutter, drawn with a d4.
pub fn spawn_elf_pickup(rng: &mut Rng, pos: Point, f: u32, name: String) -> (r: Object)
    ensures
        placed(r, ActorTag::Elf, pos, f),
        r.name@ == "Lost Elf"@,
        r.viewshed is None,
        r.ai is None,
        r.members@.len() == 1,
        r.members@[0].name@ == name@,
        r.members@[0].wf(),
        r.members@[0].class == ClassTag::Bard || r.members@[0].class == ClassTag::Guardian
            || r.members@[0].class == ClassTag::Barbarian || r.members@[0].class == ClassTag::Woodcutter,
{
    let roll = rng.roll_dice(1, 4);
    let m = if roll == 1 {
        make_bard(name)
    } else if roll == 2 {
        make_guardian(name)
    } else if roll == 3 {
        make_barbarian(name)
    } else {
        make_woodcutter(name)
    };
    let mut members: Vec<PartyMember> = Vec::new();
    members.push(m);
    Object {
        name: String::from_str("Lost Elf"),
        floor: f,
        tag: ActorTag::Elf,
        pos: Some(pos),
        block_tile: false,
        members,
        inc_attacks: Vec::new(),
        in_combat: false,
        viewshed: None,
        ai: None,
    }
}

} // verus!
