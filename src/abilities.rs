use vstd::prelude::*;

use crate::combat::TargetedAttack;
use crate::geometry::{Point, spec_adjacent};
use crate::log::{LogBuffer, LogMessage, LogPart, extends};
use crate::members::{AbilityClass, Attack, Health, Modifier, ModifierEffect, PartyMember, Threat};
use crate::object::{
    ActorTag, Object, acted, dice_roll, is_most_injured, most_injured_index, objects_wf, refresh_view,
    refreshed, spent,
};
use crate::rng::Rng;
use crate::tilemap::{TileClass, TileMap, lemma_index_bound, lemma_index_injective};

verus! {

/// The closed set of abilities that a combatant can know.
#[derive(Clone, Copy, PartialEq, Eq, Structural, Debug)]
pub enum Ability {
    Taunt,
    CureWounds,
    LesserCureWounds,
    RallyingCry,
    KillShot,
    Deforest,
    Block,
    MagicMissile,
    LesserMagicMissile,
    PsyBolt,
    Cleave,
}

/// The display name of each ability.
pub open spec fn ability_name(a: Ability) -> Seq<char> {
    match a {
        Ability::Taunt => "Taunt"@,
        Ability::Block => "Block"@,
        Ability::CureWounds => "Cure Wounds"@,
        Ability::LesserCureWounds => "Lesser Cure"@,
        Ability::RallyingCry => "Rallying Cry"@,
        Ability::KillShot => "Kill Shot"@,
        Ability::Deforest => "Deforest"@,
        Ability::MagicMissile => "Magic Missile"@,
        Ability::LesserMagicMissile => "Lesser Missile"@,
        Ability::Cleave => "Cleave"@,
        Ability::PsyBolt => "Psy-Bolt"@,
    }
}

/// The number of turns that each ability stays on cooldown after use.
pub open spec fn ability_cooldown(a: Ability) -> int {
    match a {
        Ability::Taunt => 15,
        Ability::Block => 10,
        Ability::CureWounds => 20,
        Ability::LesserCureWounds => 15,
        Ability::RallyingCry => 20,
        Ability::KillShot => 30,
        Ability::Deforest => 15,
        Ability::MagicMissile => 10,
        Ability::LesserMagicMissile => 20,
        Ability::Cleave => 15,
        Ability::PsyBolt => 3,
    }
}

/// The description shown for each ability; the enemy-only Psy-Bolt has none.
pub open spec fn ability_description(a: Ability) -> Seq<char> {
    match a {
        Ability::Taunt => "Increases the amount of threat generated by this Elf for 5 turns."@,
        Ability::CureWounds => "Heals the most injured party member for 3d4 hit points."@,
        Ability::LesserCureWounds => "Heals the most injured party member for 2d3 hit points."@,
        Ability::RallyingCry => "Gives all elves in the party +1 damage to their attacks for 5 turns."@,
        Ability::KillShot => "A ranged shot that targets the most injured member of the target party, dealing 2d6 damage."@,
        Ability::Deforest => "Chops down all trees directly adjacent to the party."@,
        Ability::Block => "Blocks 5 damage from enemy attacks for the next 2 turns."@,
        Ability::MagicMissile => "An arcane projectile that strikes a random member of a target for 1d3 damage."@,
        Ability::LesserMagicMissile => "An arcane projectile that strikes a random member of a target for 1d3 damage."@,
        Ability::Cleave => "Attacks each member of a target within melee range."@,
        Ability::PsyBolt => ""@,
    }
}

pub fn get_ability_name(ability: Ability) -> (r: String)
    ensures
        r@ == ability_name(ability),
{
    let s = match ability {
        Ability::Taunt => "Taunt",
        Ability::Block => "Block",
        Ability::CureWounds => "Cure Wounds",
        Ability::LesserCureWounds => "Lesser Cure",
        Ability::RallyingCry => "Rallying Cry",
        Ability::KillShot => "Kill Shot",
        Ability::Deforest => "Deforest",
        Ability::MagicMissile => "Magic Missile",
        Ability::LesserMagicMissile => "Lesser Missile",
        Ability::Cleave => "Cleave",
        Ability::PsyBolt => "Psy-Bolt",
    };
    String::from_str(s)
}

pub fn get_ability_cooldown(ability: Ability) -> (r: i32)
    ensures
        r == ability_cooldown(ability),
        r >= 1,
{
    match ability {
        Ability::Taunt => 15,
        Ability::Block => 10,
        Ability::CureWounds => 20,
        Ability::LesserCureWounds => 15,
        Ability::RallyingCry => 20,
        Ability::KillShot => 30,
        Ability::Deforest => 15,
        Ability::MagicMissile => 10,
        Ability::LesserMagicMissile => 20,
        Ability::Cleave => 15,
        Ability::PsyBolt => 3,
    }
}

pub fn get_ability_description(ability: Ability) -> (r: String)
    ensures
        r@ == ability_description(ability),
{
    let s = match ability {
        Ability::Taunt => "Increases the amount of threat generated by this Elf for 5 turns.",
        Ability::CureWounds => "Heals the most injured party member for 3d4 hit points.",
        Ability::LesserCureWounds => "Heals the most injured party member for 2d3 hit points.",
        Ability::RallyingCry => "Gives all elves in the party +1 damage to their attacks for 5 turns.",
        Ability::KillShot => "A ranged shot that targets the most injured member of the target party, dealing 2d6 damage.",
        Ability::Deforest => "Chops down all trees directly adjacent to the party.",
        Ability::Block => "Blocks 5 damage from enemy attacks for the next 2 turns.",
        Ability::MagicMissile | Ability::LesserMagicMissile => "An arcane projectile that strikes a random member of a target for 1d3 damage.",
        Ability::Cleave => "Attacks each member of a target within melee range.",
        Ability::PsyBolt => "",
    };
    String::from_str(s)
}

/// A cached entry of the player's ability bar, pointing back at the slot it came from:
/// (party index, member index, ability index).
pub struct StoredAbility {
    pub ability: Ability,
    pub name: String,
    pub on_cooldown: bool,
    pub source_obj: usize,
    pub source_member: usize,
    pub source_ability_id: usize,
}

/// `after` is `before` with ability slot `x` of member `m` of party `o` put on cooldown.
pub open spec fn slot_flipped(before: Seq<Object>, after: Seq<Object>, o: int, m: int, x: int) -> bool {
    let mem = before[o].members@[m];
    &&& after.len() == before.len()
    &&& forall|i: int| 0 <= i < before.len() && i != o ==> after[i] == before[i]
    &&& after[o] == (Object { members: after[o].members, ..before[o] })
    &&& after[o].members@ == before[o].members@.update(m, after[o].members@[m])
    &&& after[o].members@[m] == (PartyMember { abilities: after[o].members@[m].abilities, ..mem })
    &&& after[o].members@[m].abilities@ == mem.abilities@.update(
        x,
        AbilityClass { on_cooldown: true, timer: 0, ..mem.abilities@[x] },
    )
}

impl StoredAbility {
    pub fn new(
        ability: Ability,
        source_obj: usize,
        source_member: usize,
        source_ability_id: usize,
        on_cooldown: bool,
    ) -> (r: StoredAbility)
        ensures
            r.ability == ability,
            r.name@ == ability_name(ability),
            r.on_cooldown == on_cooldown,
            r.source_obj == source_obj,
            r.source_member == source_member,
            r.source_ability_id == source_ability_id,
    {
        let name = get_ability_name(ability);
        StoredAbility { ability, name, on_cooldown, source_obj, source_member, source_ability_id }
    }

    pub fn is_on_cooldown(&self) -> (r: bool)
        ensures
            r == self.on_cooldown,
    {
        self.on_cooldown
    }

    /// The slot this entry points at exists in `objs`.
    pub open spec fn source_valid(&self, objs: Seq<Object>) -> bool {
        &&& self.source_obj < objs.len()
        &&& self.source_member < objs[self.source_obj as int].members@.len()
        &&& self.source_ability_id < objs[self.source_obj as int].members@[self.source_member as int].abilities@.len()
    }

    /// Puts the ability slot that this entry points at on cooldown.
    pub fn set_source_on_cooldown(&self, objects: &mut Vec<Object>)
        requires
            self.source_valid(old(objects)@),
        ensures
            slot_flipped(
                old(objects)@,
                final(objects)@,
                self.source_obj as int,
                self.source_member as int,
                self.source_ability_id as int,
            ),
    {
        objects[self.source_obj].members[self.source_member].abilities[self.source_ability_id].set_on_cooldown();
    }
}

/// Party `t` exists, is on side `tag`, and has members.
pub open spec fn valid_target(objs: Seq<Object>, target: Option<usize>, tag: ActorTag) -> bool {
    target matches Some(t) && t < objs.len() && objs[t as int].tag == tag
        && objs[t as int].members@.len() > 0
}

/// The log after a rejected request: exactly one line more.
pub open spec fn one_line_more(before: Seq<LogMessage>, after: Seq<LogMessage>) -> bool {
    after.len() == before.len() + 1 && extends(before, after)
}

/// Checks that a hostile ability has a living enemy party to aim at; logs why not.
fn check_enemy_target(objects: &Vec<Object>, target: Option<usize>, logs: &mut LogBuffer) -> (r: bool)
    requires
        target matches Some(t) ==> t < objects@.len(),
    ensures
        r == valid_target(objects@, target, ActorTag::Enemy),
        r ==> final(logs).messages@ == old(logs).messages@,
        !r ==> one_line_more(old(logs).messages@, final(logs).messages@),
{
    match target {
        None => {
            logs.update_logs(LogMessage::new().text("That ability needs a target!"));
            false
        },
        Some(t) => {
            let obj = &objects[t];
            if obj.tag != ActorTag::Enemy || obj.members.len() == 0 {
                logs.update_logs(LogMessage::new().text("Why would you want to do that?"));
                false
            } else {
                true
            }
        },
    }
}

/// The caster and target of Cleave stand side by side.
pub open spec fn cleave_applies(objs: Seq<Object>, source_obj: int, target: Option<usize>) -> bool {
    &&& valid_target(objs, target, ActorTag::Enemy)
    &&& objs[target.unwrap() as int].pos is Some
    &&& spec_adjacent(objs[source_obj].pos.unwrap(), objs[target.unwrap() as int].pos.unwrap())
}

/// The hits of a Cleave: one per member of party `t`, all with the same damage.
pub open spec fn cleave_hits(t: usize, n: nat, roll: i32) -> Seq<TargetedAttack> {
    Seq::new(n, |j: int| TargetedAttack { target: (t, j as usize), damage: roll })
}

/// Threat that Cleave gives its caster: 15 for each member struck.
pub open spec fn cleave_threat(n: nat) -> u32 {
    if 15 * n > u32::MAX {
        u32::MAX
    } else {
        (15 * n) as u32
    }
}

/// Cleave: the caster strikes every member of an adjacent enemy party with one single roll
/// of its attack dice.
fn run_cleave(
    objects: &mut Vec<Object>,
    source_obj: usize,
    source_member: usize,
    target_obj: Option<usize>,
    logs: &mut LogBuffer,
    rng: &mut Rng,
) -> (r: bool)
    requires
        source_obj < old(objects)@.len(),
        source_member < old(objects)@[source_obj as int].members@.len(),
        old(objects)@[source_obj as int].pos is Some,
        objects_wf(old(objects)@),
        target_obj matches Some(t) ==> t < old(objects)@.len(),
    ensures
        r == cleave_applies(old(objects)@, source_obj as int, target_obj),
        !r ==> final(objects)@ == old(objects)@ && one_line_more(old(logs).messages@, final(logs).messages@),
        !r ==> *final(rng) == *old(rng),
        r ==> exists|roll: i32|
            {
                let ms = old(objects)@[source_obj as int].members@;
                let n = old(objects)@[target_obj.unwrap() as int].members@.len();
                &&& #[trigger] dice_roll(old(objects)@[source_obj as int].members@[source_member as int].attack, roll)
                &&& acted(
                    old(objects)@,
                    final(objects)@,
                    source_obj as int,
                    source_member as int,
                    spent(ms[source_member as int], cleave_threat(n)),
                    cleave_hits(target_obj.unwrap(), n, roll),
                )
            },
        r ==> extends(old(logs).messages@, final(logs).messages@),
{
    if !check_enemy_target(objects, target_obj, logs) {
        return false;
    }
    let t = target_obj.unwrap();
    let in_reach = match objects[t].pos {
        Some(tp) => objects[source_obj].pos.unwrap().is_adjacent(&tp),
        None => false,
    };
    if !in_reach {
        logs.update_logs(LogMessage::new().text("Your target must be in melee range to use this ability!"));
        return false;
    }
    let n = objects[t].members.len();
    let ghost before = objects@;
    proof {
        assert(objects@[source_obj as int].members@[source_member as int].wf());
    }
    let roll = objects[source_obj].members[source_member].attack.roll_for_damage(rng);
    let gain: u32 = if n > 286331153 { u32::MAX } else { 15 * n as u32 };
    let obj = &mut objects[source_obj];
    let mut j: usize = 0;
    while j < n
        invariant
            j <= n,
            obj.inc_attacks@ == before[source_obj as int].inc_attacks@ + cleave_hits(t, j as nat, roll),
            *obj == (Object { inc_attacks: obj.inc_attacks, ..before[source_obj as int] }),
        decreases n - j,
    {
        obj.inc_attacks.push(TargetedAttack::new((t, j), roll));
        proof {
            assert(cleave_hits(t, (j + 1) as nat, roll) =~= cleave_hits(t, j as nat, roll).push(
                TargetedAttack { target: (t, j), damage: roll },
            ));
        }
        j = j + 1;
    }
    obj.members[source_member].attack.disable_attack();
    obj.members[source_member].threat.add_threat(gain);
    let msg = LogMessage::new().add_part(LogPart::Name(obj.members[source_member].name.clone()))
        .text("attacks each unit in").add_part(LogPart::Name(objects[t].name.clone())).text("for")
        .add_part(LogPart::Amount(roll as i64)).text("damage.");
    logs.update_logs(msg);
    proof {
        assert(dice_roll(before[source_obj as int].members@[source_member as int].attack, roll));
        assert(objects@[source_obj as int].members@ =~= before[source_obj as int].members@.update(
            source_member as int,
            spent(before[source_obj as int].members@[source_member as int], gain),
        ));
    }
    true
}

/// Queues one hit of `roll` on member `idx` of party `t`, spends the caster's attack and
/// adds `gain` threat to it.
fn strike(
    objects: &mut Vec<Object>,
    source_obj: usize,
    source_member: usize,
    t: usize,
    idx: usize,
    roll: i32,
    gain: u32,
)
    requires
        source_obj < old(objects)@.len(),
        source_member < old(objects)@[source_obj as int].members@.len(),
    ensures
        acted(
            old(objects)@,
            final(objects)@,
            source_obj as int,
            source_member as int,
            spent(old(objects)@[source_obj as int].members@[source_member as int], gain),
            seq![TargetedAttack { target: (t, idx), damage: roll }],
        ),
{
    let ghost before = objects@;
    let obj = &mut objects[source_obj];
    obj.members[source_member].attack.disable_attack();
    obj.members[source_member].threat.add_threat(gain);
    obj.inc_attacks.push(TargetedAttack::new((t, idx), roll));
    proof {
        assert(objects@[source_obj as int].members@ =~= before[source_obj as int].members@.update(
            source_member as int,
            spent(before[source_obj as int].members@[source_member as int], gain),
        ));
        assert(objects@[source_obj as int].inc_attacks@ =~= before[source_obj as int].inc_attacks@
            + seq![TargetedAttack { target: (t, idx), damage: roll }]);
    }
}

fn log_strike(logs: &mut LogBuffer, caster: &PartyMember, verb: &str, victim: &PartyMember, roll: i32)
    ensures
        extends(old(logs).messages@, final(logs).messages@),
{
    let msg = LogMessage::new().add_part(LogPart::Name(caster.name.clone())).text(verb).add_part(
        LogPart::Name(victim.name.clone()),
    ).text("for").add_part(LogPart::Amount(roll as i64)).text("damage.");
    logs.update_logs(msg);
}

/// Kill Shot: 2d6 damage on the most injured member of an enemy party.
fn run_killshot(
    objects: &mut Vec<Object>,
    target: Option<usize>,
    source_ids: (usize, usize),
    logs: &mut LogBuffer,
    rng: &mut Rng,
) -> (r: bool)
    requires
        source_ids.0 < old(objects)@.len(),
        source_ids.1 < old(objects)@[source_ids.0 as int].members@.len(),
        target matches Some(t) ==> t < old(objects)@.len(),
    ensures
        r == valid_target(old(objects)@, target, ActorTag::Enemy),
        !r ==> final(objects)@ == old(objects)@ && one_line_more(old(logs).messages@, final(logs).messages@),
        !r ==> *final(rng) == *old(rng),
        r ==> exists|roll: i32, idx: usize|
            {
                &&& 2 <= roll <= 12
                &&& is_most_injured(old(objects)@[target.unwrap() as int].members@, idx as int)
                &&& #[trigger] acted(
                    old(objects)@,
                    final(objects)@,
                    source_ids.0 as int,
                    source_ids.1 as int,
                    spent(old(objects)@[source_ids.0 as int].members@[source_ids.1 as int], 30),
                    seq![TargetedAttack { target: (target.unwrap(), idx), damage: roll }],
                )
            },
        r ==> extends(old(logs).messages@, final(logs).messages@),
{
    if !check_enemy_target(objects, target, logs) {
        return false;
    }
    let t = target.unwrap();
    let idx = most_injured_index(&objects[t].members);
    let roll = rng.roll_dice(2, 6);
    log_strike(logs, &objects[source_ids.0].members[source_ids.1], "fires a deadly shot at", &objects[t].members[idx], roll);
    strike(objects, source_ids.0, source_ids.1, t, idx, roll, 30);
    true
}

/// Magic Missile and its lesser form: 1d3 damage on a member of an enemy party drawn at
/// random.
fn run_magic_missile(
    objects: &mut Vec<Object>,
    target: Option<usize>,
    source_ids: (usize, usize),
    logs: &mut LogBuffer,
    rng: &mut Rng,
) -> (r: bool)
    requires
        source_ids.0 < old(objects)@.len(),
        source_ids.1 < old(objects)@[source_ids.0 as int].members@.len(),
        target matches Some(t) ==> t < old(objects)@.len(),
    ensures
        r == valid_target(old(objects)@, target, ActorTag::Enemy),
        !r ==> final(objects)@ == old(objects)@ && one_line_more(old(logs).messages@, final(logs).messages@),
        !r ==> *final(rng) == *old(rng),
        r ==> exists|roll: i32, idx: usize|
            {
                &&& 1 <= roll <= 3
                &&& idx < old(objects)@[target.unwrap() as int].members@.len()
                &&& #[trigger] acted(
                    old(objects)@,
                    final(objects)@,
                    source_ids.0 as int,
                    source_ids.1 as int,
                    spent(old(objects)@[source_ids.0 as int].members@[source_ids.1 as int], 5),
                    seq![TargetedAttack { target: (target.unwrap(), idx), damage: roll }],
                )
            },
        r ==> extends(old(logs).messages@, final(logs).messages@),
{
    if !check_enemy_target(objects, target, logs) {
        return false;
    }
    let t = target.unwrap();
    let idx = rng.range(0, objects[t].members.len());
    let roll = rng.roll_dice(1, 3);
    log_strike(logs, &objects[source_ids.0].members[source_ids.1], "casts an arcane missile toward", &objects[t].members[idx], roll);
    strike(objects, source_ids.0, source_ids.1, t, idx, roll, 5);
    true
}

/// Psy-Bolt, the enemies' spell: 1d3 damage on a member of the player's party drawn at
/// random. A request without such a target is refused without a word.
pub fn run_psybolt(
    objects: &mut Vec<Object>,
    target: Option<usize>,
    source_ids: (usize, usize),
    logs: &mut LogBuffer,
    rng: &mut Rng,
) -> (r: bool)
    requires
        source_ids.0 < old(objects)@.len(),
        source_ids.1 < old(objects)@[source_ids.0 as int].members@.len(),
        target matches Some(t) ==> t < old(objects)@.len(),
    ensures
        r == valid_target(old(objects)@, target, ActorTag::Player),
        !r ==> final(objects)@ == old(objects)@ && final(logs).messages@ == old(logs).messages@,
        !r ==> *final(rng) == *old(rng),
        r ==> exists|roll: i32, idx: usize|
            {
                &&& 1 <= roll <= 3
                &&& idx < old(objects)@[target.unwrap() as int].members@.len()
                &&& #[trigger] acted(
                    old(objects)@,
                    final(objects)@,
                    source_ids.0 as int,
                    source_ids.1 as int,
                    spent(old(objects)@[source_ids.0 as int].members@[source_ids.1 as int], 5),
                    seq![TargetedAttack { target: (target.unwrap(), idx), damage: roll }],
                )
            },
        r ==> extends(old(logs).messages@, final(logs).messages@),
{
    let t = match target {
        None => {
            return false;
        },
        Some(t) => t,
    };
    if objects[t].tag != ActorTag::Player || objects[t].members.len() == 0 {
        return false;
    }
    let idx = rng.range(0, objects[t].members.len());
    let roll = rng.roll_dice(1, 3);
    log_strike(logs, &objects[source_ids.0].members[source_ids.1], "casts a psychic bolt toward", &objects[t].members[idx], roll);
    strike(objects, source_ids.0, source_ids.1, t, idx, roll, 5);
    true
}

/// `b` is `a` with `x` pushed on its modifiers and nothing else changed.
pub open spec fn with_modifier(a: PartyMember, b: PartyMember, x: Modifier) -> bool {
    &&& b.modifiers@ == a.modifiers@.push(x)
    &&& b == (PartyMember { modifiers: b.modifiers, ..a })
}

/// Taunt: the caster draws five turns of extra threat and gains 15 threat at once.
fn run_taunt(member: &mut PartyMember, logs: &mut LogBuffer) -> (r: bool)
    ensures
        r,
        with_modifier(
            PartyMember {
                threat: Threat { value: old(member).threat.value.saturating_add(15), ..old(member).threat },
                ..*old(member)
            },
            *final(member),
            Modifier { effect: ModifierEffect::PlusThreat(5), remaining: 5, permanent: false },
        ),
        extends(old(logs).messages@, final(logs).messages@),
{
    member.modifiers.push(Modifier::new(ModifierEffect::PlusThreat(5), 5, false));
    member.threat.add_threat(15);
    let msg = LogMessage::new().add_part(LogPart::Name(member.name.clone())).text(
        "lets out a threatening shout, taunting enemies to attack them!",
    );
    logs.update_logs(msg);
    true
}

/// Block: the caster blocks 5 damage for two turns and gives up its attack this turn.
fn run_block(member: &mut PartyMember, logs: &mut LogBuffer) -> (r: bool)
    ensures
        r,
        with_modifier(
            PartyMember { attack: Attack { able: false, ..old(member).attack }, ..*old(member) },
            *final(member),
            Modifier { effect: ModifierEffect::Block(5), remaining: 2, permanent: false },
        ),
        extends(old(logs).messages@, final(logs).messages@),
{
    member.modifiers.push(Modifier::new(ModifierEffect::Block(5), 2, false));
    let msg = LogMessage::new().add_part(LogPart::Name(member.name.clone())).text(
        "raises their shield, blocking the enemies' blows!",
    );
    logs.update_logs(msg);
    member.attack.disable_attack();
    true
}

/// Rallying Cry: every member gains +1 attack for five turns, and the caster 5 threat.
fn run_rallying_cry(members: &mut Vec<PartyMember>, caster: usize, logs: &mut LogBuffer) -> (r: bool)
    requires
        caster < old(members)@.len(),
    ensures
        r,
        final(members)@.len() == old(members)@.len(),
        forall|j: int|
            0 <= j < old(members)@.len() ==> with_modifier(
                if j == caster {
                    PartyMember {
                        threat: Threat { value: old(members)@[j].threat.value.saturating_add(5), ..old(members)@[j].threat },
                        ..old(members)@[j]
                    }
                } else {
                    old(members)@[j]
                },
                #[trigger] final(members)@[j],
                Modifier { effect: ModifierEffect::PlusAttack(1), remaining: 5, permanent: false },
            ),
        extends(old(logs).messages@, final(logs).messages@),
{
    let n = members.len();
    let mut j: usize = 0;
    let x = Modifier::new(ModifierEffect::PlusAttack(1), 5, false);
    while j < n
        invariant
            n == old(members)@.len(),
            members@.len() == n,
            j <= n,
            x == (Modifier { effect: ModifierEffect::PlusAttack(1), remaining: 5, permanent: false }),
            forall|k: int| 0 <= k < j ==> with_modifier(old(members)@[k], #[trigger] members@[k], x),
            forall|k: int| j <= k < n ==> members@[k] == old(members)@[k],
        decreases n - j,
    {
        members[j].modifiers.push(x);
        j = j + 1;
    }
    let msg = LogMessage::new().add_part(LogPart::Name(members[caster].name.clone())).text(
        "lets out a rallying cry, bolstering the party's morale!",
    );
    logs.update_logs(msg);
    members[caster].threat.add_threat(5);
    true
}

/// Hit points after healing `amt`, never past the maximum.
pub open spec fn healed(h: Health, amt: int) -> Health {
    Health {
        current: if h.current + amt > h.max {
            h.max
        } else {
            (h.current + amt) as i32
        },
        ..h
    }
}

/// A member after Cure Wounds: healed by `amt` when it is the one aimed at, and its attack
/// spent when it is the caster.
pub open spec fn cured(m: PartyMember, is_target: bool, amt: int, is_caster: bool) -> PartyMember {
    PartyMember {
        health: if is_target {
            healed(m.health, amt)
        } else {
            m.health
        },
        attack: if is_caster {
            Attack { able: false, ..m.attack }
        } else {
            m.attack
        },
        ..m
    }
}

/// A possible total of the healing dice: 2d3 for the lesser form, 3d4 otherwise.
pub open spec fn heal_roll(lesser: bool, amt: int) -> bool {
    if lesser {
        2 <= amt <= 6
    } else {
        3 <= amt <= 12
    }
}

/// Cure Wounds (3d4) and its lesser form (2d3): heals the most injured member of the
/// caster's party; the caster gives up its attack this turn.
fn run_cure_wounds(
    members: &mut Vec<PartyMember>,
    caster_id: usize,
    rng: &mut Rng,
    logs: &mut LogBuffer,
    lesser: bool,
) -> (r: bool)
    requires
        caster_id < old(members)@.len(),
        forall|j: int| 0 <= j < old(members)@.len() ==> (#[trigger] old(members)@[j]).wf(),
    ensures
        r,
        final(members)@.len() == old(members)@.len(),
        exists|amt: int, idx: int|
            {
                &&& #[trigger] heal_roll(lesser, amt)
                &&& #[trigger] is_most_injured(old(members)@, idx)
                &&& forall|j: int|
                    0 <= j < old(members)@.len() ==> #[trigger] final(members)@[j] == cured(
                        old(members)@[j],
                        j == idx,
                        amt,
                        j == caster_id,
                    )
            },
        extends(old(logs).messages@, final(logs).messages@),
{
    let idx = most_injured_index(members);
    let amt = if !lesser {
        rng.roll_dice(3, 4)
    } else {
        rng.roll_dice(2, 3)
    };
    let ghost before = members@;
    proof {
        assert(members@[idx as int].wf());
    }
    members[idx].health.gain_life(amt);
    let msg = LogMessage::new().add_part(LogPart::Name(members[caster_id].name.clone())).text(
        "casts a healing wave upon",
    ).add_part(LogPart::Name(members[idx].name.clone())).text("for").add_part(
        LogPart::Amount(amt as i64),
    ).text("HP.");
    logs.update_logs(msg);
    members[caster_id].attack.disable_attack();
    proof {
        assert(is_most_injured(before, idx as int));
        assert(heal_roll(lesser, amt as int));
        assert forall|j: int| 0 <= j < before.len() implies #[trigger] members@[j] == cured(
            before[j],
            j == idx,
            amt as int,
            j == caster_id,
        ) by {}
    }
    true
}

/// A cell that Deforest may clear: inside the map, off its one-cell border.
pub open spec fn in_clearing(map: TileMap, x: int, y: int) -> bool {
    1 <= x <= map.width - 2 && 1 <= y <= map.height - 2
}

/// The cell at offset (`dx`, `dy`) from `c` may be cleared and holds a tree.
pub open spec fn tree_at_offset(map: TileMap, c: Point, dx: int, dy: int) -> bool {
    in_clearing(map, c.x + dx, c.y + dy) && map.tile_at(offset_cell(c, dx, dy)) == TileClass::Tree
}

/// The cell at offset (`dx`, `dy`) from `c`.
pub open spec fn offset_cell(c: Point, dx: int, dy: int) -> Point {
    Point { x: (c.x + dx) as i32, y: (c.y + dy) as i32 }
}

/// Some cell around `c` may be cleared and holds a tree.
pub open spec fn trees_around(map: TileMap, c: Point) -> bool {
    exists|dx: int, dy: int|
        -1 <= dx <= 1 && -1 <= dy <= 1 && !(dx == 0 && dy == 0) && #[trigger] tree_at_offset(map, c, dx, dy)
}

/// `after` is `before` where every tree on a cell around `c` that may be cleared became
/// forest floor, and nothing else changed.
pub open spec fn deforested(before: TileMap, after: TileMap, c: Point) -> bool {
    &&& after == (TileMap { tiles: after.tiles, ..before })
    &&& after.tiles@.len() == before.tiles@.len()
    &&& forall|q: Point|
        before.in_bounds(q) ==> #[trigger] after.tile_at(q) == if spec_adjacent(c, q) && in_clearing(
            before,
            q.x as int,
            q.y as int,
        ) && before.tile_at(q) == TileClass::Tree {
            TileClass::ForestFloor
        } else {
            before.tile_at(q)
        }
}

/// Clears the tree at offset (`dx`, `dy`) from `c`, if there is one that may be cleared.
fn chop_at(map: &mut TileMap, c: Point, dx: i32, dy: i32) -> (r: bool)
    requires
        old(map).wf(),
        -1 <= dx <= 1,
        -1 <= dy <= 1,
    ensures
        final(map).wf(),
        *final(map) == (TileMap { tiles: final(map).tiles, ..*old(map) }),
        r == tree_at_offset(*old(map), c, dx as int, dy as int),
        forall|q: Point|
            old(map).in_bounds(q) ==> #[trigger] final(map).tile_at(q) == if q == offset_cell(c, dx as int, dy as int) && r {
                TileClass::ForestFloor
            } else {
                old(map).tile_at(q)
            },
{
    let x = c.x as i64 + dx as i64;
    let y = c.y as i64 + dy as i64;
    if x < 1 || y < 1 || x > map.width as i64 - 2 || y > map.height as i64 - 2 {
        return false;
    }
    let p = Point { x: x as i32, y: y as i32 };
    let idx = map.point2d_to_index(p);
    if map.tiles[idx] != TileClass::Tree {
        return false;
    }
    let ghost before = *map;
    map.tiles.set(idx, TileClass::ForestFloor);
    proof {
        assert(p == offset_cell(c, dx as int, dy as int));
        assert(before.in_bounds(p));
        assert(map.tiles@ == before.tiles@.update(idx as int, TileClass::ForestFloor));
        assert(map.width == before.width);
        assert forall|q: Point| before.in_bounds(q) implies #[trigger] map.tile_at(q) == if q == p {
            TileClass::ForestFloor
        } else {
            before.tile_at(q)
        } by {
            lemma_index_injective(before.width as int, before.height as int, p, q);
            lemma_index_bound(before, q);
        }
    }
    true
}

/// Deforest: every tree on the eight cells around the caster, off the map's border, becomes
/// forest floor. It succeeds when at least one tree fell.
fn run_deforest(source_pos: &Point, map: &mut TileMap) -> (r: bool)
    requires
        old(map).wf(),
    ensures
        final(map).wf(),
        r == trees_around(*old(map), *source_pos),
        deforested(*old(map), *final(map), *source_pos),
{
    let c = *source_pos;
    let ghost m0 = *map;
    let a = chop_at(map, c, -1, -1);
    let ghost m1 = *map;
    let b = chop_at(map, c, 0, -1);
    let ghost m2 = *map;
    let d = chop_at(map, c, 1, -1);
    let ghost m3 = *map;
    let e = chop_at(map, c, -1, 0);
    let ghost m4 = *map;
    let f = chop_at(map, c, 1, 0);
    let ghost m5 = *map;
    let g = chop_at(map, c, -1, 1);
    let ghost m6 = *map;
    let h = chop_at(map, c, 0, 1);
    let ghost m7 = *map;
    let k = chop_at(map, c, 1, 1);
    proof {
        assert(tree_at_offset(m1, c, 0, -1) == tree_at_offset(m0, c, 0, -1));
        assert(tree_at_offset(m2, c, 1, -1) == tree_at_offset(m0, c, 1, -1));
        assert(tree_at_offset(m3, c, -1, 0) == tree_at_offset(m0, c, -1, 0));
        assert(tree_at_offset(m4, c, 1, 0) == tree_at_offset(m0, c, 1, 0));
        assert(tree_at_offset(m5, c, -1, 1) == tree_at_offset(m0, c, -1, 1));
        assert(tree_at_offset(m6, c, 0, 1) == tree_at_offset(m0, c, 0, 1));
        assert(tree_at_offset(m7, c, 1, 1) == tree_at_offset(m0, c, 1, 1));
        assert forall|dx: int, dy: int| -1 <= dx <= 1 && -1 <= dy <= 1 && !(dx == 0 && dy == 0) implies
            #[trigger] tree_at_offset(m0, c, dx, dy) == ((dx == -1 && dy == -1 && a) || (dx == 0 && dy == -1 && b)
            || (dx == 1 && dy == -1 && d) || (dx == -1 && dy == 0 && e) || (dx == 1 && dy == 0 && f)
            || (dx == -1 && dy == 1 && g) || (dx == 0 && dy == 1 && h) || (dx == 1 && dy == 1 && k)) by {
        }
        assert(tree_at_offset(m0, c, -1, -1) == a);
        assert(tree_at_offset(m0, c, 0, -1) == b);
        assert(tree_at_offset(m0, c, 1, -1) == d);
        assert(tree_at_offset(m0, c, -1, 0) == e);
        assert(tree_at_offset(m0, c, 1, 0) == f);
        assert(tree_at_offset(m0, c, -1, 1) == g);
        assert(tree_at_offset(m0, c, 0, 1) == h);
        assert(tree_at_offset(m0, c, 1, 1) == k);
        assert forall|q: Point| m0.in_bounds(q) implies #[trigger] map.tile_at(q) == if spec_adjacent(c, q)
            && in_clearing(m0, q.x as int, q.y as int) && m0.tile_at(q) == TileClass::Tree {
            TileClass::ForestFloor
        } else {
            m0.tile_at(q)
        } by {
            let dx = q.x - c.x;
            let dy = q.y - c.y;
            if spec_adjacent(c, q) {
                assert(tree_at_offset(m0, c, dx, dy) == (in_clearing(m0, q.x as int, q.y as int) && m0.tile_at(q) == TileClass::Tree));
            }
        }
    }
    a || b || d || e || f || g || h || k
}

/// Whether an ability that is off cooldown takes effect: buffs and heals always do, hostile
/// abilities need a living enemy party (Cleave one next to the caster), Deforest needs a
/// tree to fell. Psy-Bolt is cast by the AI through its own entry point, never from here.
pub open spec fn ability_applies(
    objs: Seq<Object>,
    map: TileMap,
    source_obj: int,
    a: Ability,
    target: Option<usize>,
) -> bool {
    match a {
        Ability::Taunt | Ability::Block | Ability::CureWounds | Ability::LesserCureWounds
        | Ability::RallyingCry => true,
        Ability::KillShot | Ability::MagicMissile | Ability::LesserMagicMissile => valid_target(
            objs,
            target,
            ActorTag::Enemy,
        ),
        Ability::Cleave => cleave_applies(objs, source_obj, target),
        Ability::Deforest => trees_around(map, objs[source_obj].pos.unwrap()),
        Ability::PsyBolt => false,
    }
}

/// Abilities whose refusal is explained in the log.
pub open spec fn explains_refusal(a: Ability) -> bool {
    a == Ability::KillShot || a == Ability::MagicMissile || a == Ability::LesserMagicMissile || a
        == Ability::Cleave
}

/// `after` is `before` where only the members of party `o` changed, keeping their number.
pub open spec fn members_changed(before: Seq<Object>, after: Seq<Object>, o: int) -> bool {
    &&& after.len() == before.len()
    &&& forall|i: int| 0 <= i < before.len() && i != o ==> after[i] == before[i]
    &&& after[o] == (Object { members: after[o].members, ..before[o] })
    &&& after[o].members@.len() == before[o].members@.len()
}

/// `after` is `before` where only member `m` of party `o` changed.
pub open spec fn member_changed(before: Seq<Object>, after: Seq<Object>, o: int, m: int) -> bool {
    &&& members_changed(before, after, o)
    &&& forall|j: int| 0 <= j < before[o].members@.len() && j != m ==> after[o].members@[j] == before[o].members@[j]
}

/// What Cure Wounds (or its lesser form), cast by member `m` of party `o`, does.
pub open spec fn cure_effect(before: Seq<Object>, after: Seq<Object>, o: int, m: int, lesser: bool) -> bool {
    &&& members_changed(before, after, o)
    &&& exists|amt: int, idx: int|
        {
            &&& #[trigger] heal_roll(lesser, amt)
            &&& #[trigger] is_most_injured(before[o].members@, idx)
            &&& forall|j: int|
                0 <= j < before[o].members@.len() ==> #[trigger] after[o].members@[j] == cured(
                    before[o].members@[j],
                    j == idx,
                    amt,
                    j == m,
                )
        }
}

/// What ability `a`, cast by member `m` of party `o` at `target`, does to the parties
/// (`before` to `after`) and to the map (`map` to `map2`).
pub open spec fn cast_effect(
    a: Ability,
    before: Seq<Object>,
    after: Seq<Object>,
    map: TileMap,
    map2: TileMap,
    o: int,
    m: int,
    target: Option<usize>,
) -> bool {
    let bm = before[o].members@[m];
    let am = after[o].members@[m];
    let t = target.unwrap() as int;
    &&& (a != Ability::Deforest ==> map2 == map)
    &&& match a {
        Ability::Taunt => member_changed(before, after, o, m) && with_modifier(
            PartyMember { threat: Threat { value: bm.threat.value.saturating_add(15), ..bm.threat }, ..bm },
            am,
            Modifier { effect: ModifierEffect::PlusThreat(5), remaining: 5, permanent: false },
        ),
        Ability::Block => member_changed(before, after, o, m) && with_modifier(
            PartyMember { attack: Attack { able: false, ..bm.attack }, ..bm },
            am,
            Modifier { effect: ModifierEffect::Block(5), remaining: 2, permanent: false },
        ),
        Ability::RallyingCry => members_changed(before, after, o) && forall|j: int|
            0 <= j < before[o].members@.len() ==> with_modifier(
                if j == m {
                    PartyMember {
                        threat: Threat { value: before[o].members@[j].threat.value.saturating_add(5), ..before[o].members@[j].threat },
                        ..before[o].members@[j]
                    }
                } else {
                    before[o].members@[j]
                },
                #[trigger] after[o].members@[j],
                Modifier { effect: ModifierEffect::PlusAttack(1), remaining: 5, permanent: false },
            ),
        Ability::CureWounds => cure_effect(before, after, o, m, false),
        Ability::LesserCureWounds => cure_effect(before, after, o, m, true),
        Ability::KillShot => exists|roll: i32, idx: usize|
            {
                &&& 2 <= roll <= 12
                &&& is_most_injured(before[t].members@, idx as int)
                &&& #[trigger] acted(before, after, o, m, spent(bm, 30), seq![TargetedAttack { target: (target.unwrap(), idx), damage: roll }])
            },
        Ability::MagicMissile | Ability::LesserMagicMissile => exists|roll: i32, idx: usize|
            {
                &&& 1 <= roll <= 3
                &&& idx < before[t].members@.len()
                &&& #[trigger] acted(before, after, o, m, spent(bm, 5), seq![TargetedAttack { target: (target.unwrap(), idx), damage: roll }])
            },
        Ability::Cleave => exists|roll: i32|
            {
                &&& #[trigger] dice_roll(bm.attack, roll)
                &&& acted(before, after, o, m, spent(bm, cleave_threat(before[t].members@.len())), cleave_hits(t as usize, before[t].members@.len(), roll))
            },
        Ability::Deforest => after == before && deforested(map, map2, before[o].pos.unwrap()),
        Ability::PsyBolt => after == before,
    }
}

/// Carries out an ability that is off cooldown; returns whether it took effect. A refused
/// request changes neither the parties nor the map.
pub fn cast_ability(
    objects: &mut Vec<Object>,
    map: &mut TileMap,
    ability: Ability,
    source_obj: usize,
    source_member: usize,
    rng: &mut Rng,
    logs: &mut LogBuffer,
    target: Option<usize>,
) -> (r: bool)
    requires
        source_obj < old(objects)@.len(),
        source_member < old(objects)@[source_obj as int].members@.len(),
        ability == Ability::Cleave || ability == Ability::Deforest ==> old(objects)@[source_obj as int].pos is Some,
        objects_wf(old(objects)@),
        old(map).wf(),
        target matches Some(t) ==> t < old(objects)@.len(),
    ensures
        final(map).wf(),
        r == ability_applies(old(objects)@, *old(map), source_obj as int, ability, target),
        r ==> cast_effect(ability, old(objects)@, final(objects)@, *old(map), *final(map), source_obj as int, source_member as int, target),
        !r ==> final(objects)@ == old(objects)@,
        !r ==> *final(rng) == *old(rng),
        !r && ability != Ability::Deforest ==> *final(map) == *old(map),
        ability == Ability::Deforest ==> deforested(*old(map), *final(map), old(objects)@[source_obj as int].pos.unwrap()),
        !r && explains_refusal(ability) ==> one_line_more(old(logs).messages@, final(logs).messages@),
        extends(old(logs).messages@, final(logs).messages@),
{
    let src = source_obj;
    let sm = source_member;
    let ghost before = objects@;
    proof {
        assert(objects@[src as int].members@[sm as int].wf());
        assert forall|j: int| 0 <= j < objects@[src as int].members@.len() implies (#[trigger] objects@[src as int].members@[j]).wf() by {
            assert(objects@[src as int].members@[j].wf());
        }
    }
    let r = match ability {
        Ability::Taunt => run_taunt(&mut objects[src].members[sm], logs),
        Ability::Block => run_block(&mut objects[src].members[sm], logs),
        Ability::CureWounds => run_cure_wounds(&mut objects[src].members, sm, rng, logs, false),
        Ability::LesserCureWounds => run_cure_wounds(&mut objects[src].members, sm, rng, logs, true),
        Ability::RallyingCry => run_rallying_cry(&mut objects[src].members, sm, logs),
        Ability::KillShot => run_killshot(objects, target, (src, sm), logs, rng),
        Ability::Deforest => {
            let pos = objects[src].pos.unwrap();
            run_deforest(&pos, map)
        },
        Ability::MagicMissile | Ability::LesserMagicMissile => run_magic_missile(objects, target, (src, sm), logs, rng),
        Ability::Cleave => run_cleave(objects, src, sm, target, logs, rng),
        Ability::PsyBolt => false,
    };
    proof {
        let after = objects@;
        if r {
            match ability {
                Ability::Taunt | Ability::Block => {
                    assert(member_changed(before, after, src as int, sm as int));
                },
                Ability::RallyingCry => {
                    assert(members_changed(before, after, src as int));
                },
                Ability::CureWounds => {
                    assert(members_changed(before, after, src as int));
                    assert(cure_effect(before, after, src as int, sm as int, false));
                },
                Ability::LesserCureWounds => {
                    assert(members_changed(before, after, src as int));
                    assert(cure_effect(before, after, src as int, sm as int, true));
                },
                _ => {},
            }
            assert(cast_effect(ability, before, after, *old(map), *map, src as int, sm as int, target));
        }
    }
    r
}

/// Uses the ability that a cached entry points at. It is performed when it is off
/// cooldown and takes effect (see `cast_effect`); then its slot goes on cooldown. The
/// caster's vision is marked for recomputation either way, and a refused request changes
/// nothing else. Returns whether it was performed.
pub fn handle_abilities(
    objects: &mut Vec<Object>,
    map: &mut TileMap,
    ability: &mut StoredAbility,
    rng: &mut Rng,
    logs: &mut LogBuffer,
    target: Option<usize>,
) -> (performed: bool)
    requires
        old(ability).source_valid(old(objects)@),
        old(ability).ability == Ability::Cleave || old(ability).ability == Ability::Deforest
            ==> old(objects)@[old(ability).source_obj as int].pos is Some,
        objects_wf(old(objects)@),
        old(map).wf(),
        target matches Some(t) ==> t < old(objects)@.len(),
    ensures
        final(map).wf(),
        *final(ability) == *old(ability),
        performed == (!old(ability).on_cooldown && ability_applies(
            old(objects)@,
            *old(map),
            old(ability).source_obj as int,
            old(ability).ability,
            target,
        )),
        old(ability).on_cooldown ==> one_line_more(old(logs).messages@, final(logs).messages@),
        !performed ==> *final(rng) == *old(rng),
        !performed ==> final(objects)@ == old(objects)@.update(
            old(ability).source_obj as int,
            refreshed(old(objects)@[old(ability).source_obj as int]),
        ),
        !performed && !old(ability).on_cooldown && explains_refusal(old(ability).ability)
            ==> one_line_more(old(logs).messages@, final(logs).messages@),
        performed ==> exists|mid: Seq<Object>|
            {
                &&& #[trigger] cast_effect(
                    old(ability).ability,
                    old(objects)@.update(
                        old(ability).source_obj as int,
                        refreshed(old(objects)@[old(ability).source_obj as int]),
                    ),
                    mid,
                    *old(map),
                    *final(map),
                    old(ability).source_obj as int,
                    old(ability).source_member as int,
                    target,
                )
                &&& slot_flipped(
                    mid,
                    final(objects)@,
                    old(ability).source_obj as int,
                    old(ability).source_member as int,
                    old(ability).source_ability_id as int,
                )
            },
        old(ability).ability == Ability::Deforest && !old(ability).on_cooldown ==> deforested(
            *old(map),
            *final(map),
            old(objects)@[old(ability).source_obj as int].pos.unwrap(),
        ),
        old(ability).ability != Ability::Deforest || old(ability).on_cooldown ==> *final(map) == *old(map),
        extends(old(logs).messages@, final(logs).messages@),
{
    let src = ability.source_obj;
    let sm = ability.source_member;
    let ghost before = objects@;
    refresh_view(&mut objects[src]);
    let ghost fresh = objects@;
    proof {
        assert(fresh == before.update(src as int, refreshed(before[src as int])));
        assert(objects_wf(fresh)) by {
            assert forall|i: int, j: int| 0 <= i < fresh.len() && 0 <= j < fresh[i].members@.len() implies #[trigger] fresh[i].members@[j].wf() by {
                assert(fresh[i].members == before[i].members);
            }
        }
        assert(fresh[src as int].pos == before[src as int].pos);
        assert(fresh[src as int].members == before[src as int].members);
        assert(forall|i: int| 0 <= i < before.len() ==> #[trigger] fresh[i].tag == before[i].tag && fresh[i].members == before[i].members && fresh[i].pos == before[i].pos);
    }
    if ability.is_on_cooldown() {
        let msg = LogMessage::new().add_part(LogPart::Name(objects[src].members[sm].name.clone())).add_part(
            LogPart::Name(ability.name.clone()),
        ).text("is still on cooldown!");
        logs.update_logs(msg);
        return false;
    }
    let success = cast_ability(objects, map, ability.ability, src, sm, rng, logs, target);
    proof {
        assert(ability_applies(fresh, *old(map), src as int, ability.ability, target) == ability_applies(
            before,
            *old(map),
            src as int,
            ability.ability,
            target,
        ));
    }
    if success {
        let ghost mid = objects@;
        proof {
            assert(objects@[src as int].members@.len() == before[src as int].members@.len());
            assert(objects@[src as int].members@[sm as int].abilities@ == before[src as int].members@[sm as int].abilities@);
        }
        ability.set_source_on_cooldown(objects);
        proof {
            assert(cast_effect(ability.ability, fresh, mid, *old(map), *map, src as int, sm as int, target));
        }
    }
    success
}

} // verus!
