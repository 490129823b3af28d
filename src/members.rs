use vstd::prelude::*;

use crate::abilities::{Ability, ability_cooldown, get_ability_cooldown};
use crate::rng::Rng;

verus! {

/// Current and maximal hit points of a combatant.
#[derive(Clone, Copy, PartialEq, Eq, Structural, Debug)]
pub struct Health {
    pub current: i32,
    pub max: i32,
}

/// `a - b`, held at `i32::MIN` where it would go below it.
pub open spec fn floor_sub(a: int, b: int) -> int {
    if a - b < i32::MIN {
        i32::MIN as int
    } else {
        a - b
    }
}

impl Health {
    pub open spec fn wf(&self) -> bool {
        0 < self.max && self.current <= self.max
    }

    /// Hit points missing to reach the maximum.
    pub open spec fn spec_deficit(&self) -> int {
        self.max - self.current
    }

    pub fn new(max: i32) -> (r: Health)
        requires
            max > 0,
        ensures
            r.wf(),
            r.current == max,
            r.max == max,
    {
        Health { current: max, max }
    }

    pub fn get_life(&self) -> (r: i32)
        ensures
            r == self.current,
    {
        self.current
    }

    pub fn get_max(&self) -> (r: i32)
        ensures
            r == self.max,
    {
        self.max
    }

    pub fn deficit(&self) -> (r: i64)
        ensures
            r == self.spec_deficit(),
    {
        self.max as i64 - self.current as i64
    }

    /// Heals by `amt`, never past the maximum.
    pub fn gain_life(&mut self, amt: i32)
        requires
            old(self).wf(),
            amt >= 0,
        ensures
            final(self).wf(),
            final(self).max == old(self).max,
            final(self).current <= final(self).max,
            final(self).current == if old(self).current + amt > old(self).max {
                old(self).max as int
            } else {
                old(self).current + amt
            },
    {
        if self.current as i64 + amt as i64 > self.max as i64 {
            self.current = self.max;
        } else {
            self.current = self.current + amt;
        }
    }

    /// Takes `amt` damage; hit points may go to zero or below, which marks the combatant
    /// for removal.
    pub fn lose_life(&mut self, amt: i32)
        requires
            amt >= 0,
        ensures
            final(self).max == old(self).max,
            final(self).current == floor_sub(old(self).current as int, amt as int),
    {
        if (self.current as i64) - (amt as i64) < i32::MIN as i64 {
            self.current = i32::MIN;
        } else {
            self.current = self.current - amt;
        }
    }
}

/// The dice that a combatant rolls for damage, and whether it may attack this turn.
#[derive(Clone, Copy, PartialEq, Eq, Structural, Debug)]
pub struct Attack {
    pub count: u32,
    pub sides: u32,
    pub able: bool,
}

impl Attack {
    pub open spec fn wf(&self) -> bool {
        1 <= self.count && 1 <= self.sides && self.count * self.sides < i32::MAX
    }

    pub fn new(count: u32, sides: u32) -> (r: Attack)
        requires
            1 <= count,
            1 <= sides,
            count * sides < i32::MAX,
        ensures
            r.wf(),
            r.count == count,
            r.sides == sides,
            r.able,
    {
        Attack { count, sides, able: true }
    }

    pub fn is_able(&self) -> (r: bool)
        ensures
            r == self.able,
    {
        self.able
    }

    pub fn enable_attack(&mut self)
        ensures
            *final(self) == (Attack { able: true, ..*old(self) }),
    {
        self.able = true;
    }

    pub fn disable_attack(&mut self)
        ensures
            *final(self) == (Attack { able: false, ..*old(self) }),
    {
        self.able = false;
    }

    /// Rolls this attack's dice.
    pub fn roll_for_damage(&self, rng: &mut Rng) -> (r: i32)
        requires
            self.wf(),
        ensures
            self.count <= r <= self.count * self.sides,
    {
        rng.roll_dice(self.count, self.sides)
    }
}

/// A combatant's aggro counter and the amount it gains each turn in combat.
#[derive(Clone, Copy, PartialEq, Eq, Structural, Debug)]
pub struct Threat {
    pub value: u32,
    pub rate: u32,
}

impl Threat {
    pub fn new(rate: u32, initial: u32) -> (r: Threat)
        ensures
            r.rate == rate,
            r.value == initial,
    {
        Threat { value: initial, rate }
    }

    pub fn get_threat(&self) -> (r: u32)
        ensures
            r == self.value,
    {
        self.value
    }

    /// One turn in combat: the counter grows by the rate.
    pub fn increment_threat(&mut self)
        ensures
            final(self).rate == old(self).rate,
            final(self).value == old(self).value.saturating_add(old(self).rate),
    {
        self.value = self.value.saturating_add(self.rate);
    }

    /// Out of combat the counter drops back to zero.
    pub fn reset_threat(&mut self)
        ensures
            final(self).rate == old(self).rate,
            final(self).value == 0,
    {
        self.value = 0;
    }

    pub fn add_threat(&mut self, amt: u32)
        ensures
            final(self).rate == old(self).rate,
            final(self).value == old(self).value.saturating_add(amt),
    {
        self.value = self.value.saturating_add(amt);
    }
}

/// What a status modifier does.
#[derive(Clone, Copy, PartialEq, Eq, Structural, Debug)]
pub enum ModifierEffect {
    PlusAttack(i32),
    Block(i32),
    PlusThreat(u32),
}

/// A status modifier that lasts some turns, or for good.
#[derive(Clone, Copy, PartialEq, Eq, Structural, Debug)]
pub struct Modifier {
    pub effect: ModifierEffect,
    pub remaining: u32,
    pub permanent: bool,
}

impl Modifier {
    pub fn new(effect: ModifierEffect, remaining: u32, permanent: bool) -> (r: Modifier)
        ensures
            r == (Modifier { effect, remaining, permanent }),
    {
        Modifier { effect, remaining, permanent }
    }
}

/// An ability known by one combatant, with its cooldown state.
#[derive(Clone, Copy, PartialEq, Eq, Structural, Debug)]
pub struct AbilityClass {
    pub ability: Ability,
    pub on_cooldown: bool,
    pub timer: u32,
}

impl AbilityClass {
    pub fn new(ability: Ability) -> (r: AbilityClass)
        ensures
            r == (AbilityClass { ability, on_cooldown: false, timer: 0 }),
    {
        AbilityClass { ability, on_cooldown: false, timer: 0 }
    }

    pub fn is_on_cooldown(&self) -> (r: bool)
        ensures
            r == self.on_cooldown,
    {
        self.on_cooldown
    }

    pub fn set_on_cooldown(&mut self)
        ensures
            *final(self) == (AbilityClass { on_cooldown: true, timer: 0, ..*old(self) }),
    {
        self.on_cooldown = true;
        self.timer = 0;
    }

    /// One turn of a running cooldown: the ability is ready again once the timer
    /// reaches the ability's cooldown.
    pub fn increment_cd_timer(&mut self)
        ensures
            *final(self) == spec_tick_cooldown(*old(self)),
    {
        if self.on_cooldown {
            let cd = get_ability_cooldown(self.ability) as u32;
            if self.timer >= cd - 1 {
                self.on_cooldown = false;
                self.timer = 0;
            } else {
                self.timer = self.timer + 1;
            }
        }
    }
}

/// One turn of cooldown for an ability slot.
pub open spec fn spec_tick_cooldown(a: AbilityClass) -> AbilityClass {
    if !a.on_cooldown {
        a
    } else if a.timer + 1 >= ability_cooldown(a.ability) {
        AbilityClass { on_cooldown: false, timer: 0, ..a }
    } else {
        AbilityClass { timer: (a.timer + 1) as u32, ..a }
    }
}

/// The class of a combatant; kills are tallied as beasts or as everything else.
#[derive(Clone, Copy, PartialEq, Eq, Structural, Debug)]
pub enum ClassTag {
    Bard,
    Guardian,
    Barbarian,
    Woodcutter,
    Hunter,
    Cleric,
    Warrior,
    Beast,
}

/// One member of a party.
#[derive(Debug)]
pub struct PartyMember {
    pub name: String,
    pub class: ClassTag,
    pub abilities: Vec<AbilityClass>,
    pub health: Health,
    pub attack: Attack,
    pub threat: Threat,
    pub modifiers: Vec<Modifier>,
}

impl PartyMember {
    pub open spec fn wf(&self) -> bool {
        self.health.wf() && self.attack.wf()
    }
}

} // verus!
