use vstd::prelude::*;

use crate::combat::TargetedAttack;
use crate::geometry::Point;
use crate::log::{LogBuffer, LogMessage, LogPart, extends};
use crate::members::{PartyMember, Attack, Threat};
use crate::rng::Rng;
use crate::tilemap::TileMap;


verus! {

/// Which side a party belongs to.
#[derive(Clone, Copy, PartialEq, Eq, Structural, Debug)]
pub enum ActorTag {
    Player,
    Enemy,
    Elf,
}

/// What a party currently sees; `refresh` asks the vision collaborator to recompute it.
#[derive(Debug)]
pub struct Viewshed {
    pub range: i32,
    pub visible: Vec<Point>,
    pub refresh: bool,
}

/// The pursuit mode of an AI-driven party.
#[derive(Clone, Copy, PartialEq, Eq, Structural, Debug)]
pub enum AIState {
    Wandering,
    Chasing,
}

/// Turns for which an AI party remembers a target that attacked it.
pub const TARGET_MEMORY: u32 = 24;

/// The memory that an AI driver keeps for a party.
#[derive(Debug)]
pub struct AIClass {
    pub target: Option<usize>,
    pub state: AIState,
    pub tgt_memory: u32,
    pub tgt_heatmap: Vec<Point>,
}

impl AIClass {
    pub fn new() -> (r: AIClass)
        ensures
            r.target is None,
            r.state == AIState::Wandering,
            r.tgt_memory == 0,
            r.tgt_heatmap@.len() == 0,
    {
        AIClass { target: None, state: AIState::Wandering, tgt_memory: 0, tgt_heatmap: Vec::new() }
    }
}

/// A party on the map: its members, and the hits queued against other parties.
#[derive(Debug)]
pub struct Object {
    pub name: String,
    pub floor: u32,
    pub tag: ActorTag,
    pub pos: Option<Point>,
    pub block_tile: bool,
    pub members: Vec<PartyMember>,
    pub inc_attacks: Vec<TargetedAttack>,
    pub in_combat: bool,
    pub viewshed: Option<Viewshed>,
    pub ai: Option<AIClass>,
}

/// Every member of every party has a valid health and attack.
pub open spec fn objects_wf(objs: Seq<Object>) -> bool {
    forall|i: int, j: int|
        0 <= i < objs.len() && 0 <= j < objs[i].members@.len() ==> #[trigger] objs[i].members@[j].wf()
}

/// `o` with its vision marked for recomputation.
pub open spec fn refreshed(o: Object) -> Object {
    match o.viewshed {
        Some(v) => Object { viewshed: Some(Viewshed { refresh: true, ..v }), ..o },
        None => o,
    }
}

/// A caster after an offensive action: its attack is spent for the turn and its threat
/// grows by `gain`.
pub open spec fn spent(m: PartyMember, gain: u32) -> PartyMember {
    PartyMember {
        attack: Attack { able: false, ..m.attack },
        threat: Threat { value: m.threat.value.saturating_add(gain), ..m.threat },
        ..m
    }
}

/// `after` is `before` where only member `m` of party `o` changed, to `nm`, and `hits`
/// were queued on party `o`.
pub open spec fn acted(
    before: Seq<Object>,
    after: Seq<Object>,
    o: int,
    m: int,
    nm: PartyMember,
    hits: Seq<TargetedAttack>,
) -> bool {
    &&& after.len() == before.len()
    &&& forall|i: int| 0 <= i < before.len() && i != o ==> after[i] == before[i]
    &&& after[o] == (Object { members: after[o].members, inc_attacks: after[o].inc_attacks, ..before[o] })
    &&& after[o].members@ == before[o].members@.update(m, nm)
    &&& after[o].inc_attacks@ == before[o].inc_attacks@ + hits
}

/// `roll` is a possible total of the dice of `a`.
pub open spec fn dice_roll(a: Attack, roll: i32) -> bool {
    a.count <= roll <= a.count * a.sides
}

/// Marks a party's vision for recomputation.
pub fn refresh_view(obj: &mut Object)
    ensures
        *final(obj) == refreshed(*old(obj)),
{
    match &mut obj.viewshed {
        Some(v) => {
            v.refresh = true;
        },
        None => {},
    }
}

/// A member after its turn of basic attack: an able member strikes for `roll`, gains that
/// much threat and spends its attack; a spent member recovers its attack instead.
pub open spec fn attacked(m: PartyMember, roll: i32) -> PartyMember {
    if m.attack.able {
        spent(m, roll as u32)
    } else {
        PartyMember { attack: Attack { able: true, ..m.attack }, ..m }
    }
}

/// The hits that the first `n` members queue in a basic attack on member `t` of party
/// `target_id`: one for each member able to attack, with its roll.
pub open spec fn basic_hits(ms: Seq<PartyMember>, rolls: Seq<i32>, target_id: usize, t: usize, n: int) -> Seq<
    TargetedAttack,
>
    decreases n,
{
    if n <= 0 {
        Seq::empty()
    } else if ms[n - 1].attack.able {
        basic_hits(ms, rolls, target_id, t, n - 1).push(
            TargetedAttack { target: (target_id, t), damage: rolls[n - 1] },
        )
    } else {
        basic_hits(ms, rolls, target_id, t, n - 1)
    }
}

/// `rolls` holds a possible roll of the attack dice of each member able to attack.
pub open spec fn rolled(ms: Seq<PartyMember>, rolls: Seq<i32>) -> bool {
    rolls.len() == ms.len() && forall|j: int|
        0 <= j < ms.len() && ms[j].attack.able ==> dice_roll(ms[j].attack, #[trigger] rolls[j])
}

impl Object {
    /// Moves the party to `dest` when the party is placed and `dest` is walkable; its
    /// vision is then recomputed. A blocked move changes nothing.
    pub fn try_move(&mut self, dest: Point, map: &TileMap)
        requires
            map.wf(),
        ensures
            old(self).pos is Some && map.spec_walkable(dest) ==> *final(self) == refreshed(
                Object { pos: Some(dest), ..*old(self) },
            ),
            !(old(self).pos is Some && map.spec_walkable(dest)) ==> *final(self) == *old(self),
    {
        if self.pos.is_some() && map.walkable(dest) {
            self.pos = Some(dest);
            refresh_view(self);
        }
    }

    /// A basic attack on party `target`, found at index `target_id`: each member able to
    /// attack strikes the target's member with the highest threat (the lowest index among
    /// equals) for a roll of its dice, gains that much threat and spends its attack; each
    /// spent member recovers its attack instead.
    pub fn try_attack(&mut self, target: &Object, target_id: usize, rng: &mut Rng, logs: &mut LogBuffer)
        requires
            forall|j: int| 0 <= j < old(self).members@.len() ==> (#[trigger] old(self).members@[j]).wf(),
            target.members@.len() > 0,
        ensures
            *final(self) == (Object { members: final(self).members, inc_attacks: final(self).inc_attacks, ..*old(self) }),
            exists|rolls: Seq<i32>, t: usize|
                {
                    &&& #[trigger] rolled(old(self).members@, rolls)
                    &&& #[trigger] is_top_threat(target.members@, t as int)
                    &&& final(self).members@.len() == old(self).members@.len()
                    &&& forall|j: int|
                        0 <= j < old(self).members@.len() ==> #[trigger] final(self).members@[j] == attacked(
                            old(self).members@[j],
                            rolls[j],
                        )
                    &&& final(self).inc_attacks@ == old(self).inc_attacks@ + basic_hits(
                        old(self).members@,
                        rolls,
                        target_id,
                        t,
                        old(self).members@.len() as int,
                    )
                    &&& final(logs).messages@.len() == old(logs).messages@.len() + final(self).inc_attacks@.len()
                        - old(self).inc_attacks@.len()
                },
            extends(old(logs).messages@, final(logs).messages@),
    {
        let t = highest_threat_index(&target.members);
        let ghost before = *self;
        let ghost ms = self.members@;
        let ghost mut rolls: Seq<i32> = Seq::empty();
        let n = self.members.len();
        let mut j: usize = 0;
        while j < n
            invariant
                n == ms.len(),
                ms == before.members@,
                j <= n,
                t < target.members@.len(),
                forall|k: int| 0 <= k < n ==> (#[trigger] ms[k]).wf(),
                self.members@.len() == n,
                *self == (Object { members: self.members, inc_attacks: self.inc_attacks, ..before }),
                rolls.len() == j,
                forall|k: int| 0 <= k < j && ms[k].attack.able ==> dice_roll(ms[k].attack, #[trigger] rolls[k]),
                logs.messages@.len() == old(logs).messages@.len() + self.inc_attacks@.len() - before.inc_attacks@.len(),
                forall|k: int| 0 <= k < j ==> #[trigger] self.members@[k] == attacked(ms[k], rolls[k]),
                forall|k: int| j <= k < n ==> #[trigger] self.members@[k] == ms[k],
                self.inc_attacks@ == before.inc_attacks@ + basic_hits(ms, rolls, target_id, t, j as int),
                extends(old(logs).messages@, logs.messages@),
            decreases n - j,
        {
            proof {
                assert(self.members@[j as int] == ms[j as int]);
                assert(ms[j as int].wf());
            }
            let ghost mut rolls1 = rolls.push(0);
            if self.members[j].attack.is_able() {
                let roll = self.members[j].attack.roll_for_damage(rng);
                proof {
                    rolls1 = rolls.push(roll);
                }
                let member = &mut self.members[j];
                member.threat.add_threat(roll as u32);
                member.attack.disable_attack();
                self.inc_attacks.push(TargetedAttack::new((target_id, t), roll));
                let msg = LogMessage::new().add_part(LogPart::Name(self.members[j].name.clone())).text(
                    "attacks",
                ).add_part(LogPart::Name(target.members[t].name.clone())).text("for").add_part(
                    LogPart::Amount(roll as i64),
                ).text("damage.");
                logs.update_logs(msg);
            } else {
                self.members[j].attack.enable_attack();
            }
            proof {
                assert(basic_hits(ms, rolls1, target_id, t, j as int) == basic_hits(ms, rolls, target_id, t, j as int)) by {
                    lemma_basic_hits_prefix(ms, rolls, rolls1, target_id, t, j as int);
                }
                rolls = rolls1;
            }
            j = j + 1;
        }
        proof {
            assert(rolled(ms, rolls));
            assert(is_top_threat(target.members@, t as int));
        }
    }
}

proof fn lemma_basic_hits_prefix(
    ms: Seq<PartyMember>,
    a: Seq<i32>,
    b: Seq<i32>,
    target_id: usize,
    t: usize,
    n: int,
)
    requires
        0 <= n <= a.len(),
        n <= b.len(),
        forall|k: int| 0 <= k < n ==> a[k] == b[k],
    ensures
        basic_hits(ms, a, target_id, t, n) == basic_hits(ms, b, target_id, t, n),
    decreases n,
{
    if n > 0 {
        lemma_basic_hits_prefix(ms, a, b, target_id, t, n - 1);
    }
}

/// `i` is the member with the highest threat, the lowest index among equals.
pub open spec fn is_top_threat(ms: Seq<PartyMember>, i: int) -> bool {
    &&& 0 <= i < ms.len()
    &&& forall|j: int| 0 <= j < ms.len() ==> ms[j].threat.value <= ms[i].threat.value
    &&& forall|j: int| 0 <= j < i ==> ms[j].threat.value < ms[i].threat.value
}

/// `i` is the member missing the most hit points, the lowest index among equals.
pub open spec fn is_most_injured(ms: Seq<PartyMember>, i: int) -> bool {
    &&& 0 <= i < ms.len()
    &&& forall|j: int|
        0 <= j < ms.len() ==> ms[j].health.spec_deficit() <= ms[i].health.spec_deficit()
    &&& forall|j: int| 0 <= j < i ==> ms[j].health.spec_deficit() < ms[i].health.spec_deficit()
}

/// The member that a basic attack aims at.
pub fn highest_threat_index(ms: &Vec<PartyMember>) -> (r: usize)
    requires
        ms@.len() > 0,
    ensures
        is_top_threat(ms@, r as int),
{
    let mut best: usize = 0;
    let mut i: usize = 1;
    while i < ms.len()
        invariant
            1 <= i <= ms@.len(),
            is_top_threat(ms@.subrange(0, i as int), best as int),
        decreases ms@.len() - i,
    {
        if ms[i].threat.value > ms[best].threat.value {
            best = i;
        }
        i = i + 1;
    }
    assert(ms@.subrange(0, i as int) =~= ms@);
    best
}

/// The member that healing and kill shots aim at.
pub fn most_injured_index(ms: &Vec<PartyMember>) -> (r: usize)
    requires
        ms@.len() > 0,
    ensures
        is_most_injured(ms@, r as int),
{
    let mut best: usize = 0;
    let mut i: usize = 1;
    while i < ms.len()
        invariant
            1 <= i <= ms@.len(),
            is_most_injured(ms@.subrange(0, i as int), best as int),
        decreases ms@.len() - i,
    {
        if ms[i].health.deficit() > ms[best].health.deficit() {
            best = i;
        }
        i = i + 1;
    }
    assert(ms@.subrange(0, i as int) =~= ms@);
    best
}

} // verus!
