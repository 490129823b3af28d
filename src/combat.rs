use vstd::prelude::*;

use crate::geometry::Point;
use crate::log::{LogBuffer, LogMessage, LogPart, extends};
use crate::members::{Attack, ClassTag, PartyMember, Threat, floor_sub, spec_tick_cooldown};
use crate::object::{AIClass, AIState, ActorTag, Object, TARGET_MEMORY, objects_wf};

verus! {

/// A queued, not yet applied hit: the addressed combatant, as (object index, member
/// index), and the damage.
#[derive(Clone, Copy, Debug)]
pub struct TargetedAttack {
    pub target: (usize, usize),
    pub damage: i32,
}

impl TargetedAttack {
    pub fn new(target: (usize, usize), damage: i32) -> (r: TargetedAttack)
        ensures
            r == (TargetedAttack { target, damage }),
    {
        TargetedAttack { target, damage }
    }
}

/// The fields of a party that combat resolution never changes.
pub open spec fn same_frame(a: Object, b: Object) -> bool {
    &&& a.name == b.name
    &&& a.floor == b.floor
    &&& a.tag == b.tag
    &&& a.pos == b.pos
    &&& a.block_tile == b.block_tile
    &&& a.viewshed == b.viewshed
}

/// A member after one aggro tick: in combat its threat grows by its rate, out of combat
/// it drops to zero.
pub open spec fn ticked_member(m: PartyMember, in_combat: bool) -> PartyMember {
    PartyMember {
        threat: Threat {
            value: if in_combat {
                m.threat.value.saturating_add(m.threat.rate)
            } else {
                0
            },
            ..m.threat
        },
        ..m
    }
}

pub open spec fn threat_ticked(a: Object, b: Object) -> bool {
    &&& same_frame(a, b)
    &&& b.inc_attacks == a.inc_attacks
    &&& b.in_combat == a.in_combat
    &&& b.ai == a.ai
    &&& b.members@.len() == a.members@.len()
    &&& forall|j: int|
        0 <= j < a.members@.len() ==> b.members@[j] == ticked_member(a.members@[j], a.in_combat)
}

/// Every member of every party takes one aggro tick.
pub fn tick_threat(objects: &mut Vec<Object>)
    ensures
        final(objects)@.len() == old(objects)@.len(),
        forall|i: int|
            0 <= i < old(objects)@.len() ==> threat_ticked(old(objects)@[i], final(objects)@[i]),
{
    let n = objects.len();
    let mut i: usize = 0;
    while i < n
        invariant
            n == old(objects)@.len(),
            objects@.len() == n,
            i <= n,
            forall|k: int| 0 <= k < i ==> threat_ticked(old(objects)@[k], objects@[k]),
            forall|k: int| i <= k < n ==> objects@[k] == old(objects)@[k],
        decreases n - i,
    {
        let obj = &mut objects[i];
        let gain = obj.in_combat;
        let m = obj.members.len();
        let mut j: usize = 0;
        while j < m
            invariant
                obj.members@.len() == m,
                m == old(objects)@[i as int].members@.len(),
                j <= m,
                gain == old(objects)@[i as int].in_combat,
                same_frame(old(objects)@[i as int], *obj),
                obj.inc_attacks == old(objects)@[i as int].inc_attacks,
                obj.in_combat == old(objects)@[i as int].in_combat,
                obj.ai == old(objects)@[i as int].ai,
                forall|k: int|
                    0 <= k < j ==> obj.members@[k] == ticked_member(
                        old(objects)@[i as int].members@[k],
                        gain,
                    ),
                forall|k: int| j <= k < m ==> obj.members@[k] == old(objects)@[i as int].members@[k],
            decreases m - j,
        {
            let member = &mut obj.members[j];
            if gain {
                member.threat.increment_threat();
            } else {
                member.threat.reset_threat();
            }
            j = j + 1;
        }
        i = i + 1;
    }
}

/// The pending hits of the first `n` parties, in party order, each tagged with the index
/// of the party that queued it.
pub open spec fn pending_upto(objs: Seq<Object>, n: int) -> Seq<(usize, TargetedAttack)>
    decreases n,
{
    if n <= 0 {
        Seq::empty()
    } else {
        pending_upto(objs, n - 1) + objs[n - 1].inc_attacks@.map_values(
            |a: TargetedAttack| ((n - 1) as usize, a),
        )
    }
}

/// Every pending hit of every party.
pub open spec fn pending(objs: Seq<Object>) -> Seq<(usize, TargetedAttack)> {
    pending_upto(objs, objs.len() as int)
}

/// Gathers every queued hit into one list, tagged by the party that queued it.
pub fn collect_attacks(objects: &Vec<Object>) -> (r: Vec<(usize, TargetedAttack)>)
    ensures
        r@ == pending(objects@),
{
    let mut out: Vec<(usize, TargetedAttack)> = Vec::new();
    let mut i: usize = 0;
    while i < objects.len()
        invariant
            i <= objects@.len(),
            out@ == pending_upto(objects@, i as int),
        decreases objects@.len() - i,
    {
        let queue = &objects[i].inc_attacks;
        let ghost before = out@;
        let mut k: usize = 0;
        while k < queue.len()
            invariant
                k <= queue@.len(),
                queue@ == objects@[i as int].inc_attacks@,
                out@ == before + queue@.subrange(0, k as int).map_values(
                    |a: TargetedAttack| (i, a),
                ),
            decreases queue@.len() - k,
        {
            out.push((i, queue[k]));
            proof {
                assert(queue@.subrange(0, k + 1).map_values(|a: TargetedAttack| (i, a))
                    =~= queue@.subrange(0, k as int).map_values(|a: TargetedAttack| (i, a)).push(
                    (i, queue@[k as int]),
                ));
            }
            k = k + 1;
        }
        proof {
            assert(queue@.subrange(0, k as int) =~= queue@);
        }
        i = i + 1;
    }
    out
}

/// Some hit in `list` was queued by the player's party (index 0) against party `j`.
pub open spec fn hit_by_player(list: Seq<(usize, TargetedAttack)>, j: int) -> bool {
    exists|k: int| 0 <= k < list.len() && list[k].0 == 0 && list[k].1.target.0 == j
}

/// The memory of an AI party that the player has just attacked.
pub open spec fn chasing_player(ai: AIClass, player_pos: Point) -> bool {
    &&& ai.target == Some(0usize)
    &&& ai.state == AIState::Chasing
    &&& ai.tgt_memory == TARGET_MEMORY
    &&& ai.tgt_heatmap@ == seq![player_pos]
}

pub open spec fn noticed(a: Object, b: Object, list: Seq<(usize, TargetedAttack)>, j: int, p: Point) -> bool {
    &&& same_frame(a, b)
    &&& b.members == a.members
    &&& b.inc_attacks == a.inc_attacks
    &&& b.in_combat == a.in_combat
    &&& if hit_by_player(list, j) && a.ai is Some {
        b.ai matches Some(ai) && chasing_player(ai, p)
    } else {
        b.ai == a.ai
    }
}

/// Every AI party that the player attacked turns to chase the player; hits between AI
/// parties change no one's target.
pub fn notice_player_attacks(objects: &mut Vec<Object>, list: &Vec<(usize, TargetedAttack)>, player_pos: Point)
    requires
        forall|k: int| 0 <= k < list@.len() ==> list@[k].1.target.0 < old(objects)@.len(),
    ensures
        final(objects)@.len() == old(objects)@.len(),
        forall|j: int|
            0 <= j < old(objects)@.len() ==> noticed(old(objects)@[j], final(objects)@[j], list@, j, player_pos),
{
    let ghost n = objects@.len();
    let mut k: usize = 0;
    while k < list.len()
        invariant
            k <= list@.len(),
            objects@.len() == n,
            n == old(objects)@.len(),
            forall|q: int| 0 <= q < list@.len() ==> list@[q].1.target.0 < n,
            forall|j: int|
                0 <= j < n ==> noticed(old(objects)@[j], objects@[j], list@.subrange(0, k as int), j, player_pos),
        decreases list@.len() - k,
    {
        let (src, a) = list[k];
        let ghost prev = objects@;
        if src == 0 {
            let obj = &mut objects[a.target.0];
            if obj.ai.is_some() {
                let mut heatmap: Vec<Point> = Vec::new();
                heatmap.push(player_pos);
                proof {
                    assert(heatmap@ =~= seq![player_pos]);
                }
                obj.ai = Some(
                    AIClass {
                        target: Some(0),
                        state: AIState::Chasing,
                        tgt_memory: TARGET_MEMORY,
                        tgt_heatmap: heatmap,
                    },
                );
            }
        }
        proof {
            let s0 = list@.subrange(0, k as int);
            let s1 = list@.subrange(0, k + 1);
            assert forall|j: int| 0 <= j < n implies noticed(old(objects)@[j], objects@[j], s1, j, player_pos) by {
                if hit_by_player(s0, j) {
                    let w = choose|w: int| 0 <= w < s0.len() && s0[w].0 == 0 && s0[w].1.target.0 == j;
                    assert(s1[w] == s0[w]);
                }
                if src == 0 && a.target.0 == j {
                    assert(s1[k as int] == list@[k as int]);
                    if old(objects)@[j].ai is Some {
                        assert(prev[j].ai is Some);
                        assert(objects@[j].ai matches Some(ai) && chasing_player(ai, player_pos));
                    }
                } else {
                    assert(objects@[j] == prev[j]);
                }
                if hit_by_player(s1, j) && !(src == 0 && a.target.0 == j) {
                    let w = choose|w: int| 0 <= w < s1.len() && s1[w].0 == 0 && s1[w].1.target.0 == j;
                    assert(w < k);
                    assert(s0[w] == s1[w]);
                }
            }
        }
        k = k + 1;
    }
    proof {
        assert(list@.subrange(0, k as int) =~= list@);
    }
}

pub open spec fn cleared(a: Object, b: Object) -> bool {
    &&& same_frame(a, b)
    &&& b.members == a.members
    &&& b.in_combat == a.in_combat
    &&& b.ai == a.ai
    &&& b.inc_attacks@.len() == 0
}

/// Empties every party's queue of pending hits.
pub fn clear_attacks(objects: &mut Vec<Object>)
    ensures
        final(objects)@.len() == old(objects)@.len(),
        forall|i: int| 0 <= i < old(objects)@.len() ==> cleared(old(objects)@[i], final(objects)@[i]),
{
    let n = objects.len();
    let mut i: usize = 0;
    while i < n
        invariant
            n == old(objects)@.len(),
            objects@.len() == n,
            i <= n,
            forall|k: int| 0 <= k < i ==> cleared(old(objects)@[k], objects@[k]),
            forall|k: int| i <= k < n ==> objects@[k] == old(objects)@[k],
        decreases n - i,
    {
        objects[i].inc_attacks.clear();
        i = i + 1;
    }
}

/// Total damage that the first `n` hits of `list` address to member `m` of party `o`.
pub open spec fn damage_to(list: Seq<(usize, TargetedAttack)>, o: int, m: int, n: int) -> int
    decreases n,
{
    if n <= 0 {
        0
    } else {
        damage_to(list, o, m, n - 1) + if list[n - 1].1.target.0 == o && list[n - 1].1.target.1 == m {
            list[n - 1].1.damage as int
        } else {
            0
        }
    }
}

/// Total damage that all of `list` addresses to member `m` of party `o`.
pub open spec fn total_damage(list: Seq<(usize, TargetedAttack)>, o: int, m: int) -> int {
    damage_to(list, o, m, list.len() as int)
}

/// Every hit of `list` addresses an existing member and does no negative damage.
pub open spec fn hits_valid(objs: Seq<Object>, list: Seq<(usize, TargetedAttack)>) -> bool {
    forall|k: int|
        0 <= k < list.len() ==> {
            &&& list[k].1.target.0 < objs.len()
            &&& list[k].1.target.1 < objs[list[k].1.target.0 as int].members@.len()
            &&& list[k].1.damage >= 0
        }
}

/// Member `b` is member `a` after losing `dmg` hit points.
pub open spec fn damaged_member(a: PartyMember, b: PartyMember, dmg: int) -> bool {
    &&& b.health.current == floor_sub(a.health.current as int, dmg)
    &&& b.health.max == a.health.max
    &&& b == (PartyMember { health: b.health, ..a })
}

pub open spec fn damaged(a: Object, b: Object, list: Seq<(usize, TargetedAttack)>, o: int) -> bool {
    &&& same_frame(a, b)
    &&& b.inc_attacks == a.inc_attacks
    &&& b.in_combat == a.in_combat
    &&& b.ai == a.ai
    &&& b.members@.len() == a.members@.len()
    &&& forall|m: int|
        0 <= m < a.members@.len() ==> damaged_member(a.members@[m], b.members@[m], total_damage(list, o, m))
}

/// Applies every hit of `list`: each member loses exactly the sum of the damage addressed
/// to it, each hit counted once.
pub fn apply_damage(objects: &mut Vec<Object>, list: &Vec<(usize, TargetedAttack)>)
    requires
        hits_valid(old(objects)@, list@),
    ensures
        final(objects)@.len() == old(objects)@.len(),
        forall|o: int|
            0 <= o < old(objects)@.len() ==> damaged(old(objects)@[o], final(objects)@[o], list@, o),
{
    let ghost n = objects@.len();
    let mut k: usize = 0;
    while k < list.len()
        invariant
            k <= list@.len(),
            objects@.len() == n,
            n == old(objects)@.len(),
            hits_valid(old(objects)@, list@),
            forall|o: int|
                0 <= o < n ==> damaged(old(objects)@[o], objects@[o], list@.subrange(0, k as int), o),
        decreases list@.len() - k,
    {
        let a = list[k].1;
        let ghost prev = objects@;
        let ghost s0 = list@.subrange(0, k as int);
        let ghost s1 = list@.subrange(0, k + 1);
        proof {
            assert(damaged(old(objects)@[a.target.0 as int], prev[a.target.0 as int], s0, a.target.0 as int));
        }
        objects[a.target.0].members[a.target.1].health.lose_life(a.damage);
        proof {
            assert forall|o: int, m: int| 0 <= o < n && 0 <= m < old(objects)@[o].members@.len() implies
                damage_to(s1, o, m, k + 1) == damage_to(s0, o, m, k as int) + if a.target.0 == o && a.target.1 == m {
                    a.damage as int
                } else {
                    0
                } by {
                lemma_damage_prefix(list@, o, m, k as int, k as int);
                lemma_damage_prefix(list@, o, m, k as int + 1, k as int + 1);
            }
            assert forall|o: int| 0 <= o < n implies damaged(old(objects)@[o], objects@[o], s1, o) by {
                if o != a.target.0 {
                    assert(objects@[o] == prev[o]);
                    assert(damaged(old(objects)@[o], prev[o], s0, o));
                    assert forall|m: int| 0 <= m < old(objects)@[o].members@.len() implies total_damage(s1, o, m)
                        == total_damage(s0, o, m) by {
                        lemma_damage_prefix(list@, o, m, k as int, k as int);
                        lemma_damage_prefix(list@, o, m, k as int + 1, k as int + 1);
                    }
                    assert(damaged(old(objects)@[o], objects@[o], s1, o));
                } else {
                    assert(damaged(old(objects)@[o], prev[o], s0, o));
                    assert(same_frame(prev[o], objects@[o]));
                    assert(objects@[o].inc_attacks == prev[o].inc_attacks);
                    assert(objects@[o].ai == prev[o].ai);
                    assert(objects@[o].in_combat == prev[o].in_combat);
                    assert(objects@[o].members@.len() == prev[o].members@.len());
                    assert forall|m: int| 0 <= m < old(objects)@[o].members@.len() implies damaged_member(
                        old(objects)@[o].members@[m],
                        objects@[o].members@[m],
                        total_damage(s1, o, m),
                    ) by {
                        lemma_damage_nonneg(list@, o, m, k as int);
                        lemma_damage_prefix(list@, o, m, k as int, k as int);
                        lemma_damage_prefix(list@, o, m, k as int + 1, k as int + 1);
                        assert(s1.len() == k + 1);
                        assert(total_damage(s1, o, m) == total_damage(s0, o, m) + if a.target.1 == m {
                            a.damage as int
                        } else {
                            0
                        });
                        if m != a.target.1 {
                            assert(objects@[o].members@[m] == prev[o].members@[m]);
                        } else {
                            let pm = prev[o].members@[m];
                            let nm = objects@[o].members@[m];
                            assert(nm.health.current == floor_sub(pm.health.current as int, a.damage as int));
                            assert(nm == (PartyMember { health: nm.health, ..pm }));
                        }
                    }
                }
            }
        }
        k = k + 1;
    }
    proof {
        assert(list@.subrange(0, k as int) =~= list@);
    }
}

proof fn lemma_damage_nonneg(list: Seq<(usize, TargetedAttack)>, o: int, m: int, n: int)
    requires
        0 <= n <= list.len(),
        forall|k: int| 0 <= k < list.len() ==> list[k].1.damage >= 0,
    ensures
        damage_to(list, o, m, n) >= 0,
    decreases n,
{
    if n > 0 {
        lemma_damage_nonneg(list, o, m, n - 1);
    }
}

proof fn lemma_damage_prefix(list: Seq<(usize, TargetedAttack)>, o: int, m: int, len: int, n: int)
    requires
        0 <= n <= len <= list.len(),
    ensures
        damage_to(list.subrange(0, len), o, m, n) == damage_to(list, o, m, n),
    decreases n,
{
    if n > 0 {
        lemma_damage_prefix(list, o, m, len, n - 1);
    }
}

/// A combatant stays on the map while its hit points are above zero.
pub open spec fn alive(m: PartyMember) -> bool {
    m.health.current > 0
}

/// The living members of a party, in their order.
pub open spec fn survivors(ms: Seq<PartyMember>) -> Seq<PartyMember>
    decreases ms.len(),
{
    if ms.len() == 0 {
        ms
    } else if alive(ms.last()) {
        survivors(ms.drop_last()).push(ms.last())
    } else {
        survivors(ms.drop_last())
    }
}

/// How many members of `ms` are dead, counting beasts when `beast` holds and all other
/// classes when it does not.
pub open spec fn slain(ms: Seq<PartyMember>, beast: bool) -> int
    decreases ms.len(),
{
    if ms.len() == 0 {
        0
    } else {
        slain(ms.drop_last(), beast) + if !alive(ms.last()) && (ms.last().class
            == ClassTag::Beast) == beast {
            1int
        } else {
            0
        }
    }
}

/// A non-player party whose last members fell leaves the map.
pub open spec fn is_defeated(o: Object) -> bool {
    o.tag != ActorTag::Player && o.members@.len() > 0 && survivors(o.members@).len() == 0
}

/// The player's party lost its last member.
pub open spec fn player_wiped(o: Object) -> bool {
    o.tag == ActorTag::Player && o.members@.len() > 0 && survivors(o.members@).len() == 0
}

/// The parties that stay on the map, in their order.
pub open spec fn remaining(objs: Seq<Object>) -> Seq<Object>
    decreases objs.len(),
{
    if objs.len() == 0 {
        objs
    } else if is_defeated(objs.last()) {
        remaining(objs.drop_last())
    } else {
        remaining(objs.drop_last()).push(objs.last())
    }
}

/// Dead members over all parties, beasts or the others.
pub open spec fn slain_in(objs: Seq<Object>, beast: bool) -> int
    decreases objs.len(),
{
    if objs.len() == 0 {
        0
    } else {
        slain_in(objs.drop_last(), beast) + slain(objs.last().members@, beast)
    }
}

/// A tally after adding `n`, held at the largest `u32`.
pub open spec fn capped(n: int) -> u32 {
    if n > u32::MAX {
        u32::MAX
    } else {
        n as u32
    }
}

pub open spec fn pruned(a: Object, b: Object) -> bool {
    &&& same_frame(a, b)
    &&& b.inc_attacks == a.inc_attacks
    &&& b.in_combat == a.in_combat
    &&& b.ai == a.ai
    &&& b.members@ == survivors(a.members@)
}

/// Removes the dead from one party, logs each death, and counts it in the beast tally or in
/// the other one.
pub fn remove_slain_members(
    ms: Vec<PartyMember>,
    logs: &mut LogBuffer,
    fkills: &mut u32,
    bkills: &mut u32,
) -> (r: Vec<PartyMember>)
    ensures
        r@ == survivors(ms@),
        *final(bkills) == capped(*old(bkills) + slain(ms@, true)),
        *final(fkills) == capped(*old(fkills) + slain(ms@, false)),
        extends(old(logs).messages@, final(logs).messages@),
{
    let ghost all = ms@;
    let n = ms.len();
    let mut src = ms;
    let mut out: Vec<PartyMember> = Vec::new();
    let mut i: usize = 0;
    while src.len() > 0
        invariant
            i <= n,
            n == all.len(),
            src@ == all.subrange(i as int, n as int),
            out@ == survivors(all.subrange(0, i as int)),
            *bkills == capped(*old(bkills) + slain(all.subrange(0, i as int), true)),
            *fkills == capped(*old(fkills) + slain(all.subrange(0, i as int), false)),
            extends(old(logs).messages@, logs.messages@),
        decreases src@.len(),
    {
        let m = src.remove(0);
        proof {
            assert(i < n);
            assert(m == all[i as int]);
            let pre = all.subrange(0, i as int + 1);
            assert(pre.drop_last() =~= all.subrange(0, i as int));
            assert(pre.last() == all[i as int]);
            assert(src@ =~= all.subrange(i as int + 1, n as int));
            lemma_slain_nonneg(all.subrange(0, i as int), true);
            lemma_slain_nonneg(all.subrange(0, i as int), false);
        }
        if m.health.current > 0 {
            out.push(m);
        } else {
            let msg = LogMessage::new().add_part(LogPart::Name(m.name.clone())).text("has been slain.");
            logs.update_logs(msg);
            match m.class {
                ClassTag::Beast => {
                    *bkills = bkills.saturating_add(1);
                },
                _ => {
                    *fkills = fkills.saturating_add(1);
                },
            }
        }
        i = i + 1;
    }
    proof {
        assert(all.subrange(0, i as int) =~= all);
    }
    out
}

/// Removes the dead from every party and deletes each non-player party that this leaves
/// empty; an emptied player party raises `player_death` instead. Returns whether a party
/// was deleted, which shifts the indices of the parties after it.
pub fn remove_slain(
    objects: &mut Vec<Object>,
    logs: &mut LogBuffer,
    player_death: &mut bool,
    fkills: &mut u32,
    bkills: &mut u32,
) -> (removed: bool)
    ensures
        final(objects)@.len() == remaining(old(objects)@).len(),
        forall|k: int|
            0 <= k < final(objects)@.len() ==> pruned(remaining(old(objects)@)[k], final(objects)@[k]),
        removed == exists|i: int| 0 <= i < old(objects)@.len() && is_defeated(old(objects)@[i]),
        *final(player_death) == (*old(player_death) || exists|i: int|
            0 <= i < old(objects)@.len() && player_wiped(old(objects)@[i])),
        *final(bkills) == capped(*old(bkills) + slain_in(old(objects)@, true)),
        *final(fkills) == capped(*old(fkills) + slain_in(old(objects)@, false)),
        extends(old(logs).messages@, final(logs).messages@),
{
    let ghost all = objects@;
    let n = objects.len();
    let mut src: Vec<Object> = Vec::new();
    std::mem::swap(objects, &mut src);
    let mut removed = false;
    let mut i: usize = 0;
    while src.len() > 0
        invariant
            i <= n,
            n == all.len(),
            all == old(objects)@,
            src@ == all.subrange(i as int, n as int),
            objects@.len() == remaining(all.subrange(0, i as int)).len(),
            forall|k: int|
                0 <= k < objects@.len() ==> pruned(remaining(all.subrange(0, i as int))[k], objects@[k]),
            removed == exists|j: int| 0 <= j < i && is_defeated(all[j]),
            *player_death == (*old(player_death) || exists|j: int| 0 <= j < i && player_wiped(all[j])),
            *bkills == capped(*old(bkills) + slain_in(all.subrange(0, i as int), true)),
            *fkills == capped(*old(fkills) + slain_in(all.subrange(0, i as int), false)),
            extends(old(logs).messages@, logs.messages@),
        decreases src@.len(),
    {
        let mut obj = src.remove(0);
        let ghost orig = obj;
        proof {
            assert(i < n);
            assert(obj == all[i as int]);
            assert(src@ =~= all.subrange(i as int + 1, n as int));
            let pre = all.subrange(0, i as int + 1);
            assert(pre.drop_last() =~= all.subrange(0, i as int));
            assert(pre.last() == all[i as int]);
            lemma_slain_in_nonneg(all.subrange(0, i as int), true);
            lemma_slain_in_nonneg(all.subrange(0, i as int), false);
            lemma_slain_nonneg(obj.members@, true);
            lemma_slain_nonneg(obj.members@, false);
            assert(slain_in(pre, true) == slain_in(all.subrange(0, i as int), true) + slain(obj.members@, true));
            assert(slain_in(pre, false) == slain_in(all.subrange(0, i as int), false) + slain(obj.members@, false));
        }
        let mut ms: Vec<PartyMember> = Vec::new();
        std::mem::swap(&mut obj.members, &mut ms);
        let had_members = ms.len() > 0;
        let kept = remove_slain_members(ms, logs, fkills, bkills);
        let emptied = had_members && kept.len() == 0;
        obj.members = kept;
        proof {
            assert(pruned(orig, obj));
            assert(emptied == (orig.members@.len() > 0 && survivors(orig.members@).len() == 0));
        }
        if emptied && obj.tag != ActorTag::Player {
            removed = true;
            let msg = LogMessage::new().text("You have defeated the").add_part(LogPart::Name(obj.name.clone()));
            logs.update_logs(msg);
        } else {
            if emptied {
                *player_death = true;
            }
            let ghost before = objects@;
            objects.push(obj);
            proof {
                assert forall|k: int| 0 <= k < objects@.len() implies pruned(
                    remaining(all.subrange(0, i as int + 1))[k],
                    objects@[k],
                ) by {
                    if k < before.len() {
                        assert(objects@[k] == before[k]);
                    }
                }
            }
        }
        proof {
            assert(i < n);
            if removed {
                if !(exists|j: int| 0 <= j < i && is_defeated(all[j])) {
                    assert(is_defeated(all[i as int]));
                }
            }
        }
        i = i + 1;
    }
    proof {
        assert(all.subrange(0, i as int) =~= all);
    }
    removed
}

/// Some enemy party stands on a cell that the player's party (index 0) sees.
pub open spec fn enemy_in_view(objs: Seq<Object>) -> bool {
    exists|i: int|
        0 <= i < objs.len() && objs[i].tag == ActorTag::Enemy && objs[i].pos is Some
            && objs[0].viewshed.unwrap().visible@.contains(objs[i].pos.unwrap())
}

fn contains_point(v: &Vec<Point>, p: Point) -> (r: bool)
    ensures
        r == v@.contains(p),
{
    let mut i: usize = 0;
    while i < v.len()
        invariant
            i <= v@.len(),
            forall|k: int| 0 <= k < i ==> v@[k] != p,
        decreases v@.len() - i,
    {
        if v[i] == p {
            return true;
        }
        i = i + 1;
    }
    false
}

/// Recomputes whether the player's party is in combat: it is exactly when it sees an
/// enemy party.
pub fn update_player_combat(objects: &mut Vec<Object>)
    requires
        old(objects)@.len() > 0,
        old(objects)@[0].viewshed is Some,
    ensures
        final(objects)@ == old(objects)@.update(
            0,
            Object { in_combat: enemy_in_view(old(objects)@), ..old(objects)@[0] },
        ),
{
    let mut found = false;
    let mut i: usize = 0;
    while i < objects.len()
        invariant
            objects@.len() > 0,
            objects@[0].viewshed is Some,
            i <= objects@.len(),
            found == exists|k: int|
                0 <= k < i && objects@[k].tag == ActorTag::Enemy && objects@[k].pos is Some
                    && objects@[0].viewshed.unwrap().visible@.contains(objects@[k].pos.unwrap()),
        decreases objects@.len() - i,
    {
        let obj = &objects[i];
        if let Some(p) = obj.pos {
            if obj.tag == ActorTag::Enemy {
                let view = objects[0].viewshed.as_ref().unwrap();
                if contains_point(&view.visible, p) {
                    found = true;
                }
            }
        }
        i = i + 1;
    }
    objects[0].in_combat = found;
}

/// The first party stays first when it is not deleted.
proof fn lemma_remaining_first(objs: Seq<Object>)
    requires
        objs.len() > 0,
        !is_defeated(objs[0]),
    ensures
        remaining(objs).len() > 0,
        remaining(objs)[0] == objs[0],
    decreases objs.len(),
{
    let dl = objs.drop_last();
    if objs.len() > 1 {
        assert(dl[0] == objs[0]);
        lemma_remaining_first(dl);
        if !is_defeated(objs.last()) {
            assert(remaining(objs) == remaining(dl).push(objs.last()));
            assert(remaining(objs)[0] == remaining(dl)[0]);
        }
    } else {
        assert(dl.len() == 0);
        assert(remaining(dl).len() == 0);
        assert(remaining(objs) == remaining(dl).push(objs.last()));
    }
}

/// Every member of the parties that remain is alive.
proof fn lemma_remaining_alive(objs: Seq<Object>, after: Seq<Object>)
    requires
        after.len() == remaining(objs).len(),
        forall|k: int| 0 <= k < after.len() ==> pruned(remaining(objs)[k], after[k]),
    ensures
        forall|k: int, j: int|
            0 <= k < after.len() && 0 <= j < after[k].members@.len() ==> alive(after[k].members@[j]),
{
    assert forall|k: int, j: int| 0 <= k < after.len() && 0 <= j < after[k].members@.len() implies alive(
        after[k].members@[j],
    ) by {
        lemma_survivors_alive(remaining(objs)[k].members@);
    }
}

proof fn lemma_survivors_alive(ms: Seq<PartyMember>)
    ensures
        forall|j: int| 0 <= j < survivors(ms).len() ==> alive(#[trigger] survivors(ms)[j]),
    decreases ms.len(),
{
    if ms.len() > 0 {
        lemma_survivors_alive(ms.drop_last());
        let r = survivors(ms.drop_last());
        if alive(ms.last()) {
            assert forall|j: int| 0 <= j < survivors(ms).len() implies alive(#[trigger] survivors(ms)[j]) by {
                if j < r.len() {
                    assert(survivors(ms)[j] == r[j]);
                }
            }
        }
    }
}

/// The parties after one resolution pass over `before`, in the order of its steps: aggro
/// tick, AI notice of the player's hits, cleared queues, damage, removal of the dead, and
/// the player's combat flag.
pub open spec fn resolution(
    before: Seq<Object>,
    ticked: Seq<Object>,
    noticed_s: Seq<Object>,
    cleared_s: Seq<Object>,
    damaged_s: Seq<Object>,
    pruned_s: Seq<Object>,
    after: Seq<Object>,
) -> bool {
    let list = pending(before);
    let p = before[0].pos.unwrap();
    &&& ticked.len() == before.len()
    &&& noticed_s.len() == before.len()
    &&& cleared_s.len() == before.len()
    &&& damaged_s.len() == before.len()
    &&& forall|i: int| 0 <= i < before.len() ==> threat_ticked(before[i], ticked[i])
    &&& forall|i: int| 0 <= i < before.len() ==> noticed(ticked[i], noticed_s[i], list, i, p)
    &&& forall|i: int| 0 <= i < before.len() ==> cleared(noticed_s[i], cleared_s[i])
    &&& forall|i: int| 0 <= i < before.len() ==> damaged(cleared_s[i], damaged_s[i], list, i)
    &&& pruned_s.len() == remaining(damaged_s).len()
    &&& forall|k: int| 0 <= k < pruned_s.len() ==> pruned(remaining(damaged_s)[k], pruned_s[k])
    &&& pruned_s.len() > 0
    &&& after == pruned_s.update(0, Object { in_combat: enemy_in_view(pruned_s), ..pruned_s[0] })
}

/// `after` is the outcome of one resolution pass over `before`.
pub open spec fn combat_pass(before: Seq<Object>, after: Seq<Object>) -> bool {
    exists|t: Seq<Object>, n: Seq<Object>, c: Seq<Object>, d: Seq<Object>, q: Seq<Object>|
        #[trigger] resolution(before, t, n, c, d, q, after)
}

/// What a party holds that resolution keeps.
pub open spec fn player_party(o: Object) -> bool {
    o.tag == ActorTag::Player && o.pos is Some && o.viewshed is Some
}

/// Runs one resolution pass: the aggro tick, the AI notice of hits by the player, the
/// clearing of every queue, the damage of every queued hit, the removal of the dead and
/// of the parties they emptied, and the player's combat flag. `targets_stale` is raised
/// when a party was deleted, since the indices of the later parties shifted.
pub fn process_combat(
    objects: &mut Vec<Object>,
    logs: &mut LogBuffer,
    player_death: &mut bool,
    targets_stale: &mut bool,
    fkills: &mut u32,
    bkills: &mut u32,
)
    requires
        old(objects)@.len() > 0,
        player_party(old(objects)@[0]),
        hits_valid(old(objects)@, pending(old(objects)@)),
    ensures
        exists|t: Seq<Object>, n: Seq<Object>, c: Seq<Object>, d: Seq<Object>, q: Seq<Object>|
            {
                &&& resolution(old(objects)@, t, n, c, d, q, final(objects)@)
                &&& *final(bkills) == capped(*old(bkills) + slain_in(d, true))
                &&& *final(fkills) == capped(*old(fkills) + slain_in(d, false))
                &&& *final(player_death) == (*old(player_death) || exists|i: int|
                    0 <= i < d.len() && player_wiped(d[i]))
                &&& *final(targets_stale) == (*old(targets_stale) || exists|i: int|
                    0 <= i < d.len() && is_defeated(d[i]))
            },
        final(objects)@.len() > 0,
        player_party(final(objects)@[0]),
        forall|k: int, j: int|
            0 <= k < final(objects)@.len() && 0 <= j < final(objects)@[k].members@.len()
                ==> alive(final(objects)@[k].members@[j]),
        combat_pass(old(objects)@, final(objects)@),
        forall|k: int| 0 <= k < final(objects)@.len() ==> (#[trigger] final(objects)@[k]).inc_attacks@.len() == 0,
        objects_wf(old(objects)@) ==> objects_wf(final(objects)@),
        extends(old(logs).messages@, final(logs).messages@),
{
    let ghost before = objects@;
    let player_pos = objects[0].pos.unwrap();
    tick_threat(objects);
    let ghost ticked = objects@;
    let list = collect_attacks(objects);
    proof {
        assert(pending(ticked) == pending(before)) by {
            lemma_pending_same(before, ticked, before.len() as int);
        }
    }
    notice_player_attacks(objects, &list, player_pos);
    let ghost noticed_s = objects@;
    clear_attacks(objects);
    let ghost cleared_s = objects@;
    proof {
        assert forall|k: int| 0 <= k < list@.len() implies {
            &&& list@[k].1.target.0 < cleared_s.len()
            &&& list@[k].1.target.1 < cleared_s[list@[k].1.target.0 as int].members@.len()
            &&& list@[k].1.damage >= 0
        } by {
            let o = list@[k].1.target.0 as int;
            assert(threat_ticked(before[o], ticked[o]));
            assert(noticed(ticked[o], noticed_s[o], list@, o, player_pos));
            assert(cleared(noticed_s[o], cleared_s[o]));
        }
    }
    apply_damage(objects, &list);
    let ghost damaged_s = objects@;
    let removed = remove_slain(objects, logs, player_death, fkills, bkills);
    let ghost pruned_s = objects@;
    proof {
        assert(threat_ticked(before[0], ticked[0]));
        assert(noticed(ticked[0], noticed_s[0], list@, 0, player_pos));
        assert(cleared(noticed_s[0], cleared_s[0]));
        assert(damaged(cleared_s[0], damaged_s[0], list@, 0));
        lemma_remaining_first(damaged_s);
        assert(pruned(remaining(damaged_s)[0], pruned_s[0]));
    }
    if removed {
        *targets_stale = true;
    }
    update_player_combat(objects);
    proof {
        lemma_remaining_alive(damaged_s, pruned_s);
        assert(resolution(before, ticked, noticed_s, cleared_s, damaged_s, pruned_s, objects@));
        lemma_remaining_members(damaged_s);
        assert forall|k: int| 0 <= k < objects@.len() implies (#[trigger] objects@[k]).inc_attacks@.len() == 0 by {
            let i = remaining_origin(damaged_s, k);
            assert(cleared(noticed_s[i], cleared_s[i]));
            assert(damaged(cleared_s[i], damaged_s[i], list@, i));
            assert(pruned(remaining(damaged_s)[k], pruned_s[k]));
        }
        if objects_wf(before) {
            assert forall|k: int, j: int| 0 <= k < objects@.len() && 0 <= j < objects@[k].members@.len()
                implies #[trigger] objects@[k].members@[j].wf() by {
                let i = remaining_origin(damaged_s, k);
                assert(pruned(remaining(damaged_s)[k], pruned_s[k]));
                lemma_survivors_from(damaged_s[i].members@, j);
                let x = choose|x: int| 0 <= x < damaged_s[i].members@.len() && survivors(damaged_s[i].members@)[j] == damaged_s[i].members@[x];
                assert(threat_ticked(before[i], ticked[i]));
                assert(noticed(ticked[i], noticed_s[i], list@, i, player_pos));
                assert(cleared(noticed_s[i], cleared_s[i]));
                assert(damaged(cleared_s[i], damaged_s[i], list@, i));
                assert(before[i].members@[x].wf());
                lemma_damage_nonneg(list@, i, x, list@.len() as int);
                assert(objects@[k].members@[j] == damaged_s[i].members@[x]);
                assert(damaged_member(cleared_s[i].members@[x], damaged_s[i].members@[x], total_damage(list@, i, x)));
                if k == 0 {
                    assert(objects@[0].members == pruned_s[0].members);
                }
            }
        }
    }
}

/// The index in `objs` of the `k`-th party that remains.
spec fn remaining_origin(objs: Seq<Object>, k: int) -> int {
    choose|i: int| 0 <= i < objs.len() && remaining(objs)[k] == objs[i]
}

proof fn lemma_remaining_members(objs: Seq<Object>)
    ensures
        forall|k: int| 0 <= k < remaining(objs).len() ==> exists|i: int| 0 <= i < objs.len() && #[trigger] remaining(objs)[k] == objs[i],
    decreases objs.len(),
{
    if objs.len() > 0 {
        let dl = objs.drop_last();
        lemma_remaining_members(dl);
        assert forall|k: int| 0 <= k < remaining(objs).len() implies exists|i: int| 0 <= i < objs.len() && #[trigger] remaining(objs)[k] == objs[i] by {
            if k < remaining(dl).len() {
                let i = choose|i: int| 0 <= i < dl.len() && #[trigger] remaining(dl)[k] == dl[i];
                assert(remaining(objs)[k] == objs[i]);
            } else {
                assert(remaining(objs)[k] == objs[objs.len() - 1]);
            }
        }
    }
}

proof fn lemma_survivors_from(ms: Seq<PartyMember>, j: int)
    requires
        0 <= j < survivors(ms).len(),
    ensures
        exists|x: int| 0 <= x < ms.len() && survivors(ms)[j] == ms[x],
    decreases ms.len(),
{
    let dl = ms.drop_last();
    if j < survivors(dl).len() {
        lemma_survivors_from(dl, j);
        let x = choose|x: int| 0 <= x < dl.len() && survivors(dl)[j] == dl[x];
        assert(survivors(ms)[j] == ms[x]);
    } else {
        assert(survivors(ms)[j] == ms[ms.len() - 1]);
    }
}

/// Each member's loss of hit points over one pass is the sum of the damage addressed to it
/// in that pass: no hit is applied twice and none is dropped (where the hit points do not
/// reach the bottom of the `i32` range).
pub proof fn health_loss_is_damage_sum(
    before: Seq<Object>,
    after: Seq<Object>,
    list: Seq<(usize, TargetedAttack)>,
    o: int,
    m: int,
)
    requires
        after.len() == before.len(),
        forall|i: int| 0 <= i < before.len() ==> damaged(before[i], after[i], list, i),
        0 <= o < before.len(),
        0 <= m < before[o].members@.len(),
        before[o].members@[m].health.current - total_damage(list, o, m) >= i32::MIN,
    ensures
        before[o].members@[m].health.current - after[o].members@[m].health.current
            == total_damage(list, o, m),
{
    assert(damaged(before[o], after[o], list, o));
}

/// Over a whole resolution pass (`process_combat`), each member loses exactly the sum of
/// the damage that the pending hits addressed to it, and it is among the survivors of its
/// party exactly when its hit points stay above zero (where they do not reach the bottom
/// of the `i32` range).
pub proof fn pass_loss_is_damage_sum(
    before: Seq<Object>,
    t: Seq<Object>,
    n: Seq<Object>,
    c: Seq<Object>,
    d: Seq<Object>,
    q: Seq<Object>,
    after: Seq<Object>,
    o: int,
    m: int,
)
    requires
        resolution(before, t, n, c, d, q, after),
        0 <= o < before.len(),
        0 <= m < before[o].members@.len(),
        before[o].members@[m].health.current - total_damage(pending(before), o, m) >= i32::MIN,
    ensures
        before[o].members@[m].health.current - d[o].members@[m].health.current
            == total_damage(pending(before), o, m),
        alive(d[o].members@[m]) <==> before[o].members@[m].health.current - total_damage(pending(before), o, m) > 0,
        d[o].members@[m].name == before[o].members@[m].name,
{
    let list = pending(before);
    let p = before[0].pos.unwrap();
    assert(threat_ticked(before[o], t[o]));
    assert(noticed(t[o], n[o], list, o, p));
    assert(cleared(n[o], c[o]));
    assert(damaged(c[o], d[o], list, o));
    assert(damaged_member(c[o].members@[m], d[o].members@[m], total_damage(list, o, m)));
}

/// The player's per-turn attack stance: every member may attack again.
pub fn reset_attack_capabilities(members: &mut Vec<PartyMember>)
    ensures
        final(members)@.len() == old(members)@.len(),
        forall|j: int|
            0 <= j < old(members)@.len() ==> final(members)@[j] == (PartyMember {
                attack: Attack { able: true, ..old(members)@[j].attack },
                ..old(members)@[j]
            }),
{
    let n = members.len();
    let mut j: usize = 0;
    while j < n
        invariant
            n == old(members)@.len(),
            members@.len() == n,
            j <= n,
            forall|k: int|
                0 <= k < j ==> members@[k] == (PartyMember {
                    attack: Attack { able: true, ..old(members)@[k].attack },
                    ..old(members)@[k]
                }),
            forall|k: int| j <= k < n ==> members@[k] == old(members)@[k],
        decreases n - j,
    {
        members[j].attack.enable_attack();
        j = j + 1;
    }
}

/// Member `b` is member `a` after one turn of every running cooldown.
pub open spec fn cooled_member(a: PartyMember, b: PartyMember) -> bool {
    &&& b.abilities@.len() == a.abilities@.len()
    &&& forall|x: int|
        0 <= x < a.abilities@.len() ==> b.abilities@[x] == spec_tick_cooldown(a.abilities@[x])
    &&& b == (PartyMember { abilities: b.abilities, ..a })
}

pub open spec fn cooled(a: Object, b: Object) -> bool {
    &&& b == (Object { members: b.members, ..a })
    &&& b.members@.len() == a.members@.len()
    &&& forall|j: int| 0 <= j < a.members@.len() ==> cooled_member(a.members@[j], b.members@[j])
}

/// `after` is `before` with every running cooldown advanced by one turn.
pub open spec fn all_cooled(before: Seq<Object>, after: Seq<Object>) -> bool {
    after.len() == before.len() && forall|i: int| 0 <= i < before.len() ==> #[trigger] cooled(before[i], after[i])
}

/// Advances every running cooldown of every combatant by one turn.
pub fn process_all_cooldowns(objects: &mut Vec<Object>)
    ensures
        final(objects)@.len() == old(objects)@.len(),
        forall|i: int| 0 <= i < old(objects)@.len() ==> cooled(old(objects)@[i], final(objects)@[i]),
{
    let n = objects.len();
    let mut i: usize = 0;
    while i < n
        invariant
            n == old(objects)@.len(),
            objects@.len() == n,
            i <= n,
            forall|k: int| 0 <= k < i ==> cooled(old(objects)@[k], objects@[k]),
            forall|k: int| i <= k < n ==> objects@[k] == old(objects)@[k],
        decreases n - i,
    {
        let obj = &mut objects[i];
        let ghost o0 = *obj;
        let m = obj.members.len();
        let mut j: usize = 0;
        while j < m
            invariant
                obj.members@.len() == m,
                m == o0.members@.len(),
                o0 == old(objects)@[i as int],
                j <= m,
                *obj == (Object { members: obj.members, ..o0 }),
                forall|k: int| 0 <= k < j ==> cooled_member(o0.members@[k], obj.members@[k]),
                forall|k: int| j <= k < m ==> obj.members@[k] == o0.members@[k],
            decreases m - j,
        {
            let member = &mut obj.members[j];
            let ghost m0 = *member;
            let c = member.abilities.len();
            let mut x: usize = 0;
            while x < c
                invariant
                    member.abilities@.len() == c,
                    c == m0.abilities@.len(),
                    x <= c,
                    *member == (PartyMember { abilities: member.abilities, ..m0 }),
                    forall|k: int| 0 <= k < x ==> member.abilities@[k] == spec_tick_cooldown(m0.abilities@[k]),
                    forall|k: int| x <= k < c ==> member.abilities@[k] == m0.abilities@[k],
                decreases c - x,
            {
                member.abilities[x].increment_cd_timer();
                x = x + 1;
            }
            j = j + 1;
        }
        i = i + 1;
    }
}

proof fn lemma_pending_same(a: Seq<Object>, b: Seq<Object>, n: int)
    requires
        0 <= n <= a.len(),
        a.len() == b.len(),
        forall|i: int| 0 <= i < a.len() ==> threat_ticked(a[i], b[i]),
    ensures
        pending_upto(a, n) == pending_upto(b, n),
    decreases n,
{
    if n > 0 {
        lemma_pending_same(a, b, n - 1);
        assert(threat_ticked(a[n - 1], b[n - 1]));
    }
}

proof fn lemma_slain_in_nonneg(objs: Seq<Object>, beast: bool)
    ensures
        slain_in(objs, beast) >= 0,
    decreases objs.len(),
{
    if objs.len() > 0 {
        lemma_slain_in_nonneg(objs.drop_last(), beast);
        lemma_slain_nonneg(objs.last().members@, beast);
    }
}

proof fn lemma_slain_nonneg(ms: Seq<PartyMember>, beast: bool)
    ensures
        slain(ms, beast) >= 0,
    decreases ms.len(),
{
    if ms.len() > 0 {
        lemma_slain_nonneg(ms.drop_last(), beast);
    }
}

} // verus!
