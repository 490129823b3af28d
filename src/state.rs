use vstd::prelude::*;

use crate::combat::{
    all_cooled, combat_pass, hits_valid, pending, process_all_cooldowns, process_combat,
    reset_attack_capabilities,
};
use crate::geometry::Point;
use crate::log::{LogBuffer, LogMessage, LogPart, extends};
use crate::members::{Attack, PartyMember};
use crate::object::{ActorTag, Object, objects_wf, refresh_view, refreshed};
use crate::rng::Rng;
use crate::spawns::{spawn_band_of_forsaken, spawn_elf_pickup, spawn_player};
use crate::tilemap::TileMap;

verus! {

/// Which screen the game shows.
#[derive(Clone, Copy, PartialEq, Eq, Structural, Debug)]
pub enum ContextState {
    MainMenu,
    InGame,
    Paused,
    GameMenu,
}

/// Whose phase it is; `GameOver` is terminal.
#[derive(Clone, Copy, PartialEq, Eq, Structural, Debug)]
pub enum TurnState {
    Player,
    AI,
    GameOver,
}

/// What the player asked for this tick.
#[derive(Clone, Copy, PartialEq, Eq, Structural, Debug)]
pub enum Actions {
    MoveUp,
    MoveDown,
    MoveLeft,
    MoveRight,
    MoveUpLeft,
    MoveUpRight,
    MoveDownLeft,
    MoveDownRight,
    Wait,
}

/// The keys that the game reads: arrows, the numeric keypad, vi-style letters, and the
/// period.
#[derive(Clone, Copy, PartialEq, Eq, Structural, Debug)]
pub enum Key {
    Left,
    Right,
    Up,
    Down,
    Numpad1,
    Numpad2,
    Numpad3,
    Numpad4,
    Numpad5,
    Numpad6,
    Numpad7,
    Numpad8,
    Numpad9,
    H,
    J,
    K,
    L,
    Y,
    U,
    B,
    N,
    Period,
    Other,
}

/// The game world: the dice, the parties (the player's first), the map, the floor and
/// the camera's centre.
pub struct World {
    pub rng: Rng,
    pub objects: Vec<Object>,
    pub map: TileMap,
    pub depth: u32,
    pub camera: Point,
}

impl World {
    /// A world that combat can resolve: the player's party first, every member valid,
    /// every queued hit addressed to an existing member.
    pub open spec fn wf(&self) -> bool {
        &&& self.map.wf()
        &&& self.objects@.len() > 0
        &&& crate::combat::player_party(self.objects@[0])
        &&& objects_wf(self.objects@)
        &&& hits_valid(self.objects@, pending(self.objects@))
    }

    pub fn empty() -> (r: World)
        ensures
            r.objects@.len() == 0,
            r.map.wf(),
            r.map.width == 0 && r.map.height == 0,
            r.depth == 0,
            r.camera == (Point { x: 0, y: 0 }),
    {
        World { rng: Rng::new(0), objects: Vec::new(), map: TileMap::new(0, 0), depth: 0, camera: Point { x: 0, y: 0 } }
    }

    /// A new game on `map`: the player's party at the starting position, then 24 bands of
    /// Forsaken and 10 lost elves, each on a spawn point drawn (and used up) from the map's
    /// list. `names` names the elves, the player's two first.
    pub fn new_game(map: TileMap, seed: u64, names: Vec<String>) -> (r: World)
        requires
            map.wf(),
            map.valid_spawns@.len() >= 35,
            names@.len() >= 12,
        ensures
            r.wf(),
            r.depth == 1,
            r.camera == map.starting_pos,
            r.map.tiles == map.tiles,
            r.map.valid_spawns@.len() == map.valid_spawns@.len() - 34,
            r.objects@.len() == 35,
            r.objects@[0].tag == ActorTag::Player,
            r.objects@[0].pos == Some(map.starting_pos),
            forall|i: int| 1 <= i < 25 ==> (#[trigger] r.objects@[i]).tag == ActorTag::Enemy,
            forall|i: int| 25 <= i < 35 ==> (#[trigger] r.objects@[i]).tag == ActorTag::Elf,
            forall|i: int| 1 <= i < 35 ==> (#[trigger] r.objects@[i]).floor == 1 && r.objects@[i].pos is Some,
            spawn_points(r.objects@).to_multiset().add(r.map.valid_spawns@.to_multiset())
                == map.valid_spawns@.to_multiset(),
    {
        let mut rng = Rng::new(seed);
        let ghost m0 = map;
        let mut map = map;
        let mut names = names;
        let mut objects: Vec<Object> = Vec::new();
        let camera = map.starting_pos;
        let g = names.remove(0);
        let h = names.remove(0);
        objects.push(spawn_player(map.starting_pos, g, h));
        let ghost n0 = map.valid_spawns@.len();
        let ghost mut picked: Seq<Point> = Seq::empty();
        proof {
            broadcast use vstd::seq_lib::group_to_multiset_ensures;
            assert(picked.to_multiset().add(map.valid_spawns@.to_multiset()) =~= map.valid_spawns@.to_multiset());
        }
        let mut i: usize = 0;
        while i < 34
            invariant
                i <= 34,
                map.wf(),
                map.tiles == m0.tiles,
                map.starting_pos == m0.starting_pos,
                n0 == m0.valid_spawns@.len(),
                n0 >= 35,
                map.valid_spawns@.len() == n0 - i,
                i <= 24 ==> names@.len() >= 10,
                i > 24 ==> names@.len() + i >= 34,
                objects@.len() == 1 + i,
                objects@[0].tag == ActorTag::Player,
                objects@[0].pos == Some(m0.starting_pos),
                crate::combat::player_party(objects@[0]),
                objects_wf(objects@),
                forall|k: int| 0 <= k < objects@.len() ==> (#[trigger] objects@[k]).inc_attacks@.len() == 0,
                forall|k: int| 1 <= k < objects@.len() && k < 25 ==> (#[trigger] objects@[k]).tag == ActorTag::Enemy,
                forall|k: int| 25 <= k < objects@.len() ==> (#[trigger] objects@[k]).tag == ActorTag::Elf,
                forall|k: int| 1 <= k < objects@.len() ==> (#[trigger] objects@[k]).floor == 1,
                picked.len() == i,
                forall|k: int| 0 <= k < i ==> objects@[k + 1].pos == Some(#[trigger] picked[k]),
                picked.to_multiset().add(map.valid_spawns@.to_multiset()) == m0.valid_spawns@.to_multiset(),
            decreases 34 - i,
        {
            let index = rng.range(0, map.valid_spawns.len());
            let ghost spawns = map.valid_spawns@;
            let pos = map.valid_spawns.remove(index);
            proof {
                broadcast use vstd::seq_lib::group_to_multiset_ensures;
                let np = picked.push(pos);
                assert(spawns.contains(pos)) by {
                    assert(spawns[index as int] == pos);
                }
                assert(np.to_multiset().add(map.valid_spawns@.to_multiset()) =~= picked.to_multiset().add(
                    spawns.to_multiset(),
                ));
                picked = np;
            }
            let obj = if i < 24 {
                spawn_band_of_forsaken(&mut rng, pos, 1)
            } else {
                let name = names.remove(0);
                spawn_elf_pickup(&mut rng, pos, 1, name)
            };
            let ghost before = objects@;
            objects.push(obj);
            proof {
                assert forall|a: int, b: int| 0 <= a < objects@.len() && 0 <= b < objects@[a].members@.len()
                    implies #[trigger] objects@[a].members@[b].wf() by {
                    if a < before.len() {
                        assert(objects@[a] == before[a]);
                    }
                }
            }
            i = i + 1;
        }
        proof {
            lemma_no_pending(objects@, objects@.len() as int);
            assert forall|k: int| 1 <= k < 35 implies (#[trigger] objects@[k]).pos is Some by {
                assert(objects@[(k - 1) + 1].pos == Some(picked[k - 1]));
            }
            assert(spawn_points(objects@) =~= picked);
        }
        World { rng, objects, map, depth: 1, camera }
    }
}

/// Where the parties after the player's stand, in their order.
pub open spec fn spawn_points(objs: Seq<Object>) -> Seq<Point> {
    Seq::new((objs.len() - 1) as nat, |i: int| objs[i + 1].pos.unwrap())
}

/// With every queue empty there is nothing pending.
proof fn lemma_no_pending(objs: Seq<Object>, n: int)
    requires
        0 <= n <= objs.len(),
        forall|k: int| 0 <= k < objs.len() ==> (#[trigger] objs[k]).inc_attacks@.len() == 0,
    ensures
        crate::combat::pending_upto(objs, n).len() == 0,
    decreases n,
{
    if n > 0 {
        lemma_no_pending(objs, n - 1);
        assert(objs[n - 1].inc_attacks@.len() == 0);
    }
}

/// The whole game: flags that gate the work of a tick, the turn machine, the world, the
/// log, and the tallies of the run.
pub struct State {
    pub proc: bool,
    pub refresh: bool,
    pub passed_turn: bool,
    pub go_next_level: bool,
    pub status: ContextState,
    pub turn_state: TurnState,
    pub world: World,
    pub logs: LogBuffer,
    pub player_died: bool,
    pub targets_stale: bool,
    pub fkills: u32,
    pub bkills: u32,
    pub turns: u64,
}

impl State {
    /// A game in progress on `world`, opening with the story's first lines.
    pub fn init(world: World) -> (r: State)
        requires
            world.wf(),
        ensures
            r.proc,
            r.refresh,
            !r.passed_turn,
            !r.go_next_level,
            r.status == ContextState::InGame,
            r.turn_state == TurnState::Player,
            r.world == world,
            r.logs.messages@.len() == 1,
            !r.player_died,
            r.fkills == 0 && r.bkills == 0 && r.turns == 0,
    {
        let mut logs = LogBuffer::new();
        logs.update_logs(
            LogMessage::new().text(
                "Your ancestors have called upon you to save these lands from the bestial scourge they are beset against.",
            ).text("Gather more").add_part(LogPart::Name(String::from_str("Elves (☻)"))).text(
                "to expand your party of woodland defenders.",
            ).text("Beware of").add_part(LogPart::Name(String::from_str("Beasts (b)"))).text(
                "that stalk these woods, and",
            ).add_part(LogPart::Name(String::from_str("the Forsaken (☺),"))).text(
                "your fallen bretheren. Good luck...",
            ),
        );
        State {
            proc: true,
            refresh: true,
            passed_turn: false,
            go_next_level: false,
            status: ContextState::InGame,
            turn_state: TurnState::Player,
            world,
            logs,
            player_died: false,
            targets_stale: false,
            fkills: 0,
            bkills: 0,
            turns: 0,
        }
    }

    pub fn set_proc(&mut self)
        ensures
            *final(self) == (State { proc: true, ..*old(self) }),
    {
        self.proc = true
    }

    pub fn set_refresh(&mut self)
        ensures
            *final(self) == (State { refresh: true, ..*old(self) }),
    {
        self.refresh = true
    }

    /// One tick: reads the player's key in the player's phase, then runs the systems. A
    /// key that uses the turn plays it out: the AI's phase follows and the turn comes back
    /// to the player, unless the player's party is wiped out, which ends the game.
    pub fn tick(&mut self, key: Option<Key>)
        requires
            old(self).world.wf(),
        ensures
            final(self).world.wf(),
            !final(self).proc || final(self).status != ContextState::InGame,
            extends(old(self).logs.messages@, final(self).logs.messages@),
            old(self).status != ContextState::InGame ==> *final(self) == *old(self),
            old(self).turn_state == TurnState::GameOver ==> final(self).turn_state == TurnState::GameOver
                && final(self).world == old(self).world && final(self).logs == old(self).logs,
            old(self).status == ContextState::InGame && old(self).turn_state == TurnState::Player
                && !old(self).player_died ==> (key_action(key) matches Some(a) ==> {
                let objs = after_action(old(self).world, a);
                &&& !final(self).passed_turn
                &&& (final(self).turn_state == TurnState::GameOver <==> final(self).player_died)
                &&& uses_turn(old(self).world, a) ==> (final(self).turn_state == TurnState::GameOver
                    && final(self).turns == old(self).turns && turn_played(objs, final(self).world.objects@, false))
                    || (final(self).turns == old(self).turns.saturating_add(1) && turn_played(
                    objs,
                    final(self).world.objects@,
                    true,
                ))
                &&& !uses_turn(old(self).world, a) ==> {
                    &&& final(self).turn_state == TurnState::Player
                    &&& final(self).turns == old(self).turns
                    &&& final(self).world.objects@ == objs.update(0, refreshed(objs[0]))
                    &&& final(self).logs == old(self).logs
                }
            }),
    {
        if self.turn_state == TurnState::Player {
            player_input(self, key);
        }
        match self.status {
            ContextState::InGame => exec_all_systems(self),
            _ => {},
        }
    }
}

/// Reads the player's key while a game is on screen.
pub fn player_input(gs: &mut State, key: Option<Key>)
    requires
        old(gs).world.wf(),
    ensures
        final(gs).world.wf(),
        old(gs).status == ContextState::InGame ==> (key_action(key) matches Some(a) ==> action_taken(*old(gs), *final(gs), a)),
        old(gs).status != ContextState::InGame || key_action(key) is None ==> *final(gs) == *old(gs),
{
    match gs.status {
        ContextState::InGame => ingame_input(gs, key),
        _ => {},
    }
}

/// The action bound to a key, if any.
pub open spec fn key_action(key: Option<Key>) -> Option<Actions> {
    match key {
        Some(Key::Left) | Some(Key::Numpad4) | Some(Key::H) => Some(Actions::MoveLeft),
        Some(Key::Right) | Some(Key::Numpad6) | Some(Key::L) => Some(Actions::MoveRight),
        Some(Key::Up) | Some(Key::Numpad8) | Some(Key::J) => Some(Actions::MoveUp),
        Some(Key::Down) | Some(Key::Numpad2) | Some(Key::K) => Some(Actions::MoveDown),
        Some(Key::Numpad7) | Some(Key::Y) => Some(Actions::MoveUpLeft),
        Some(Key::Numpad9) | Some(Key::U) => Some(Actions::MoveUpRight),
        Some(Key::Numpad1) | Some(Key::B) => Some(Actions::MoveDownLeft),
        Some(Key::Numpad3) | Some(Key::N) => Some(Actions::MoveDownRight),
        Some(Key::Numpad5) | Some(Key::Period) => Some(Actions::Wait),
        _ => None,
    }
}

fn action_of(key: Option<Key>) -> (r: Option<Actions>)
    ensures
        r == key_action(key),
{
    match key {
        Some(Key::Left) | Some(Key::Numpad4) | Some(Key::H) => Some(Actions::MoveLeft),
        Some(Key::Right) | Some(Key::Numpad6) | Some(Key::L) => Some(Actions::MoveRight),
        Some(Key::Up) | Some(Key::Numpad8) | Some(Key::J) => Some(Actions::MoveUp),
        Some(Key::Down) | Some(Key::Numpad2) | Some(Key::K) => Some(Actions::MoveDown),
        Some(Key::Numpad7) | Some(Key::Y) => Some(Actions::MoveUpLeft),
        Some(Key::Numpad9) | Some(Key::U) => Some(Actions::MoveUpRight),
        Some(Key::Numpad1) | Some(Key::B) => Some(Actions::MoveDownLeft),
        Some(Key::Numpad3) | Some(Key::N) => Some(Actions::MoveDownRight),
        Some(Key::Numpad5) | Some(Key::Period) => Some(Actions::Wait),
        _ => None,
    }
}

fn ingame_input(gs: &mut State, key: Option<Key>)
    requires
        old(gs).world.wf(),
    ensures
        final(gs).world.wf(),
        key_action(key) matches Some(a) ==> action_taken(*old(gs), *final(gs), a),
        key_action(key) is None ==> *final(gs) == *old(gs),
{
    match action_of(key) {
        Some(action) => process_action(gs, action),
        None => {},
    }
}

/// The offset of one step in each direction; y grows downwards.
pub open spec fn step_of(action: Actions) -> Point {
    match action {
        Actions::MoveLeft => Point { x: -1i32, y: 0 },
        Actions::MoveRight => Point { x: 1, y: 0 },
        Actions::MoveUp => Point { x: 0, y: -1i32 },
        Actions::MoveDown => Point { x: 0, y: 1 },
        Actions::MoveUpLeft => Point { x: -1i32, y: -1i32 },
        Actions::MoveUpRight => Point { x: 1, y: -1i32 },
        Actions::MoveDownLeft => Point { x: -1i32, y: 1 },
        Actions::MoveDownRight => Point { x: 1, y: 1 },
        Actions::Wait => Point { x: 0, y: 0 },
    }
}

fn step(action: Actions) -> (r: Point)
    ensures
        r == step_of(action),
{
    match action {
        Actions::MoveLeft => Point { x: -1, y: 0 },
        Actions::MoveRight => Point { x: 1, y: 0 },
        Actions::MoveUp => Point { x: 0, y: -1 },
        Actions::MoveDown => Point { x: 0, y: 1 },
        Actions::MoveUpLeft => Point { x: -1, y: -1 },
        Actions::MoveUpRight => Point { x: 1, y: -1 },
        Actions::MoveDownLeft => Point { x: -1, y: 1 },
        Actions::MoveDownRight => Point { x: 1, y: 1 },
        Actions::Wait => Point { x: 0, y: 0 },
    }
}

/// The cell one step of `delta` away from `p`, when it is a cell of the `i32` grid.
pub open spec fn step_target(p: Point, delta: Point) -> Option<Point> {
    if i32::MIN <= p.x + delta.x <= i32::MAX && i32::MIN <= p.y + delta.y <= i32::MAX {
        Some(Point { x: (p.x + delta.x) as i32, y: (p.y + delta.y) as i32 })
    } else {
        None
    }
}

/// Where the player's party stands after trying to step by `delta` on `w`: on the target
/// cell when it is walkable, else where it stood.
pub open spec fn stepped(w: World, delta: Point) -> Option<Point> {
    let p = w.objects@[0].pos.unwrap();
    match step_target(p, delta) {
        Some(d) => if w.map.spec_walkable(d) {
            Some(d)
        } else {
            Some(p)
        },
        None => Some(p),
    }
}

/// The parties after the player's party tries to step by `delta` on `w`: when it moves,
/// it stands on its new cell with its vision marked for recomputation.
pub open spec fn after_step(w: World, delta: Point) -> Seq<Object> {
    let o = w.objects@[0];
    if stepped(w, delta) == o.pos {
        w.objects@
    } else {
        w.objects@.update(0, refreshed(Object { pos: stepped(w, delta), ..o }))
    }
}

/// The parties after action `a` on `w`.
pub open spec fn after_action(w: World, a: Actions) -> Seq<Object> {
    if a == Actions::Wait {
        w.objects@
    } else {
        after_step(w, step_of(a))
    }
}

/// Action `a` on `w` uses the turn: a wait, or a step that moved the party.
pub open spec fn uses_turn(w: World, a: Actions) -> bool {
    a == Actions::Wait || stepped(w, step_of(a)) != w.objects@[0].pos
}

/// `after` is `before` once the player's action `a` is carried out: the party stepped (the
/// camera following it) or waited, the systems and the screen are asked for, and
/// `passed_turn` tells whether the turn was used.
pub open spec fn action_taken(before: State, after: State, a: Actions) -> bool {
    &&& after == (State { proc: true, refresh: true, passed_turn: uses_turn(before.world, a), world: after.world, ..before })
    &&& after.world == (World { objects: after.world.objects, camera: after.world.camera, ..before.world })
    &&& after.world.objects@ == after_action(before.world, a)
    &&& after.world.camera == if a == Actions::Wait {
        before.world.camera
    } else {
        stepped(before.world, step_of(a)).unwrap()
    }
}

/// Carries out the player's action and asks for the systems to run and the screen to be
/// redrawn. A wait always uses the turn; a move uses it when the party moved.
pub fn process_action(gs: &mut State, action: Actions)
    requires
        old(gs).world.wf(),
    ensures
        final(gs).world.wf(),
        action_taken(*old(gs), *final(gs), action),
{
    let result = match action {
        Actions::Wait => true,
        _ => try_move_player(gs, step(action)),
    };
    gs.set_proc();
    gs.set_refresh();
    gs.passed_turn = result;
}

/// Steps the player's party by `delta`; the camera follows it. Returns whether it moved.
fn try_move_player(gs: &mut State, delta: Point) -> (r: bool)
    requires
        old(gs).world.wf(),
        delta != (Point { x: 0, y: 0 }),
    ensures
        final(gs).world.wf(),
        *final(gs) == (State { world: final(gs).world, ..*old(gs) }),
        final(gs).world == (World { objects: final(gs).world.objects, camera: final(gs).world.camera, ..old(gs).world }),
        final(gs).world.objects@ == after_step(old(gs).world, delta),
        final(gs).world.camera == stepped(old(gs).world, delta).unwrap(),
        r == (stepped(old(gs).world, delta) != old(gs).world.objects@[0].pos),
{
    let cur = gs.world.objects[0].pos.unwrap();
    let dest = match cur.offset(delta) {
        Some(d) => d,
        None => {
            gs.world.camera = cur;
            return try_attack_player(gs, cur);
        },
    };
    let ghost before = gs.world.objects@;
    gs.world.objects[0].try_move(dest, &gs.world.map);
    proof {
        assert forall|a: int, b: int| 0 <= a < gs.world.objects@.len() && 0 <= b < gs.world.objects@[a].members@.len()
            implies #[trigger] gs.world.objects@[a].members@[b].wf() by {
            assert(gs.world.objects@[a].members == before[a].members);
        }
        lemma_pending_frame(before, gs.world.objects@, before.len() as int);
    }
    proof {
        assert(gs.world.objects@ =~= after_step(old(gs).world, delta));
    }
    let pos = gs.world.objects[0].pos.unwrap();
    gs.world.camera = pos;
    if pos == dest {
        true
    } else {
        try_attack_player(gs, dest)
    }
}

/// Bumping into a cell that the party cannot enter: no attack follows yet, so the turn
/// is not used.
fn try_attack_player(gs: &mut State, dest: Point) -> (r: bool)
    ensures
        !r,
        *final(gs) == *old(gs),
{
    false
}

proof fn lemma_pending_frame(a: Seq<Object>, b: Seq<Object>, n: int)
    requires
        0 <= n <= a.len(),
        a.len() == b.len(),
        forall|i: int| 0 <= i < a.len() ==> (#[trigger] b[i]).inc_attacks == a[i].inc_attacks,
    ensures
        crate::combat::pending_upto(a, n) == crate::combat::pending_upto(b, n),
    decreases n,
{
    if n > 0 {
        lemma_pending_frame(a, b, n - 1);
        assert(b[n - 1].inc_attacks == a[n - 1].inc_attacks);
    }
}

/// One resolution pass over the world, with the run's flags and tallies.
fn resolve_combat(gs: &mut State)
    requires
        old(gs).world.wf(),
    ensures
        final(gs).world.wf(),
        *final(gs) == (State {
            world: final(gs).world,
            logs: final(gs).logs,
            player_died: final(gs).player_died,
            targets_stale: final(gs).targets_stale,
            fkills: final(gs).fkills,
            bkills: final(gs).bkills,
            ..*old(gs)
        }),
        final(gs).world == (World { objects: final(gs).world.objects, ..old(gs).world }),
        combat_pass(old(gs).world.objects@, final(gs).world.objects@),
        old(gs).player_died ==> final(gs).player_died,
        extends(old(gs).logs.messages@, final(gs).logs.messages@),
{
    process_combat(
        &mut gs.world.objects,
        &mut gs.logs,
        &mut gs.player_died,
        &mut gs.targets_stale,
        &mut gs.fkills,
        &mut gs.bkills,
    );
    proof {
        lemma_no_pending(gs.world.objects@, gs.world.objects@.len() as int);
    }
}

/// Keeps a world valid across changes that touch no queue, no member count, and keep
/// every member valid.
proof fn lemma_world_frame(a: Seq<Object>, b: Seq<Object>)
    requires
        a.len() == b.len(),
        hits_valid(a, pending(a)),
        forall|i: int| 0 <= i < a.len() ==> (#[trigger] b[i]).inc_attacks == a[i].inc_attacks,
        forall|i: int| 0 <= i < a.len() ==> (#[trigger] b[i]).members@.len() == a[i].members@.len(),
    ensures
        hits_valid(b, pending(b)),
{
    lemma_pending_frame(a, b, a.len() as int);
}

/// `after` is `before` with every member of the player's party (index 0) able to attack.
pub open spec fn stance_reset(before: Seq<Object>, after: Seq<Object>) -> bool {
    &&& after.len() == before.len()
    &&& forall|i: int| 1 <= i < before.len() ==> after[i] == before[i]
    &&& after[0] == (Object { members: after[0].members, ..before[0] })
    &&& after[0].members@.len() == before[0].members@.len()
    &&& forall|j: int|
        0 <= j < before[0].members@.len() ==> #[trigger] after[0].members@[j] == (PartyMember {
            attack: Attack { able: true, ..before[0].members@[j].attack },
            ..before[0].members@[j]
        })
}

/// A used turn, from the parties `before` to `after`: the player's vision is marked for
/// recomputation, every cooldown advances once, the player's members may attack again and
/// combat resolves; with `ai_phase`, combat resolves once more for the AI's phase.
pub open spec fn turn_played(before: Seq<Object>, after: Seq<Object>, ai_phase: bool) -> bool {
    exists|b: Seq<Object>|
        {
            &&& #[trigger] turn_begun(before, b)
            &&& if ai_phase {
                exists|c: Seq<Object>| #[trigger] combat_pass(b, c) && combat_pass(c, after)
            } else {
                combat_pass(b, after)
            }
        }
}

/// The start of a used turn, before combat: vision marked, cooldowns advanced once, the
/// player's stance reset.
pub open spec fn turn_begun(before: Seq<Object>, b: Seq<Object>) -> bool {
    exists|a: Seq<Object>| #[trigger] all_cooled(before.update(0, refreshed(before[0])), a) && stance_reset(a, b)
}

/// Runs the systems when a tick asked for it. A used turn moves the machine from the
/// player's phase to the AI's: every cooldown advances once, the player's members may
/// attack again, and combat resolves. The AI phase resolves combat once more and hands
/// the turn back to the player. The game is over the moment the player's party is wiped
/// out.
pub fn exec_all_systems(gs: &mut State)
    requires
        old(gs).world.wf(),
    ensures
        final(gs).world.wf(),
        !final(gs).proc,
        !old(gs).proc ==> *final(gs) == *old(gs),
        old(gs).turn_state == TurnState::GameOver ==> *final(gs) == (State { proc: false, ..*old(gs) }),
        old(gs).proc && old(gs).turn_state != TurnState::GameOver ==> !final(gs).passed_turn,
        old(gs).proc && old(gs).turn_state == TurnState::Player && !old(gs).passed_turn ==> {
            &&& final(gs).world.objects@ == old(gs).world.objects@.update(0, refreshed(old(gs).world.objects@[0]))
            &&& final(gs).world == (World { objects: final(gs).world.objects, ..old(gs).world })
            &&& final(gs).logs == old(gs).logs
        },
        old(gs).proc && old(gs).turn_state == TurnState::Player && old(gs).passed_turn && !old(gs).player_died
            ==> (final(gs).turn_state == TurnState::GameOver && final(gs).turns == old(gs).turns
            && turn_played(old(gs).world.objects@, final(gs).world.objects@, false)) || (final(gs).turns
            == old(gs).turns.saturating_add(1) && turn_played(old(gs).world.objects@, final(gs).world.objects@, true)),
        old(gs).proc && old(gs).turn_state == TurnState::Player && !old(gs).passed_turn ==> final(gs).turns
            == old(gs).turns && final(gs).turn_state == if old(gs).player_died {
            TurnState::GameOver
        } else {
            TurnState::Player
        },
        old(gs).proc && old(gs).turn_state != TurnState::GameOver ==> (final(gs).turn_state
            == TurnState::GameOver <==> final(gs).player_died),
        final(gs).turn_state != TurnState::AI || old(gs).turn_state == TurnState::AI && !old(gs).proc,
        old(gs).player_died ==> final(gs).player_died,
        final(gs).status == old(gs).status,
        extends(old(gs).logs.messages@, final(gs).logs.messages@),
{
    if gs.turn_state == TurnState::GameOver {
        gs.proc = false;
        return;
    }
    if !gs.proc {
        return;
    }
    let ghost w0 = gs.world.objects@;
    refresh_view(&mut gs.world.objects[0]);
    proof {
        assert forall|a: int, b: int| 0 <= a < gs.world.objects@.len() && 0 <= b < gs.world.objects@[a].members@.len()
            implies #[trigger] gs.world.objects@[a].members@[b].wf() by {
            assert(gs.world.objects@[a].members == w0[a].members);
        }
        lemma_world_frame(w0, gs.world.objects@);
    }
    let ghost mut wb = gs.world.objects@;
    let ghost mut begun = false;
    if gs.passed_turn {
        gs.passed_turn = false;
        if gs.turn_state == TurnState::Player {
            let ghost w1 = gs.world.objects@;
            process_all_cooldowns(&mut gs.world.objects);
            let ghost w2 = gs.world.objects@;
            reset_attack_capabilities(&mut gs.world.objects[0].members);
            proof {
                wb = gs.world.objects@;
                assert(w1 == w0.update(0, refreshed(w0[0])));
                assert(all_cooled(w1, w2));
                assert(stance_reset(w2, wb));
                assert(turn_begun(w0, wb));
                begun = true;
            }
            proof {
                assert forall|a: int, b: int| 0 <= a < gs.world.objects@.len() && 0 <= b < gs.world.objects@[a].members@.len()
                    implies #[trigger] gs.world.objects@[a].members@[b].wf() by {
                    assert(crate::combat::cooled(w1[a], w2[a]));
                    assert(crate::combat::cooled_member(w1[a].members@[b], w2[a].members@[b]));
                    assert(w1[a].members@[b].wf());
                }
                assert forall|i: int| 0 <= i < w1.len() implies (#[trigger] gs.world.objects@[i]).inc_attacks == w1[i].inc_attacks
                    && gs.world.objects@[i].members@.len() == w1[i].members@.len() by {
                    assert(crate::combat::cooled(w1[i], w2[i]));
                }
                lemma_world_frame(w1, gs.world.objects@);
            }
            resolve_combat(gs);
            proof {
                let wc = gs.world.objects@;
                assert(combat_pass(wb, wc));
                assert(turn_played(w0, wc, false));
            }
            if gs.player_died {
                gs.turn_state = TurnState::GameOver;
            } else {
                gs.turn_state = TurnState::AI;
            }
        }
    }
    let ghost wc = gs.world.objects@;
    if gs.turn_state == TurnState::AI {
        resolve_combat(gs);
        proof {
            assert(combat_pass(wc, gs.world.objects@));
            if begun {
                assert(turn_begun(w0, wb));
                assert(combat_pass(wb, wc));
                assert(turn_played(w0, gs.world.objects@, true));
            }
        }
        gs.turns = gs.turns.saturating_add(1);
        if gs.player_died {
            gs.turn_state = TurnState::GameOver;
        } else {
            gs.turn_state = TurnState::Player;
        }
    } else if gs.turn_state == TurnState::Player && gs.player_died {
        gs.turn_state = TurnState::GameOver;
    }
    gs.proc = false;
}

} // verus!
