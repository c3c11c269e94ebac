use vstd::prelude::*;
use crate::components::{decimal, lists_cell, push_decimal, Cell, Entity, Monster, Name, Player, Position, Renderable, ViewShed};
use crate::dice::roll_dice;
use crate::map::{TileMap, TileType};
use crate::mapgen::{generated, new_map_rooms_and_corridors, MapConfig};
use crate::visibility::{
    last_dirty_player, placed, reveals_more, same_but_sight, seen_by_dirty_player, seen_consistent,
    viewshed_refreshed, VisibilitySystem,
};

verus! {

#[derive(Clone, Copy, Debug, PartialEq, Eq, Structural)]
pub enum RunState {
    Paused,
    Running,
}

/// The keys the game reacts to; every other key is `Other`.
#[derive(Clone, Copy, Debug, PartialEq, Eq, Structural)]
pub enum Key {
    Left,
    Right,
    Up,
    Down,
    Numpad2,
    Numpad4,
    Numpad6,
    Numpad8,
    H,
    J,
    K,
    L,
    Other,
}

/// The step a key asks for: arrows, the numeric keypad and the vi keys
/// name the same four directions.
pub open spec fn key_delta(k: Key) -> Option<(int, int)> {
    match k {
        Key::Left | Key::Numpad4 | Key::H => Some((-1, 0)),
        Key::Right | Key::Numpad6 | Key::L => Some((1, 0)),
        Key::Up | Key::Numpad8 | Key::K => Some((0, -1)),
        Key::Down | Key::Numpad2 | Key::J => Some((0, 1)),
        Key::Other => None,
    }
}

/// The whole simulation: the map, the entities, the player's last known
/// cell, and the phase of the tick loop.
pub struct State {
    pub map: TileMap,
    pub entities: Vec<Entity>,
    pub player_pos: Cell,
    pub runstate: RunState,
}

impl State {
    pub open spec fn wf(self) -> bool {
        &&& self.map.wf()
        &&& self.map.blocked_in_sync()
        &&& seen_consistent(self.map)
        &&& self.map.in_bounds(self.player_pos.x as int, self.player_pos.y as int)
        &&& forall|i: int| 0 <= i < self.entities@.len() ==> placed(self.map, #[trigger] self.entities@[i])
    }
}

pub open spec fn clamped(v: int, lo: int, hi: int) -> int {
    if v < lo {
        lo
    } else if v > hi {
        hi
    } else {
        v
    }
}

/// Where a step by `(dx, dy)` from `p` lands, each axis clamped to the map.
pub open spec fn move_target(map: TileMap, p: Position, dx: int, dy: int) -> (int, int) {
    (clamped(p.x + dx, 0, map.width - 1), clamped(p.y + dy, 0, map.height - 1))
}

pub open spec fn can_move(map: TileMap, p: Position, dx: int, dy: int) -> bool {
    let t = move_target(map, p, dx, dy);
    !map.blocked@[map.idx(t.0, t.1)]
}

/// `n` is `o` after a move attempt by `(dx, dy)`: a player whose target is
/// open stands there with its viewshed marked dirty; anything else is
/// unchanged.
pub open spec fn moved(n: Entity, o: Entity, map: TileMap, dx: int, dy: int) -> bool {
    if o.player.is_some() && can_move(map, o.position, dx, dy) {
        &&& n.position.cell() == move_target(map, o.position, dx, dy)
        &&& n.viewshed.dirty
        &&& n.viewshed.range == o.viewshed.range
        &&& n.viewshed.visible_tiles == o.viewshed.visible_tiles
        &&& n.renderable == o.renderable
        &&& n.name == o.name
        &&& n.player == o.player
        &&& n.monster == o.monster
    } else {
        n == o
    }
}

/// The published player cell after the first `n` entities have tried the
/// move: the target of the last player that moved, else `start`.
pub open spec fn mover_pos(
    es: Seq<Entity>,
    map: TileMap,
    dx: int,
    dy: int,
    n: int,
    start: (int, int),
) -> (int, int)
    decreases n,
{
    if n <= 0 {
        start
    } else {
        let e = es[n - 1];
        if e.player.is_some() && can_move(map, e.position, dx, dy) {
            move_target(map, e.position, dx, dy)
        } else {
            mover_pos(es, map, dx, dy, n - 1, start)
        }
    }
}

/// `n` is `o` after `try_move_player(dx, dy)`.
pub open spec fn after_move(n: State, o: State, dx: int, dy: int) -> bool {
    &&& n.map == o.map
    &&& n.entities@.len() == o.entities@.len()
    &&& forall|i: int|
        0 <= i < o.entities@.len() ==> moved(#[trigger] n.entities@[i], o.entities@[i], o.map, dx, dy)
    &&& n.player_pos.cell() == mover_pos(o.entities@, o.map, dx, dy, o.entities@.len() as int, o.player_pos.cell())
}

/// A monster that has the player's cell in sight.
pub open spec fn reacts(e: Entity, player: (int, int)) -> bool {
    e.monster.is_some() && lists_cell(e.viewshed.visible_tiles@, player)
}

/// Indices, in order, of the first `n` entities that react to the player.
pub open spec fn reacting(es: Seq<Entity>, player: (int, int), n: int) -> Seq<usize>
    decreases n,
{
    if n <= 0 {
        Seq::empty()
    } else if reacts(es[n - 1], player) {
        reacting(es, player, n - 1).push((n - 1) as usize)
    } else {
        reacting(es, player, n - 1)
    }
}

/// `n` is `o` after one running phase of systems.
pub open spec fn after_systems(n: State, o: State) -> bool {
    &&& same_but_sight(n.map, o.map)
    &&& reveals_more(n.map, o.map)
    &&& n.player_pos == o.player_pos
    &&& n.entities@.len() == o.entities@.len()
    &&& forall|i: int|
        0 <= i < o.entities@.len() ==> viewshed_refreshed(#[trigger] n.entities@[i], o.entities@[i], n.map)
    &&& last_dirty_player(o.entities@, o.entities@.len() as int) >= 0 ==> forall|x: int, y: int|
        #[trigger] n.map.in_bounds(x, y) ==> n.map.visible_tiles@[n.map.idx(x, y)] == lists_cell(
            n.entities@[last_dirty_player(o.entities@, o.entities@.len() as int)].viewshed.visible_tiles@,
            (x, y),
        )
    &&& forall|x: int, y: int|
        #[trigger] n.map.in_bounds(x, y) ==> n.map.revealed_tiles@[n.map.idx(x, y)] == (
        o.map.revealed_tiles@[o.map.idx(x, y)] || seen_by_dirty_player(
            o.entities@,
            n.entities@,
            o.entities@.len() as int,
            (x, y),
        ))
}

fn clamp_axis(v: i64, hi: i64) -> (r: i64)
    requires
        0 <= hi,
    ensures
        r == clamped(v as int, 0, hi as int),
{
    if v < 0 {
        0
    } else if v > hi {
        hi
    } else {
        v
    }
}

/// Whether `vs` lists cell `c`.
pub fn sees(vs: &ViewShed, c: Cell) -> (r: bool)
    ensures
        r == lists_cell(vs.visible_tiles@, c.cell()),
{
    let mut k: usize = 0;
    while k < vs.visible_tiles.len()
        invariant
            k <= vs.visible_tiles@.len(),
            forall|j: int| 0 <= j < k ==> (#[trigger] vs.visible_tiles@[j]).cell() != c.cell(),
        decreases vs.visible_tiles@.len() - k,
    {
        let t = vs.visible_tiles[k];
        if t.x == c.x && t.y == c.y {
            assert(vs.visible_tiles@[k as int].cell() == c.cell());
            return true;
        }
        k += 1;
    }
    false
}

pub struct MonsterAI {}

impl MonsterAI {
    /// The indices of the monsters that currently see the player's cell, in
    /// entity order: one reaction per such monster.
    pub fn run(&self, entities: &Vec<Entity>, player_pos: Cell) -> (r: Vec<usize>)
        ensures
            r@ == reacting(entities@, player_pos.cell(), entities@.len() as int),
    {
        let mut r: Vec<usize> = Vec::new();
        let mut i: usize = 0;
        while i < entities.len()
            invariant
                i <= entities@.len(),
                r@ == reacting(entities@, player_pos.cell(), i as int),
            decreases entities@.len() - i,
        {
            let e = &entities[i];
            if e.monster.is_some() && sees(&e.viewshed, player_pos) {
                r.push(i);
            }
            i += 1;
        }
        r
    }
}

/// Every index below `n` appears in `reacting(es, p, n)` exactly when that
/// entity reacts, and no index appears twice.
pub proof fn lemma_one_reaction_per_watcher(es: Seq<Entity>, p: (int, int), n: int)
    requires
        0 <= n <= es.len(),
        n <= usize::MAX,
    ensures
        forall|i: int| 0 <= i < n ==> (reacting(es, p, n).contains(i as usize) <==> reacts(es[i], p)),
        forall|a: int, b: int|
            0 <= a < b < reacting(es, p, n).len() ==> reacting(es, p, n)[a] < reacting(es, p, n)[b],
        forall|k: int| 0 <= k < reacting(es, p, n).len() ==> reacting(es, p, n)[k] < n,
    decreases n,
{
    if n > 0 {
        lemma_one_reaction_per_watcher(es, p, n - 1);
        let prev = reacting(es, p, n - 1);
        let cur = reacting(es, p, n);
        if reacts(es[n - 1], p) {
            assert(cur == prev.push((n - 1) as usize));
            assert forall|i: int| 0 <= i < n implies (cur.contains(i as usize) <==> reacts(es[i], p)) by {
                if i < n - 1 {
                    if cur.contains(i as usize) {
                        let k = choose|k: int| 0 <= k < cur.len() && cur[k] == i as usize;
                        if k < prev.len() {
                            assert(prev[k] == cur[k]);
                        }
                    }
                    if prev.contains(i as usize) {
                        let k = choose|k: int| 0 <= k < prev.len() && prev[k] == i as usize;
                        assert(cur[k] == prev[k]);
                    }
                } else {
                    assert(cur[prev.len() as int] == (n - 1) as usize);
                }
            }
        } else {
            assert forall|i: int| 0 <= i < n implies (cur.contains(i as usize) <==> reacts(es[i], p)) by {
                if i == n - 1 && cur.contains(i as usize) {
                    let k = choose|k: int| 0 <= k < cur.len() && cur[k] == i as usize;
                    assert(cur[k] < n - 1);
                }
            }
        }
    }
}

/// Moves every player entity by `(delta_x, delta_y)`, each axis clamped to the
/// map, unless the target cell is blocked; a player that moves has its
/// viewshed marked dirty and its cell published as the player position.
pub fn try_move_player(delta_x: i32, delta_y: i32, ecs: &mut State)
    requires
        old(ecs).wf(),
    ensures
        final(ecs).wf(),
        final(ecs).runstate == old(ecs).runstate,
        after_move(*final(ecs), *old(ecs), delta_x as int, delta_y as int),
{
    let ghost es0 = ecs.entities@;
    let ghost start = ecs.player_pos.cell();
    let ghost dx = delta_x as int;
    let ghost dy = delta_y as int;
    let hi_x = (ecs.map.width - 1) as i64;
    let hi_y = (ecs.map.height - 1) as i64;
    let mut i: usize = 0;
    while i < ecs.entities.len()
        invariant
            ecs.wf(),
            ecs.map == old(ecs).map,
            ecs.runstate == old(ecs).runstate,
            es0 == old(ecs).entities@,
            start == old(ecs).player_pos.cell(),
            hi_x == ecs.map.width - 1,
            hi_y == ecs.map.height - 1,
            dx == delta_x,
            dy == delta_y,
            i <= es0.len(),
            ecs.entities@.len() == es0.len(),
            forall|j: int| i <= j < es0.len() ==> #[trigger] ecs.entities@[j] == es0[j],
            forall|j: int| 0 <= j < i ==> moved(#[trigger] ecs.entities@[j], es0[j], ecs.map, dx, dy),
            ecs.player_pos.cell() == mover_pos(es0, ecs.map, dx, dy, i as int, start),
        decreases es0.len() - i,
    {
        let ghost es_before = ecs.entities@;
        let mut e = ecs.entities.remove(i);
        assert(e == es0[i as int]);
        if e.player.is_some() {
            let tx = clamp_axis(e.position.x as i64 + delta_x as i64, hi_x);
            let ty = clamp_axis(e.position.y as i64 + delta_y as i64, hi_y);
            let destination_idx = ecs.map.xy_idx(tx as i32, ty as i32);
            if !ecs.map.blocked[destination_idx] {
                e.position = Position { x: tx as i32, y: ty as i32 };
                e.viewshed.dirty = true;
                ecs.player_pos = Cell { x: tx as i32, y: ty as i32 };
            }
        }
        ecs.entities.insert(i, e);
        proof {
            assert forall|j: int| 0 <= j < es0.len() && j != i implies #[trigger] ecs.entities@[j]
                == es_before[j] by {}
            assert(ecs.entities@[i as int] == e);
            assert forall|j: int| 0 <= j < ecs.entities@.len() implies placed(ecs.map, #[trigger] ecs.entities@[j]) by {
                if j != i {
                    assert(ecs.entities@[j] == es_before[j]);
                }
            }
        }
        i += 1;
    }
}

/// Turns a key into a move of the player: a direction key makes the move
/// and starts a running phase; no key or any other key leaves everything as
/// it is and stays paused.
pub fn player_input(gs: &mut State, key: Option<Key>) -> (r: RunState)
    requires
        old(gs).wf(),
    ensures
        final(gs).wf(),
        final(gs).runstate == old(gs).runstate,
        match key {
            Some(k) => match key_delta(k) {
                Some(d) => r == RunState::Running && after_move(*final(gs), *old(gs), d.0, d.1),
                None => r == RunState::Paused && *final(gs) == *old(gs),
            },
            None => r == RunState::Paused && *final(gs) == *old(gs),
        },
{
    match key {
        None => {
            return RunState::Paused;
        },
        Some(key) => match key {
            Key::Left | Key::Numpad4 | Key::H => try_move_player(-1, 0, gs),
            Key::Right | Key::Numpad6 | Key::L => try_move_player(1, 0, gs),
            Key::Up | Key::Numpad8 | Key::K => try_move_player(0, -1, gs),
            Key::Down | Key::Numpad2 | Key::J => try_move_player(0, 1, gs),
            _ => {
                return RunState::Paused;
            },
        },
    }
    RunState::Running
}

impl State {
    /// One running phase: the monsters react to what they saw last, then
    /// every dirty viewshed is recomputed. Returns the reacting monsters.
    pub fn run_systems(&mut self) -> (events: Vec<usize>)
        requires
            old(self).wf(),
        ensures
            final(self).wf(),
            final(self).runstate == old(self).runstate,
            after_systems(*final(self), *old(self)),
            events@ == reacting(
                old(self).entities@,
                old(self).player_pos.cell(),
                old(self).entities@.len() as int,
            ),
    {
        let mob = MonsterAI {};
        let vis = VisibilitySystem {};
        let events = mob.run(&self.entities, self.player_pos);
        vis.run(&mut self.map, &mut self.entities);
        proof {
            assert forall|i: int| 0 <= i < self.entities@.len() implies placed(self.map, #[trigger] self.entities@[i]) by {
                assert(viewshed_refreshed(self.entities@[i], old(self).entities@[i], self.map));
            }
        }
        events
    }

    /// One step of the loop. While running, the systems run and the state
    /// pauses; while paused, `key` is read and a direction key moves the
    /// player and resumes running. Returns the monsters that reacted.
    pub fn tick(&mut self, key: Option<Key>) -> (events: Vec<usize>)
        requires
            old(self).wf(),
        ensures
            final(self).wf(),
            reveals_more(final(self).map, old(self).map),
            old(self).runstate == RunState::Running ==> {
                &&& final(self).runstate == RunState::Paused
                &&& events@ == reacting(
                    old(self).entities@,
                    old(self).player_pos.cell(),
                    old(self).entities@.len() as int,
                )
                &&& after_systems(*final(self), *old(self))
            },
            old(self).runstate == RunState::Paused ==> {
                &&& events@.len() == 0
                &&& match key {
                    Some(k) => match key_delta(k) {
                        Some(d) => final(self).runstate == RunState::Running && after_move(
                            *final(self),
                            *old(self),
                            d.0,
                            d.1,
                        ),
                        None => *final(self) == *old(self),
                    },
                    None => *final(self) == *old(self),
                }
            },
    {
        if self.runstate == RunState::Running {
            let events = self.run_systems();
            self.runstate = RunState::Paused;
            events
        } else {
            let ghost before = *self;
            let next = player_input(self, key);
            self.runstate = next;
            proof {
                assert forall|x: int, y: int|
                    #[trigger] before.map.in_bounds(x, y) && before.map.revealed_tiles@[before.map.idx(x, y)]
                        implies self.map.revealed_tiles@[self.map.idx(x, y)] by {}
            }
            Vec::new()
        }
    }
}

/// Relies on rltk::to_cp437: a printable ASCII character keeps its own code.
#[verifier::external_body]
fn glyph_of(c: char) -> (r: u16)
    requires
        ' ' <= c <= '~',
    ensures
        r as u32 == c as u32,
{
    rltk::to_cp437(c)
}

/// A goblin (glyph `g`) is named "Goblin #k", anything else "Orc #k".
pub open spec fn monster_named(e: Entity, k: int) -> bool {
    &&& (e.renderable.glyph == 103 || e.renderable.glyph == 111)
    &&& e.renderable.glyph == 103 ==> e.name.name@ == "Goblin #"@ + decimal(k as nat)
    &&& e.renderable.glyph == 111 ==> e.name.name@ == "Orc #"@ + decimal(k as nat)
}

/// Sight range of every creature.
pub const SIGHT_RANGE: i32 = 8;

fn creature(x: i32, y: i32, glyph: u16, fg: (u8, u8, u8), name: String) -> (e: Entity)
    ensures
        e.position == (Position { x, y }),
        e.renderable.glyph == glyph,
        e.name.name == name,
        e.viewshed.dirty,
        e.viewshed.range == SIGHT_RANGE,
        e.viewshed.visible_tiles@.len() == 0,
        e.player.is_none(),
        e.monster.is_none(),
{
    Entity {
        position: Position { x, y },
        renderable: Renderable { glyph, fg, bg: (0, 0, 0) },
        viewshed: ViewShed { visible_tiles: Vec::new(), range: SIGHT_RANGE, dirty: true },
        name: Name { name },
        player: None,
        monster: None,
    }
}

impl State {
    /// A fresh world on the standard map: a goblin or an orc (even odds) at
    /// the center of every room but the first, then the player at the first
    /// room's center. It starts running, so sight is settled before the
    /// player's first move.
    pub fn new(rng: &mut rltk::RandomNumberGenerator) -> (s: State)
        ensures
            s.wf(),
            s.runstate == RunState::Running,
            generated(s.map, MapConfig { width: 80, height: 50, max_rooms: 30, min_size: 6, max_size: 10, padding: 0 }),
            s.entities@.len() == s.map.rooms@.len(),
            s.player_pos.cell() == s.map.rooms@[0].center_cell(),
            forall|i: int| 0 <= i < s.entities@.len() - 1 ==> {
                let e = #[trigger] s.entities@[i];
                &&& e.monster.is_some() && e.player.is_none()
                &&& e.position.cell() == s.map.rooms@[i + 1].center_cell()
                &&& e.viewshed.dirty
                &&& monster_named(e, i)
            },
            ({
                let e = s.entities@[s.entities@.len() - 1];
                &&& e.player.is_some() && e.monster.is_none()
                &&& e.position.cell() == s.map.rooms@[0].center_cell()
                &&& e.viewshed.dirty
            }),
    {
        let map = new_map_rooms_and_corridors(rng);
        let (p_x, p_y) = map.rooms[0].center();
        let mut entities: Vec<Entity> = Vec::new();
        let mut i: usize = 1;
        while i < map.rooms.len()
            invariant
                generated(map, MapConfig { width: 80, height: 50, max_rooms: 30, min_size: 6, max_size: 10, padding: 0 }),
                1 <= i <= map.rooms@.len(),
                entities@.len() == i - 1,
                forall|j: int| 0 <= j < entities@.len() ==> {
                    let e = #[trigger] entities@[j];
                    &&& e.monster.is_some() && e.player.is_none()
                    &&& e.position.cell() == map.rooms@[j + 1].center_cell()
                    &&& e.viewshed.dirty
                    &&& placed(map, e)
                    &&& monster_named(e, j)
                },
            decreases map.rooms@.len() - i,
        {
            let (x, y) = map.rooms[i].center();
            let roll = roll_dice(rng, 1, 2);
            let goblin = roll == 1;
            let mut name = if goblin {
                "Goblin #".to_string()
            } else {
                "Orc #".to_string()
            };
            push_decimal(&mut name, i - 1);
            let mut e = if goblin {
                creature(x, y, glyph_of('g'), (255, 0, 0), name)
            } else {
                creature(x, y, glyph_of('o'), (255, 0, 0), name)
            };
            e.monster = Some(Monster {});
            assert(map.rooms_carved() ==> map.rooms@[i as int].wf());
            entities.push(e);
            i += 1;
        }
        let mut player = creature(p_x, p_y, glyph_of('@'), (255, 255, 0), "Player".to_string());
        player.player = Some(Player {});
        entities.push(player);
        let s = State { map, entities, player_pos: Cell { x: p_x, y: p_y }, runstate: RunState::Running };
        proof {
            assert(s.map.rooms@[0].wf());
            assert forall|x: int, y: int|
                #[trigger] s.map.in_bounds(x, y) && s.map.visible_tiles@[s.map.idx(x, y)]
                    implies s.map.revealed_tiles@[s.map.idx(x, y)] by {
                s.map.lemma_idx_in_range(x, y);
            }
            assert forall|j: int| 0 <= j < s.entities@.len() implies placed(s.map, #[trigger] s.entities@[j]) by {
                if j < s.entities@.len() - 1 {
                    assert(s.entities@[j] == entities@[j]);
                }
            }
        }
        s
    }
}

proof fn lemma_no_mover_keeps_start(es: Seq<Entity>, map: TileMap, dx: int, dy: int, n: int, start: (int, int))
    requires
        0 <= n <= es.len(),
        forall|i: int|
            0 <= i < es.len() && (#[trigger] es[i]).player.is_some() ==> !can_move(map, es[i].position, dx, dy),
    ensures
        mover_pos(es, map, dx, dy, n, start) == start,
    decreases n,
{
    if n > 0 {
        lemma_no_mover_keeps_start(es, map, dx, dy, n - 1, start);
    }
}

/// A player whose step leads into a wall keeps its position, viewshed and
/// dirty flag, whatever other players do.
pub proof fn lemma_blocked_player_stays(n: State, o: State, dx: int, dy: int, p: int)
    requires
        o.wf(),
        after_move(n, o, dx, dy),
        0 <= p < o.entities@.len(),
        ({
            let t = move_target(o.map, o.entities@[p].position, dx, dy);
            o.map.tiles@[o.map.idx(t.0, t.1)] == TileType::Wall
        }),
    ensures
        n.entities@[p] == o.entities@[p],
{
    let t = move_target(o.map, o.entities@[p].position, dx, dy);
    o.map.lemma_idx_in_range(t.0, t.1);
    assert(moved(n.entities@[p], o.entities@[p], o.map, dx, dy));
}

/// Trying to step into a wall changes nothing: when every player's target
/// cell is a wall, no entity (position, viewshed or dirty flag) and not the
/// published player cell differs after the move.
pub proof fn lemma_blocked_move_is_idle(n: State, o: State, dx: int, dy: int)
    requires
        o.wf(),
        after_move(n, o, dx, dy),
        forall|i: int|
            0 <= i < o.entities@.len() && (#[trigger] o.entities@[i]).player.is_some() ==> {
                let t = move_target(o.map, o.entities@[i].position, dx, dy);
                o.map.tiles@[o.map.idx(t.0, t.1)] == TileType::Wall
            },
    ensures
        n.entities@ == o.entities@,
        n.player_pos == o.player_pos,
        n.map == o.map,
{
    assert forall|i: int|
        0 <= i < o.entities@.len() && (#[trigger] o.entities@[i]).player.is_some()
            implies !can_move(o.map, o.entities@[i].position, dx, dy) by {
        let t = move_target(o.map, o.entities@[i].position, dx, dy);
        o.map.lemma_idx_in_range(t.0, t.1);
    }
    lemma_no_mover_keeps_start(o.entities@, o.map, dx, dy, o.entities@.len() as int, o.player_pos.cell());
    assert(n.entities@ =~= o.entities@);
}

/// Moves keep every entity on the map: after any move attempt from a
/// well-formed state, each position lies in `[0, width - 1] x [0, height - 1]`,
/// and so does the published player cell.
pub proof fn lemma_moves_stay_in_bounds(n: State, o: State, dx: int, dy: int)
    requires
        o.wf(),
        after_move(n, o, dx, dy),
    ensures
        forall|i: int|
            0 <= i < n.entities@.len() ==> 0 <= (#[trigger] n.entities@[i]).position.x < n.map.width
                && 0 <= n.entities@[i].position.y < n.map.height,
        0 <= n.player_pos.x < n.map.width,
        0 <= n.player_pos.y < n.map.height,
{
    assert forall|i: int| 0 <= i < n.entities@.len() implies 0 <= (#[trigger] n.entities@[i]).position.x
        < n.map.width && 0 <= n.entities@[i].position.y < n.map.height by {
        assert(moved(n.entities@[i], o.entities@[i], o.map, dx, dy));
        assert(placed(o.map, o.entities@[i]));
    }
    lemma_mover_pos_in_bounds(o.entities@, o.map, dx, dy, o.entities@.len() as int, o.player_pos.cell());
}

proof fn lemma_mover_pos_in_bounds(es: Seq<Entity>, map: TileMap, dx: int, dy: int, n: int, start: (int, int))
    requires
        0 <= n <= es.len(),
        map.wf(),
        map.in_bounds(start.0, start.1),
    ensures
        map.in_bounds(mover_pos(es, map, dx, dy, n, start).0, mover_pos(es, map, dx, dy, n, start).1),
    decreases n,
{
    if n > 0 {
        lemma_mover_pos_in_bounds(es, map, dx, dy, n - 1, start);
    }
}

} // verus!
