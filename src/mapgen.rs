use vstd::prelude::*;
use crate::dice::{roll_dice, roll_range};
use crate::map::{TileMap, MAX_DIM};
use crate::rect::Rect;

verus! {

/// Two cells that share an edge.
pub open spec fn adjacent(a: (int, int), b: (int, int)) -> bool {
    (a.0 == b.0 && (a.1 - b.1 == 1 || b.1 - a.1 == 1)) || (a.1 == b.1 && (a.0 - b.0 == 1
        || b.0 - a.0 == 1))
}

impl TileMap {
    /// A walk over floor cells, one edge-step at a time.
    pub open spec fn is_floor_path(self, p: Seq<(int, int)>) -> bool {
        &&& p.len() > 0
        &&& forall|i: int| 0 <= i < p.len() ==> self.is_floor(#[trigger] p[i].0, p[i].1)
        &&& forall|i: int| 0 <= i < p.len() - 1 ==> adjacent(#[trigger] p[i], p[i + 1])
    }

    /// Cell `b` can be walked to from cell `a` over floor alone.
    pub open spec fn connected(self, a: (int, int), b: (int, int)) -> bool {
        exists|p: Seq<(int, int)>| #[trigger] self.is_floor_path(p) && p[0] == a && p.last() == b
    }

    /// No two rooms come within `pad` cells of each other (with `pad == 0`:
    /// no two rooms overlap, nor touch).
    pub open spec fn rooms_disjoint(self, pad: int) -> bool {
        forall|i: int, j: int|
            0 <= i < self.rooms@.len() && 0 <= j < self.rooms@.len() && i != j
                ==> !(#[trigger] self.rooms@[i]).overlaps_padded(#[trigger] self.rooms@[j], pad)
    }

    /// Every room's center can be walked to from the first room's center.
    pub open spec fn rooms_connected(self) -> bool {
        forall|k: int|
            0 <= k < self.rooms@.len() ==> self.connected(
                self.rooms@[0].center_cell(),
                (#[trigger] self.rooms@[k]).center_cell(),
            )
    }

    /// Each room is well formed, keeps off the map's outer ring, and its
    /// interior is floor.
    pub open spec fn rooms_carved(self) -> bool {
        forall|k: int|
            0 <= k < self.rooms@.len() ==> {
                let r = #[trigger] self.rooms@[k];
                &&& r.wf()
                &&& r.x2 - r.x1 >= 2
                &&& r.y2 - r.y1 >= 2
                &&& r.x2 < self.width - 1
                &&& r.y2 < self.height - 1
                &&& forall|x: int, y: int|
                    r.x1 < x <= r.x2 && r.y1 < y <= r.y2 ==> self.is_floor(x, y)
            }
    }
}

pub proof fn lemma_connected_mono(m1: TileMap, m2: TileMap, a: (int, int), b: (int, int))
    requires
        m2.keeps_floor_of(m1),
        m1.connected(a, b),
    ensures
        m2.connected(a, b),
{
    let p = choose|p: Seq<(int, int)>| #[trigger] m1.is_floor_path(p) && p[0] == a && p.last() == b;
    assert(m2.is_floor_path(p));
}

pub proof fn lemma_connected_trans(m: TileMap, a: (int, int), b: (int, int), c: (int, int))
    requires
        m.connected(a, b),
        m.connected(b, c),
    ensures
        m.connected(a, c),
{
    let head = choose|p: Seq<(int, int)>| #[trigger] m.is_floor_path(p) && p[0] == a && p.last() == b;
    let tail = choose|p: Seq<(int, int)>| #[trigger] m.is_floor_path(p) && p[0] == b && p.last() == c;
    let q = head + tail.subrange(1, tail.len() as int);
    assert forall|i: int| 0 <= i < q.len() implies m.is_floor(#[trigger] q[i].0, q[i].1) by {
        if i < head.len() {
            assert(q[i] == head[i]);
        } else {
            assert(q[i] == tail[i - head.len() + 1]);
        }
    }
    assert forall|i: int| 0 <= i < q.len() - 1 implies adjacent(#[trigger] q[i], q[i + 1]) by {
        if i < head.len() - 1 {
            assert(q[i] == head[i] && q[i + 1] == head[i + 1]);
        } else if i == head.len() - 1 {
            assert(q[i] == head[i] && q[i + 1] == tail[1]);
            assert(tail[0] == b);
        } else {
            assert(q[i] == tail[i - head.len() + 1] && q[i + 1] == tail[i - head.len() + 2]);
        }
    }
    if tail.len() == 1 {
        assert(q.last() == head.last());
    } else {
        assert(q.last() == tail.last());
    }
    assert(m.is_floor_path(q));
}

/// A straight run of floor along a row joins its two ends.
pub proof fn lemma_row_connected(m: TileMap, x1: int, x2: int, y: int)
    requires
        forall|x: int| (x1 <= x <= x2 || x2 <= x <= x1) ==> m.is_floor(x, y),
    ensures
        m.connected((x1, y), (x2, y)),
{
    if x1 <= x2 {
        let p = Seq::new((x2 - x1 + 1) as nat, |i: int| (x1 + i, y));
        assert(p[0] == (x1, y));
        assert(p.last() == (x2, y));
        assert forall|i: int| 0 <= i < p.len() - 1 implies adjacent(#[trigger] p[i], p[i + 1]) by {}
        assert(m.is_floor_path(p));
    } else {
        let p = Seq::new((x1 - x2 + 1) as nat, |i: int| (x1 - i, y));
        assert(p[0] == (x1, y));
        assert(p.last() == (x2, y));
        assert forall|i: int| 0 <= i < p.len() - 1 implies adjacent(#[trigger] p[i], p[i + 1]) by {}
        assert(m.is_floor_path(p));
    }
}

/// A straight run of floor along a column joins its two ends.
pub proof fn lemma_column_connected(m: TileMap, y1: int, y2: int, x: int)
    requires
        forall|y: int| (y1 <= y <= y2 || y2 <= y <= y1) ==> m.is_floor(x, y),
    ensures
        m.connected((x, y1), (x, y2)),
{
    if y1 <= y2 {
        let p = Seq::new((y2 - y1 + 1) as nat, |i: int| (x, y1 + i));
        assert(p[0] == (x, y1));
        assert(p.last() == (x, y2));
        assert forall|i: int| 0 <= i < p.len() - 1 implies adjacent(#[trigger] p[i], p[i + 1]) by {}
        assert(m.is_floor_path(p));
    } else {
        let p = Seq::new((y1 - y2 + 1) as nat, |i: int| (x, y1 - i));
        assert(p[0] == (x, y1));
        assert(p.last() == (x, y2));
        assert forall|i: int| 0 <= i < p.len() - 1 implies adjacent(#[trigger] p[i], p[i + 1]) by {}
        assert(m.is_floor_path(p));
    }
}

/// Parameters of the room-and-corridor generator.
#[derive(Clone, Copy, Debug, PartialEq, Eq, Structural)]
pub struct MapConfig {
    pub width: i32,
    pub height: i32,
    /// How many room proposals are made; rejected ones are not retried.
    pub max_rooms: u32,
    /// Room sides are drawn from `min_size..max_size`.
    pub min_size: i32,
    pub max_size: i32,
    /// Extra cells kept clear around each room: a proposal is rejected when,
    /// grown by this margin, it would touch or overlap an accepted room.
    pub padding: i32,
}

impl MapConfig {
    pub open spec fn wf(self) -> bool {
        &&& 0 < self.width <= MAX_DIM
        &&& 0 < self.height <= MAX_DIM
        &&& 1 <= self.max_rooms
        &&& 2 <= self.min_size < self.max_size
        &&& self.max_size + 2 <= self.width
        &&& self.max_size + 2 <= self.height
        &&& 0 <= self.padding <= MAX_DIM
    }

    /// An 80 by 50 map, thirty proposals of rooms from 6 to 9 cells a side,
    /// rooms kept from touching.
    pub fn standard() -> (r: MapConfig)
        ensures
            r.wf(),
            r.width == 80 && r.height == 50,
            r.max_rooms == 30,
            r.min_size == 6 && r.max_size == 10,
            r.padding == 0,
    {
        MapConfig { width: 80, height: 50, max_rooms: 30, min_size: 6, max_size: 10, padding: 0 }
    }
}

/// The spec of a fresh generated map: its invariants, with nothing seen yet.
pub open spec fn generated(map: TileMap, config: MapConfig) -> bool {
    &&& map.wf()
    &&& map.width == config.width
    &&& map.height == config.height
    &&& 1 <= map.rooms@.len() <= config.max_rooms
    &&& map.rooms_carved()
    &&& map.rooms_disjoint(config.padding as int)
    &&& map.rooms_connected()
    &&& map.blocked_in_sync()
    &&& forall|i: int|
        0 <= i < map.size() ==> !map.revealed_tiles@[i] && !map.visible_tiles@[i]
    &&& exists|coins: Seq<bool>| #[trigger] carved_exactly(map, coins)
}

/// A cell strictly inside `r`'s corners on the low side (the carved interior).
pub open spec fn in_interior(r: Rect, x: int, y: int) -> bool {
    r.x1 < x <= r.x2 && r.y1 < y <= r.y2
}

pub open spec fn on_row(xa: int, xb: int, row: int, x: int, y: int) -> bool {
    y == row && (xa <= x <= xb || xb <= x <= xa)
}

pub open spec fn on_column(ya: int, yb: int, col: int, x: int, y: int) -> bool {
    x == col && (ya <= y <= yb || yb <= y <= ya)
}

/// The L-shaped corridor from `from` to `to`: along `from`'s row then `to`'s
/// column when `row_first`, else along `from`'s column then `to`'s row.
pub open spec fn on_corridor(from: (int, int), to: (int, int), row_first: bool, x: int, y: int) -> bool {
    if row_first {
        on_row(from.0, to.0, from.1, x, y) || on_column(from.1, to.1, to.0, x, y)
    } else {
        on_column(from.1, to.1, from.0, x, y) || on_row(from.0, to.0, to.1, x, y)
    }
}

/// Cell `(x, y)` lies in room `k`, or on the corridor that joins room `k - 1`
/// to room `k` with orientation `coins[k]`.
pub open spec fn carved_by(rooms: Seq<Rect>, coins: Seq<bool>, k: int, x: int, y: int) -> bool {
    in_interior(rooms[k], x, y) || (k > 0 && on_corridor(
        rooms[k - 1].center_cell(),
        rooms[k].center_cell(),
        coins[k],
        x,
        y,
    ))
}

pub open spec fn carved(rooms: Seq<Rect>, coins: Seq<bool>, x: int, y: int) -> bool {
    exists|k: int| 0 <= k < rooms.len() && #[trigger] carved_by(rooms, coins, k, x, y)
}

/// The floor of `map` is exactly its rooms and the corridors between
/// successive rooms, oriented by `coins`; everything else is wall.
pub open spec fn carved_exactly(map: TileMap, coins: Seq<bool>) -> bool {
    &&& coins.len() >= map.rooms@.len()
    &&& forall|x: int, y: int| #[trigger] map.is_floor(x, y) <==> carved(map.rooms@, coins, x, y)
}

/// `r` comes within `pad` cells of none of `rooms`.
pub open spec fn clear_of(r: Rect, rooms: Seq<Rect>, pad: int) -> bool {
    forall|k: int| 0 <= k < rooms.len() ==> !r.overlaps_padded(#[trigger] rooms[k], pad)
}

/// The proposals that are kept, in order: each one that comes within `pad`
/// cells of no proposal kept before it.
pub open spec fn accepted(ps: Seq<Rect>, pad: int) -> Seq<Rect>
    decreases ps.len(),
{
    if ps.len() == 0 {
        Seq::empty()
    } else {
        let prev = accepted(ps.drop_last(), pad);
        if clear_of(ps.last(), prev, pad) {
            prev.push(ps.last())
        } else {
            prev
        }
    }
}

/// A proposed room of a size `config` allows, inside the map's outer ring.
pub open spec fn fits(r: Rect, config: MapConfig) -> bool {
    &&& r.wf()
    &&& config.min_size <= r.x2 - r.x1 < config.max_size
    &&& config.min_size <= r.y2 - r.y1 < config.max_size
    &&& r.x2 < config.width - 1
    &&& r.y2 < config.height - 1
}

pub proof fn lemma_carved_push(rooms: Seq<Rect>, r: Rect, coins: Seq<bool>, x: int, y: int)
    ensures
        carved(rooms.push(r), coins, x, y) <==> (carved(rooms, coins, x, y) || carved_by(
            rooms.push(r),
            coins,
            rooms.len() as int,
            x,
            y,
        )),
{
    let ext = rooms.push(r);
    if carved(rooms, coins, x, y) {
        let k = choose|k: int| 0 <= k < rooms.len() && #[trigger] carved_by(rooms, coins, k, x, y);
        assert(ext[k] == rooms[k]);
        if k > 0 {
            assert(ext[k - 1] == rooms[k - 1]);
        }
        assert(carved_by(ext, coins, k, x, y));
    }
    if carved(ext, coins, x, y) {
        let k = choose|k: int| 0 <= k < ext.len() && #[trigger] carved_by(ext, coins, k, x, y);
        if k < rooms.len() {
            assert(ext[k] == rooms[k]);
            if k > 0 {
                assert(ext[k - 1] == rooms[k - 1]);
            }
            assert(carved_by(rooms, coins, k, x, y));
        }
    }
}

/// Draws a room that fits inside the map's outer ring.
fn propose_room(config: &MapConfig, rng: &mut rltk::RandomNumberGenerator) -> (r: Rect)
    requires
        config.wf(),
    ensures
        fits(r, *config),
{
    let w = roll_range(rng, config.min_size, config.max_size);
    let h = roll_range(rng, config.min_size, config.max_size);
    let x = roll_dice(rng, 1, config.width - w - 1) - 1;
    let y = roll_dice(rng, 1, config.height - h - 1) - 1;
    Rect::new(x, y, w, h)
}

/// Whether `room` stays clear of every room in `rooms`.
fn clear_of_all(room: &Rect, rooms: &Vec<Rect>, pad: i32) -> (r: bool)
    requires
        room.wf(),
        0 <= pad <= MAX_DIM,
        forall|k: int| 0 <= k < rooms@.len() ==> (#[trigger] rooms@[k]).wf(),
    ensures
        r == clear_of(*room, rooms@, pad as int),
{
    let mut j: usize = 0;
    while j < rooms.len()
        invariant
            j <= rooms@.len(),
            room.wf(),
            0 <= pad <= MAX_DIM,
            forall|k: int| 0 <= k < rooms@.len() ==> (#[trigger] rooms@[k]).wf(),
            forall|k: int| 0 <= k < j ==> !room.overlaps_padded(#[trigger] rooms@[k], pad as int),
        decreases rooms@.len() - j,
    {
        if room.intersect_padded(&rooms[j], pad) {
            assert(!clear_of(*room, rooms@, pad as int));
            return false;
        }
        j += 1;
    }
    true
}

/// Joins two cells by an L-shaped corridor: along the row of `from` then the
/// column of `to` when `row_first`, else along the column of `from` then the
/// row of `to`.
fn carve_corridor(map: &mut TileMap, from: (i32, i32), to: (i32, i32), row_first: bool)
    requires
        old(map).wf(),
        old(map).in_bounds(from.0 as int, from.1 as int),
        old(map).in_bounds(to.0 as int, to.1 as int),
    ensures
        final(map).wf(),
        final(map).keeps_floor_of(*old(map)),
        final(map).same_but_tiles(*old(map)),
        final(map).connected((from.0 as int, from.1 as int), (to.0 as int, to.1 as int)),
        forall|x: int, y: int|
            final(map).is_floor(x, y) <==> (old(map).is_floor(x, y) || on_corridor(
                (from.0 as int, from.1 as int),
                (to.0 as int, to.1 as int),
                row_first,
                x,
                y,
            )),
{
    let ghost a = (from.0 as int, from.1 as int);
    let ghost c = (to.0 as int, to.1 as int);
    if row_first {
        map.apply_horizontal_tunnel(from.0, to.0, from.1);
        let ghost mid = *map;
        map.apply_vertical_tunnel(from.1, to.1, to.0);
        proof {
            let b = (to.0 as int, from.1 as int);
            lemma_row_connected(mid, from.0 as int, to.0 as int, from.1 as int);
            lemma_connected_mono(mid, *map, a, b);
            lemma_column_connected(*map, from.1 as int, to.1 as int, to.0 as int);
            lemma_connected_trans(*map, a, b, c);
        }
    } else {
        map.apply_vertical_tunnel(from.1, to.1, from.0);
        let ghost mid = *map;
        map.apply_horizontal_tunnel(from.0, to.0, to.1);
        proof {
            let b = (from.0 as int, to.1 as int);
            lemma_column_connected(mid, from.1 as int, to.1 as int, from.0 as int);
            lemma_connected_mono(mid, *map, a, b);
            lemma_row_connected(*map, from.0 as int, to.0 as int, to.1 as int);
            lemma_connected_trans(*map, a, b, c);
        }
    }
}

/// Builds the map from drawn values: keeps each proposal that touches no
/// room kept before it, carves it, and joins its center to the previous kept
/// room's center by an L-shaped corridor whose orientation is `row_first[k]`
/// for the `k`-th kept room; then derives the blocked cells from the tiles.
pub fn build_map(config: &MapConfig, proposals: &Vec<Rect>, row_first: &Vec<bool>) -> (map: TileMap)
    requires
        config.wf(),
        1 <= proposals@.len() <= config.max_rooms,
        row_first@.len() == proposals@.len(),
        forall|k: int| 0 <= k < proposals@.len() ==> fits(#[trigger] proposals@[k], *config),
    ensures
        map.rooms@ == accepted(proposals@, config.padding as int),
        forall|x: int, y: int| #[trigger] map.is_floor(x, y) <==> carved(map.rooms@, row_first@, x, y),
        generated(map, *config),
{
        let mut map = TileMap::new(config.width, config.height);
        proof {
            assert forall|x: int, y: int| !#[trigger] map.is_floor(x, y) by {
                if map.in_bounds(x, y) {
                    map.lemma_idx_in_range(x, y);
                }
            }
            assert(proposals@.take(0) =~= Seq::<Rect>::empty());
        }
        let mut attempt: usize = 0;
        while attempt < proposals.len()
            invariant
                config.wf(),
                1 <= proposals@.len() <= config.max_rooms,
                row_first@.len() == proposals@.len(),
                forall|k: int| 0 <= k < proposals@.len() ==> fits(#[trigger] proposals@[k], *config),
                attempt <= proposals@.len(),
                map.rooms@ == accepted(proposals@.take(attempt as int), config.padding as int),
                forall|x: int, y: int| #[trigger] map.is_floor(x, y) <==> carved(map.rooms@, row_first@, x, y),
                map.wf(),
                map.width == config.width,
                map.height == config.height,
                map.rooms@.len() <= attempt,
                attempt > 0 ==> map.rooms@.len() >= 1,
                map.rooms_carved(),
                map.rooms_disjoint(config.padding as int),
                map.rooms_connected(),
                forall|i: int|
                    0 <= i < map.size() ==> !map.revealed_tiles@[i] && !map.visible_tiles@[i],
            decreases proposals@.len() - attempt,
        {
            let new_room = proposals[attempt];
            let ghost t = proposals@.take(attempt + 1);
            assert(t.drop_last() =~= proposals@.take(attempt as int));
            assert(t.last() == new_room);
            if clear_of_all(&new_room, &map.rooms, config.padding) {
                let ghost before = map;
                map.apply_room_to_map(&new_room);
                let ghost roomed = map;
                let (new_x, new_y) = new_room.center();
                if map.rooms.len() > 0 {
                    let (prev_x, prev_y) = map.rooms[map.rooms.len() - 1].center();
                    let coin = row_first[map.rooms.len()];
                    carve_corridor(&mut map, (prev_x, prev_y), (new_x, new_y), coin);
                    proof {
                        let n = before.rooms@.len() as int;
                        assert forall|x: int, y: int| #[trigger] map.is_floor(x, y) <==> (roomed.is_floor(x, y)
                            || on_corridor(before.rooms@[n - 1].center_cell(), new_room.center_cell(), row_first@[n], x, y)) by {}
                    }
                }
                let ghost joined = map;
                map.rooms.push(new_room);
                proof {
                    let n = before.rooms@.len() as int;
                    assert(map.rooms@[n] == new_room);
                    assert forall|x: int, y: int| #[trigger] map.is_floor(x, y) <==> carved(map.rooms@, row_first@, x, y) by {
                        lemma_carved_push(before.rooms@, new_room, row_first@, x, y);
                        assert(roomed.is_floor(x, y) <==> (before.is_floor(x, y) || in_interior(new_room, x, y)));
                        if n > 0 {
                            assert(map.rooms@[n - 1] == before.rooms@[n - 1]);
                        } else {
                            assert(map.is_floor(x, y) == roomed.is_floor(x, y));
                        }
                        assert(before.is_floor(x, y) <==> carved(before.rooms@, row_first@, x, y));
                    }
                    assert forall|k: int| 0 <= k < n implies map.rooms@[k] == before.rooms@[k] by {}
                    assert(map.keeps_floor_of(joined));
                    assert(map.keeps_floor_of(before));
                    assert(map.rooms_carved()) by {
                        assert forall|k: int| 0 <= k < map.rooms@.len() implies {
                            let r = #[trigger] map.rooms@[k];
                            forall|x: int, y: int| r.x1 < x <= r.x2 && r.y1 < y <= r.y2 ==> map.is_floor(x, y)
                        } by {
                            if k < n {
                                assert(map.rooms@[k] == before.rooms@[k]);
                            }
                        }
                    }
                    assert(map.rooms_disjoint(config.padding as int)) by {
                        assert forall|i: int, j: int|
                            0 <= i < map.rooms@.len() && 0 <= j < map.rooms@.len() && i != j
                            implies !(#[trigger] map.rooms@[i]).overlaps_padded(#[trigger] map.rooms@[j], config.padding as int) by {
                            if i < n && j < n {
                                assert(map.rooms@[i] == before.rooms@[i]);
                                assert(map.rooms@[j] == before.rooms@[j]);
                            } else if i == n {
                                assert(map.rooms@[j] == before.rooms@[j]);
                                assert(!new_room.overlaps_padded(before.rooms@[j], config.padding as int));
                            } else {
                                assert(map.rooms@[i] == before.rooms@[i]);
                                assert(!new_room.overlaps_padded(before.rooms@[i], config.padding as int));
                            }
                        }
                    }
                    assert(map.rooms_connected()) by {
                        if n == 0 {
                            let c = new_room.center_cell();
                            let p = seq![c];
                            assert(map.is_floor_path(p));
                        } else {
                            let c0 = before.rooms@[0].center_cell();
                            assert(map.rooms@[0] == before.rooms@[0]);
                            assert forall|k: int| 0 <= k < map.rooms@.len() implies map.connected(
                                map.rooms@[0].center_cell(),
                                (#[trigger] map.rooms@[k]).center_cell(),
                            ) by {
                                if k < n {
                                    assert(map.rooms@[k] == before.rooms@[k]);
                                    lemma_connected_mono(before, map, c0, before.rooms@[k].center_cell());
                                } else {
                                    let cp = before.rooms@[n - 1].center_cell();
                                    lemma_connected_mono(before, map, c0, cp);
                                    lemma_connected_mono(joined, map, cp, new_room.center_cell());
                                    lemma_connected_trans(map, c0, cp, new_room.center_cell());
                                }
                            }
                        }
                    }
                }
            }
            attempt += 1;
        }
        assert(proposals@.take(proposals@.len() as int) =~= proposals@);
        let ghost unsynced = map;
        map.populate_blocked();
        proof {
            assert(map.keeps_floor_of(unsynced));
            assert forall|k: int| 0 <= k < map.rooms@.len() implies map.connected(
                map.rooms@[0].center_cell(),
                (#[trigger] map.rooms@[k]).center_cell(),
            ) by {
                lemma_connected_mono(unsynced, map, map.rooms@[0].center_cell(), map.rooms@[k].center_cell());
            }
            assert forall|x: int, y: int| #[trigger] map.is_floor(x, y) <==> carved(map.rooms@, row_first@, x, y) by {
                assert(map.is_floor(x, y) == unsynced.is_floor(x, y));
            }
            assert(carved_exactly(map, row_first@));
        }
        map
}

impl TileMap {
    /// Proposes `config.max_rooms` random rooms and corridor orientations and
    /// builds the map from them with `build_map`.
    pub fn generate(config: &MapConfig, rng: &mut rltk::RandomNumberGenerator) -> (map: TileMap)
        requires
            config.wf(),
        ensures
            generated(map, *config),
            exists|proposals: Seq<Rect>, coins: Seq<bool>|
                #![trigger accepted(proposals, config.padding as int), carved_exactly(map, coins)]
                proposals.len() == config.max_rooms
                && (forall|k: int| 0 <= k < proposals.len() ==> fits(#[trigger] proposals[k], *config))
                && map.rooms@ == accepted(proposals, config.padding as int) && carved_exactly(map, coins),
    {
        let mut proposals: Vec<Rect> = Vec::new();
        let mut row_first: Vec<bool> = Vec::new();
        let mut i: u32 = 0;
        while i < config.max_rooms
            invariant
                config.wf(),
                i <= config.max_rooms,
                proposals@.len() == i,
                row_first@.len() == i,
                forall|k: int| 0 <= k < proposals@.len() ==> fits(#[trigger] proposals@[k], *config),
            decreases config.max_rooms - i,
        {
            proposals.push(propose_room(config, rng));
            row_first.push(roll_range(rng, 0, 2) == 1);
            i += 1;
        }
        let map = build_map(config, &proposals, &row_first);
        assert(carved_exactly(map, row_first@));
        map
    }
}



/// The standard 80 by 50 dungeon: thirty proposals of rooms from 6 to 9
/// cells a side.
pub fn new_map_rooms_and_corridors(rng: &mut rltk::RandomNumberGenerator) -> (map: TileMap)
    ensures
        generated(map, MapConfig { width: 80, height: 50, max_rooms: 30, min_size: 6, max_size: 10, padding: 0 }),
        exists|proposals: Seq<Rect>, coins: Seq<bool>|
            #![trigger accepted(proposals, 0), carved_exactly(map, coins)]
            proposals.len() == 30 && (forall|k: int|
                0 <= k < proposals.len() ==> fits(
                    #[trigger] proposals[k],
                    MapConfig { width: 80, height: 50, max_rooms: 30, min_size: 6, max_size: 10, padding: 0 },
                )) && map.rooms@ == accepted(proposals, 0) && carved_exactly(map, coins),
{
    let config = MapConfig::standard();
    TileMap::generate(&config, rng)
}

} // verus!
