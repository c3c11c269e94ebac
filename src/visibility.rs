use vstd::prelude::*;
use crate::components::{lists_cell, Cell, Entity, Position, ViewShed};
use crate::map::TileMap;

verus! {

/// Longest sight range an entity may have.
pub const MAX_RANGE: i32 = 1000;

/// The cells that the shadow-casting sweep sees from `origin` on a
/// `width` by `height` grid whose opaque cells are those set in `opaque`.
pub uninterp spec fn fov_cells(
    origin: (int, int),
    range: int,
    width: int,
    height: int,
    opaque: Seq<bool>,
) -> Set<(int, int)>;

/// What an entity at `origin` sees on `map`.
pub open spec fn sight_of(map: TileMap, origin: (int, int), range: int) -> Set<(int, int)> {
    fov_cells(origin, range, map.width as int, map.height as int, map.blocked@)
}

/// `c` lies at most `range` columns and `range` rows away from `origin`.
pub open spec fn within_range(origin: (int, int), c: (int, int), range: int) -> bool {
    &&& origin.0 - range <= c.0 <= origin.0 + range
    &&& origin.1 - range <= c.1 <= origin.1 + range
}

/// Relies on rltk::field_of_view, the recursive shadow-casting sweep over the
/// map's `is_opaque` and `dimensions`: the cells it returns depend on its
/// arguments alone; they hold the origin itself; every one is inside the map
/// and no more than `range` columns and rows from the origin.
#[verifier::external_body]
fn field_of_view(origin: Position, range: i32, map: &TileMap) -> (r: Vec<Cell>)
    requires
        map.wf(),
        map.in_bounds(origin.x as int, origin.y as int),
        0 <= range <= MAX_RANGE,
    ensures
        forall|k: int|
            0 <= k < r@.len() ==> fov_cells(
                origin.cell(),
                range as int,
                map.width as int,
                map.height as int,
                map.blocked@,
            ).contains((#[trigger] r@[k]).cell()),
        forall|c: (int, int)|
            fov_cells(
                origin.cell(),
                range as int,
                map.width as int,
                map.height as int,
                map.blocked@,
            ).contains(c) ==> lists_cell(r@, c),
        lists_cell(r@, origin.cell()),
        forall|k: int|
            0 <= k < r@.len() ==> map.in_bounds((#[trigger] r@[k]).x as int, r@[k].y as int)
                && within_range(origin.cell(), r@[k].cell(), range as int),
{
    rltk::field_of_view(rltk::Point::constant(origin.x, origin.y), range, map).into_iter().map(
        |p: rltk::Point| Cell { x: p.x, y: p.y },
    ).collect()
}

/// `vs` lists exactly the cells seen from `origin` on `map`, all of them
/// inside the map and within its range.
pub open spec fn sees_exactly(vs: ViewShed, map: TileMap, origin: (int, int)) -> bool {
    &&& forall|k: int|
        0 <= k < vs.visible_tiles@.len() ==> sight_of(map, origin, vs.range as int).contains(
            (#[trigger] vs.visible_tiles@[k]).cell(),
        )
    &&& forall|c: (int, int)|
        sight_of(map, origin, vs.range as int).contains(c) ==> lists_cell(vs.visible_tiles@, c)
    &&& lists_cell(vs.visible_tiles@, origin)
    &&& forall|k: int|
        0 <= k < vs.visible_tiles@.len() ==> map.in_bounds(
            (#[trigger] vs.visible_tiles@[k]).x as int,
            vs.visible_tiles@[k].y as int,
        ) && within_range(origin, vs.visible_tiles@[k].cell(), vs.range as int)
}

/// Recomputes the cells a viewer at `pos` sees and marks them fresh.
pub fn compute_viewshed(map: &TileMap, pos: Position, vs: &mut ViewShed)
    requires
        map.wf(),
        map.in_bounds(pos.x as int, pos.y as int),
        0 <= old(vs).range <= MAX_RANGE,
    ensures
        final(vs).range == old(vs).range,
        !final(vs).dirty,
        sees_exactly(*final(vs), *map, pos.cell()),
{
    vs.visible_tiles = field_of_view(pos, vs.range, map);
    vs.dirty = false;
}

/// Only the seen and revealed cells differ from `old`.
pub open spec fn same_but_sight(map: TileMap, old: TileMap) -> bool {
    &&& map.width == old.width
    &&& map.height == old.height
    &&& map.tiles == old.tiles
    &&& map.rooms == old.rooms
    &&& map.blocked == old.blocked
    &&& map.visible_tiles@.len() == old.visible_tiles@.len()
    &&& map.revealed_tiles@.len() == old.revealed_tiles@.len()
}

/// Makes `cells` the map's visible cells, replacing the previous ones, and
/// adds them to the revealed cells.
pub fn mark_seen(map: &mut TileMap, cells: &Vec<Cell>)
    requires
        old(map).wf(),
        forall|k: int|
            0 <= k < cells@.len() ==> old(map).in_bounds(
                (#[trigger] cells@[k]).x as int,
                cells@[k].y as int,
            ),
    ensures
        final(map).wf(),
        same_but_sight(*final(map), *old(map)),
        forall|x: int, y: int|
            #[trigger] final(map).in_bounds(x, y) ==> final(map).visible_tiles@[final(map).idx(x, y)]
                == lists_cell(cells@, (x, y)),
        forall|x: int, y: int|
            #[trigger] final(map).in_bounds(x, y) ==> final(map).revealed_tiles@[final(map).idx(x, y)]
                == (old(map).revealed_tiles@[old(map).idx(x, y)]
                || final(map).visible_tiles@[final(map).idx(x, y)]),
{
    let ghost start = *map;
    let mut i: usize = 0;
    while i < map.visible_tiles.len()
        invariant
            map.wf(),
            same_but_sight(*map, start),
            map.revealed_tiles == start.revealed_tiles,
            i <= map.visible_tiles@.len(),
            forall|j: int| 0 <= j < i ==> !map.visible_tiles@[j],
        decreases map.visible_tiles@.len() - i,
    {
        map.visible_tiles.set(i, false);
        i += 1;
    }
    proof {
        assert forall|x: int, y: int| #[trigger] map.in_bounds(x, y) implies !map.visible_tiles@[map.idx(
            x,
            y,
        )] && map.revealed_tiles@[map.idx(x, y)] == start.revealed_tiles@[start.idx(x, y)] by {
            map.lemma_idx_in_range(x, y);
        }
    }
    let mut k: usize = 0;
    while k < cells.len()
        invariant
            map.wf(),
            same_but_sight(*map, start),
            k <= cells@.len(),
            forall|j: int|
                0 <= j < cells@.len() ==> map.in_bounds(
                    (#[trigger] cells@[j]).x as int,
                    cells@[j].y as int,
                ),
            forall|x: int, y: int|
                #[trigger] map.in_bounds(x, y) ==> map.visible_tiles@[map.idx(x, y)] == exists|j: int|
                    0 <= j < k && (#[trigger] cells@[j]).cell() == (x, y),
            forall|x: int, y: int|
                #[trigger] map.in_bounds(x, y) ==> map.revealed_tiles@[map.idx(x, y)] == (
                start.revealed_tiles@[start.idx(x, y)] || map.visible_tiles@[map.idx(x, y)]),
        decreases cells@.len() - k,
    {
        let c = cells[k];
        let ghost before = *map;
        let idx = map.xy_idx(c.x, c.y);
        map.visible_tiles.set(idx, true);
        map.revealed_tiles.set(idx, true);
        proof {
            assert forall|x: int, y: int| #[trigger] map.in_bounds(x, y) implies {
                &&& map.visible_tiles@[map.idx(x, y)] == exists|j: int|
                    0 <= j < k + 1 && (#[trigger] cells@[j]).cell() == (x, y)
                &&& map.revealed_tiles@[map.idx(x, y)] == (start.revealed_tiles@[start.idx(x, y)]
                    || map.visible_tiles@[map.idx(x, y)])
            } by {
                map.lemma_idx_in_range(x, y);
                if (x, y) == c.cell() {
                    assert(cells@[k as int].cell() == (x, y));
                } else {
                    map.lemma_idx_injective(x, y, c.x as int, c.y as int);
                    assert(before.in_bounds(x, y));
                    if exists|j: int| 0 <= j < k + 1 && (#[trigger] cells@[j]).cell() == (x, y) {
                        let j = choose|j: int| 0 <= j < k + 1 && (#[trigger] cells@[j]).cell() == (x, y);
                        assert(j < k);
                    }
                }
            }
        }
        k += 1;
    }
    proof {
        assert forall|x: int, y: int| #[trigger] map.in_bounds(x, y) implies map.visible_tiles@[map.idx(x, y)]
            == lists_cell(cells@, (x, y)) by {
            if lists_cell(cells@, (x, y)) {
                let j = choose|j: int| 0 <= j < cells@.len() && (#[trigger] cells@[j]).cell() == (x, y);
                assert(0 <= j < k && cells@[j].cell() == (x, y));
            }
        }
    }
}

/// The entity stands inside `map` and its sight range is in bounds.
pub open spec fn placed(map: TileMap, e: Entity) -> bool {
    &&& map.in_bounds(e.position.x as int, e.position.y as int)
    &&& 0 <= e.viewshed.range <= MAX_RANGE
}

/// Every visible cell of the map is also revealed.
pub open spec fn seen_consistent(map: TileMap) -> bool {
    forall|x: int, y: int|
        #[trigger] map.in_bounds(x, y) && map.visible_tiles@[map.idx(x, y)]
            ==> map.revealed_tiles@[map.idx(x, y)]
}

/// No revealed cell of `old` is hidden again in `map`.
pub open spec fn reveals_more(map: TileMap, old: TileMap) -> bool {
    forall|x: int, y: int|
        #[trigger] old.in_bounds(x, y) && old.revealed_tiles@[old.idx(x, y)]
            ==> map.revealed_tiles@[map.idx(x, y)]
}

/// `n` is `o` after one visibility pass over `map`.
pub open spec fn viewshed_refreshed(n: Entity, o: Entity, map: TileMap) -> bool {
    &&& n.position == o.position
    &&& n.renderable == o.renderable
    &&& n.name == o.name
    &&& n.player == o.player
    &&& n.monster == o.monster
    &&& n.viewshed.range == o.viewshed.range
    &&& !n.viewshed.dirty
    &&& o.viewshed.dirty ==> sees_exactly(n.viewshed, map, o.position.cell())
    &&& !o.viewshed.dirty ==> n.viewshed == o.viewshed
}

/// Index of the last of the first `n` entities that is a player with a dirty
/// viewshed, or -1 when there is none.
pub open spec fn last_dirty_player(es: Seq<Entity>, n: int) -> int
    decreases n,
{
    if n <= 0 {
        -1
    } else if es[n - 1].viewshed.dirty && es[n - 1].player.is_some() {
        n - 1
    } else {
        last_dirty_player(es, n - 1)
    }
}

proof fn lemma_last_dirty_player_below(es: Seq<Entity>, n: int)
    requires
        0 <= n,
    ensures
        -1 <= last_dirty_player(es, n) < n,
    decreases n,
{
    if n > 0 {
        lemma_last_dirty_player_below(es, n - 1);
    }
}

/// Cell `c` is listed by the new viewshed of one of the first `n` entities
/// that was a player with a dirty viewshed.
pub open spec fn seen_by_dirty_player(old: Seq<Entity>, new: Seq<Entity>, n: int, c: (int, int)) -> bool {
    exists|i: int|
        0 <= i < n && (#[trigger] old[i]).viewshed.dirty && old[i].player.is_some() && lists_cell(
            new[i].viewshed.visible_tiles@,
            c,
        )
}

pub struct VisibilitySystem {}

impl VisibilitySystem {
    /// Recomputes every dirty viewshed; each player that was recomputed
    /// replaces the map's visible cells with its own and adds them to the
    /// revealed cells.
    pub fn run(&self, map: &mut TileMap, entities: &mut Vec<Entity>)
        requires
            old(map).wf(),
            forall|i: int| 0 <= i < old(entities)@.len() ==> placed(*old(map), #[trigger] old(entities)@[i]),
        ensures
            final(map).wf(),
            same_but_sight(*final(map), *old(map)),
            final(entities)@.len() == old(entities)@.len(),
            forall|i: int|
                0 <= i < old(entities)@.len() ==> viewshed_refreshed(
                    #[trigger] final(entities)@[i],
                    old(entities)@[i],
                    *final(map),
                ),
            reveals_more(*final(map), *old(map)),
            seen_consistent(*old(map)) ==> seen_consistent(*final(map)),
            (forall|i: int|
                0 <= i < old(entities)@.len() && (#[trigger] old(entities)@[i]).viewshed.dirty
                    ==> old(entities)@[i].player.is_none()) ==> *final(map) == *old(map),
            forall|i: int, k: int|
                0 <= i < old(entities)@.len() && (#[trigger] old(entities)@[i]).viewshed.dirty
                    && old(entities)@[i].player.is_some() && 0 <= k
                    < final(entities)@[i].viewshed.visible_tiles@.len() ==> {
                    let c = #[trigger] final(entities)@[i].viewshed.visible_tiles@[k];
                    final(map).revealed_tiles@[final(map).idx(c.x as int, c.y as int)]
                },
            last_dirty_player(old(entities)@, old(entities)@.len() as int) >= 0 ==> forall|x: int, y: int|
                #[trigger] final(map).in_bounds(x, y) ==> final(map).visible_tiles@[final(map).idx(x, y)]
                    == lists_cell(
                    final(entities)@[last_dirty_player(
                        old(entities)@,
                        old(entities)@.len() as int,
                    )].viewshed.visible_tiles@,
                    (x, y),
                ),
            forall|x: int, y: int|
                #[trigger] final(map).in_bounds(x, y) ==> final(map).revealed_tiles@[final(map).idx(x, y)]
                    == (old(map).revealed_tiles@[old(map).idx(x, y)] || seen_by_dirty_player(
                    old(entities)@,
                    final(entities)@,
                    old(entities)@.len() as int,
                    (x, y),
                )),
    {
        let ghost map0 = *map;
        let ghost es0 = entities@;
        proof {
            assert forall|x: int, y: int| #[trigger] map.in_bounds(x, y) implies map.revealed_tiles@[map.idx(x, y)] == (
                map0.revealed_tiles@[map0.idx(x, y)] || seen_by_dirty_player(es0, entities@, 0, (x, y))) by {}
        }
        let mut i: usize = 0;
        while i < entities.len()
            invariant
                map.wf(),
                same_but_sight(*map, map0),
                i <= entities@.len(),
                entities@.len() == es0.len(),
                forall|j: int| 0 <= j < es0.len() ==> placed(map0, #[trigger] es0[j]),
                forall|j: int| i <= j < es0.len() ==> #[trigger] entities@[j] == es0[j],
                forall|j: int|
                    0 <= j < i ==> viewshed_refreshed(#[trigger] entities@[j], es0[j], *map),
                reveals_more(*map, map0),
                seen_consistent(map0) ==> seen_consistent(*map),
                (forall|j: int|
                    0 <= j < i && (#[trigger] es0[j]).viewshed.dirty ==> es0[j].player.is_none())
                    ==> *map == map0,
                forall|j: int, k: int|
                    0 <= j < i && (#[trigger] es0[j]).viewshed.dirty && es0[j].player.is_some() && 0
                        <= k < entities@[j].viewshed.visible_tiles@.len() ==> {
                        let c = #[trigger] entities@[j].viewshed.visible_tiles@[k];
                        map.revealed_tiles@[map.idx(c.x as int, c.y as int)]
                    },
                last_dirty_player(es0, i as int) >= 0 ==> forall|x: int, y: int|
                    #[trigger] map.in_bounds(x, y) ==> map.visible_tiles@[map.idx(x, y)] == lists_cell(
                        entities@[last_dirty_player(es0, i as int)].viewshed.visible_tiles@,
                        (x, y),
                    ),
                forall|x: int, y: int|
                    #[trigger] map.in_bounds(x, y) ==> map.revealed_tiles@[map.idx(x, y)] == (
                    map0.revealed_tiles@[map0.idx(x, y)] || seen_by_dirty_player(es0, entities@, i as int, (x, y))),
            decreases es0.len() - i,
        {
            let ghost before = *map;
            let ghost es_before = entities@;
            let mut e = entities.remove(i);
            assert(e == es0[i as int]);
            let ghost marked = e.viewshed.dirty && e.player.is_some();
            if e.viewshed.dirty {
                compute_viewshed(map, e.position, &mut e.viewshed);
                if e.player.is_some() {
                    mark_seen(map, &e.viewshed.visible_tiles);
                }
            }
            entities.insert(i, e);
            proof {
                let m = *map;
                assert forall|j: int| 0 <= j < es0.len() && j != i implies #[trigger] entities@[j]
                    == es_before[j] by {}
                assert forall|x: int, y: int|
                    #[trigger] map0.in_bounds(x, y) && map0.revealed_tiles@[map0.idx(x, y)]
                        implies m.revealed_tiles@[m.idx(x, y)] by {
                    assert(before.in_bounds(x, y));
                    assert(m.in_bounds(x, y));
                    if !marked {
                        assert(m == before);
                    }
                }
                assert forall|x: int, y: int|
                    #[trigger] m.in_bounds(x, y) && m.visible_tiles@[m.idx(x, y)] && seen_consistent(map0)
                        implies m.revealed_tiles@[m.idx(x, y)] by {
                    assert(before.in_bounds(x, y));
                    if !marked {
                        assert(m == before);
                    }
                }
                assert(entities@[i as int] == e);
                assert forall|x: int, y: int| #[trigger] m.in_bounds(x, y) implies m.revealed_tiles@[m.idx(x, y)] == (
                    map0.revealed_tiles@[map0.idx(x, y)] || seen_by_dirty_player(es0, entities@, i + 1, (x, y))) by {
                    assert(before.in_bounds(x, y));
                    if seen_by_dirty_player(es0, es_before, i as int, (x, y)) {
                        let j = choose|j: int| 0 <= j < i && (#[trigger] es0[j]).viewshed.dirty && es0[j].player.is_some()
                            && lists_cell(es_before[j].viewshed.visible_tiles@, (x, y));
                        assert(entities@[j] == es_before[j]);
                    }
                    if seen_by_dirty_player(es0, entities@, i + 1, (x, y)) {
                        let j = choose|j: int| 0 <= j < i + 1 && (#[trigger] es0[j]).viewshed.dirty && es0[j].player.is_some()
                            && lists_cell(entities@[j].viewshed.visible_tiles@, (x, y));
                        if j < i {
                            assert(entities@[j] == es_before[j]);
                        }
                    }
                    if marked && lists_cell(e.viewshed.visible_tiles@, (x, y)) {
                        assert(seen_by_dirty_player(es0, entities@, i + 1, (x, y)));
                    }
                    if !marked {
                        assert(m == before);
                    }
                }
                assert(last_dirty_player(es0, i + 1) >= 0 ==> forall|x: int, y: int|
                    #[trigger] m.in_bounds(x, y) ==> m.visible_tiles@[m.idx(x, y)] == lists_cell(
                        entities@[last_dirty_player(es0, i + 1)].viewshed.visible_tiles@,
                        (x, y),
                    )) by {
                    lemma_last_dirty_player_below(es0, i as int);
                    if !marked {
                        assert(m == before);
                        if last_dirty_player(es0, i as int) >= 0 {
                            assert(entities@[last_dirty_player(es0, i as int)] == es_before[last_dirty_player(es0, i as int)]);
                        }
                    }
                }
                assert forall|j: int, k: int|
                    0 <= j < i + 1 && (#[trigger] es0[j]).viewshed.dirty && es0[j].player.is_some() && 0
                        <= k < entities@[j].viewshed.visible_tiles@.len() implies {
                        let c = #[trigger] entities@[j].viewshed.visible_tiles@[k];
                        m.revealed_tiles@[m.idx(c.x as int, c.y as int)]
                    } by {
                    let c = entities@[j].viewshed.visible_tiles@[k];
                    if j < i {
                        assert(entities@[j] == es_before[j]);
                        assert(es_before[j].viewshed.visible_tiles@[k] == c);
                        assert(before.in_bounds(c.x as int, c.y as int));
                        assert(m.in_bounds(c.x as int, c.y as int));
                        if !marked {
                            assert(m == before);
                        }
                    } else {
                        assert(j == i);
                        assert(e.viewshed.visible_tiles@[k] == c);
                        assert(m.in_bounds(c.x as int, c.y as int));
                        assert(lists_cell(e.viewshed.visible_tiles@, c.cell()));
                    }
                }
            }
            i += 1;
        }
    }
}

} // verus!
