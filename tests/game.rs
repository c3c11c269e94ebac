use roguelike::components::push_decimal;
use roguelike::mapgen::{build_map, new_map_rooms_and_corridors, MapConfig};
use roguelike::state::sees;
use roguelike::visibility::{compute_viewshed, VisibilitySystem};
use roguelike::{
    player_input, try_move_player, Cell, Entity, Key, Monster, MonsterAI, Name, Player, Position,
    Rect, Renderable, RunState, State, TileMap, TileType, ViewShed,
};

fn creature(x: i32, y: i32, player: bool) -> Entity {
    Entity {
        position: Position { x, y },
        renderable: Renderable { glyph: 64, fg: (255, 255, 0), bg: (0, 0, 0) },
        viewshed: ViewShed { visible_tiles: Vec::new(), range: 8, dirty: true },
        name: Name { name: if player { "Player".to_string() } else { "Orc".to_string() } },
        player: if player { Some(Player {}) } else { None },
        monster: if player { None } else { Some(Monster {}) },
    }
}

/// An 80 by 50 map holding the given rooms and nothing else.
fn map_with_rooms(rooms: &[Rect]) -> TileMap {
    let mut map = TileMap::new(80, 50);
    for r in rooms {
        map.apply_room_to_map(r);
        map.rooms.push(*r);
    }
    map.populate_blocked();
    map
}

fn state_with(map: TileMap, entities: Vec<Entity>, player_pos: Cell) -> State {
    State { map, entities, player_pos, runstate: RunState::Paused }
}

fn player_index(s: &State) -> usize {
    s.entities.iter().position(|e| e.player.is_some()).unwrap()
}

#[test]
fn rect_new_and_center() {
    let r = Rect::new(10, 10, 6, 6);
    assert_eq!((r.x1, r.y1, r.x2, r.y2), (10, 10, 16, 16));
    assert_eq!(r.center(), (13, 13));
    assert_eq!(Rect::new(0, 0, 3, 5).center(), (1, 2));
}

#[test]
fn rect_intersect_counts_touching() {
    let a = Rect::new(10, 10, 6, 6);
    assert!(a.intersect(&Rect::new(16, 10, 4, 4)));
    assert!(a.intersect(&Rect::new(12, 12, 2, 2)));
    assert!(!a.intersect(&Rect::new(17, 10, 4, 4)));
    assert!(!a.intersect(&Rect::new(0, 0, 5, 5)));
}

#[test]
fn room_interior_is_floor_and_border_is_wall() {
    let map = map_with_rooms(&[Rect::new(10, 10, 6, 6)]);
    assert_eq!(map.tiles[map.xy_idx(11, 11)], TileType::Floor);
    assert_eq!(map.tiles[map.xy_idx(16, 16)], TileType::Floor);
    assert_eq!(map.tiles[map.xy_idx(10, 13)], TileType::Wall);
    assert_eq!(map.tiles[map.xy_idx(13, 17)], TileType::Wall);
    assert!(map.blocked[map.xy_idx(10, 13)]);
    assert!(!map.blocked[map.xy_idx(13, 13)]);
    assert_eq!(map.xy_idx(3, 2), 163);
}

#[test]
fn tunnels_carve_both_orders() {
    let mut map = TileMap::new(80, 50);
    map.apply_horizontal_tunnel(20, 5, 7);
    map.apply_vertical_tunnel(30, 2, 40);
    for x in 5..=20 {
        assert_eq!(map.tiles[map.xy_idx(x, 7)], TileType::Floor);
    }
    for y in 2..=30 {
        assert_eq!(map.tiles[map.xy_idx(40, y)], TileType::Floor);
    }
    assert_eq!(map.tiles[map.xy_idx(4, 7)], TileType::Wall);
    assert_eq!(map.tiles[map.xy_idx(40, 31)], TileType::Wall);
}

#[test]
fn generated_map_rooms_are_apart_and_carved() {
    for seed in 0..20u64 {
        let mut rng = rltk::RandomNumberGenerator::seeded(seed);
        let map = new_map_rooms_and_corridors(&mut rng);
        assert_eq!((map.width, map.height), (80, 50));
        assert!(!map.rooms.is_empty() && map.rooms.len() <= 30);
        for (i, a) in map.rooms.iter().enumerate() {
            assert!(a.x2 - a.x1 >= 6 && a.x2 - a.x1 < 10);
            assert!(a.y2 - a.y1 >= 6 && a.y2 - a.y1 < 10);
            assert!(a.x1 >= 0 && a.y1 >= 0 && a.x2 < 79 && a.y2 < 49);
            let (cx, cy) = a.center();
            assert_eq!(map.tiles[map.xy_idx(cx, cy)], TileType::Floor);
            for (j, b) in map.rooms.iter().enumerate() {
                if i != j {
                    assert!(!a.intersect(b));
                }
            }
        }
        for i in 0..map.tiles.len() {
            assert_eq!(map.blocked[i], map.tiles[i] == TileType::Wall);
            assert!(!map.revealed_tiles[i] && !map.visible_tiles[i]);
        }
    }
}

#[test]
fn generated_map_rooms_connected() {
    for seed in 0..20u64 {
        let mut rng = rltk::RandomNumberGenerator::seeded(seed);
        let map = new_map_rooms_and_corridors(&mut rng);
        let w = map.width as usize;
        let (sx, sy) = map.rooms[0].center();
        let mut seen = vec![false; map.tiles.len()];
        let mut stack = vec![(sx, sy)];
        seen[map.xy_idx(sx, sy)] = true;
        while let Some((x, y)) = stack.pop() {
            for (dx, dy) in [(1, 0), (-1, 0), (0, 1), (0, -1)] {
                let (nx, ny) = (x + dx, y + dy);
                if nx < 0 || ny < 0 || nx >= map.width || ny >= map.height {
                    continue;
                }
                let i = ny as usize * w + nx as usize;
                if !seen[i] && map.tiles[i] == TileType::Floor {
                    seen[i] = true;
                    stack.push((nx, ny));
                }
            }
        }
        for r in &map.rooms {
            let (cx, cy) = r.center();
            assert!(seen[map.xy_idx(cx, cy)]);
        }
    }
}

#[test]
fn standard_config() {
    let c = MapConfig::standard();
    assert_eq!((c.width, c.height, c.max_rooms, c.min_size, c.max_size, c.padding), (80, 50, 30, 6, 10, 0));
    let mut rng = rltk::RandomNumberGenerator::seeded(7);
    let map = TileMap::generate(&MapConfig { width: 30, height: 20, max_rooms: 1, min_size: 3, max_size: 5, padding: 0 }, &mut rng);
    assert_eq!(map.rooms.len(), 1);
    assert_eq!((map.width, map.height), (30, 20));
}

#[test]
fn walk_left_three_then_down() {
    let map = map_with_rooms(&[Rect::new(10, 10, 6, 6)]);
    let mut s = state_with(map, vec![creature(13, 13, true)], Cell { x: 13, y: 13 });
    try_move_player(-1, 0, &mut s);
    assert_eq!(s.entities[0].position, Position { x: 12, y: 13 });
    try_move_player(-1, 0, &mut s);
    assert_eq!(s.entities[0].position, Position { x: 11, y: 13 });
    // Column 10 is the room's wall: the third step left does not advance.
    try_move_player(-1, 0, &mut s);
    assert_eq!(s.entities[0].position, Position { x: 11, y: 13 });
    try_move_player(0, 1, &mut s);
    assert_eq!(s.entities[0].position, Position { x: 11, y: 14 });
    assert_eq!(s.player_pos, Cell { x: 11, y: 14 });
}

#[test]
fn walk_through_open_floor_reaches_target() {
    let map = map_with_rooms(&[Rect::new(5, 5, 20, 20)]);
    let mut s = state_with(map, vec![creature(13, 13, true)], Cell { x: 13, y: 13 });
    for _ in 0..3 {
        try_move_player(-1, 0, &mut s);
    }
    try_move_player(0, 1, &mut s);
    assert_eq!(s.entities[0].position, Position { x: 10, y: 14 });
    assert_eq!(s.player_pos, Cell { x: 10, y: 14 });
}

#[test]
fn blocked_move_changes_nothing() {
    let map = map_with_rooms(&[Rect::new(10, 10, 6, 6)]);
    let mut p = creature(11, 11, true);
    p.viewshed.dirty = false;
    let mut s = state_with(map, vec![p], Cell { x: 11, y: 11 });
    try_move_player(-1, 0, &mut s);
    try_move_player(0, -1, &mut s);
    assert_eq!(s.entities[0].position, Position { x: 11, y: 11 });
    assert!(!s.entities[0].viewshed.dirty);
    assert_eq!(s.player_pos, Cell { x: 11, y: 11 });
}

#[test]
fn move_marks_viewshed_dirty_and_leaves_monsters() {
    let map = map_with_rooms(&[Rect::new(10, 10, 6, 6)]);
    let mut p = creature(12, 12, true);
    p.viewshed.dirty = false;
    let mut m = creature(14, 14, false);
    m.viewshed.dirty = false;
    let mut s = state_with(map, vec![m, p], Cell { x: 12, y: 12 });
    try_move_player(1, 0, &mut s);
    assert_eq!(s.entities[1].position, Position { x: 13, y: 12 });
    assert!(s.entities[1].viewshed.dirty);
    assert_eq!(s.entities[0].position, Position { x: 14, y: 14 });
    assert!(!s.entities[0].viewshed.dirty);
}

#[test]
fn move_off_the_map_is_clamped() {
    let mut map = TileMap::new(10, 10);
    for t in map.tiles.iter_mut() {
        *t = TileType::Floor;
    }
    map.populate_blocked();
    let mut s = state_with(map, vec![creature(0, 9, true)], Cell { x: 0, y: 9 });
    try_move_player(-1, 0, &mut s);
    try_move_player(0, 1, &mut s);
    assert_eq!(s.entities[0].position, Position { x: 0, y: 9 });
    try_move_player(5, -20, &mut s);
    assert_eq!(s.entities[0].position, Position { x: 5, y: 0 });
    assert_eq!(s.player_pos, Cell { x: 5, y: 0 });
}

#[test]
fn keys_map_to_directions() {
    let map = map_with_rooms(&[Rect::new(5, 5, 20, 20)]);
    let mut s = state_with(map, vec![creature(13, 13, true)], Cell { x: 13, y: 13 });
    assert_eq!(player_input(&mut s, None), RunState::Paused);
    assert_eq!(player_input(&mut s, Some(Key::Other)), RunState::Paused);
    assert_eq!(s.entities[0].position, Position { x: 13, y: 13 });
    let cases = [
        (Key::Left, (-1, 0)), (Key::Numpad4, (-1, 0)), (Key::H, (-1, 0)),
        (Key::Right, (1, 0)), (Key::Numpad6, (1, 0)), (Key::L, (1, 0)),
        (Key::Up, (0, -1)), (Key::Numpad8, (0, -1)), (Key::K, (0, -1)),
        (Key::Down, (0, 1)), (Key::Numpad2, (0, 1)), (Key::J, (0, 1)),
    ];
    for (key, (dx, dy)) in cases {
        let before = s.entities[0].position;
        assert_eq!(player_input(&mut s, Some(key)), RunState::Running);
        assert_eq!(s.entities[0].position, Position { x: before.x + dx, y: before.y + dy });
    }
}

#[test]
fn monster_sees_player_five_tiles_away() {
    let map = map_with_rooms(&[Rect::new(5, 5, 30, 30)]);
    let mut s = state_with(map, vec![creature(15, 20, false), creature(20, 20, true)], Cell { x: 20, y: 20 });
    let vis = VisibilitySystem {};
    vis.run(&mut s.map, &mut s.entities);
    assert!(s.entities[0].viewshed.visible_tiles.contains(&Cell { x: 20, y: 20 }));
    assert!(!s.entities[0].viewshed.dirty);
    assert!(sees(&s.entities[0].viewshed, Cell { x: 20, y: 20 }));
}

#[test]
fn viewshed_stays_within_range_and_map() {
    let map = map_with_rooms(&[Rect::new(0, 0, 40, 40)]);
    let mut vs = ViewShed { visible_tiles: Vec::new(), range: 8, dirty: true };
    compute_viewshed(&map, Position { x: 3, y: 20 }, &mut vs);
    assert!(!vs.dirty);
    assert!(vs.visible_tiles.contains(&Cell { x: 3, y: 20 }));
    assert!(vs.visible_tiles.contains(&Cell { x: 9, y: 20 }));
    assert!(vs.visible_tiles.len() > 100);
    for c in &vs.visible_tiles {
        assert!((c.x - 3).abs() <= 8 && (c.y - 20).abs() <= 8);
        assert!(c.x >= 0 && c.y >= 0 && c.x < 80 && c.y < 50);
    }
    assert!(!vs.visible_tiles.contains(&Cell { x: 3, y: 29 }));
}

#[test]
fn walls_stop_sight() {
    // Two rooms with solid rock between them.
    let map = map_with_rooms(&[Rect::new(5, 5, 6, 6), Rect::new(14, 5, 6, 6)]);
    let mut vs = ViewShed { visible_tiles: Vec::new(), range: 8, dirty: true };
    compute_viewshed(&map, Position { x: 9, y: 8 }, &mut vs);
    assert!(vs.visible_tiles.contains(&Cell { x: 11, y: 8 }));
    assert!(!vs.visible_tiles.contains(&Cell { x: 16, y: 8 }));
}

#[test]
fn player_sight_sets_visible_and_revealed() {
    let map = map_with_rooms(&[Rect::new(5, 5, 30, 30)]);
    let mut s = state_with(map, vec![creature(10, 10, true)], Cell { x: 10, y: 10 });
    s.runstate = RunState::Running;
    s.tick(None);
    let i = s.map.xy_idx(10, 10);
    assert!(s.map.visible_tiles[i] && s.map.revealed_tiles[i]);
    let far = s.map.xy_idx(30, 30);
    assert!(!s.map.visible_tiles[far] && !s.map.revealed_tiles[far]);
    let revealed_before = s.map.revealed_tiles.clone();
    for _ in 0..10 {
        assert_eq!(s.runstate, RunState::Paused);
        s.tick(Some(Key::Right));
        assert_eq!(s.runstate, RunState::Running);
        s.tick(None);
    }
    for k in 0..revealed_before.len() {
        assert!(!revealed_before[k] || s.map.revealed_tiles[k]);
        assert!(!s.map.visible_tiles[k] || s.map.revealed_tiles[k]);
    }
    assert!(!s.map.visible_tiles[i] && s.map.revealed_tiles[i]);
}

#[test]
fn monster_sight_leaves_map_alone() {
    let map = map_with_rooms(&[Rect::new(5, 5, 30, 30)]);
    let mut s = state_with(map, vec![creature(10, 10, false)], Cell { x: 20, y: 20 });
    let vis = VisibilitySystem {};
    vis.run(&mut s.map, &mut s.entities);
    assert!(s.map.visible_tiles.iter().all(|v| !v));
    assert!(s.map.revealed_tiles.iter().all(|v| !v));
}

#[test]
fn monster_ai_reacts_once_per_watching_monster() {
    let map = map_with_rooms(&[Rect::new(5, 5, 30, 30)]);
    let mut s = state_with(
        map,
        vec![creature(15, 20, false), creature(20, 20, true), creature(33, 33, false), creature(22, 20, false)],
        Cell { x: 20, y: 20 },
    );
    let ai = MonsterAI {};
    assert!(ai.run(&s.entities, s.player_pos).is_empty());
    s.runstate = RunState::Running;
    // The first running tick: the monsters react to last tick's sight (none).
    assert!(s.tick(None).is_empty());
    assert_eq!(ai.run(&s.entities, s.player_pos), vec![0, 3]);
    assert_eq!(s.runstate, RunState::Paused);
    assert!(s.tick(Some(Key::Other)).is_empty());
    s.runstate = RunState::Running;
    assert_eq!(s.tick(None), vec![0, 3]);
    assert_eq!(s.runstate, RunState::Paused);
}

#[test]
fn paused_tick_without_key_keeps_state() {
    let map = map_with_rooms(&[Rect::new(5, 5, 30, 30)]);
    let mut s = state_with(map, vec![creature(10, 10, true)], Cell { x: 10, y: 10 });
    assert!(s.tick(None).is_empty());
    assert_eq!(s.runstate, RunState::Paused);
    assert!(s.tick(Some(Key::Other)).is_empty());
    assert_eq!(s.runstate, RunState::Paused);
    assert_eq!(s.entities[0].position, Position { x: 10, y: 10 });
}

#[test]
fn new_world_places_player_and_monsters() {
    let mut rng = rltk::RandomNumberGenerator::seeded(3);
    let s = State::new(&mut rng);
    assert_eq!(s.runstate, RunState::Running);
    assert_eq!(s.entities.len(), s.map.rooms.len());
    let p = player_index(&s);
    assert_eq!(p, s.entities.len() - 1);
    let player = &s.entities[p];
    let (cx, cy) = s.map.rooms[0].center();
    assert_eq!(player.position, Position { x: cx, y: cy });
    assert_eq!(s.player_pos, Cell { x: cx, y: cy });
    assert_eq!(player.renderable.glyph, 64);
    assert_eq!(player.name.name, "Player");
    for (i, e) in s.entities.iter().enumerate().take(p) {
        let (x, y) = s.map.rooms[i + 1].center();
        assert_eq!(e.position, Position { x, y });
        assert!(e.monster.is_some());
        assert!(e.renderable.glyph == 103 || e.renderable.glyph == 111);
        let kind = if e.renderable.glyph == 103 { "Goblin" } else { "Orc" };
        assert_eq!(e.name.name, format!("{} #{}", kind, i));
        assert_eq!(e.viewshed.range, 8);
        assert!(e.viewshed.dirty);
    }
}

#[test]
fn build_map_keeps_clear_proposals_and_carves_exactly() {
    let config = MapConfig::standard();
    let proposals = vec![
        Rect::new(10, 10, 6, 6),
        Rect::new(14, 14, 6, 6),
        Rect::new(30, 20, 8, 7),
        Rect::new(50, 5, 6, 9),
    ];
    let map = build_map(&config, &proposals, &vec![false, true, true, false]);
    assert_eq!(map.rooms, vec![proposals[0], proposals[2], proposals[3]]);
    let mut floor = 0;
    for y in 0..50 {
        for x in 0..80 {
            let in_room = map.rooms.iter().any(|r| r.x1 < x && x <= r.x2 && r.y1 < y && y <= r.y2);
            // (13,13) -> (34,23) along row 13 then column 34 (the coin of the
            // second kept room); (34,23) -> (53,9) along row 23 then column 53
            // (the coin of the third kept room).
            let first = (y == 13 && (13..=34).contains(&x)) || (x == 34 && (13..=23).contains(&y));
            let second = (y == 23 && (34..=53).contains(&x)) || (x == 53 && (9..=23).contains(&y));
            let expect = in_room || first || second;
            let is_floor = map.tiles[map.xy_idx(x, y)] == TileType::Floor;
            assert_eq!(is_floor, expect, "cell ({}, {})", x, y);
            assert_eq!(map.blocked[map.xy_idx(x, y)], !expect);
            if is_floor {
                floor += 1;
            }
        }
    }
    assert!(floor > 36 + 56 + 54);
}

#[test]
fn decimal_numerals() {
    for (n, text) in [(0usize, "0"), (7, "7"), (10, "10"), (29, "29"), (105, "105")] {
        let mut s = "#".to_string();
        push_decimal(&mut s, n);
        assert_eq!(s, format!("#{}", text));
    }
}

#[test]
fn last_player_sight_replaces_visible() {
    let map = map_with_rooms(&[Rect::new(5, 5, 40, 30)]);
    let mut s = state_with(map, vec![creature(10, 10, true), creature(40, 30, true)], Cell { x: 10, y: 10 });
    let vis = VisibilitySystem {};
    vis.run(&mut s.map, &mut s.entities);
    let a = s.map.xy_idx(10, 10);
    let b = s.map.xy_idx(40, 30);
    assert!(!s.map.visible_tiles[a] && s.map.revealed_tiles[a]);
    assert!(s.map.visible_tiles[b] && s.map.revealed_tiles[b]);
    let listed = s.entities[1].viewshed.visible_tiles.len();
    assert_eq!(s.map.visible_tiles.iter().filter(|v| **v).count(), listed);
}

#[test]
fn padding_keeps_rooms_further_apart() {
    let near = vec![Rect::new(10, 10, 6, 6), Rect::new(19, 10, 6, 6)];
    let coins = vec![true, true];
    let mut config = MapConfig::standard();
    assert_eq!(build_map(&config, &near, &coins).rooms.len(), 2);
    config.padding = 3;
    assert_eq!(build_map(&config, &near, &coins).rooms, vec![near[0]]);
    config.padding = 2;
    assert_eq!(build_map(&config, &near, &coins).rooms.len(), 2);
    let a = Rect::new(10, 10, 6, 6);
    assert!(!a.intersect_padded(&near[1], 2));
    assert!(a.intersect_padded(&near[1], 3));
}

#[test]
fn generate_with_padding_respects_margin() {
    let config = MapConfig { width: 80, height: 50, max_rooms: 30, min_size: 6, max_size: 10, padding: 2 };
    for seed in 0..10u64 {
        let mut rng = rltk::RandomNumberGenerator::seeded(seed);
        let map = TileMap::generate(&config, &mut rng);
        for (i, a) in map.rooms.iter().enumerate() {
            for (j, b) in map.rooms.iter().enumerate() {
                if i != j {
                    assert!(!a.intersect_padded(b, 2));
                }
            }
        }
    }
}
