use vstd::prelude::*;
use crate::rect::Rect;

verus! {

/// Largest width or height a map may have.
pub const MAX_DIM: i32 = 1000;

#[derive(Clone, Copy, Debug, PartialEq, Eq, Structural)]
pub enum TileType {
    Wall,
    Floor,
}

/// The dungeon level: a row-major grid of tiles plus the per-cell sight and
/// movement state derived from it.
pub struct TileMap {
    pub tiles: Vec<TileType>,
    pub rooms: Vec<Rect>,
    pub width: i32,
    pub height: i32,
    pub revealed_tiles: Vec<bool>,
    pub visible_tiles: Vec<bool>,
    pub blocked: Vec<bool>,
}

/// A vector of `n` copies of `value`.
pub fn filled<T: Copy>(value: T, n: usize) -> (r: Vec<T>)
    ensures
        r@ == Seq::new(n as nat, |i: int| value),
{
    let mut v: Vec<T> = Vec::new();
    let mut i: usize = 0;
    while i < n
        invariant
            i <= n,
            v@ == Seq::new(i as nat, |k: int| value),
        decreases n - i,
    {
        v.push(value);
        i += 1;
        assert(v@ =~= Seq::new(i as nat, |k: int| value));
    }
    v
}

impl TileMap {
    pub open spec fn size(self) -> int {
        self.width * self.height
    }

    /// Dimensions are positive and bounded, and every per-cell vector has one
    /// entry per cell.
    pub open spec fn wf(self) -> bool {
        &&& 0 < self.width <= MAX_DIM
        &&& 0 < self.height <= MAX_DIM
        &&& self.tiles@.len() == self.size()
        &&& self.revealed_tiles@.len() == self.size()
        &&& self.visible_tiles@.len() == self.size()
        &&& self.blocked@.len() == self.size()
    }

    pub open spec fn in_bounds(self, x: int, y: int) -> bool {
        0 <= x < self.width && 0 <= y < self.height
    }

    pub open spec fn idx(self, x: int, y: int) -> int {
        x + y * self.width
    }

    pub open spec fn is_floor(self, x: int, y: int) -> bool {
        self.in_bounds(x, y) && self.tiles@[self.idx(x, y)] == TileType::Floor
    }

    pub open spec fn is_blocked(self, x: int, y: int) -> bool {
        self.blocked@[self.idx(x, y)]
    }

    /// Every wall, and nothing else, is blocked.
    pub open spec fn blocked_in_sync(self) -> bool {
        forall|i: int|
            0 <= i < self.tiles@.len() ==> self.blocked@[i] == (self.tiles@[i] == TileType::Wall)
    }

    pub proof fn lemma_idx_in_range(self, x: int, y: int)
        requires
            self.wf(),
            self.in_bounds(x, y),
        ensures
            0 <= self.idx(x, y) < self.size() <= MAX_DIM * MAX_DIM,
            0 <= y * self.width <= self.idx(x, y),
    {
        let w = self.width as int;
        let h = self.height as int;
        assert(0 <= y * w <= (h - 1) * w) by (nonlinear_arith)
            requires
                0 <= y < h,
                0 < w,
        ;
        assert((h - 1) * w + w == h * w) by (nonlinear_arith);
        assert(h * w <= MAX_DIM * MAX_DIM) by (nonlinear_arith)
            requires
                0 < h <= MAX_DIM,
                0 < w <= MAX_DIM,
        ;
    }

    pub proof fn lemma_idx_injective(self, x1: int, y1: int, x2: int, y2: int)
        requires
            self.wf(),
            self.in_bounds(x1, y1),
            self.in_bounds(x2, y2),
            (x1, y1) != (x2, y2),
        ensures
            self.idx(x1, y1) != self.idx(x2, y2),
    {
        let w = self.width as int;
        if y1 == y2 {
        } else if y1 < y2 {
            assert((y2 - y1) * w >= w) by (nonlinear_arith)
                requires
                    y2 - y1 >= 1,
                    w > 0,
            ;
            assert(y2 * w - y1 * w == (y2 - y1) * w) by (nonlinear_arith);
        } else {
            assert((y1 - y2) * w >= w) by (nonlinear_arith)
                requires
                    y1 - y2 >= 1,
                    w > 0,
            ;
            assert(y1 * w - y2 * w == (y1 - y2) * w) by (nonlinear_arith);
        }
    }

    /// Index of cell `(x, y)` in the per-cell vectors.
    pub fn xy_idx(&self, x: i32, y: i32) -> (r: usize)
        requires
            self.wf(),
            self.in_bounds(x as int, y as int),
        ensures
            r as int == self.idx(x as int, y as int),
            r < self.tiles@.len(),
    {
        proof {
            self.lemma_idx_in_range(x as int, y as int);
        }
        (y as usize) * (self.width as usize) + (x as usize)
    }

    /// A map of the given size that is solid wall, with nothing seen yet.
    pub fn new(width: i32, height: i32) -> (r: TileMap)
        requires
            0 < width <= MAX_DIM,
            0 < height <= MAX_DIM,
        ensures
            r.wf(),
            r.width == width,
            r.height == height,
            r.rooms@.len() == 0,
            forall|i: int| 0 <= i < r.size() ==> r.tiles@[i] == TileType::Wall,
            forall|i: int| 0 <= i < r.size() ==> !r.revealed_tiles@[i] && !r.visible_tiles@[i],
            r.blocked_in_sync(),
    {
        assert(0 < width * height <= MAX_DIM * MAX_DIM) by (nonlinear_arith)
            requires
                0 < width <= MAX_DIM,
                0 < height <= MAX_DIM,
        ;
        let n = (width as usize) * (height as usize);
        TileMap {
            tiles: filled(TileType::Wall, n),
            rooms: Vec::new(),
            width,
            height,
            revealed_tiles: filled(false, n),
            visible_tiles: filled(false, n),
            blocked: filled(true, n),
        }
    }
    /// Same size as `old`, and every floor cell of `old` is still floor.
    pub open spec fn keeps_floor_of(self, old: TileMap) -> bool {
        &&& self.width == old.width
        &&& self.height == old.height
        &&& self.tiles@.len() == old.tiles@.len()
        &&& forall|x: int, y: int| old.is_floor(x, y) ==> self.is_floor(x, y)
    }

    /// Everything but the tiles is as in `old`.
    pub open spec fn same_but_tiles(self, old: TileMap) -> bool {
        &&& self.width == old.width
        &&& self.height == old.height
        &&& self.rooms == old.rooms
        &&& self.revealed_tiles == old.revealed_tiles
        &&& self.visible_tiles == old.visible_tiles
        &&& self.blocked == old.blocked
    }

    /// Turns cell `(x, y)` to floor.
    fn set_floor(&mut self, x: i32, y: i32)
        requires
            old(self).wf(),
            old(self).in_bounds(x as int, y as int),
        ensures
            final(self).wf(),
            final(self).keeps_floor_of(*old(self)),
            final(self).same_but_tiles(*old(self)),
            final(self).is_floor(x as int, y as int),
            forall|xx: int, yy: int|
                final(self).is_floor(xx, yy) <==> (old(self).is_floor(xx, yy) || (xx == x && yy == y)),
    {
        let i = self.xy_idx(x, y);
        self.tiles.set(i, TileType::Floor);
        assert forall|xx: int, yy: int|
            self.is_floor(xx, yy) <==> (old(self).is_floor(xx, yy) || (xx == x && yy == y)) by {
            if self.in_bounds(xx, yy) {
                self.lemma_idx_in_range(xx, yy);
                if xx != x || yy != y {
                    self.lemma_idx_injective(xx, yy, x as int, y as int);
                }
            }
        }
    }

    /// Carves the interior of `room` (the cells strictly right of `x1` and
    /// below `y1`, up to `x2` and `y2`) into floor.
    pub fn apply_room_to_map(&mut self, room: &Rect)
        requires
            old(self).wf(),
            room.wf(),
            room.x2 < old(self).width,
            room.y2 < old(self).height,
        ensures
            final(self).wf(),
            final(self).keeps_floor_of(*old(self)),
            final(self).same_but_tiles(*old(self)),
            forall|x: int, y: int|
                room.x1 < x <= room.x2 && room.y1 < y <= room.y2 ==> final(self).is_floor(x, y),
            forall|x: int, y: int|
                final(self).is_floor(x, y) <==> (old(self).is_floor(x, y) || (room.x1 < x <= room.x2
                    && room.y1 < y <= room.y2)),
    {
        let ghost start = *self;
        let mut y: i32 = room.y1 + 1;
        while y <= room.y2
            invariant
                room.y1 + 1 <= y <= room.y2 + 1,
                room.wf(),
                room.x2 < self.width,
                room.y2 < self.height,
                self.wf(),
                self.keeps_floor_of(start),
                self.same_but_tiles(start),
                forall|xx: int, yy: int|
                    room.x1 < xx <= room.x2 && room.y1 < yy < y ==> self.is_floor(xx, yy),
                forall|xx: int, yy: int|
                    self.is_floor(xx, yy) <==> (start.is_floor(xx, yy) || (room.x1 < xx <= room.x2
                        && room.y1 < yy < y)),
            decreases room.y2 + 1 - y,
        {
            let mut x: i32 = room.x1 + 1;
            while x <= room.x2
                invariant
                    room.x1 + 1 <= x <= room.x2 + 1,
                    room.y1 + 1 <= y <= room.y2,
                    room.wf(),
                    room.x2 < self.width,
                    room.y2 < self.height,
                    self.wf(),
                    self.keeps_floor_of(start),
                    self.same_but_tiles(start),
                    forall|xx: int, yy: int|
                        room.x1 < xx <= room.x2 && room.y1 < yy < y ==> self.is_floor(xx, yy),
                    forall|xx: int| room.x1 < xx < x ==> self.is_floor(xx, y as int),
                    forall|xx: int, yy: int|
                        self.is_floor(xx, yy) <==> (start.is_floor(xx, yy) || (room.x1 < xx <= room.x2
                            && room.y1 < yy < y) || (yy == y && room.x1 < xx < x)),
                decreases room.x2 + 1 - x,
            {
                self.set_floor(x, y);
                x += 1;
            }
            y += 1;
        }
    }

    /// Carves row `y` into floor from column `min(x1, x2)` to `max(x1, x2)`.
    pub fn apply_horizontal_tunnel(&mut self, x1: i32, x2: i32, y: i32)
        requires
            old(self).wf(),
            old(self).in_bounds(x1 as int, y as int),
            old(self).in_bounds(x2 as int, y as int),
        ensures
            final(self).wf(),
            final(self).keeps_floor_of(*old(self)),
            final(self).same_but_tiles(*old(self)),
            forall|x: int|
                (x1 <= x <= x2 || x2 <= x <= x1) ==> final(self).is_floor(x, y as int),
            forall|x: int, yy: int|
                final(self).is_floor(x, yy) <==> (old(self).is_floor(x, yy) || (yy == y && (x1 <= x
                    <= x2 || x2 <= x <= x1))),
    {
        let ghost start = *self;
        let lo = if x1 < x2 { x1 } else { x2 };
        let hi = if x1 < x2 { x2 } else { x1 };
        let mut x: i32 = lo;
        while x <= hi
            invariant
                lo <= x <= hi + 1,
                self.wf(),
                self.in_bounds(lo as int, y as int),
                self.in_bounds(hi as int, y as int),
                self.keeps_floor_of(start),
                self.same_but_tiles(start),
                forall|xx: int| lo <= xx < x ==> self.is_floor(xx, y as int),
                forall|xx: int, yy: int|
                    self.is_floor(xx, yy) <==> (start.is_floor(xx, yy) || (yy == y && lo <= xx < x)),
            decreases hi + 1 - x,
        {
            self.set_floor(x, y);
            x += 1;
        }
    }

    /// Carves column `x` into floor from row `min(y1, y2)` to `max(y1, y2)`.
    pub fn apply_vertical_tunnel(&mut self, y1: i32, y2: i32, x: i32)
        requires
            old(self).wf(),
            old(self).in_bounds(x as int, y1 as int),
            old(self).in_bounds(x as int, y2 as int),
        ensures
            final(self).wf(),
            final(self).keeps_floor_of(*old(self)),
            final(self).same_but_tiles(*old(self)),
            forall|y: int|
                (y1 <= y <= y2 || y2 <= y <= y1) ==> final(self).is_floor(x as int, y),
            forall|xx: int, y: int|
                final(self).is_floor(xx, y) <==> (old(self).is_floor(xx, y) || (xx == x && (y1 <= y
                    <= y2 || y2 <= y <= y1))),
    {
        let ghost start = *self;
        let lo = if y1 < y2 { y1 } else { y2 };
        let hi = if y1 < y2 { y2 } else { y1 };
        let mut y: i32 = lo;
        while y <= hi
            invariant
                lo <= y <= hi + 1,
                self.wf(),
                self.in_bounds(x as int, lo as int),
                self.in_bounds(x as int, hi as int),
                self.keeps_floor_of(start),
                self.same_but_tiles(start),
                forall|yy: int| lo <= yy < y ==> self.is_floor(x as int, yy),
                forall|xx: int, yy: int|
                    self.is_floor(xx, yy) <==> (start.is_floor(xx, yy) || (xx == x && lo <= yy < y)),
            decreases hi + 1 - y,
        {
            self.set_floor(x, y);
            y += 1;
        }
    }

    /// Rebuilds `blocked` from `tiles`: exactly the walls block.
    pub fn populate_blocked(&mut self)
        requires
            old(self).wf(),
        ensures
            final(self).wf(),
            final(self).tiles == old(self).tiles,
            final(self).rooms == old(self).rooms,
            final(self).width == old(self).width,
            final(self).height == old(self).height,
            final(self).revealed_tiles == old(self).revealed_tiles,
            final(self).visible_tiles == old(self).visible_tiles,
            final(self).blocked_in_sync(),
    {
        let mut i: usize = 0;
        while i < self.tiles.len()
            invariant
                self.wf(),
                self.tiles == old(self).tiles,
                self.rooms == old(self).rooms,
                self.width == old(self).width,
                self.height == old(self).height,
                self.revealed_tiles == old(self).revealed_tiles,
                self.visible_tiles == old(self).visible_tiles,
                i <= self.tiles@.len(),
                forall|k: int|
                    0 <= k < i ==> self.blocked@[k] == (self.tiles@[k] == TileType::Wall),
            decreases self.tiles@.len() - i,
        {
            let wall = self.tiles[i] == TileType::Wall;
            self.blocked.set(i, wall);
            i += 1;
        }
    }
}

/// rltk's grid point, which its field-of-view sweep takes and returns.
#[verifier::external_type_specification]
#[verifier::external_body]
pub struct ExPoint(rltk::Point);

/// Relies on rltk::Point::constant only to build the point that reports the
/// map's dimensions; nothing is claimed of it.
pub assume_specification[ rltk::Point::constant ](x: i32, y: i32) -> rltk::Point;

impl rltk::BaseMap for TileMap {
    fn is_opaque(&self, idx: usize) -> bool {
        if idx < self.blocked.len() {
            self.blocked[idx]
        } else {
            true
        }
    }
}

impl rltk::Algorithm2D for TileMap {
    fn dimensions(&self) -> rltk::Point {
        rltk::Point::constant(self.width, self.height)
    }
}

} // verus!
