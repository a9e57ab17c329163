use vstd::prelude::*;
use std::collections::HashMap;
use crate::geometry::Point;
use crate::components::Entity;

verus! {

broadcast use vstd::std_specs::hash::group_hash_axioms;

#[derive(Clone, Copy, Debug, PartialEq, Eq, Structural)]
pub enum TileType {
    Wall,
    Floor,
}

/// A rectangular grid of tiles, with the blocking grid and the indexes of
/// items and creatures by tile.
pub struct GameMap {
    pub tiles: Vec<TileType>,
    pub width: i32,
    pub height: i32,
    pub depth: i32,
    pub item_map: HashMap<usize, Entity>,
    pub creature_map: HashMap<usize, Entity>,
    pub blocked_tiles: Vec<bool>,
    pub level_exit: usize,
}

pub open spec fn in_bounds(width: int, height: int, p: Point) -> bool {
    0 <= p.x < width && 0 <= p.y < height
}

pub open spec fn tile_index(width: int, p: Point) -> int {
    p.y * width + p.x
}

pub proof fn lemma_tile_index_bounds(width: int, height: int, p: Point)
    requires
        in_bounds(width, height, p),
    ensures
        0 <= tile_index(width, p) < width * height,
{
    assert(0 <= p.y * width + p.x < width * height) by (nonlinear_arith)
        requires
            0 <= p.x < width,
            0 <= p.y < height,
    ;
}

impl GameMap {
    /// The grid's vectors match its dimensions.
    pub open spec fn wf(&self) -> bool {
        &&& self.width > 0
        &&& self.height > 0
        &&& self.width * self.height <= usize::MAX
        &&& self.tiles@.len() == self.width * self.height
        &&& self.blocked_tiles@.len() == self.width * self.height
    }

    pub open spec fn contains(&self, p: Point) -> bool {
        in_bounds(self.width as int, self.height as int, p)
    }

    pub open spec fn index_of(&self, p: Point) -> int {
        tile_index(self.width as int, p)
    }

    /// An all-wall map of the given size, nothing blocked.
    pub fn new(width: i32, height: i32, depth: i32) -> (r: GameMap)
        requires
            width > 0,
            height > 0,
            width * height <= usize::MAX,
        ensures
            r.wf(),
            r.width == width && r.height == height && r.depth == depth,
            forall|i: int| 0 <= i < r.tiles@.len() ==> r.tiles@[i] == TileType::Wall,
            forall|i: int| 0 <= i < r.blocked_tiles@.len() ==> !r.blocked_tiles@[i],
            r.item_map@ == Map::<usize, Entity>::empty(),
            r.creature_map@ == Map::<usize, Entity>::empty(),
            r.level_exit == 0,
    {
        let n: usize = (width as usize) * (height as usize);
        let mut tiles: Vec<TileType> = Vec::new();
        let mut blocked: Vec<bool> = Vec::new();
        let mut i: usize = 0;
        while i < n
            invariant
                i <= n,
                tiles@.len() == i,
                blocked@.len() == i,
                forall|k: int| 0 <= k < i ==> tiles@[k] == TileType::Wall,
                forall|k: int| 0 <= k < i ==> !blocked@[k],
            decreases n - i,
        {
            tiles.push(TileType::Wall);
            blocked.push(false);
            i = i + 1;
        }
        GameMap {
            tiles,
            width,
            height,
            depth,
            item_map: HashMap::new(),
            creature_map: HashMap::new(),
            blocked_tiles: blocked,
            level_exit: 0,
        }
    }

    pub fn in_bounds(&self, p: Point) -> (r: bool)
        ensures
            r == self.contains(p),
    {
        0 <= p.x && p.x < self.width && 0 <= p.y && p.y < self.height
    }

    pub fn get_index(&self, x: i32, y: i32) -> (r: usize)
        requires
            self.wf(),
            self.contains(Point { x, y }),
        ensures
            r == self.index_of(Point { x, y }),
            r < self.blocked_tiles@.len(),
    {
        proof {
            lemma_tile_index_bounds(self.width as int, self.height as int, Point { x, y });
        }
        (y as usize) * (self.width as usize) + (x as usize)
    }

    pub fn point2d_to_index(&self, p: Point) -> (r: usize)
        requires
            self.wf(),
            self.contains(p),
        ensures
            r == self.index_of(p),
            r < self.blocked_tiles@.len(),
    {
        self.get_index(p.x, p.y)
    }

    /// Whether the tile at `p` is in bounds and not blocked.
    pub fn is_open(&self, p: Point) -> (r: bool)
        requires
            self.wf(),
        ensures
            r == (self.contains(p) && !self.blocked_tiles@[self.index_of(p)]),
    {
        if !self.in_bounds(p) {
            return false;
        }
        let i = self.point2d_to_index(p);
        !self.blocked_tiles[i]
    }

    /// Blocks exactly the walls.
    pub fn set_blocked_tiles(&mut self)
        requires
            old(self).wf(),
        ensures
            final(self).wf(),
            final(self).blocked_tiles@.len() == old(self).blocked_tiles@.len(),
            forall|i: int| 0 <= i < final(self).blocked_tiles@.len()
                ==> final(self).blocked_tiles@[i] == (old(self).tiles@[i] == TileType::Wall),
            final(self).tiles == old(self).tiles,
            final(self).width == old(self).width,
            final(self).height == old(self).height,
            final(self).item_map == old(self).item_map,
            final(self).creature_map == old(self).creature_map,
    {
        let mut i: usize = 0;
        while i < self.tiles.len()
            invariant
                self.wf(),
                self.tiles == old(self).tiles,
                self.width == old(self).width,
                self.height == old(self).height,
                self.item_map == old(self).item_map,
                self.creature_map == old(self).creature_map,
                i <= self.tiles@.len(),
                forall|k: int| 0 <= k < i ==> self.blocked_tiles@[k] == (self.tiles@[k] == TileType::Wall),
            decreases self.tiles@.len() - i,
        {
            let is_blocked = self.tiles[i] == TileType::Wall;
            self.blocked_tiles.set(i, is_blocked);
            i = i + 1;
        }
    }

    /// A tile a creature may step onto: inside the outer ring of the map and not blocked.
    pub fn is_exit_valid(&self, x: i32, y: i32) -> (r: bool)
        requires
            self.wf(),
        ensures
            r == (1 <= x <= self.width - 1 && 1 <= y <= self.height - 1
                && !self.blocked_tiles@[self.index_of(Point { x, y })]),
    {
        if x < 1 || x > self.width - 1 || y < 1 || y > self.height - 1 {
            return false;
        }
        !self.blocked_tiles[self.get_index(x, y)]
    }

    /// Records an item at `point`, unless one is already there.
    pub fn track_item(&mut self, data: Entity, point: Point) -> (r: bool)
        requires
            old(self).wf(),
            old(self).contains(point),
        ensures
            r == !old(self).item_map@.contains_key(old(self).index_of(point) as usize),
            r ==> final(self).item_map@ == old(self).item_map@.insert(old(self).index_of(point) as usize, data),
            !r ==> final(self).item_map@ == old(self).item_map@,
            final(self).tiles == old(self).tiles,
            final(self).blocked_tiles == old(self).blocked_tiles,
            final(self).creature_map == old(self).creature_map,
            final(self).width == old(self).width,
            final(self).height == old(self).height,
            final(self).depth == old(self).depth,
            final(self).level_exit == old(self).level_exit,
    {
        let index = self.point2d_to_index(point);
        if self.item_map.contains_key(&index) {
            false
        } else {
            self.item_map.insert(index, data);
            true
        }
    }

    /// Forgets the item at `point` and returns it.
    pub fn untrack_item(&mut self, point: Point) -> (r: Option<Entity>)
        requires
            old(self).wf(),
            old(self).contains(point),
        ensures
            final(self).item_map@ == old(self).item_map@.remove(old(self).index_of(point) as usize),
            r == (if old(self).item_map@.contains_key(old(self).index_of(point) as usize) {
                Some(old(self).item_map@[old(self).index_of(point) as usize])
            } else {
                None
            }),
            final(self).blocked_tiles == old(self).blocked_tiles,
            final(self).creature_map == old(self).creature_map,
    {
        let index = self.point2d_to_index(point);
        self.item_map.remove(&index)
    }

    /// Records a creature at `point` and blocks the tile, unless one is already there.
    pub fn track_creature(&mut self, data: Entity, point: Point) -> (r: bool)
        requires
            old(self).wf(),
            old(self).contains(point),
        ensures
            final(self).wf(),
            r == !old(self).creature_map@.contains_key(old(self).index_of(point) as usize),
            r ==> final(self).creature_map@ == old(self).creature_map@.insert(
                old(self).index_of(point) as usize,
                data,
            ) && final(self).blocked_tiles@ == old(self).blocked_tiles@.update(old(self).index_of(point), true),
            !r ==> final(self).creature_map@ == old(self).creature_map@
                && final(self).blocked_tiles == old(self).blocked_tiles,
            final(self).item_map == old(self).item_map,
    {
        let index = self.point2d_to_index(point);
        if self.creature_map.contains_key(&index) {
            false
        } else {
            self.blocked_tiles.set(index, true);
            self.creature_map.insert(index, data);
            true
        }
    }

    /// Forgets the creature at `point` and unblocks the tile.
    pub fn untrack_creature(&mut self, point: Point) -> (r: Option<Entity>)
        requires
            old(self).wf(),
            old(self).contains(point),
        ensures
            final(self).wf(),
            final(self).blocked_tiles@ == old(self).blocked_tiles@.update(old(self).index_of(point), false),
            final(self).creature_map@ == old(self).creature_map@.remove(old(self).index_of(point) as usize),
            r == (if old(self).creature_map@.contains_key(old(self).index_of(point) as usize) {
                Some(old(self).creature_map@[old(self).index_of(point) as usize])
            } else {
                None
            }),
            final(self).item_map == old(self).item_map,
    {
        let index = self.point2d_to_index(point);
        self.blocked_tiles.set(index, false);
        self.creature_map.remove(&index)
    }

    /// Moves a creature's record from `prev` to `next`, carrying its block
    /// along; fails if `next` already holds a creature.
    pub fn move_creature(&mut self, creature: Entity, prev: Point, next: Point) -> (r: bool)
        requires
            old(self).wf(),
            old(self).contains(prev),
            old(self).contains(next),
        ensures
            final(self).wf(),
            r == !old(self).creature_map@.contains_key(old(self).index_of(next) as usize),
            !r ==> final(self).creature_map == old(self).creature_map
                && final(self).blocked_tiles == old(self).blocked_tiles,
            r ==> final(self).creature_map@ == old(self).creature_map@.insert(
                old(self).index_of(next) as usize,
                creature,
            ).remove(old(self).index_of(prev) as usize),
            r && old(self).blocked_tiles@[old(self).index_of(prev)] ==> final(self).blocked_tiles@
                == old(self).blocked_tiles@.update(old(self).index_of(next), true).update(
                old(self).index_of(prev),
                false,
            ),
            r && !old(self).blocked_tiles@[old(self).index_of(prev)] ==> final(self).blocked_tiles
                == old(self).blocked_tiles,
            final(self).item_map == old(self).item_map,
    {
        let prev_index = self.point2d_to_index(prev);
        let next_index = self.point2d_to_index(next);
        if self.creature_map.contains_key(&next_index) {
            return false;
        }
        self.creature_map.insert(next_index, creature);
        self.creature_map.remove(&prev_index);
        if self.blocked_tiles[prev_index] {
            self.blocked_tiles.set(next_index, true);
            self.blocked_tiles.set(prev_index, false);
        }
        true
    }
}

/// The tiles of `s` that lie on a `width` by `height` grid, in order.
pub open spec fn on_map(width: int, height: int, s: Seq<Point>) -> Seq<Point>
    decreases s.len(),
{
    if s.len() == 0 {
        s
    } else {
        let rest = on_map(width, height, s.drop_last());
        if in_bounds(width, height, s.last()) {
            rest.push(s.last())
        } else {
            rest
        }
    }
}

impl GameMap {
    /// Keeps the tiles that lie on the map, in order.
    pub fn clip_to_map(&self, tiles: &Vec<Point>) -> (r: Vec<Point>)
        ensures
            r@ == on_map(self.width as int, self.height as int, tiles@),
    {
        let mut r: Vec<Point> = Vec::new();
        let mut i: usize = 0;
        while i < tiles.len()
            invariant
                i <= tiles@.len(),
                r@ == on_map(self.width as int, self.height as int, tiles@.take(i as int)),
            decreases tiles@.len() - i,
        {
            let p = tiles[i];
            assert(tiles@.take(i + 1).drop_last() =~= tiles@.take(i as int));
            if self.in_bounds(p) {
                r.push(p);
            }
            i = i + 1;
        }
        assert(tiles@.take(tiles@.len() as int) =~= tiles@);
        r
    }
}

} // verus!
