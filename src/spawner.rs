use vstd::prelude::*;
use rltk::RandomNumberGenerator;
use crate::geometry::Point;
use crate::rng::roll;

verus! {

/// A room on the map, by its corners.
#[derive(Clone, Copy, Debug, PartialEq, Eq, Structural)]
pub struct Room {
    pub x1: i32,
    pub y1: i32,
    pub x2: i32,
    pub y2: i32,
}

/// Places spawns on free tiles of a map, keeping its own copy of the blocking grid.
pub struct Spawner {
    pub blocked_tiles: Vec<bool>,
    pub map_exit: usize,
    pub map_width: i32,
}

/// Index of a tile in a grid of the given width.
pub open spec fn grid_index(width: int, x: int, y: int) -> int {
    y * width + x
}

/// `p` lies inside `room`, on the grid, on a tile that was free and is not the exit.
pub open spec fn spawn_ok(width: int, blocked: Seq<bool>, exit: usize, room: Room, p: Point) -> bool {
    let idx = grid_index(width, p.x as int, p.y as int);
    &&& room.x1 < p.x < room.x2
    &&& room.y1 < p.y < room.y2
    &&& 0 <= idx < blocked.len()
    &&& !blocked[idx]
    &&& idx != exit
}

impl Spawner {
    pub fn new(blocked_tiles: Vec<bool>, map_exit: usize, map_width: i32) -> (r: Spawner)
        ensures
            r.blocked_tiles == blocked_tiles,
            r.map_exit == map_exit,
            r.map_width == map_width,
    {
        Spawner { blocked_tiles, map_exit, map_width }
    }

    /// Whether a spawn may go on tile `index`: on the grid, free, and not the exit.
    pub fn can_spawn_at(&self, index: usize) -> (r: bool)
        ensures
            r == (index < self.blocked_tiles@.len() && !self.blocked_tiles@[index as int] && index != self.map_exit),
    {
        index < self.blocked_tiles.len() && !self.blocked_tiles[index] && index != self.map_exit
    }

    /// Marks tile `index` as taken by a spawn.
    pub fn claim(&mut self, index: usize)
        requires
            index < old(self).blocked_tiles@.len(),
        ensures
            final(self).blocked_tiles@ == old(self).blocked_tiles@.update(index as int, true),
            final(self).map_exit == old(self).map_exit,
            final(self).map_width == old(self).map_width,
    {
        self.blocked_tiles.set(index, true);
    }

    /// Rolls between `min` and `max` spawn attempts at random tiles inside
    /// `room`, keeps those that land on a tile that was free and not the exit,
    /// and claims them. Two attempts may land on one tile.
    pub fn build(&mut self, rng: &mut RandomNumberGenerator, room: Room, min: i32, max: i32) -> (r: Vec<Point>)
        requires
            min < max,
            room.x1 + 1 < room.x2,
            room.y1 + 1 < room.y2,
            0 <= room.x1,
            0 <= room.y1,
            0 <= old(self).map_width,
            room.x2 <= old(self).map_width,
            (room.y2 as int) * (old(self).map_width as int) + room.x2 <= usize::MAX,
        ensures
            final(self).map_exit == old(self).map_exit,
            final(self).map_width == old(self).map_width,
            final(self).blocked_tiles@.len() == old(self).blocked_tiles@.len(),
            forall|k: int| 0 <= k < r@.len() ==> spawn_ok(old(self).map_width as int, old(self).blocked_tiles@, old(self).map_exit, room, #[trigger] r@[k]),
            forall|k: int| 0 <= k < r@.len() ==> final(self).blocked_tiles@[grid_index(old(self).map_width as int, (#[trigger] r@[k]).x as int, r@[k].y as int)],
    {
        let spawn_count = roll(rng, min, max);
        let mut points: Vec<Point> = Vec::new();
        let mut n: i32 = 0;
        while n < spawn_count
            invariant
                room.x1 + 1 < room.x2,
                room.y1 + 1 < room.y2,
                0 <= room.x1,
                0 <= room.y1,
                0 <= self.map_width,
                room.x2 <= self.map_width,
                (room.y2 as int) * (self.map_width as int) + room.x2 <= usize::MAX,
                self.map_exit == old(self).map_exit,
                self.map_width == old(self).map_width,
                self.blocked_tiles == old(self).blocked_tiles,
                forall|k: int| 0 <= k < points@.len() ==> spawn_ok(old(self).map_width as int, old(self).blocked_tiles@, old(self).map_exit, room, #[trigger] points@[k]),
            decreases spawn_count - n,
        {
            let dx = roll(rng, 1, room.x2 - room.x1);
            let dy = roll(rng, 1, room.y2 - room.y1);
            let xpos = room.x1 + dx;
            let ypos = room.y1 + dy;
            assert(0 <= (ypos as int) * (self.map_width as int) <= (room.y2 as int) * (self.map_width as int)) by (nonlinear_arith)
                requires
                    0 <= ypos <= room.y2,
                    0 <= self.map_width,
            ;
            let index: usize = (ypos as usize) * (self.map_width as usize) + (xpos as usize);
            if self.can_spawn_at(index) {
                points.push(Point { x: xpos, y: ypos });
            }
            n = n + 1;
        }
        let mut k: usize = 0;
        while k < points.len()
            invariant
                0 <= self.map_width,
                0 <= room.x1,
                0 <= room.y1,
                self.map_exit == old(self).map_exit,
                self.map_width == old(self).map_width,
                self.blocked_tiles@.len() == old(self).blocked_tiles@.len(),
                k <= points@.len(),
                forall|j: int| 0 <= j < points@.len() ==> spawn_ok(old(self).map_width as int, old(self).blocked_tiles@, old(self).map_exit, room, #[trigger] points@[j]),
                forall|j: int| 0 <= j < k ==> self.blocked_tiles@[grid_index(old(self).map_width as int, (#[trigger] points@[j]).x as int, points@[j].y as int)],
            decreases points@.len() - k,
        {
            let p = points[k];
            assert(spawn_ok(old(self).map_width as int, old(self).blocked_tiles@, old(self).map_exit, room, points@[k as int]));
            assert(0 <= (p.y as int) * (self.map_width as int)) by (nonlinear_arith)
                requires
                    0 <= p.y,
                    0 <= self.map_width,
            ;
            let len = self.blocked_tiles.len();
            assert((p.y as int) * (self.map_width as int) + (p.x as int) < len);
            let index: usize = (p.y as usize) * (self.map_width as usize) + (p.x as usize);
            self.claim(index);
            k = k + 1;
        }
        points
    }
}

} // verus!
