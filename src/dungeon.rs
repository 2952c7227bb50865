use vstd::prelude::*;
use rand::Rng;
use crate::color::{darker_red, desaturated_green, spec_darker_red, spec_desaturated_green};
use crate::movement::{blocked_by_object, is_blocked_by_object, PLAYER};
use crate::object::{Ai, DeathCallback, Fighter, Object};
use crate::grid::{
    adjacent, lemma_column_reachable, lemma_reachable_grows, lemma_reachable_refl, lemma_reachable_trans,
    lemma_row_reachable, reachable, Grid, Rect, Tile,
};

verus! {

pub const MAP_WIDTH: i32 = 80;

pub const MAP_HEIGHT: i32 = 43;

pub const MAX_ROOMS: i32 = 30;

pub const MAX_ROOM_WIDTH: i32 = 15;

pub const MIN_ROOM_WIDTH: i32 = 6;

pub const MAX_ROOM_HEIGHT: i32 = 10;

pub const MIN_ROOM_HEIGHT: i32 = 5;

pub const MAX_ROOM_MONSTERS: i32 = 3;

/// Relies on rand's `Rng::gen_range` on the thread-local generator: a value in
/// `[low, high)`. It panics when `low >= high`.
#[verifier::external_body]
fn random_below(low: i32, high: i32) -> (r: i32)
    requires
        low < high,
    ensures
        low <= r < high,
{
    rand::thread_rng().gen_range(low, high)
}

/// Relies on `rand::random::<bool>`: a coin flip, nothing promised of its outcome.
#[verifier::external_body]
fn coin_flip() -> bool {
    rand::random::<bool>()
}

/// The interior of `room` lies on the grid.
pub open spec fn interior_on_grid(map: Grid, room: Rect) -> bool {
    &&& room.x1 <= room.x2
    &&& room.y1 <= room.y2
    &&& -1 <= room.x1
    &&& room.x2 <= map.width
    &&& -1 <= room.y1
    &&& room.y2 <= map.height
}

/// Opens the interior of `room`, leaving its border and every other tile as it was.
pub fn make_room(room: Rect, map: &mut Grid)
    requires
        old(map).wf(),
        interior_on_grid(*old(map), room),
    ensures
        final(map).wf(),
        final(map).width == old(map).width,
        final(map).height == old(map).height,
        forall|x: int, y: int|
            final(map).in_bounds(x, y) ==> #[trigger] final(map).tile(x, y) == if room.interior_contains(x, y) {
                Tile::spec_empty()
            } else {
                old(map).tile(x, y)
            },
        old(map).walkable_within(&*final(map)),
{
    let ghost before = *map;
    let mut x: i64 = room.x1 as i64 + 1;
    while x < room.x2 as i64
        invariant
            map.wf(),
            map.width == before.width,
            map.height == before.height,
            interior_on_grid(before, room),
            room.x1 + 1 <= x,
            x <= room.x2 || x == room.x1 + 1,
            forall|i: int, j: int|
                map.in_bounds(i, j) ==> #[trigger] map.tile(i, j) == if room.x1 < i < x && i < room.x2 && room.y1 < j
                    < room.y2 {
                    Tile::spec_empty()
                } else {
                    before.tile(i, j)
                },
        decreases room.x2 - x,
    {
        let mut y: i64 = room.y1 as i64 + 1;
        while y < room.y2 as i64
            invariant
                map.wf(),
                map.width == before.width,
                map.height == before.height,
                interior_on_grid(before, room),
                room.x1 + 1 <= x < room.x2,
                room.y1 + 1 <= y,
                y <= room.y2 || y == room.y1 + 1,
                forall|i: int, j: int|
                    map.in_bounds(i, j) ==> #[trigger] map.tile(i, j) == if (room.x1 < i < x && room.y1 < j
                        < room.y2) || (i == x && room.y1 < j < y && j < room.y2) {
                        Tile::spec_empty()
                    } else {
                        before.tile(i, j)
                    },
            decreases room.y2 - y,
        {
            map.set_tile(x as i32, y as i32, Tile::empty());
            y = y + 1;
        }
        x = x + 1;
    }
    assert forall|i: int, j: int| #[trigger] before.walkable(i, j) implies map.walkable(i, j) by {
        assert(map.in_bounds(i, j));
    }
}

/// Opens the cells of row `y` from `x1` to `x2`, both included.
pub fn make_h_tunnel(x1: i32, x2: i32, y: i32, map: &mut Grid)
    requires
        old(map).wf(),
        old(map).in_bounds(x1 as int, y as int),
        old(map).in_bounds(x2 as int, y as int),
    ensures
        final(map).wf(),
        final(map).width == old(map).width,
        final(map).height == old(map).height,
        forall|i: int, j: int|
            final(map).in_bounds(i, j) ==> #[trigger] final(map).tile(i, j) == if j == y && (x1 <= i <= x2 || x2
                <= i <= x1) {
                Tile::spec_empty()
            } else {
                old(map).tile(i, j)
            },
        old(map).walkable_within(&*final(map)),
{
    let ghost before = *map;
    let low = if x1 <= x2 { x1 } else { x2 };
    let high = if x1 <= x2 { x2 } else { x1 };
    let mut x: i32 = low;
    while x <= high
        invariant
            map.wf(),
            map.width == before.width,
            map.height == before.height,
            before.in_bounds(low as int, y as int),
            before.in_bounds(high as int, y as int),
            low <= x <= high + 1,
            forall|i: int, j: int|
                map.in_bounds(i, j) ==> #[trigger] map.tile(i, j) == if j == y && low <= i < x {
                    Tile::spec_empty()
                } else {
                    before.tile(i, j)
                },
        decreases high + 1 - x,
    {
        map.set_tile(x, y, Tile::empty());
        x = x + 1;
    }
    assert forall|i: int, j: int| #[trigger] before.walkable(i, j) implies map.walkable(i, j) by {
        assert(map.in_bounds(i, j));
    }
}

/// Opens the cells of column `x` from `y1` to `y2`, both included.
pub fn make_v_tunnel(y1: i32, y2: i32, x: i32, map: &mut Grid)
    requires
        old(map).wf(),
        old(map).in_bounds(x as int, y1 as int),
        old(map).in_bounds(x as int, y2 as int),
    ensures
        final(map).wf(),
        final(map).width == old(map).width,
        final(map).height == old(map).height,
        forall|i: int, j: int|
            final(map).in_bounds(i, j) ==> #[trigger] final(map).tile(i, j) == if i == x && (y1 <= j <= y2 || y2
                <= j <= y1) {
                Tile::spec_empty()
            } else {
                old(map).tile(i, j)
            },
        old(map).walkable_within(&*final(map)),
{
    let ghost before = *map;
    let low = if y1 <= y2 { y1 } else { y2 };
    let high = if y1 <= y2 { y2 } else { y1 };
    let mut y: i32 = low;
    while y <= high
        invariant
            map.wf(),
            map.width == before.width,
            map.height == before.height,
            before.in_bounds(x as int, low as int),
            before.in_bounds(x as int, high as int),
            low <= y <= high + 1,
            forall|i: int, j: int|
                map.in_bounds(i, j) ==> #[trigger] map.tile(i, j) == if i == x && low <= j < y {
                    Tile::spec_empty()
                } else {
                    before.tile(i, j)
                },
        decreases high + 1 - y,
    {
        map.set_tile(x, y, Tile::empty());
        y = y + 1;
    }
    assert forall|i: int, j: int| #[trigger] before.walkable(i, j) implies map.walkable(i, j) by {
        assert(map.in_bounds(i, j));
    }
}


/// `room` lies on the grid, border included, and has at least one interior cell.
pub open spec fn room_on_grid(map: Grid, room: Rect) -> bool {
    &&& 0 <= room.x1
    &&& room.x1 + 2 <= room.x2
    &&& room.x2 < map.width
    &&& 0 <= room.y1
    &&& room.y1 + 2 <= room.y2
    &&& room.y2 < map.height
}

/// What generation guarantees of a dungeon and its list of rooms: every room lies on the
/// grid with its interior open, no two rooms intersect (touching counts), and the center
/// of every room can be reached from the center of the first over walkable cells.
pub open spec fn dungeon_ok(map: Grid, rooms: Seq<Rect>) -> bool {
    &&& map.wf()
    &&& forall|k: int| 0 <= k < rooms.len() ==> room_on_grid(map, #[trigger] rooms[k])
    &&& forall|k: int, x: int, y: int|
        0 <= k < rooms.len() && (#[trigger] rooms[k]).interior_contains(x, y) ==> #[trigger] map.walkable(x, y)
    &&& forall|j: int, k: int| 0 <= j < k < rooms.len() ==> !(#[trigger] rooms[j]).spec_intersects(#[trigger] rooms[k])
    &&& forall|k: int|
        0 <= k < rooms.len() ==> reachable(map, rooms[0].spec_center(), (#[trigger] rooms[k]).spec_center())
}

/// `v` lies between `p` and `q`, both included.
pub open spec fn between(v: int, p: int, q: int) -> bool {
    p <= v <= q || q <= v <= p
}

/// `(x, y)` lies on the L-shaped corridor from `a` to `b`: along the row of `a` and then the
/// column of `b` when `horizontal_first` holds, else along the column of `a` and then the
/// row of `b`.
pub open spec fn on_corridor(a: (int, int), b: (int, int), horizontal_first: bool, x: int, y: int) -> bool {
    if horizontal_first {
        (y == a.1 && between(x, a.0, b.0)) || (x == b.0 && between(y, a.1, b.1))
    } else {
        (x == a.0 && between(y, a.1, b.1)) || (y == b.1 && between(x, a.0, b.0))
    }
}

/// `(x, y)` lies inside one of `rooms`.
pub open spec fn in_some_room(rooms: Seq<Rect>, x: int, y: int) -> bool {
    exists|k: int| 0 <= k < rooms.len() && (#[trigger] rooms[k]).interior_contains(x, y)
}

/// `(x, y)` lies on the corridor that joins some room to the one placed before it, the
/// corridor of room `k` having its horizontal leg first when `flips[k]` holds.
pub open spec fn on_some_corridor(rooms: Seq<Rect>, flips: Seq<bool>, x: int, y: int) -> bool {
    exists|k: int|
        1 <= k < rooms.len() && on_corridor(
            rooms[k - 1].spec_center(),
            (#[trigger] rooms[k]).spec_center(),
            flips[k],
            x,
            y,
        )
}

/// Every cell of `map` is open exactly when it lies inside a room or on a corridor, and is
/// wall otherwise.
pub open spec fn carved_exactly(map: Grid, rooms: Seq<Rect>, flips: Seq<bool>) -> bool {
    &&& flips.len() == rooms.len()
    &&& forall|x: int, y: int|
        map.in_bounds(x, y) ==> #[trigger] map.tile(x, y) == if in_some_room(rooms, x, y) || on_some_corridor(
            rooms,
            flips,
            x,
            y,
        ) {
            Tile::spec_empty()
        } else {
            Tile::spec_wall()
        }
}

/// `room` intersects one of `rooms`.
pub fn overlaps_any(room: &Rect, rooms: &Vec<Rect>) -> (b: bool)
    ensures
        b == exists|k: int| 0 <= k < rooms@.len() && room.spec_intersects(#[trigger] rooms@[k]),
{
    let mut i: usize = 0;
    while i < rooms.len()
        invariant
            0 <= i <= rooms@.len(),
            forall|k: int| 0 <= k < i ==> !room.spec_intersects(#[trigger] rooms@[k]),
        decreases rooms@.len() - i,
    {
        if room.intersects_with(&rooms[i]) {
            return true;
        }
        i = i + 1;
    }
    false
}

/// Places `room` unless it intersects a room already placed. An accepted room is carved
/// and joined to the previous one by an L-shaped corridor whose horizontal leg comes
/// first when `horizontal_first` holds.
pub fn add_room(map: &mut Grid, rooms: &mut Vec<Rect>, room: Rect, horizontal_first: bool) -> (accepted: bool)
    requires
        dungeon_ok(*old(map), old(rooms)@),
        room_on_grid(*old(map), room),
    ensures
        dungeon_ok(*final(map), final(rooms)@),
        old(map).walkable_within(&*final(map)),
        accepted == !exists|k: int| 0 <= k < old(rooms)@.len() && room.spec_intersects(#[trigger] old(rooms)@[k]),
        accepted ==> final(rooms)@ == old(rooms)@.push(room),
        accepted ==> forall|x: int, y: int|
            old(map).in_bounds(x, y) ==> #[trigger] final(map).tile(x, y) == if room.interior_contains(x, y) || (
            old(rooms)@.len() > 0 && on_corridor(
                old(rooms)@.last().spec_center(),
                room.spec_center(),
                horizontal_first,
                x,
                y,
            )) {
                Tile::spec_empty()
            } else {
                old(map).tile(x, y)
            },
        !accepted ==> final(rooms)@ == old(rooms)@ && *final(map) == *old(map),
{
    if overlaps_any(&room, rooms) {
        return false;
    }
    let ghost m0 = *map;
    make_room(room, map);
    let ghost m1 = *map;
    let (new_x, new_y) = room.center();
    let ghost c = (new_x as int, new_y as int);
    assert(room.interior_contains(c.0, c.1));
    assert(m1.walkable(c.0, c.1));
    if rooms.len() > 0 {
        let (prev_x, prev_y) = rooms[rooms.len() - 1].center();
        let ghost p = (prev_x as int, prev_y as int);
        let ghost last = rooms@[rooms@.len() - 1];
        assert(room_on_grid(m0, last));
        assert(last.interior_contains(p.0, p.1));
        if horizontal_first {
            make_h_tunnel(prev_x, new_x, prev_y, map);
            let ghost m2 = *map;
            make_v_tunnel(prev_y, new_y, new_x, map);
            proof {
                assert forall|x: int| (p.0 <= x <= c.0 || c.0 <= x <= p.0) implies #[trigger] map.walkable(x, p.1) by {
                    assert(m2.walkable(x, p.1));
                }
                lemma_row_reachable(*map, p.0, c.0, p.1);
                assert forall|y: int| (p.1 <= y <= c.1 || c.1 <= y <= p.1) implies #[trigger] map.walkable(c.0, y) by {
                    assert(map.in_bounds(c.0, y));
                }
                lemma_column_reachable(*map, c.0, p.1, c.1);
                lemma_reachable_trans(*map, p, (c.0, p.1), c);
            }
        } else {
            make_v_tunnel(prev_y, new_y, prev_x, map);
            let ghost m2 = *map;
            make_h_tunnel(prev_x, new_x, new_y, map);
            proof {
                assert forall|y: int| (p.1 <= y <= c.1 || c.1 <= y <= p.1) implies #[trigger] map.walkable(p.0, y) by {
                    assert(m2.walkable(p.0, y));
                }
                lemma_column_reachable(*map, p.0, p.1, c.1);
                assert forall|x: int| (p.0 <= x <= c.0 || c.0 <= x <= p.0) implies #[trigger] map.walkable(x, c.1) by {
                    assert(map.in_bounds(x, c.1));
                }
                lemma_row_reachable(*map, p.0, c.0, c.1);
                lemma_reachable_trans(*map, p, (p.0, c.1), c);
            }
        }
        proof {
            let first = rooms@[0].spec_center();
            assert forall|k: int| 0 <= k < rooms@.len() implies reachable(*map, first, (#[trigger] rooms@[k]).spec_center()) by {
                lemma_reachable_grows(m0, *map, first, rooms@[k].spec_center());
            }
            lemma_reachable_trans(*map, first, p, c);
        }
    } else {
        proof {
            lemma_reachable_refl(*map, c);
        }
    }
    let ghost before = rooms@;
    rooms.push(room);
    proof {
        let m = *map;
        assert forall|k: int, x: int, y: int|
            0 <= k < rooms@.len() && (#[trigger] rooms@[k]).interior_contains(x, y) implies #[trigger] m.walkable(x, y) by {
            if k < before.len() {
                assert(rooms@[k] == before[k]);
                assert(m0.walkable(x, y));
            } else {
                assert(m1.walkable(x, y));
            }
        }
        assert forall|k: int| 0 <= k < rooms@.len() implies reachable(m, rooms@[0].spec_center(), (#[trigger] rooms@[k]).spec_center()) by {
            if k < before.len() {
                assert(rooms@[k] == before[k]);
            }
        }
    }
    true
}


/// `o` is a monster just placed at `(x, y)`: an orc when `orc` holds, else a troll.
pub open spec fn spawned(o: Object, x: int, y: int, orc: bool) -> bool {
    &&& o.x == x
    &&& o.y == y
    &&& o.ai == Some(Ai)
    &&& !o.is_walkable
    &&& o.is_alive
    &&& !o.was_seen
    &&& if orc {
        &&& o.char == 'o'
        &&& o.name@ == "orc"@
        &&& o.color == spec_desaturated_green()
        &&& o.fighter == Some(
            Fighter { max_hp: 10, hp: 10, defense: 0, attack: 3, on_death: DeathCallback::Monster },
        )
    } else {
        &&& o.char == 'T'
        &&& o.name@ == "troll"@
        &&& o.color == spec_darker_red()
        &&& o.fighter == Some(
            Fighter { max_hp: 16, hp: 16, defense: 1, attack: 4, on_death: DeathCallback::Monster },
        )
    }
}

/// `o` is a freshly placed monster of either kind.
pub open spec fn is_monster_at(o: Object, x: int, y: int) -> bool {
    spawned(o, x, y, true) || spawned(o, x, y, false)
}

/// Out of every 100 rolls, this many give an orc; the rest give a troll.
pub const ORC_CHANCE: i32 = 80;

/// Adds a monster at `(x, y)` unless an entity that blocks stands there. `roll`, drawn
/// from `[0, 100)`, picks the kind.
pub fn place_monster(objects: &mut Vec<Object>, x: i32, y: i32, roll: i32) -> (placed: bool)
    ensures
        placed == !blocked_by_object(old(objects)@, x as int, y as int),
        placed ==> final(objects)@.len() == old(objects)@.len() + 1 && final(objects)@.drop_last() == old(
            objects,
        )@ && spawned(final(objects)@.last(), x as int, y as int, roll < ORC_CHANCE),
        !placed ==> final(objects)@ == old(objects)@,
{
    if is_blocked_by_object(x, y, objects) {
        return false;
    }
    let monster = if roll < ORC_CHANCE {
        let mut orc = Object::new(x, y, 'o', "orc", desaturated_green());
        orc.fighter = Some(
            Fighter { max_hp: 10, hp: 10, defense: 0, attack: 3, on_death: DeathCallback::Monster },
        );
        orc.ai = Some(Ai);
        orc
    } else {
        let mut troll = Object::new(x, y, 'T', "troll", darker_red());
        troll.fighter = Some(
            Fighter { max_hp: 16, hp: 16, defense: 1, attack: 4, on_death: DeathCallback::Monster },
        );
        troll.ai = Some(Ai);
        troll
    };
    let ghost before = objects@;
    objects.push(monster);
    assert(objects@.drop_last() =~= before);
    true
}

/// What seeding a room leaves behind: the entities that were there are kept in place, and
/// each one added is a monster inside the room on a cell that no earlier blocking entity holds.
pub open spec fn seeded(before: Seq<Object>, after: Seq<Object>, room: Rect) -> bool {
    &&& before.len() <= after.len()
    &&& after.take(before.len() as int) == before
    &&& forall|k: int|
        before.len() <= k < after.len() ==> {
            &&& room.interior_contains((#[trigger] after[k]).x as int, after[k].y as int)
            &&& is_monster_at(after[k], after[k].x as int, after[k].y as int)
            &&& !blocked_by_object(after.take(k), after[k].x as int, after[k].y as int)
        }
}

/// `after` is `before` once the draw `spot` (a position and a roll) has been tried.
pub open spec fn placed_one(before: Seq<Object>, after: Seq<Object>, spot: (i32, i32, i32)) -> bool {
    if blocked_by_object(before, spot.0 as int, spot.1 as int) {
        after == before
    } else {
        &&& after.len() == before.len() + 1
        &&& after.drop_last() == before
        &&& spawned(after.last(), spot.0 as int, spot.1 as int, spot.2 < ORC_CHANCE)
    }
}

/// Trying the draws of `spots` from index `from` on, in order, leads from `before` to `after`.
pub open spec fn placements(before: Seq<Object>, after: Seq<Object>, spots: Seq<(i32, i32, i32)>, from: int) -> bool
    decreases spots.len() - from,
{
    if from >= spots.len() {
        after == before
    } else {
        exists|mid: Seq<Object>| #[trigger] placed_one(before, mid, spots[from]) && placements(mid, after, spots, from + 1)
    }
}

/// What trying `spots` leaves behind: the entities that were there are kept, and each one
/// added is a monster at one of the drawn positions, on a cell that no earlier blocking
/// entity holds.
pub open spec fn seeded_at(before: Seq<Object>, after: Seq<Object>, spots: Seq<(i32, i32, i32)>) -> bool {
    &&& before.len() <= after.len()
    &&& after.take(before.len() as int) == before
    &&& forall|k: int|
        before.len() <= k < after.len() ==> {
            &&& exists|i: int|
                0 <= i < spots.len() && (#[trigger] spots[i]).0 == after[k].x && spots[i].1 == after[k].y
            &&& is_monster_at(#[trigger] after[k], after[k].x as int, after[k].y as int)
            &&& !blocked_by_object(after.take(k), after[k].x as int, after[k].y as int)
        }
}

/// Tries each draw of `spots` in order with `place_monster`.
pub fn place_monsters(objects: &mut Vec<Object>, spots: &Vec<(i32, i32, i32)>)
    ensures
        placements(old(objects)@, final(objects)@, spots@, 0),
        seeded_at(old(objects)@, final(objects)@, spots@),
        final(objects)@.len() <= old(objects)@.len() + spots@.len(),
{
    let ghost start = objects@;
    let mut i: usize = 0;
    assert(objects@.take(objects@.len() as int) =~= objects@);
    while i < spots.len()
        invariant
            0 <= i <= spots@.len(),
            seeded_at(start, objects@, spots@),
            objects@.len() <= start.len() + i,
            forall|a: Seq<Object>|
                #[trigger] placements(objects@, a, spots@, i as int) ==> placements(start, a, spots@, 0),
        decreases spots@.len() - i,
    {
        let (x, y, roll) = spots[i];
        let ghost before = objects@;
        let placed = place_monster(objects, x, y, roll);
        proof {
            let after = objects@;
            assert(placed_one(before, after, spots@[i as int]));
            assert forall|a: Seq<Object>| #[trigger] placements(after, a, spots@, i + 1) implies placements(
                start,
                a,
                spots@,
                0,
            ) by {
                assert(placements(before, a, spots@, i as int));
            }
            if placed {
                assert(after.take(before.len() as int) =~= before);
                assert(after.take(start.len() as int) =~= before.take(start.len() as int));
                assert forall|k: int| start.len() <= k < after.len() implies {
                    &&& exists|j: int|
                        0 <= j < spots@.len() && (#[trigger] spots@[j]).0 == after[k].x && spots@[j].1 == after[k].y
                    &&& is_monster_at(#[trigger] after[k], after[k].x as int, after[k].y as int)
                    &&& !blocked_by_object(after.take(k), after[k].x as int, after[k].y as int)
                } by {
                    if k < before.len() {
                        assert(after[k] == before[k]);
                        assert(after.take(k) =~= before.take(k));
                    } else {
                        assert(after.take(k) =~= before);
                        assert(spots@[i as int].0 == after[k].x && spots@[i as int].1 == after[k].y);
                    }
                }
            }
        }
        i = i + 1;
    }
    assert(placements(objects@, objects@, spots@, i as int));
}

/// Scatters up to `MAX_ROOM_MONSTERS` monsters over the interior of `room`: draws how many,
/// then a position inside the room and a roll for each, and tries them in order; a draw that
/// lands on a blocked cell is dropped.
pub fn place_objects(room: Rect, objects: &mut Vec<Object>)
    requires
        room.x1 + 2 <= room.x2,
        room.y1 + 2 <= room.y2,
    ensures
        seeded(old(objects)@, final(objects)@, room),
        final(objects)@.len() <= old(objects)@.len() + MAX_ROOM_MONSTERS,
{
    let num_monsters = random_below(0, MAX_ROOM_MONSTERS + 1);
    let mut spots: Vec<(i32, i32, i32)> = Vec::new();
    let mut i: i32 = 0;
    while i < num_monsters
        invariant
            room.x1 + 2 <= room.x2,
            room.y1 + 2 <= room.y2,
            0 <= i <= num_monsters <= MAX_ROOM_MONSTERS,
            spots@.len() == i,
            forall|j: int| 0 <= j < i ==> room.interior_contains((#[trigger] spots@[j]).0 as int, spots@[j].1 as int),
        decreases num_monsters - i,
    {
        let x = random_below(room.x1 + 1, room.x2);
        let y = random_below(room.y1 + 1, room.y2);
        let roll = random_below(0, 100);
        spots.push((x, y, roll));
        i = i + 1;
    }
    place_monsters(objects, &spots);
    proof {
        let after = objects@;
        let o = old(objects)@;
        assert forall|k: int| o.len() <= k < after.len() implies room.interior_contains(
            (#[trigger] after[k]).x as int,
            after[k].y as int,
        ) by {
            let j = choose|j: int|
                0 <= j < spots@.len() && (#[trigger] spots@[j]).0 == after[k].x && spots@[j].1 == after[k].y;
        }
    }
}


/// What populating a dungeon leaves behind: the player stands at the center of the first
/// room, every other entity that was there is kept, and each one added is a monster inside
/// one of `rooms` on a cell that no earlier blocking entity holds.
pub open spec fn populated(before: Seq<Object>, after: Seq<Object>, rooms: Seq<Rect>) -> bool {
    &&& 0 < before.len() <= after.len()
    &&& after[PLAYER as int] == (Object {
        x: rooms[0].spec_center().0 as i32,
        y: rooms[0].spec_center().1 as i32,
        ..before[PLAYER as int]
    })
    &&& forall|j: int| 1 <= j < before.len() ==> after[j] == #[trigger] before[j]
    &&& forall|k: int|
        before.len() <= k < after.len() ==> {
            &&& exists|r: int|
                0 <= r < rooms.len() && (#[trigger] rooms[r]).interior_contains(
                    after[k].x as int,
                    after[k].y as int,
                )
            &&& is_monster_at(#[trigger] after[k], after[k].x as int, after[k].y as int)
            &&& !blocked_by_object(after.take(k), after[k].x as int, after[k].y as int)
        }
}

/// Generates a `MAP_WIDTH` x `MAP_HEIGHT` dungeon in `MAX_ROOMS` attempts at placing a room,
/// moves the player to the first room and seeds each room with monsters as it is placed.
/// Returns the grid and the rooms in the order they were placed.
pub fn make_map(objects: &mut Vec<Object>) -> (r: (Grid, Vec<Rect>))
    requires
        old(objects)@.len() > 0,
    ensures
        dungeon_ok(r.0, r.1@),
        r.0.width == MAP_WIDTH,
        r.0.height == MAP_HEIGHT,
        1 <= r.1@.len() <= MAX_ROOMS,
        forall|k: int| 0 <= k < r.1@.len() ==> room_sized(#[trigger] r.1@[k]),
        exists|flips: Seq<bool>| carved_exactly(r.0, r.1@, flips),
        forall|x: int, y: int|
            r.0.in_bounds(x, y) && (x == 0 || y == 0 || x == MAP_WIDTH - 1 || y == MAP_HEIGHT - 1)
                ==> #[trigger] r.0.tile(x, y) == Tile::spec_wall(),
        populated(old(objects)@, final(objects)@, r.1@),
        final(objects)@.len() <= old(objects)@.len() + MAX_ROOM_MONSTERS * r.1@.len(),
{
    let mut map = Grid::new(MAP_WIDTH, MAP_HEIGHT);
    let mut rooms: Vec<Rect> = Vec::new();
    let ghost mut flips: Seq<bool> = Seq::empty();
    let mut i: i32 = 0;
    while i < MAX_ROOMS
        invariant
            0 <= i <= MAX_ROOMS,
            rooms@.len() <= i,
            i > 0 ==> rooms@.len() > 0,
            dungeon_ok(map, rooms@),
            map.width == MAP_WIDTH,
            map.height == MAP_HEIGHT,
            old(objects)@.len() > 0,
            rooms@.len() == 0 ==> objects@ == old(objects)@,
            rooms@.len() > 0 ==> populated(old(objects)@, objects@, rooms@),
            objects@.len() <= old(objects)@.len() + MAX_ROOM_MONSTERS * rooms@.len(),
            forall|k: int| 0 <= k < rooms@.len() ==> room_sized(#[trigger] rooms@[k]),
            carved_exactly(map, rooms@, flips),
        decreases MAX_ROOMS - i,
    {
        let w = random_below(MIN_ROOM_WIDTH, MAX_ROOM_WIDTH);
        let h = random_below(MIN_ROOM_HEIGHT, MAX_ROOM_HEIGHT);
        let x = random_below(0, MAP_WIDTH - w);
        let y = random_below(0, MAP_HEIGHT - h);
        let room_rect = Rect::new(x, y, w, h);
        let horizontal_first = coin_flip();
        let first = rooms.len() == 0;
        let ghost rooms_before = rooms@;
        let ghost objects_before = objects@;
        let ghost map_before = map;
        if add_room(&mut map, &mut rooms, room_rect, horizontal_first) {
            proof {
                lemma_carved_push(map_before, map, rooms_before, flips, room_rect, horizontal_first);
                flips = flips.push(horizontal_first);
            }
            if first {
                let (new_x, new_y) = room_rect.center();
                objects[PLAYER].set_pos(new_x, new_y);
            }
            let ghost placed_from = objects@;
            place_objects(room_rect, objects);
            proof {
                let after = objects@;
                let o = old(objects)@;
                assert(rooms@[rooms@.len() - 1] == room_rect);
                if !first {
                    assert(rooms@[0] == rooms_before[0]);
                }
                assert(after[PLAYER as int] == after.take(placed_from.len() as int)[PLAYER as int]);
                assert forall|j: int| 1 <= j < o.len() implies after[j] == #[trigger] o[j] by {
                    assert(after[j] == after.take(placed_from.len() as int)[j]);
                }
                assert forall|k: int| o.len() <= k < after.len() implies {
                    &&& exists|r: int|
                        0 <= r < rooms@.len() && (#[trigger] rooms@[r]).interior_contains(
                            after[k].x as int,
                            after[k].y as int,
                        )
                    &&& is_monster_at(#[trigger] after[k], after[k].x as int, after[k].y as int)
                    &&& !blocked_by_object(after.take(k), after[k].x as int, after[k].y as int)
                } by {
                    if k < placed_from.len() {
                        assert(!first);
                        assert(after[k] == placed_from[k]);
                        assert(after.take(k) =~= placed_from.take(k));
                        let r = choose|r: int|
                            0 <= r < rooms_before.len() && (#[trigger] rooms_before[r]).interior_contains(
                                placed_from[k].x as int,
                                placed_from[k].y as int,
                            );
                        assert(rooms@[r] == rooms_before[r]);
                    } else {
                        assert(rooms@[rooms@.len() - 1].interior_contains(after[k].x as int, after[k].y as int));
                    }
                }
            }
        } else {
            proof {
                if rooms@.len() > 0 {
                    assert(objects@ == objects_before);
                }
            }
        }
        i = i + 1;
    }
    proof {
        lemma_border_is_wall(map, rooms@, flips);
    }
    (map, rooms)
}

/// The size bounds a generated room is drawn within.
pub open spec fn room_sized(room: Rect) -> bool {
    &&& MIN_ROOM_WIDTH <= room.x2 - room.x1 < MAX_ROOM_WIDTH
    &&& MIN_ROOM_HEIGHT <= room.y2 - room.y1 < MAX_ROOM_HEIGHT
}

/// Carving one more room and its corridor keeps the grid carved exactly.
proof fn lemma_carved_push(before: Grid, after: Grid, rooms: Seq<Rect>, flips: Seq<bool>, room: Rect, horizontal_first: bool)
    requires
        carved_exactly(before, rooms, flips),
        after.width == before.width,
        after.height == before.height,
        forall|x: int, y: int|
            before.in_bounds(x, y) ==> #[trigger] after.tile(x, y) == if room.interior_contains(x, y) || (rooms.len()
                > 0 && on_corridor(rooms.last().spec_center(), room.spec_center(), horizontal_first, x, y)) {
                Tile::spec_empty()
            } else {
                before.tile(x, y)
            },
    ensures
        carved_exactly(after, rooms.push(room), flips.push(horizontal_first)),
{
    let rs = rooms.push(room);
    let fs = flips.push(horizontal_first);
    let n = rooms.len() as int;
    assert forall|x: int, y: int| after.in_bounds(x, y) implies #[trigger] after.tile(x, y) == if in_some_room(rs, x, y)
        || on_some_corridor(rs, fs, x, y) {
        Tile::spec_empty()
    } else {
        Tile::spec_wall()
    } by {
        assert(before.in_bounds(x, y));
        let old_cell = before.tile(x, y);
        if in_some_room(rooms, x, y) {
            let k = choose|k: int| 0 <= k < rooms.len() && (#[trigger] rooms[k]).interior_contains(x, y);
            assert(rs[k] == rooms[k]);
        }
        if on_some_corridor(rooms, flips, x, y) {
            let k = choose|k: int|
                1 <= k < rooms.len() && on_corridor(
                    rooms[k - 1].spec_center(),
                    (#[trigger] rooms[k]).spec_center(),
                    flips[k],
                    x,
                    y,
                );
            assert(rs[k] == rooms[k] && rs[k - 1] == rooms[k - 1] && fs[k] == flips[k]);
        }
        if room.interior_contains(x, y) {
            assert(rs[n] == room);
        }
        if n > 0 && on_corridor(rooms.last().spec_center(), room.spec_center(), horizontal_first, x, y) {
            assert(rs[n] == room && rs[n - 1] == rooms[n - 1] && fs[n] == horizontal_first);
        }
        if in_some_room(rs, x, y) {
            let k = choose|k: int| 0 <= k < rs.len() && (#[trigger] rs[k]).interior_contains(x, y);
            if k < n {
                assert(rs[k] == rooms[k]);
            }
        }
        if on_some_corridor(rs, fs, x, y) {
            let k = choose|k: int|
                1 <= k < rs.len() && on_corridor(rs[k - 1].spec_center(), (#[trigger] rs[k]).spec_center(), fs[k], x, y);
            if k < n {
                assert(rs[k] == rooms[k] && rs[k - 1] == rooms[k - 1] && fs[k] == flips[k]);
            } else {
                assert(rs[k - 1] == rooms.last());
            }
        }
    }
}

/// In a dungeon carved exactly from rooms that lie on the grid, the outermost cells stay wall.
proof fn lemma_border_is_wall(map: Grid, rooms: Seq<Rect>, flips: Seq<bool>)
    requires
        dungeon_ok(map, rooms),
        carved_exactly(map, rooms, flips),
    ensures
        forall|x: int, y: int|
            map.in_bounds(x, y) && (x == 0 || y == 0 || x == map.width - 1 || y == map.height - 1)
                ==> #[trigger] map.tile(x, y) == Tile::spec_wall(),
{
    assert forall|x: int, y: int|
        map.in_bounds(x, y) && (x == 0 || y == 0 || x == map.width - 1 || y == map.height - 1) implies #[trigger] map.tile(
        x,
        y,
    ) == Tile::spec_wall() by {
        if in_some_room(rooms, x, y) {
            let k = choose|k: int| 0 <= k < rooms.len() && (#[trigger] rooms[k]).interior_contains(x, y);
            assert(room_on_grid(map, rooms[k]));
        }
        if on_some_corridor(rooms, flips, x, y) {
            let k = choose|k: int|
                1 <= k < rooms.len() && on_corridor(
                    rooms[k - 1].spec_center(),
                    (#[trigger] rooms[k]).spec_center(),
                    flips[k],
                    x,
                    y,
                );
            assert(room_on_grid(map, rooms[k]));
            assert(room_on_grid(map, rooms[k - 1]));
        }
    }
}


/// In a generated dungeon every cell inside every room can be reached from the center of the
/// first room, where the player starts, over walkable cells.
pub proof fn lemma_room_cells_reachable(map: Grid, rooms: Seq<Rect>, k: int, x: int, y: int)
    requires
        dungeon_ok(map, rooms),
        0 <= k < rooms.len(),
        rooms[k].interior_contains(x, y),
    ensures
        reachable(map, rooms[0].spec_center(), (x, y)),
{
    let room = rooms[k];
    let c = room.spec_center();
    assert(room_on_grid(map, room));
    assert forall|i: int| (c.0 <= i <= x || x <= i <= c.0) implies #[trigger] map.walkable(i, c.1) by {
        assert(room.interior_contains(i, c.1));
    }
    lemma_row_reachable(map, c.0, x, c.1);
    assert forall|j: int| (c.1 <= j <= y || y <= j <= c.1) implies #[trigger] map.walkable(x, j) by {
        assert(room.interior_contains(x, j));
    }
    lemma_column_reachable(map, x, c.1, y);
    lemma_reachable_trans(map, c, (x, c.1), (x, y));
    lemma_reachable_trans(map, rooms[0].spec_center(), c, (x, y));
}

/// In a generated dungeon no cell inside one room touches a cell inside another, not even
/// diagonally: a wall always lies between two rooms.
pub proof fn lemma_rooms_apart(map: Grid, rooms: Seq<Rect>, j: int, k: int, a: (int, int), b: (int, int))
    requires
        dungeon_ok(map, rooms),
        0 <= j < rooms.len(),
        0 <= k < rooms.len(),
        j != k,
        rooms[j].interior_contains(a.0, a.1),
        rooms[k].interior_contains(b.0, b.1),
    ensures
        !adjacent(a, b),
{
    if j < k {
        assert(!rooms[j].spec_intersects(rooms[k]));
    } else {
        assert(!rooms[k].spec_intersects(rooms[j]));
    }
}

} // verus!
