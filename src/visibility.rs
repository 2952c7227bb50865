use vstd::prelude::*;
use crate::grid::{Grid, Tile};
use crate::object::Object;

verus! {

/// The cells seen from the player's position this turn, as the line-of-sight sweep
/// reported them, stored column by column (`cells[x][y]`).
pub struct VisibilitySet {
    pub width: i32,
    pub height: i32,
    pub cells: Vec<Vec<bool>>,
}

impl VisibilitySet {
    pub open spec fn wf(&self) -> bool {
        &&& 0 <= self.width
        &&& 0 <= self.height
        &&& self.cells@.len() == self.width
        &&& forall|x: int| 0 <= x < self.width ==> (#[trigger] self.cells@[x])@.len() == self.height
    }

    pub open spec fn in_bounds(&self, x: int, y: int) -> bool {
        0 <= x < self.width && 0 <= y < self.height
    }

    /// `(x, y)` is seen; nothing off the grid is.
    pub open spec fn visible(&self, x: int, y: int) -> bool {
        self.in_bounds(x, y) && self.cells@[x]@[y]
    }

    /// A set of the given size in which nothing is seen.
    pub fn new(width: i32, height: i32) -> (v: VisibilitySet)
        requires
            0 <= width,
            0 <= height,
        ensures
            v.wf(),
            v.width == width,
            v.height == height,
            forall|x: int, y: int| !#[trigger] v.visible(x, y),
    {
        let mut cells: Vec<Vec<bool>> = Vec::new();
        let mut x: i32 = 0;
        while x < width
            invariant
                0 <= height,
                0 <= x <= width,
                cells@.len() == x,
                forall|i: int| 0 <= i < x ==> (#[trigger] cells@[i])@.len() == height,
                forall|i: int, j: int| 0 <= i < x && 0 <= j < height ==> !#[trigger] cells@[i]@[j],
            decreases width - x,
        {
            let mut column: Vec<bool> = Vec::new();
            let mut y: i32 = 0;
            while y < height
                invariant
                    0 <= height,
                    0 <= y <= height,
                    column@.len() == y,
                    forall|j: int| 0 <= j < y ==> !#[trigger] column@[j],
                decreases height - y,
            {
                column.push(false);
                y = y + 1;
            }
            cells.push(column);
            x = x + 1;
        }
        VisibilitySet { width, height, cells }
    }

    /// Records whether `(x, y)` is seen.
    pub fn set_visible(&mut self, x: i32, y: i32, seen: bool)
        requires
            old(self).wf(),
            old(self).in_bounds(x as int, y as int),
        ensures
            final(self).wf(),
            final(self).width == old(self).width,
            final(self).height == old(self).height,
            final(self).visible(x as int, y as int) == seen,
            forall|i: int, j: int|
                !(i == x && j == y) ==> #[trigger] final(self).visible(i, j) == old(self).visible(i, j),
    {
        let ghost before = *self;
        self.cells[x as usize].set(y as usize, seen);
        assert forall|i: int| 0 <= i < self.width implies (#[trigger] self.cells@[i])@.len() == self.height by {
            if i != x {
                assert(self.cells@[i] == before.cells@[i]);
            }
        }
        assert forall|i: int, j: int| !(i == x && j == y) implies #[trigger] self.visible(i, j) == before.visible(i, j) by {
            if i != x && before.in_bounds(i, j) {
                assert(self.cells@[i] == before.cells@[i]);
            }
        }
    }

    pub fn is_visible(&self, x: i32, y: i32) -> (b: bool)
        requires
            self.wf(),
        ensures
            b == self.visible(x as int, y as int),
    {
        if 0 <= x && x < self.width && 0 <= y && y < self.height {
            self.cells[x as usize][y as usize]
        } else {
            false
        }
    }
}

/// `after` is `before` with every cell seen in `visible` marked explored and nothing else changed.
pub open spec fn explored_by(before: Grid, after: Grid, visible: VisibilitySet) -> bool {
    &&& after.wf()
    &&& after.width == before.width
    &&& after.height == before.height
    &&& forall|x: int, y: int|
        before.in_bounds(x, y) ==> #[trigger] after.tile(x, y) == (Tile {
            explored: before.tile(x, y).explored || visible.visible(x, y),
            ..before.tile(x, y)
        })
}

/// Marks every cell that is seen now as explored. A cell once explored stays explored.
pub fn mark_explored(map: &mut Grid, visible: &VisibilitySet)
    requires
        old(map).wf(),
        visible.wf(),
    ensures
        explored_by(*old(map), *final(map), *visible),
        forall|x: int, y: int|
            old(map).in_bounds(x, y) && old(map).tile(x, y).explored ==> #[trigger] final(map).tile(x, y).explored,
{
    let ghost before = *map;
    let mut x: i32 = 0;
    while x < map.width
        invariant
            map.wf(),
            visible.wf(),
            map.width == before.width,
            map.height == before.height,
            0 <= x <= map.width,
            forall|i: int, j: int|
                map.in_bounds(i, j) ==> #[trigger] map.tile(i, j) == if i < x {
                    Tile { explored: before.tile(i, j).explored || visible.visible(i, j), ..before.tile(i, j) }
                } else {
                    before.tile(i, j)
                },
        decreases map.width - x,
    {
        let mut y: i32 = 0;
        while y < map.height
            invariant
                map.wf(),
                visible.wf(),
                map.width == before.width,
                map.height == before.height,
                0 <= x < map.width,
                0 <= y <= map.height,
                forall|i: int, j: int|
                    map.in_bounds(i, j) ==> #[trigger] map.tile(i, j) == if i < x || (i == x && j < y) {
                        Tile { explored: before.tile(i, j).explored || visible.visible(i, j), ..before.tile(i, j) }
                    } else {
                        before.tile(i, j)
                    },
            decreases map.height - y,
        {
            if visible.is_visible(x, y) {
                let t = map.tile_at(x, y);
                map.set_tile(x, y, Tile { explored: true, ..t });
            }
            y = y + 1;
        }
        x = x + 1;
    }
}

/// Over any sequence of visibility updates, where each grid is the one before it with the
/// cells seen at that step marked explored, a cell explored in one grid is explored in
/// every later one.
pub proof fn lemma_explored_persists(grids: Seq<Grid>, sets: Seq<VisibilitySet>, i: int, j: int, x: int, y: int)
    requires
        grids.len() == sets.len() + 1,
        forall|k: int| 0 <= k < sets.len() ==> explored_by(#[trigger] grids[k], grids[k + 1], sets[k]),
        0 <= i <= j < grids.len(),
        grids[i].in_bounds(x, y),
        grids[i].tile(x, y).explored,
    ensures
        grids[j].in_bounds(x, y),
        grids[j].tile(x, y).explored,
    decreases j - i,
{
    if i < j {
        assert(explored_by(grids[i], grids[i + 1], sets[i]));
        lemma_explored_persists(grids, sets, i + 1, j, x, y);
    }
}

/// Marking the same visible set twice leaves the grid as marking it once did.
pub proof fn lemma_explore_twice(g0: Grid, g1: Grid, g2: Grid, visible: VisibilitySet)
    requires
        explored_by(g0, g1, visible),
        explored_by(g1, g2, visible),
    ensures
        forall|x: int, y: int| g0.in_bounds(x, y) ==> #[trigger] g2.tile(x, y) == g1.tile(x, y),
{
}

/// A corpse or other entity that lets others pass is drawn beneath the rest once its cell is explored.
pub fn draws_in_background(object: &Object, map: &Grid) -> (b: bool)
    requires
        map.wf(),
    ensures
        b == (object.is_walkable && map.in_bounds(object.x as int, object.y as int) && map.tile(
            object.x as int,
            object.y as int,
        ).explored),
{
    object.is_walkable && 0 <= object.x && object.x < map.width && 0 <= object.y && object.y < map.height
        && map.tile_at(object.x, object.y).explored
}

/// An entity that blocks is drawn on top, and only while its cell is seen.
pub fn draws_in_foreground(object: &Object, visible: &VisibilitySet) -> (b: bool)
    requires
        visible.wf(),
    ensures
        b == (!object.is_walkable && visible.visible(object.x as int, object.y as int)),
{
    !object.is_walkable && visible.is_visible(object.x, object.y)
}


/// The names of the entities at `(x, y)`, in store order.
pub open spec fn names_at(objects: Seq<Object>, x: int, y: int) -> Seq<Seq<char>>
    decreases objects.len(),
{
    if objects.len() == 0 {
        seq![]
    } else {
        let rest = names_at(objects.drop_last(), x, y);
        if objects.last().x == x && objects.last().y == y {
            rest.push(objects.last().name@)
        } else {
            rest
        }
    }
}

/// The names joined by ", ".
pub open spec fn joined(names: Seq<Seq<char>>) -> Seq<char>
    decreases names.len(),
{
    if names.len() == 0 {
        seq![]
    } else if names.len() == 1 {
        names[0]
    } else {
        joined(names.drop_last()) + ", "@ + names.last()
    }
}

/// The names of the entities on a cell that is seen, joined by ", "; empty when the cell
/// is not seen.
pub fn names_under(x: i32, y: i32, visible: &VisibilitySet, objects: &Vec<Object>) -> (s: String)
    requires
        visible.wf(),
    ensures
        s@ == if visible.visible(x as int, y as int) {
            joined(names_at(objects@, x as int, y as int))
        } else {
            seq![]
        },
{
    if !visible.is_visible(x, y) {
        return String::new();
    }
    let mut s = String::new();
    let mut count: usize = 0;
    let mut i: usize = 0;
    while i < objects.len()
        invariant
            0 <= i <= objects@.len(),
            count == names_at(objects@.take(i as int), x as int, y as int).len(),
            count <= i,
            s@ == joined(names_at(objects@.take(i as int), x as int, y as int)),
        decreases objects@.len() - i,
    {
        let ghost prefix = objects@.take(i as int);
        assert(objects@.take(i as int + 1).drop_last() =~= prefix);
        let ghost names = names_at(prefix, x as int, y as int);
        if objects[i].x == x && objects[i].y == y {
            let ghost name = objects@[i as int].name@;
            let ghost grown = names.push(name);
            assert(names_at(objects@.take(i as int + 1), x as int, y as int) == grown);
            assert(grown.drop_last() =~= names);
            if count > 0 {
                s.append(", ");
            }
            s.append(objects[i].name.as_str());
            if count == 0 {
                assert(s@ =~= name);
            }
            count = count + 1;
        }
        i = i + 1;
    }
    assert(objects@.take(objects@.len() as int) =~= objects@);
    s
}

} // verus!
