use vstd::prelude::*;

verus! {

/// One cell of the dungeon.
#[derive(Clone, Copy, Debug, PartialEq, Eq)]
pub struct Tile {
    pub is_walkable: bool,
    pub is_transparent: bool,
    pub explored: bool,
}

impl Tile {
    pub open spec fn spec_empty() -> Tile {
        Tile { is_walkable: true, is_transparent: true, explored: false }
    }

    pub open spec fn spec_wall() -> Tile {
        Tile { is_walkable: false, is_transparent: false, explored: false }
    }

    pub fn empty() -> (t: Tile)
        ensures
            t == Tile::spec_empty(),
    {
        Tile::new(true, true)
    }

    pub fn wall() -> (t: Tile)
        ensures
            t == Tile::spec_wall(),
    {
        Tile::new(false, false)
    }

    pub fn new(is_walkable: bool, is_transparent: bool) -> (t: Tile)
        ensures
            t == (Tile { is_walkable, is_transparent, explored: false }),
    {
        Tile { is_walkable, is_transparent, explored: false }
    }
}

/// Half of `n`, rounded toward zero as integer division does.
pub open spec fn half(n: int) -> int {
    if n >= 0 {
        n / 2
    } else {
        -((-n) / 2)
    }
}

fn halve(n: i64) -> (r: i32)
    requires
        2 * i32::MIN <= n <= 2 * i32::MAX,
    ensures
        r == half(n as int),
{
    if n >= 0 {
        (n / 2) as i32
    } else {
        (-((-n) / 2)) as i32
    }
}

/// An axis-aligned rectangle `[x1, x2] x [y1, y2]`, used for rooms.
#[derive(Clone, Copy, Debug, PartialEq, Eq, Structural)]
pub struct Rect {
    pub x1: i32,
    pub y1: i32,
    pub x2: i32,
    pub y2: i32,
}

impl Rect {
    pub open spec fn spec_center(self) -> (int, int) {
        (half(self.x1 + self.x2), half(self.y1 + self.y2))
    }

    /// Inclusive overlap: rectangles that merely touch do intersect.
    pub open spec fn spec_intersects(self, other: Rect) -> bool {
        self.x1 <= other.x2 && self.x2 >= other.x1 && self.y1 <= other.y2 && self.y2 >= other.y1
    }

    /// The cell lies strictly inside the rectangle's border.
    pub open spec fn interior_contains(self, x: int, y: int) -> bool {
        self.x1 < x < self.x2 && self.y1 < y < self.y2
    }

    pub fn new(x: i32, y: i32, w: i32, h: i32) -> (r: Rect)
        requires
            i32::MIN <= x + w <= i32::MAX,
            i32::MIN <= y + h <= i32::MAX,
        ensures
            r == (Rect { x1: x, y1: y, x2: (x + w) as i32, y2: (y + h) as i32 }),
    {
        Rect { x1: x, y1: y, x2: x + w, y2: y + h }
    }

    pub fn center(&self) -> (c: (i32, i32))
        ensures
            c.0 == self.spec_center().0,
            c.1 == self.spec_center().1,
    {
        (halve(self.x1 as i64 + self.x2 as i64), halve(self.y1 as i64 + self.y2 as i64))
    }

    pub fn intersects_with(&self, other: &Rect) -> (b: bool)
        ensures
            b == self.spec_intersects(*other),
    {
        self.x1 <= other.x2 && self.x2 >= other.x1 && self.y1 <= other.y2 && self.y2 >= other.y1
    }
}

/// A `width` x `height` array of tiles, stored column by column (`tiles[x][y]`).
pub struct Grid {
    pub width: i32,
    pub height: i32,
    pub tiles: Vec<Vec<Tile>>,
}

impl Grid {
    pub open spec fn wf(&self) -> bool {
        &&& 0 <= self.width
        &&& 0 <= self.height
        &&& self.tiles@.len() == self.width
        &&& forall|x: int| 0 <= x < self.width ==> (#[trigger] self.tiles@[x])@.len() == self.height
    }

    pub open spec fn in_bounds(&self, x: int, y: int) -> bool {
        0 <= x < self.width && 0 <= y < self.height
    }

    pub open spec fn tile(&self, x: int, y: int) -> Tile {
        self.tiles@[x]@[y]
    }

    pub open spec fn walkable(&self, x: int, y: int) -> bool {
        self.in_bounds(x, y) && self.tile(x, y).is_walkable
    }

    /// Same shape, and every cell walkable in `self` is walkable in `other`.
    pub open spec fn walkable_within(&self, other: &Grid) -> bool {
        &&& other.width == self.width
        &&& other.height == self.height
        &&& forall|x: int, y: int| #[trigger] self.walkable(x, y) ==> other.walkable(x, y)
    }

    /// A grid of the given size, wall everywhere.
    pub fn new(width: i32, height: i32) -> (g: Grid)
        requires
            0 <= width,
            0 <= height,
        ensures
            g.wf(),
            g.width == width,
            g.height == height,
            forall|x: int, y: int| g.in_bounds(x, y) ==> #[trigger] g.tile(x, y) == Tile::spec_wall(),
    {
        let mut tiles: Vec<Vec<Tile>> = Vec::new();
        let mut x: i32 = 0;
        while x < width
            invariant
                0 <= height,
                0 <= x <= width,
                tiles@.len() == x,
                forall|i: int| 0 <= i < x ==> (#[trigger] tiles@[i])@.len() == height,
                forall|i: int, j: int|
                    0 <= i < x && 0 <= j < height ==> #[trigger] tiles@[i]@[j] == Tile::spec_wall(),
            decreases width - x,
        {
            let mut column: Vec<Tile> = Vec::new();
            let mut y: i32 = 0;
            while y < height
                invariant
                    0 <= height,
                    0 <= y <= height,
                    column@.len() == y,
                    forall|j: int| 0 <= j < y ==> #[trigger] column@[j] == Tile::spec_wall(),
                decreases height - y,
            {
                column.push(Tile::wall());
                y = y + 1;
            }
            tiles.push(column);
            x = x + 1;
        }
        Grid { width, height, tiles }
    }

    pub fn tile_at(&self, x: i32, y: i32) -> (t: Tile)
        requires
            self.wf(),
            self.in_bounds(x as int, y as int),
        ensures
            t == self.tile(x as int, y as int),
    {
        self.tiles[x as usize][y as usize]
    }

    /// Replaces one tile, leaving every other tile as it was.
    pub fn set_tile(&mut self, x: i32, y: i32, t: Tile)
        requires
            old(self).wf(),
            old(self).in_bounds(x as int, y as int),
        ensures
            final(self).wf(),
            final(self).width == old(self).width,
            final(self).height == old(self).height,
            final(self).tile(x as int, y as int) == t,
            forall|i: int, j: int|
                old(self).in_bounds(i, j) && !(i == x && j == y) ==> #[trigger] final(self).tile(i, j)
                    == old(self).tile(i, j),
    {
        let ghost before = *self;
        self.tiles[x as usize].set(y as usize, t);
        assert forall|i: int| 0 <= i < self.width implies (#[trigger] self.tiles@[i])@.len() == self.height by {
            if i != x {
                assert(self.tiles@[i] == before.tiles@[i]);
            }
        }
        assert forall|i: int, j: int| before.in_bounds(i, j) && !(i == x && j == y) implies #[trigger] self.tile(i, j) == before.tile(i, j) by {
            if i != x {
                assert(self.tiles@[i] == before.tiles@[i]);
            }
        }
    }
}


/// Two cells touch, orthogonally or diagonally (or are the same cell).
pub open spec fn adjacent(a: (int, int), b: (int, int)) -> bool {
    -1 <= a.0 - b.0 <= 1 && -1 <= a.1 - b.1 <= 1
}

/// The two cells share a side (or are the same cell).
pub open spec fn orthogonal(a: (int, int), b: (int, int)) -> bool {
    (a.0 == b.0 && -1 <= a.1 - b.1 <= 1) || (a.1 == b.1 && -1 <= a.0 - b.0 <= 1)
}

/// `path` is a non-empty sequence of walkable cells, each sharing a side with the next.
pub open spec fn is_walk(map: Grid, path: Seq<(int, int)>) -> bool {
    &&& path.len() > 0
    &&& forall|i: int| 0 <= i < path.len() ==> map.walkable(#[trigger] path[i].0, path[i].1)
    &&& forall|i: int| 0 <= i < path.len() - 1 ==> #[trigger] orthogonal(path[i], path[i + 1])
}

/// One can walk from `a` to `b` over walkable cells only, in steps up, down, left or right.
pub open spec fn reachable(map: Grid, a: (int, int), b: (int, int)) -> bool {
    exists|path: Seq<(int, int)>| is_walk(map, path) && path[0] == a && path.last() == b
}

pub proof fn lemma_reachable_grows(before: Grid, after: Grid, a: (int, int), b: (int, int))
    requires
        before.walkable_within(&after),
        reachable(before, a, b),
    ensures
        reachable(after, a, b),
{
    let path = choose|path: Seq<(int, int)>| is_walk(before, path) && path[0] == a && path.last() == b;
    assert forall|i: int| 0 <= i < path.len() implies after.walkable(#[trigger] path[i].0, path[i].1) by {
        assert(before.walkable(path[i].0, path[i].1));
    }
    assert(is_walk(after, path));
}

pub proof fn lemma_reachable_trans(map: Grid, a: (int, int), b: (int, int), c: (int, int))
    requires
        reachable(map, a, b),
        reachable(map, b, c),
    ensures
        reachable(map, a, c),
{
    let p = choose|path: Seq<(int, int)>| is_walk(map, path) && path[0] == a && path.last() == b;
    let q = choose|path: Seq<(int, int)>| is_walk(map, path) && path[0] == b && path.last() == c;
    let r = p + q;
    assert forall|i: int| 0 <= i < r.len() implies map.walkable(#[trigger] r[i].0, r[i].1) by {
        if i < p.len() {
            assert(r[i] == p[i]);
        } else {
            assert(r[i] == q[i - p.len()]);
        }
    }
    assert forall|i: int| 0 <= i < r.len() - 1 implies #[trigger] orthogonal(r[i], r[i + 1]) by {
        if i < p.len() - 1 {
            assert(r[i] == p[i] && r[i + 1] == p[i + 1]);
        } else if i == p.len() - 1 {
            assert(r[i] == b && r[i + 1] == b);
        } else {
            assert(r[i] == q[i - p.len()] && r[i + 1] == q[i - p.len() + 1]);
        }
    }
    assert(r[0] == a);
    assert(r.last() == c);
}

/// A walkable cell reaches itself.
pub proof fn lemma_reachable_refl(map: Grid, a: (int, int))
    requires
        map.walkable(a.0, a.1),
    ensures
        reachable(map, a, a),
{
    let path = seq![a];
    assert(is_walk(map, path));
    assert(path[0] == a && path.last() == a);
}

/// A straight run of walkable cells along a row joins its two ends.
pub proof fn lemma_row_reachable(map: Grid, x1: int, x2: int, y: int)
    requires
        forall|x: int| (x1 <= x <= x2 || x2 <= x <= x1) ==> #[trigger] map.walkable(x, y),
    ensures
        reachable(map, (x1, y), (x2, y)),
{
    let n: int = if x1 <= x2 { x2 - x1 + 1 } else { x1 - x2 + 1 };
    let path = Seq::new(n as nat, |k: int| (if x1 <= x2 { x1 + k } else { x1 - k }, y));
    assert forall|i: int| 0 <= i < path.len() implies map.walkable(#[trigger] path[i].0, path[i].1) by {
        assert(map.walkable(path[i].0, y));
    }
    assert forall|i: int| 0 <= i < path.len() - 1 implies #[trigger] orthogonal(path[i], path[i + 1]) by {
    }
    assert(is_walk(map, path));
    assert(path[0] == (x1, y));
    assert(path.last() == (x2, y));
}

/// A straight run of walkable cells along a column joins its two ends.
pub proof fn lemma_column_reachable(map: Grid, x: int, y1: int, y2: int)
    requires
        forall|y: int| (y1 <= y <= y2 || y2 <= y <= y1) ==> #[trigger] map.walkable(x, y),
    ensures
        reachable(map, (x, y1), (x, y2)),
{
    let n: int = if y1 <= y2 { y2 - y1 + 1 } else { y1 - y2 + 1 };
    let path = Seq::new(n as nat, |k: int| (x, if y1 <= y2 { y1 + k } else { y1 - k }));
    assert forall|i: int| 0 <= i < path.len() implies map.walkable(#[trigger] path[i].0, path[i].1) by {
        assert(map.walkable(x, path[i].1));
    }
    assert forall|i: int| 0 <= i < path.len() - 1 implies #[trigger] orthogonal(path[i], path[i + 1]) by {
    }
    assert(is_walk(map, path));
    assert(path[0] == (x, y1));
    assert(path.last() == (x, y2));
}

} // verus!
