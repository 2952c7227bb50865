use vstd::prelude::*;
use crate::color::Color;
use crate::game::Game;
use crate::grid::Grid;
use crate::object::{attack_log, damage_between, grid_distance, took_damage, Object};

verus! {

/// The reserved index of the player in the entity store.
pub const PLAYER: usize = 0;

/// What the player's action amounted to.
#[derive(Clone, Copy, Debug, PartialEq, Eq, Structural)]
pub enum PlayerAction {
    TookTurn,
    DidntTakeTurn,
    Exit,
}

/// Some entity that does not let others pass stands at `(x, y)`.
pub open spec fn blocked_by_object(objects: Seq<Object>, x: int, y: int) -> bool {
    exists|i: int|
        0 <= i < objects.len() && !(#[trigger] objects[i]).is_walkable && objects[i].x == x && objects[i].y == y
}

/// The cell `(x, y)` can be entered: it is on the grid, walkable and not blocked by an entity.
pub open spec fn can_enter(map: Grid, objects: Seq<Object>, x: int, y: int) -> bool {
    map.in_bounds(x, y) && map.tile(x, y).is_walkable && !blocked_by_object(objects, x, y)
}

/// `objects` after the entity at `id` has been put at `(x, y)`.
pub open spec fn moved(objects: Seq<Object>, id: int, x: int, y: int) -> Seq<Object> {
    objects.update(id, Object { x: x as i32, y: y as i32, ..objects[id] })
}

pub fn is_blocked_by_object(x: i32, y: i32, objects: &Vec<Object>) -> (b: bool)
    ensures
        b == blocked_by_object(objects@, x as int, y as int),
{
    let mut i: usize = 0;
    while i < objects.len()
        invariant
            0 <= i <= objects@.len(),
            forall|j: int|
                0 <= j < i ==> !(!(#[trigger] objects@[j]).is_walkable && objects@[j].x == x && objects@[j].y == y),
        decreases objects@.len() - i,
    {
        if !objects[i].is_walkable && objects[i].x == x && objects[i].y == y {
            return true;
        }
        i = i + 1;
    }
    false
}

pub fn is_blocked(map: &Grid, x: i32, y: i32, objects: &Vec<Object>) -> (b: bool)
    requires
        map.wf(),
        map.in_bounds(x as int, y as int),
    ensures
        b == !can_enter(*map, objects@, x as int, y as int),
{
    if !map.tile_at(x, y).is_walkable {
        return true;
    }
    is_blocked_by_object(x, y, objects)
}

/// Moves the entity at `id` by `(dx, dy)` when the cell there can be entered.
pub fn move_by(id: usize, dx: i32, dy: i32, map: &Grid, objects: &mut Vec<Object>) -> (r: PlayerAction)
    requires
        map.wf(),
        id < old(objects)@.len(),
    ensures
        ({
            let nx = old(objects)@[id as int].x + dx;
            let ny = old(objects)@[id as int].y + dy;
            if can_enter(*map, old(objects)@, nx, ny) {
                r == PlayerAction::TookTurn && final(objects)@ == moved(old(objects)@, id as int, nx, ny)
            } else {
                r == PlayerAction::DidntTakeTurn && final(objects)@ == old(objects)@
            }
        }),
{
    let (x, y) = objects[id].pos();
    let next_x = x as i64 + dx as i64;
    let next_y = y as i64 + dy as i64;
    if 0 <= next_x && next_x < map.width as i64 && 0 <= next_y && next_y < map.height as i64 {
        if !is_blocked(map, next_x as i32, next_y as i32, objects) {
            objects[id].set_pos(next_x as i32, next_y as i32);
            return PlayerAction::TookTurn;
        }
    }
    PlayerAction::DidntTakeTurn
}


pub open spec fn sign(n: int) -> int {
    if n == 0 {
        0
    } else if n > 0 {
        1
    } else {
        -1
    }
}

/// Where the entity at `id` ends up after one greedy step toward `(tx, ty)`: the diagonal
/// step if it can be taken, else the horizontal one, else the vertical one, else nowhere.
pub open spec fn pursuit_step(map: Grid, objects: Seq<Object>, id: int, tx: int, ty: int) -> (int, int) {
    let x = objects[id].x as int;
    let y = objects[id].y as int;
    let dx = sign(tx - x);
    let dy = sign(ty - y);
    if can_enter(map, objects, x + dx, y + dy) {
        (x + dx, y + dy)
    } else if can_enter(map, objects, x + dx, y) {
        (x + dx, y)
    } else if can_enter(map, objects, x, y + dy) {
        (x, y + dy)
    } else {
        (x, y)
    }
}

/// The sign of `delta`: -1, 0 or 1.
pub fn normalize(delta: i64) -> (r: i32)
    ensures
        r == sign(delta as int),
{
    if delta == 0 {
        0
    } else if delta > 0 {
        1
    } else {
        -1
    }
}

/// Takes one greedy step of the entity at `id` toward `(target_x, target_y)`.
pub fn move_towards(id: usize, target_x: i32, target_y: i32, map: &Grid, objects: &mut Vec<Object>)
    requires
        map.wf(),
        id < old(objects)@.len(),
    ensures
        ({
            let p = pursuit_step(*map, old(objects)@, id as int, target_x as int, target_y as int);
            final(objects)@ == moved(old(objects)@, id as int, p.0, p.1)
        }),
{
    let dx = normalize(target_x as i64 - objects[id].x as i64);
    let dy = normalize(target_y as i64 - objects[id].y as i64);
    if move_by(id, dx, dy, map, objects) == PlayerAction::DidntTakeTurn && move_by(id, dx, 0, map, objects)
        == PlayerAction::DidntTakeTurn {
        move_by(id, 0, dy, map, objects);
    }
    proof {
        let o = old(objects)@;
        let p = pursuit_step(*map, o, id as int, target_x as int, target_y as int);
        if p == (o[id as int].x as int, o[id as int].y as int) {
            assert(moved(o, id as int, p.0, p.1) =~= o);
        }
    }
}

/// The monster at `id` has had its turn: from `before`, it stepped toward the player when
/// further than one cell, else attacked the player if still standing, else did nothing.
pub open spec fn ai_turn(
    map: Grid,
    before: Seq<Object>,
    after: Seq<Object>,
    log_before: Seq<(Seq<char>, Color)>,
    log_after: Seq<(Seq<char>, Color)>,
    id: int,
) -> bool {
    let monster = before[id];
    let player = before[PLAYER as int];
    if grid_distance(monster.x as int, monster.y as int, player.x as int, player.y as int) > 1 {
        let p = pursuit_step(map, before, id, player.x as int, player.y as int);
        &&& after == moved(before, id, p.0, p.1)
        &&& log_after == log_before
    } else if player.fighter is Some && player.fighter->0.hp > 0 {
        &&& took_damage(player, after[PLAYER as int], damage_between(monster, player))
        &&& after == before.update(PLAYER as int, after[PLAYER as int])
        &&& log_after == log_before + attack_log(monster, player)
    } else {
        &&& after == before
        &&& log_after == log_before
    }
}

/// The monster at `id` closes in on the player, or attacks when next to a living one.
pub fn ai_take_turn(id: usize, game: &mut Game, objects: &mut Vec<Object>)
    requires
        id != PLAYER,
        id < old(objects)@.len(),
        old(game).map.wf(),
    ensures
        ai_turn(old(game).map, old(objects)@, final(objects)@, old(game).messages@, final(game).messages@, id as int),
        final(game).map == old(game).map,
{
    if objects[id].grid_distance_to(&objects[PLAYER]) > 1 {
        let (player_x, player_y) = objects[PLAYER].pos();
        move_towards(id, player_x, player_y, &game.map, objects);
    } else if match objects[PLAYER].fighter {
        Some(f) => f.hp > 0,
        None => false,
    } {
        let (player_slice, ai_slice) = objects.split_at_mut(id);
        ai_slice[0].attack(&mut player_slice[0], game);
        assert(objects@ =~= old(objects)@.update(PLAYER as int, objects@[PLAYER as int]));
    }
}


/// Entity `i` (never the player) can be attacked at `(x, y)`.
pub open spec fn is_target(objects: Seq<Object>, x: int, y: int, i: int) -> bool {
    &&& 1 <= i < objects.len()
    &&& objects[i].x == x
    &&& objects[i].y == y
    &&& objects[i].fighter is Some
}

/// Entity `i` is the first one in store order that can be attacked at `(x, y)`.
pub open spec fn is_first_target(objects: Seq<Object>, x: int, y: int, i: int) -> bool {
    is_target(objects, x, y, i) && forall|j: int| 1 <= j < i ==> !#[trigger] is_target(objects, x, y, j)
}

/// The first entity after the player that can be attacked at `(x, y)`, if any.
fn find_target(x: i64, y: i64, objects: &Vec<Object>) -> (r: Option<usize>)
    ensures
        match r {
            Some(t) => is_first_target(objects@, x as int, y as int, t as int),
            None => forall|j: int| !#[trigger] is_target(objects@, x as int, y as int, j),
        },
{
    let mut i: usize = 1;
    while i < objects.len()
        invariant
            1 <= i,
            i <= objects@.len() || objects@.len() == 0,
            forall|j: int| 1 <= j < i ==> !#[trigger] is_target(objects@, x as int, y as int, j),
        decreases objects@.len() - i,
    {
        if objects[i].x as i64 == x && objects[i].y as i64 == y && objects[i].fighter.is_some() {
            return Some(i);
        }
        i = i + 1;
    }
    None
}

/// The player has stepped by `(dx, dy)` from `before`: it attacked the first fighter on the
/// target cell if there is one, else moved there if the cell can be entered, else did nothing.
pub open spec fn player_stepped(
    map: Grid,
    before: Seq<Object>,
    after: Seq<Object>,
    log_before: Seq<(Seq<char>, Color)>,
    log_after: Seq<(Seq<char>, Color)>,
    dx: int,
    dy: int,
    r: PlayerAction,
) -> bool {
    let nx = before[PLAYER as int].x + dx;
    let ny = before[PLAYER as int].y + dy;
    if exists|t: int| is_target(before, nx, ny, t) {
        &&& r == PlayerAction::TookTurn
        &&& forall|t: int| #[trigger]
            is_first_target(before, nx, ny, t) ==> {
                &&& took_damage(before[t], after[t], damage_between(before[PLAYER as int], before[t]))
                &&& after == before.update(t, after[t])
                &&& log_after == log_before + attack_log(before[PLAYER as int], before[t])
            }
    } else if can_enter(map, before, nx, ny) {
        &&& r == PlayerAction::TookTurn
        &&& after == moved(before, PLAYER as int, nx, ny)
        &&& log_after == log_before
    } else {
        &&& r == PlayerAction::DidntTakeTurn
        &&& after == before
        &&& log_after == log_before
    }
}

/// The player steps by `(dx, dy)`, attacking whatever fighter stands there instead of moving.
pub fn player_move_or_attack(dx: i32, dy: i32, game: &mut Game, objects: &mut Vec<Object>) -> (r: PlayerAction)
    requires
        old(objects)@.len() > 0,
        old(game).map.wf(),
    ensures
        player_stepped(
            old(game).map,
            old(objects)@,
            final(objects)@,
            old(game).messages@,
            final(game).messages@,
            dx as int,
            dy as int,
            r,
        ),
        final(game).map == old(game).map,
        r == PlayerAction::DidntTakeTurn ==> final(objects)@ == old(objects)@ && final(game).messages@ == old(
            game,
        ).messages@,
{
    let (x, y) = objects[PLAYER].pos();
    let next_x = x as i64 + dx as i64;
    let next_y = y as i64 + dy as i64;
    let target_id = find_target(next_x, next_y, objects);
    match target_id {
        Some(target_id) => {
            proof {
                let o = objects@;
                assert forall|t: int| #[trigger] is_first_target(o, next_x as int, next_y as int, t) implies t
                    == target_id by {
                    if t < target_id {
                        assert(is_target(o, next_x as int, next_y as int, t));
                    } else if t > target_id {
                        assert(is_target(o, next_x as int, next_y as int, target_id as int));
                    }
                }
            }
            let (player_slice, target_slice) = objects.split_at_mut(target_id);
            player_slice[0].attack(&mut target_slice[0], game);
            assert(objects@ =~= old(objects)@.update(target_id as int, objects@[target_id as int]));
            PlayerAction::TookTurn
        },
        None => move_by(PLAYER, dx, dy, &game.map, objects),
    }
}

} // verus!
