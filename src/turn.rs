use vstd::prelude::*;
use crate::color::Color;
use crate::game::Game;
use crate::grid::{adjacent, Grid};
use crate::movement::{
    ai_take_turn, ai_turn, can_enter, is_first_target, is_target, moved,
    player_move_or_attack, player_stepped, pursuit_step, PlayerAction, PLAYER,
};
use crate::object::{
    attack_log, damage_between, grid_distance, lemma_damage_keeps_place,
    Object,
};
use crate::visibility::VisibilitySet;

verus! {

/// One request from the player.
#[derive(Clone, Copy, Debug, PartialEq, Eq, Structural)]
pub enum Intent {
    MoveUp,
    MoveDown,
    MoveLeft,
    MoveRight,
    MoveUpLeft,
    MoveUpRight,
    MoveDownLeft,
    MoveDownRight,
    ToggleDisplayMode,
    Quit,
    NoOp,
}

impl Intent {
    pub open spec fn spec_delta(self) -> Option<(int, int)> {
        match self {
            Intent::MoveUp => Some((0, -1)),
            Intent::MoveDown => Some((0, 1)),
            Intent::MoveLeft => Some((-1, 0)),
            Intent::MoveRight => Some((1, 0)),
            Intent::MoveUpLeft => Some((-1, -1)),
            Intent::MoveUpRight => Some((1, -1)),
            Intent::MoveDownLeft => Some((-1, 1)),
            Intent::MoveDownRight => Some((1, 1)),
            _ => None,
        }
    }

    /// The step a movement request asks for; none for the other requests.
    pub fn delta(self) -> (d: Option<(i32, i32)>)
        ensures
            match d {
                Some(p) => self.spec_delta() == Some((p.0 as int, p.1 as int)),
                None => self.spec_delta() is None,
            },
    {
        match self {
            Intent::MoveUp => Some((0, -1)),
            Intent::MoveDown => Some((0, 1)),
            Intent::MoveLeft => Some((-1, 0)),
            Intent::MoveRight => Some((1, 0)),
            Intent::MoveUpLeft => Some((-1, -1)),
            Intent::MoveUpRight => Some((1, -1)),
            Intent::MoveDownLeft => Some((-1, 1)),
            Intent::MoveDownRight => Some((1, 1)),
            _ => None,
        }
    }
}

/// The player's part of a turn: `r` is what `intent` amounted to from `before`.
pub open spec fn player_phase(
    game: Game,
    before: Seq<Object>,
    after: Seq<Object>,
    log_after: Seq<(Seq<char>, Color)>,
    intent: Intent,
    r: PlayerAction,
) -> bool {
    if intent == Intent::Quit {
        r == PlayerAction::Exit && after == before && log_after == game.messages@
    } else if intent.spec_delta() is Some && before[PLAYER as int].is_alive {
        let (dx, dy) = intent.spec_delta()->0;
        player_stepped(game.map, before, after, game.messages@, log_after, dx, dy, r)
    } else {
        r == PlayerAction::DidntTakeTurn && after == before && log_after == game.messages@
    }
}

/// Resolves one request of the player. Quitting ends the session, a living player moves or
/// attacks, and anything else (a display request, a dead player) takes no turn.
pub fn handle_intent(intent: Intent, game: &mut Game, objects: &mut Vec<Object>) -> (r: PlayerAction)
    requires
        old(objects)@.len() > 0,
        old(game).map.wf(),
    ensures
        player_phase(*old(game), old(objects)@, final(objects)@, final(game).messages@, intent, r),
        final(game).map == old(game).map,
        r == PlayerAction::DidntTakeTurn ==> final(objects)@ == old(objects)@ && final(game).messages@ == old(
            game,
        ).messages@,
{
    if intent == Intent::Quit {
        return PlayerAction::Exit;
    }
    match intent.delta() {
        Some((dx, dy)) => {
            if objects[PLAYER].is_alive {
                player_move_or_attack(dx, dy, game, objects)
            } else {
                PlayerAction::DidntTakeTurn
            }
        },
        None => PlayerAction::DidntTakeTurn,
    }
}

/// The monster will act this turn: it is alive, has an AI and is aware of the player,
/// having been seen before or being seen now.
pub open spec fn active(o: Object, visible: VisibilitySet) -> bool {
    o.is_alive && o.ai is Some && (o.was_seen || visible.visible(o.x as int, o.y as int))
}

/// `o` with its awareness brought up to date.
pub open spec fn aware(o: Object, visible: VisibilitySet) -> Object {
    Object { was_seen: o.was_seen || visible.visible(o.x as int, o.y as int), ..o }
}

/// The turn of the monster at `id` from `before`: it becomes aware if it is seen, then it
/// acts if it is active.
pub open spec fn monster_step(
    map: Grid,
    before: Seq<Object>,
    after: Seq<Object>,
    log_before: Seq<(Seq<char>, Color)>,
    log_after: Seq<(Seq<char>, Color)>,
    visible: VisibilitySet,
    id: int,
) -> bool {
    let updated = before.update(id, aware(before[id], visible));
    if active(before[id], visible) {
        ai_turn(map, updated, after, log_before, log_after, id)
    } else {
        after == updated && log_after == log_before
    }
}

/// The monsters from `id` up to `end`, one after the other in store order, take their turns
/// and lead from `before` to `after`.
pub open spec fn monster_phase(
    map: Grid,
    before: Seq<Object>,
    after: Seq<Object>,
    log_before: Seq<(Seq<char>, Color)>,
    log_after: Seq<(Seq<char>, Color)>,
    visible: VisibilitySet,
    id: int,
    end: int,
) -> bool
    decreases end - id,
{
    if id >= end {
        after == before && log_after == log_before
    } else {
        exists|mid: Seq<Object>, log_mid: Seq<(Seq<char>, Color)>|
            #[trigger] monster_step(map, before, mid, log_before, log_mid, visible, id) && monster_phase(
                map,
                mid,
                after,
                log_mid,
                log_after,
                visible,
                id + 1,
                end,
            )
    }
}

/// The turn of the monster at `id`: it becomes aware if it is seen, and acts if active.
pub fn monster_act(id: usize, game: &mut Game, objects: &mut Vec<Object>, visible: &VisibilitySet)
    requires
        id != PLAYER,
        id < old(objects)@.len(),
        old(game).map.wf(),
        visible.wf(),
    ensures
        monster_step(old(game).map, old(objects)@, final(objects)@, old(game).messages@, final(game).messages@, *visible, id as int),
        final(game).map == old(game).map,
{
    if !objects[id].was_seen {
        let (x, y) = objects[id].pos();
        if visible.is_visible(x, y) {
            objects[id].was_seen = true;
        }
    }
    assert(objects@ =~= old(objects)@.update(id as int, aware(old(objects)@[id as int], *visible)));
    if objects[id].is_alive && objects[id].ai.is_some() && objects[id].was_seen {
        ai_take_turn(id, game, objects);
    }
}

/// What the monsters' phase leaves behind: the store keeps its length, the log only grows,
/// the player stays in place, and each monster keeps everything but its position and
/// awareness; it became aware if it was seen, and it moved by at most one cell, and not at
/// all unless it was active.
pub open spec fn monsters_acted(
    before: Seq<Object>,
    after: Seq<Object>,
    log_before: Seq<(Seq<char>, Color)>,
    log_after: Seq<(Seq<char>, Color)>,
    visible: VisibilitySet,
) -> bool {
    &&& after.len() == before.len()
    &&& log_before.len() <= log_after.len()
    &&& log_after.take(log_before.len() as int) == log_before
    &&& after[PLAYER as int].x == before[PLAYER as int].x
    &&& after[PLAYER as int].y == before[PLAYER as int].y
    &&& forall|i: int| 1 <= i < before.len() ==> monster_acted(#[trigger] before[i], after[i], visible)
}

pub open spec fn monster_acted(before: Object, after: Object, visible: VisibilitySet) -> bool {
    &&& after == (Object { x: after.x, y: after.y, ..aware(before, visible) })
    &&& adjacent((before.x as int, before.y as int), (after.x as int, after.y as int))
    &&& !active(before, visible) ==> after.x == before.x && after.y == before.y
}

/// Every monster, in store order, takes its turn.
pub fn monster_turns(game: &mut Game, objects: &mut Vec<Object>, visible: &VisibilitySet)
    requires
        old(objects)@.len() > 0,
        old(game).map.wf(),
        visible.wf(),
    ensures
        monster_phase(
            old(game).map,
            old(objects)@,
            final(objects)@,
            old(game).messages@,
            final(game).messages@,
            *visible,
            1,
            old(objects)@.len() as int,
        ),
        monsters_acted(old(objects)@, final(objects)@, old(game).messages@, final(game).messages@, *visible),
        final(game).map == old(game).map,
{
    let ghost start = objects@;
    let ghost log_start = game.messages@;
    let mut id: usize = 1;
    assert(log_start.take(log_start.len() as int) =~= log_start);
    while id < objects.len()
        invariant
            1 <= id <= objects@.len(),
            objects@.len() == start.len(),
            game.map == old(game).map,
            game.map.wf(),
            visible.wf(),
            log_start.len() <= game.messages@.len(),
            game.messages@.take(log_start.len() as int) == log_start,
            objects@[PLAYER as int].x == start[PLAYER as int].x,
            objects@[PLAYER as int].y == start[PLAYER as int].y,
            forall|i: int| 1 <= i < id ==> monster_acted(#[trigger] start[i], objects@[i], *visible),
            forall|i: int| id <= i < start.len() ==> #[trigger] objects@[i] == start[i],
            forall|a: Seq<Object>, l: Seq<(Seq<char>, Color)>|
                #[trigger] monster_phase(game.map, objects@, a, game.messages@, l, *visible, id as int, start.len() as int)
                    ==> monster_phase(game.map, start, a, log_start, l, *visible, 1, start.len() as int),
        decreases objects@.len() - id,
    {
        let ghost o = objects@;
        let ghost log = game.messages@;
        monster_act(id, game, objects, visible);
        proof {
            let n = start.len() as int;
            assert forall|a: Seq<Object>, l: Seq<(Seq<char>, Color)>|
                #[trigger] monster_phase(game.map, objects@, a, game.messages@, l, *visible, id + 1, n)
                    implies monster_phase(game.map, start, a, log_start, l, *visible, 1, n) by {
                assert(monster_step(game.map, o, objects@, log, game.messages@, *visible, id as int));
                assert(monster_phase(game.map, o, a, log, l, *visible, id as int, n));
            }
        }
        proof {
            let updated = o.update(id as int, aware(o[id as int], *visible));
            let after = objects@;
            assert(o[id as int] == start[id as int]);
            if active(o[id as int], *visible) {
                let monster = updated[id as int];
                let player = updated[PLAYER as int];
                if grid_distance(monster.x as int, monster.y as int, player.x as int, player.y as int) > 1 {
                    let p = pursuit_step(game.map, updated, id as int, player.x as int, player.y as int);
                    assert(after == moved(updated, id as int, p.0, p.1));
                    assert(adjacent((monster.x as int, monster.y as int), p));
                } else if player.fighter is Some && player.fighter->0.hp > 0 {
                    lemma_damage_keeps_place(player, after[PLAYER as int], damage_between(monster, player));
                    assert(log + attack_log(monster, player) == game.messages@);
                    assert(game.messages@.take(log_start.len() as int) =~= log.take(log_start.len() as int));
                }
            }
            assert forall|i: int| 1 <= i < id + 1 implies monster_acted(#[trigger] start[i], objects@[i], *visible) by {
                if i < id {
                    assert(objects@[i] == o[i]);
                }
            }
        }
        id = id + 1;
    }
    assert(monster_phase(game.map, objects@, objects@, game.messages@, game.messages@, *visible, id as int, start.len() as int));
}

/// The cell of the viewer changed, so what it sees must be computed again.
pub fn fov_needs_update(previous: (i32, i32), current: (i32, i32)) -> (b: bool)
    ensures
        b == (previous != current),
{
    previous.0 != current.0 || previous.1 != current.1
}

/// One whole turn: the player's request is resolved, and only if it took a turn and the
/// player still lives do the monsters take theirs. A request that takes no turn changes
/// nothing at all.
pub fn take_turn(intent: Intent, game: &mut Game, objects: &mut Vec<Object>, visible: &VisibilitySet) -> (r:
    PlayerAction)
    requires
        old(objects)@.len() > 0,
        old(game).map.wf(),
        visible.wf(),
    ensures
        final(game).map == old(game).map,
        (r == PlayerAction::Exit) == (intent == Intent::Quit),
        r != PlayerAction::TookTurn ==> final(objects)@ == old(objects)@ && final(game).messages@ == old(
            game,
        ).messages@,
        exists|mid: Seq<Object>, log_mid: Seq<(Seq<char>, Color)>|
            {
                &&& player_phase(*old(game), old(objects)@, mid, log_mid, intent, r)
                &&& if r == PlayerAction::TookTurn && mid[PLAYER as int].is_alive {
                    &&& monster_phase(
                        old(game).map,
                        mid,
                        final(objects)@,
                        log_mid,
                        final(game).messages@,
                        *visible,
                        1,
                        mid.len() as int,
                    )
                    &&& monsters_acted(mid, final(objects)@, log_mid, final(game).messages@, *visible)
                } else {
                    final(objects)@ == mid && final(game).messages@ == log_mid
                }
            },
{
    let ghost g0 = *game;
    let action = handle_intent(intent, game, objects);
    let ghost mid = objects@;
    let ghost log_mid = game.messages@;
    proof {
        lemma_player_phase_keeps_length(g0, old(objects)@, mid, log_mid, intent, action);
    }
    if objects[PLAYER].is_alive && action == PlayerAction::TookTurn {
        monster_turns(game, objects, visible);
    }
    assert(player_phase(g0, old(objects)@, mid, log_mid, intent, action));
    action
}

/// The player's part of a turn keeps the store's length, and a request that takes no turn
/// changes nothing.
pub proof fn lemma_player_phase_keeps_length(
    game: Game,
    before: Seq<Object>,
    after: Seq<Object>,
    log_after: Seq<(Seq<char>, Color)>,
    intent: Intent,
    r: PlayerAction,
)
    requires
        before.len() > 0,
        player_phase(game, before, after, log_after, intent, r),
    ensures
        after.len() == before.len(),
        (r == PlayerAction::Exit) == (intent == Intent::Quit),
        r != PlayerAction::TookTurn ==> after == before && log_after == game.messages@,
{
    if intent != Intent::Quit && intent.spec_delta() is Some && before[PLAYER as int].is_alive {
        let (dx, dy) = intent.spec_delta()->0;
        let nx = before[PLAYER as int].x + dx;
        let ny = before[PLAYER as int].y + dy;
        if exists|t: int| is_target(before, nx, ny, t) {
            let t = choose|t: int| is_target(before, nx, ny, t);
            let first = lemma_first_target(before, nx, ny, t);
            assert(is_first_target(before, nx, ny, first));
        }
    }
}

/// Where some entity can be attacked at `(x, y)`, a first one in store order exists.
pub proof fn lemma_first_target(objects: Seq<Object>, x: int, y: int, t: int) -> (first: int)
    requires
        is_target(objects, x, y, t),
    ensures
        is_first_target(objects, x, y, first),
    decreases t,
{
    if exists|j: int| 1 <= j < t && #[trigger] is_target(objects, x, y, j) {
        let j = choose|j: int| 1 <= j < t && #[trigger] is_target(objects, x, y, j);
        lemma_first_target(objects, x, y, j)
    } else {
        t
    }
}

} // verus!
