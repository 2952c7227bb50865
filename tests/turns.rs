use roguelike::color::white;
use roguelike::dungeon::make_room;
use roguelike::game::{Game, Messages};
use roguelike::grid::{Grid, Rect};
use roguelike::movement::{PlayerAction, PLAYER};
use roguelike::object::{Ai, DeathCallback, Fighter, Object};
use roguelike::turn::{fov_needs_update, handle_intent, monster_act, monster_turns, take_turn, Intent};
use roguelike::visibility::VisibilitySet;

fn player_at(x: i32, y: i32) -> Object {
    let mut p = Object::new(x, y, '@', "Player", white());
    p.fighter = Some(Fighter { max_hp: 30, hp: 30, defense: 2, attack: 5, on_death: DeathCallback::Player });
    p
}

fn orc_at(x: i32, y: i32) -> Object {
    let mut o = Object::new(x, y, 'o', "orc", white());
    o.fighter = Some(Fighter { max_hp: 10, hp: 10, defense: 0, attack: 3, on_death: DeathCallback::Monster });
    o.ai = Some(Ai);
    o
}

fn room_game() -> Game {
    let mut map = Grid::new(80, 45);
    make_room(Rect::new(4, 4, 20, 20), &mut map);
    Game { map, messages: Messages::new() }
}

fn all_visible() -> VisibilitySet {
    let mut v = VisibilitySet::new(80, 45);
    for x in 0..80 {
        for y in 0..45 {
            v.set_visible(x, y, true);
        }
    }
    v
}

#[test]
fn blocked_move_gives_monsters_no_turn() {
    let mut g = room_game();
    let mut seen = orc_at(10, 10);
    seen.was_seen = true;
    let mut objects = vec![player_at(5, 5), seen, orc_at(12, 12)];
    let visible = all_visible();
    let r = take_turn(Intent::MoveLeft, &mut g, &mut objects, &visible);
    assert_eq!(r, PlayerAction::DidntTakeTurn);
    assert_eq!(objects[PLAYER].pos(), (5, 5));
    assert_eq!(objects[1].pos(), (10, 10));
    assert_eq!(objects[2].pos(), (12, 12));
    assert!(!objects[2].was_seen);
    assert!(g.messages.iter().is_empty());
}

#[test]
fn display_request_takes_no_turn() {
    let mut g = room_game();
    let mut objects = vec![player_at(5, 5), orc_at(10, 10)];
    let visible = all_visible();
    assert_eq!(take_turn(Intent::ToggleDisplayMode, &mut g, &mut objects, &visible), PlayerAction::DidntTakeTurn);
    assert_eq!(take_turn(Intent::NoOp, &mut g, &mut objects, &visible), PlayerAction::DidntTakeTurn);
    assert_eq!(objects[1].pos(), (10, 10));
}

#[test]
fn quit_exits() {
    let mut g = room_game();
    let mut objects = vec![player_at(5, 5)];
    let visible = all_visible();
    assert_eq!(take_turn(Intent::Quit, &mut g, &mut objects, &visible), PlayerAction::Exit);
    assert_eq!(objects[PLAYER].pos(), (5, 5));
}

#[test]
fn taken_turn_lets_aware_monsters_act() {
    let mut g = room_game();
    let mut objects = vec![player_at(5, 5), orc_at(10, 10)];
    let visible = all_visible();
    let r = take_turn(Intent::MoveRight, &mut g, &mut objects, &visible);
    assert_eq!(r, PlayerAction::TookTurn);
    assert_eq!(objects[PLAYER].pos(), (6, 5));
    assert!(objects[1].was_seen);
    assert_eq!(objects[1].pos(), (9, 9));
}

#[test]
fn unseen_monster_stays_put() {
    let mut g = room_game();
    let mut objects = vec![player_at(5, 5), orc_at(10, 10)];
    let visible = VisibilitySet::new(80, 45);
    let r = take_turn(Intent::MoveRight, &mut g, &mut objects, &visible);
    assert_eq!(r, PlayerAction::TookTurn);
    assert!(!objects[1].was_seen);
    assert_eq!(objects[1].pos(), (10, 10));
}

#[test]
fn awareness_is_permanent() {
    let mut g = room_game();
    let mut objects = vec![player_at(5, 5), orc_at(10, 10)];
    let mut visible = VisibilitySet::new(80, 45);
    visible.set_visible(10, 10, true);
    monster_turns(&mut g, &mut objects, &visible);
    assert!(objects[1].was_seen);
    assert_eq!(objects[1].pos(), (9, 9));
    let nothing = VisibilitySet::new(80, 45);
    monster_turns(&mut g, &mut objects, &nothing);
    assert!(objects[1].was_seen);
    assert_eq!(objects[1].pos(), (8, 8));
}

#[test]
fn dead_player_cannot_move() {
    let mut g = room_game();
    let mut objects = vec![player_at(5, 5)];
    objects[PLAYER].is_alive = false;
    assert_eq!(handle_intent(Intent::MoveRight, &mut g, &mut objects), PlayerAction::DidntTakeTurn);
    assert_eq!(objects[PLAYER].pos(), (5, 5));
    assert_eq!(handle_intent(Intent::Quit, &mut g, &mut objects), PlayerAction::Exit);
}

#[test]
fn dead_monster_does_not_act() {
    let mut g = room_game();
    let mut dead = orc_at(10, 10);
    dead.is_alive = false;
    dead.was_seen = true;
    let mut objects = vec![player_at(5, 5), dead];
    let visible = all_visible();
    monster_act(1, &mut g, &mut objects, &visible);
    assert_eq!(objects[1].pos(), (10, 10));
}

#[test]
fn player_killing_attack_reported_in_turn() {
    let mut g = room_game();
    let mut weak = orc_at(6, 5);
    weak.fighter = Some(Fighter { max_hp: 2, hp: 2, defense: 0, attack: 3, on_death: DeathCallback::Monster });
    let mut objects = vec![player_at(5, 5), weak];
    let visible = all_visible();
    let r = take_turn(Intent::MoveRight, &mut g, &mut objects, &visible);
    assert_eq!(r, PlayerAction::TookTurn);
    assert!(!objects[1].is_alive);
    assert!(objects[1].is_walkable);
    let texts: Vec<String> = g.messages.iter().iter().map(|m| m.0.clone()).collect();
    assert_eq!(texts, vec!["Player attacks orc for 5 damage".to_string(), "orc is dead!".to_string()]);
}

#[test]
fn intent_deltas() {
    assert_eq!(Intent::MoveUp.delta(), Some((0, -1)));
    assert_eq!(Intent::MoveDownLeft.delta(), Some((-1, 1)));
    assert_eq!(Intent::MoveUpRight.delta(), Some((1, -1)));
    assert_eq!(Intent::Quit.delta(), None);
}

#[test]
fn recompute_only_after_moving() {
    assert!(!fov_needs_update((3, 4), (3, 4)));
    assert!(fov_needs_update((3, 4), (4, 4)));
}
