use roguelike::color::white;
use roguelike::dungeon::make_room;
use roguelike::game::{Game, Messages};
use roguelike::grid::{Grid, Rect, Tile};
use roguelike::movement::{
    ai_take_turn, is_blocked, is_blocked_by_object, move_by, move_towards, normalize, player_move_or_attack,
    PlayerAction, PLAYER,
};
use roguelike::object::{Ai, DeathCallback, Fighter, Object};

fn player_at(x: i32, y: i32) -> Object {
    let mut p = Object::new(x, y, '@', "Player", white());
    p.fighter = Some(Fighter { max_hp: 30, hp: 30, defense: 2, attack: 5, on_death: DeathCallback::Player });
    p
}

fn orc_at(x: i32, y: i32) -> Object {
    let mut o = Object::new(x, y, 'o', "orc", white());
    o.fighter = Some(Fighter { max_hp: 10, hp: 10, defense: 0, attack: 3, on_death: DeathCallback::Monster });
    o.ai = Some(Ai);
    o
}

fn small_room_game() -> Game {
    let mut map = Grid::new(80, 45);
    make_room(Rect::new(10, 10, 6, 6), &mut map);
    Game { map, messages: Messages::new() }
}

fn open_game() -> Game {
    let mut map = Grid::new(80, 45);
    make_room(Rect::new(-1, -1, 81, 46), &mut map);
    Game { map, messages: Messages::new() }
}

#[test]
fn carved_room_is_five_by_five() {
    let g = small_room_game();
    let mut open = 0;
    for x in 0..80 {
        for y in 0..45 {
            if g.map.tile_at(x, y).is_walkable {
                open += 1;
                assert!((11..=15).contains(&x) && (11..=15).contains(&y));
            }
        }
    }
    assert_eq!(open, 25);
}

#[test]
fn move_into_wall_takes_no_turn() {
    let mut g = small_room_game();
    let mut objects = vec![player_at(11, 11)];
    assert_eq!(player_move_or_attack(-1, 0, &mut g, &mut objects), PlayerAction::DidntTakeTurn);
    assert_eq!(objects[PLAYER].pos(), (11, 11));
    assert_eq!(player_move_or_attack(0, -1, &mut g, &mut objects), PlayerAction::DidntTakeTurn);
    assert_eq!(objects[PLAYER].pos(), (11, 11));
}

#[test]
fn move_into_room_takes_turn() {
    let mut g = small_room_game();
    let mut objects = vec![player_at(11, 11)];
    assert_eq!(player_move_or_attack(1, 0, &mut g, &mut objects), PlayerAction::TookTurn);
    assert_eq!(objects[PLAYER].pos(), (12, 11));
    assert_eq!(player_move_or_attack(1, 1, &mut g, &mut objects), PlayerAction::TookTurn);
    assert_eq!(objects[PLAYER].pos(), (13, 12));
    assert!(g.messages.iter().is_empty());
}

#[test]
fn move_off_the_grid_is_refused() {
    let mut g = open_game();
    let mut objects = vec![player_at(0, 0)];
    assert_eq!(move_by(PLAYER, -1, 0, &g.map, &mut objects), PlayerAction::DidntTakeTurn);
    assert_eq!(move_by(PLAYER, 0, -1, &g.map, &mut objects), PlayerAction::DidntTakeTurn);
    objects[PLAYER].set_pos(79, 44);
    assert_eq!(player_move_or_attack(1, 0, &mut g, &mut objects), PlayerAction::DidntTakeTurn);
    assert_eq!(player_move_or_attack(0, 1, &mut g, &mut objects), PlayerAction::DidntTakeTurn);
    assert_eq!(objects[PLAYER].pos(), (79, 44));
}

#[test]
fn blocking_entity_stops_a_move_and_corpse_does_not() {
    let g = open_game();
    let mut corpse = Object::new(6, 5, '%', "remains of orc", white());
    corpse.is_walkable = true;
    let mut objects = vec![player_at(5, 5), Object::new(5, 6, 'T', "statue", white()), corpse];
    assert!(is_blocked_by_object(5, 6, &objects));
    assert!(!is_blocked_by_object(6, 5, &objects));
    assert!(is_blocked(&g.map, 5, 6, &objects));
    assert!(!is_blocked(&g.map, 6, 5, &objects));
    assert_eq!(move_by(PLAYER, 0, 1, &g.map, &mut objects), PlayerAction::DidntTakeTurn);
    assert_eq!(move_by(PLAYER, 1, 0, &g.map, &mut objects), PlayerAction::TookTurn);
    assert_eq!(objects[PLAYER].pos(), (6, 5));
}

#[test]
fn wall_tile_is_blocked() {
    let g = small_room_game();
    let objects = vec![player_at(11, 11)];
    assert!(is_blocked(&g.map, 10, 11, &objects));
    assert!(is_blocked(&g.map, 11, 11, &objects));
    assert!(!is_blocked(&g.map, 12, 12, &objects));
}

#[test]
fn moving_into_a_monster_attacks_it() {
    let mut g = open_game();
    let mut objects = vec![player_at(5, 5), orc_at(6, 5)];
    assert_eq!(player_move_or_attack(1, 0, &mut g, &mut objects), PlayerAction::TookTurn);
    assert_eq!(objects[PLAYER].pos(), (5, 5));
    assert_eq!(objects[1].fighter.unwrap().hp, 5);
    assert_eq!(g.messages.iter()[0].0, "Player attacks orc for 5 damage");
}

#[test]
fn normalize_gives_signs() {
    assert_eq!(normalize(0), 0);
    assert_eq!(normalize(7), 1);
    assert_eq!(normalize(-3), -1);
    assert_eq!(normalize(i64::MIN), -1);
}

#[test]
fn pursuit_steps_then_attacks() {
    let mut g = open_game();
    let mut objects = vec![player_at(10, 12), orc_at(10, 10)];
    ai_take_turn(1, &mut g, &mut objects);
    assert_eq!(objects[1].pos(), (10, 11));
    assert_eq!(objects[PLAYER].fighter.unwrap().hp, 30);
    assert!(g.messages.iter().is_empty());
    ai_take_turn(1, &mut g, &mut objects);
    assert_eq!(objects[1].pos(), (10, 11));
    assert_eq!(objects[PLAYER].fighter.unwrap().hp, 29);
    assert_eq!(g.messages.iter()[0].0, "orc attacks Player for 1 damage");
}

#[test]
fn pursuit_falls_back_to_horizontal_then_vertical() {
    let mut g = open_game();
    g.map.set_tile(11, 11, Tile::wall());
    let mut objects = vec![player_at(15, 15), orc_at(10, 10)];
    move_towards(1, 15, 15, &g.map, &mut objects);
    assert_eq!(objects[1].pos(), (11, 10));
    g.map.set_tile(11, 11, Tile::empty());
    g.map.set_tile(12, 11, Tile::wall());
    g.map.set_tile(12, 10, Tile::wall());
    move_towards(1, 15, 15, &g.map, &mut objects);
    assert_eq!(objects[1].pos(), (11, 11));
}

#[test]
fn pursuit_stays_when_all_steps_blocked() {
    let mut g = open_game();
    g.map.set_tile(11, 11, Tile::wall());
    g.map.set_tile(11, 10, Tile::wall());
    g.map.set_tile(10, 11, Tile::wall());
    let mut objects = vec![player_at(15, 15), orc_at(10, 10)];
    move_towards(1, 15, 15, &g.map, &mut objects);
    assert_eq!(objects[1].pos(), (10, 10));
}

#[test]
fn monster_next_to_dead_player_does_nothing() {
    let mut g = open_game();
    let mut objects = vec![player_at(10, 11), orc_at(10, 10)];
    objects[PLAYER].fighter = Some(Fighter { max_hp: 30, hp: 0, defense: 2, attack: 5, on_death: DeathCallback::Player });
    ai_take_turn(1, &mut g, &mut objects);
    assert_eq!(objects[1].pos(), (10, 10));
    assert!(g.messages.iter().is_empty());
}
