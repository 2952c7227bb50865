use roguelike::color::{dark_red, orange, red, white};
use roguelike::game::{Game, Messages};
use roguelike::grid::Grid;
use roguelike::object::{DeathCallback, Fighter, Object};
use roguelike::text::decimal_text;

fn game() -> Game {
    Game { map: Grid::new(10, 10), messages: Messages::new() }
}

fn fighter_named(name: &str, hp: i32, defense: i32, attack: i32, on_death: DeathCallback) -> Object {
    let mut o = Object::new(1, 1, 'x', name, white());
    o.fighter = Some(Fighter { max_hp: hp, hp, defense, attack, on_death });
    o
}

fn texts(game: &Game) -> Vec<String> {
    game.messages.iter().iter().map(|m| m.0.clone()).collect()
}

#[test]
fn lethal_attack_kills_monster() {
    let mut g = game();
    let a = fighter_named("hero", 10, 2, 5, DeathCallback::Player);
    let mut b = fighter_named("orc", 3, 1, 1, DeathCallback::Monster);
    a.attack(&mut b, &mut g);
    assert!(!b.is_alive);
    assert!(b.is_walkable);
    assert_eq!(b.fighter, None);
    assert_eq!(b.ai, None);
    assert_eq!(b.char, '%');
    assert_eq!(b.color, dark_red());
    assert_eq!(b.name, "remains of orc");
    assert_eq!(texts(&g), vec!["hero attacks orc for 4 damage".to_string(), "orc is dead!".to_string()]);
    assert_eq!(g.messages.iter()[1].1, orange());
}

#[test]
fn lethal_attack_on_player_leaves_walkable_corpse() {
    let mut g = game();
    let a = fighter_named("troll", 16, 1, 5, DeathCallback::Monster);
    let mut p = fighter_named("Player", 3, 1, 5, DeathCallback::Player);
    a.attack(&mut p, &mut g);
    assert!(!p.is_alive);
    assert_eq!(p.fighter, None);
    assert_eq!(p.ai, None);
    assert_eq!(p.char, '%');
    assert_eq!(p.name, "Player");
    assert!(p.is_walkable);
    assert_eq!(texts(&g), vec!["troll attacks Player for 4 damage".to_string(), "You died!".to_string()]);
    assert_eq!(g.messages.iter()[1].1, red());
}

#[test]
fn attack_below_defense_has_no_effect() {
    let mut g = game();
    let a = fighter_named("orc", 10, 0, 3, DeathCallback::Monster);
    let mut b = fighter_named("Player", 30, 5, 5, DeathCallback::Player);
    a.attack(&mut b, &mut g);
    assert_eq!(b.fighter.unwrap().hp, 30);
    assert!(b.is_alive);
    assert_eq!(b.char, 'x');
    assert_eq!(texts(&g), vec!["orc attacks Player but it has no effect!".to_string()]);
}

#[test]
fn non_lethal_attack_lowers_hp() {
    let mut g = game();
    let a = fighter_named("troll", 16, 1, 4, DeathCallback::Monster);
    let mut b = fighter_named("Player", 30, 2, 5, DeathCallback::Player);
    a.attack(&mut b, &mut g);
    assert_eq!(b.fighter.unwrap().hp, 28);
    assert!(b.is_alive);
    assert_eq!(texts(&g), vec!["troll attacks Player for 2 damage".to_string()]);
}

#[test]
fn take_damage_ignores_non_positive_damage() {
    let mut g = game();
    let mut b = fighter_named("orc", 10, 0, 3, DeathCallback::Monster);
    b.take_damage(0, &mut g);
    b.take_damage(-4, &mut g);
    assert_eq!(b.fighter.unwrap().hp, 10);
    assert!(g.messages.iter().is_empty());
}

#[test]
fn take_damage_exactly_hp_kills() {
    let mut g = game();
    let mut b = fighter_named("orc", 10, 0, 3, DeathCallback::Monster);
    b.take_damage(10, &mut g);
    assert!(!b.is_alive);
    assert_eq!(b.name, "remains of orc");
    assert_eq!(texts(&g), vec!["orc is dead!".to_string()]);
}

#[test]
fn take_damage_without_fighter_does_nothing() {
    let mut g = game();
    let mut b = Object::new(2, 3, '!', "potion", white());
    b.take_damage(5, &mut g);
    assert!(b.is_alive);
    assert_eq!(b.fighter, None);
    assert!(g.messages.iter().is_empty());
}

#[test]
fn death_callback_runs_monster_transition() {
    let mut g = game();
    let mut b = fighter_named("orc", 10, 0, 3, DeathCallback::Monster);
    DeathCallback::Monster.callback(&mut b, &mut g);
    assert_eq!(b.name, "remains of orc");
    assert!(b.is_walkable);
    assert_eq!(texts(&g), vec!["orc is dead!".to_string()]);
}

#[test]
fn decimal_text_writes_digits() {
    assert_eq!(decimal_text(0), "0");
    assert_eq!(decimal_text(7), "7");
    assert_eq!(decimal_text(10), "10");
    assert_eq!(decimal_text(1234567890), "1234567890");
}

#[test]
fn object_new_and_positions() {
    let mut o = Object::new(3, 4, '@', "Player", white());
    assert_eq!(o.pos(), (3, 4));
    assert!(o.is_alive);
    assert!(!o.is_walkable);
    assert!(!o.was_seen);
    o.set_pos(7, -2);
    assert_eq!(o.pos(), (7, -2));
    let other = Object::new(10, 0, 'o', "orc", white());
    assert_eq!(o.grid_distance_to(&other), 3);
    assert_eq!(other.grid_distance_to(&o), 3);
}

#[test]
fn messages_keep_order() {
    let mut m = Messages::new();
    m.add("first".to_string(), white());
    m.add("second".to_string(), red());
    let all = m.iter();
    assert_eq!(all.len(), 2);
    assert_eq!(all[0].0, "first");
    assert_eq!(all[1].1, red());
}

#[test]
fn damage_beyond_hit_point_range_still_kills() {
    let mut g = game();
    let a = fighter_named("giant", 10, 0, i32::MAX, DeathCallback::Monster);
    let mut b = fighter_named("orc", 10, -5, 1, DeathCallback::Monster);
    a.attack(&mut b, &mut g);
    assert!(!b.is_alive);
    assert_eq!(texts(&g), vec!["giant attacks orc for 2147483652 damage".to_string(), "orc is dead!".to_string()]);
    let mut g2 = game();
    let weak = fighter_named("rat", 1, 0, i32::MIN, DeathCallback::Monster);
    let mut c = fighter_named("knight", 10, 1, 1, DeathCallback::Player);
    weak.attack(&mut c, &mut g2);
    assert!(c.is_alive);
    assert_eq!(texts(&g2), vec!["rat attacks knight but it has no effect!".to_string()]);
}

#[test]
fn player_death_through_take_damage() {
    let mut g = game();
    let mut p = fighter_named("Player", 5, 0, 5, DeathCallback::Player);
    p.take_damage(9, &mut g);
    assert!(!p.is_alive);
    assert!(p.is_walkable);
    assert_eq!(p.fighter, None);
    assert_eq!(p.char, '%');
    assert_eq!(p.color, dark_red());
    assert_eq!(texts(&g), vec!["You died!".to_string()]);
}
