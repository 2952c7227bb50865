use roguelike::color::white;
use roguelike::dungeon::make_room;
use roguelike::grid::{Grid, Rect};
use roguelike::object::Object;
use roguelike::visibility::{draws_in_background, draws_in_foreground, mark_explored, names_under, VisibilitySet};

fn snapshot(map: &Grid) -> Vec<(bool, bool, bool)> {
    let mut out = Vec::new();
    for x in 0..map.width {
        for y in 0..map.height {
            let t = map.tile_at(x, y);
            out.push((t.is_walkable, t.is_transparent, t.explored));
        }
    }
    out
}

#[test]
fn explored_never_reverts() {
    let mut map = Grid::new(8, 8);
    make_room(Rect::new(0, 0, 6, 6), &mut map);
    let mut first = VisibilitySet::new(8, 8);
    first.set_visible(2, 2, true);
    first.set_visible(3, 2, true);
    mark_explored(&mut map, &first);
    assert!(map.tile_at(2, 2).explored && map.tile_at(3, 2).explored);
    assert!(!map.tile_at(4, 4).explored);
    let mut second = VisibilitySet::new(8, 8);
    second.set_visible(4, 4, true);
    mark_explored(&mut map, &second);
    assert!(map.tile_at(2, 2).explored && map.tile_at(3, 2).explored && map.tile_at(4, 4).explored);
    assert!(map.tile_at(2, 2).is_walkable);
    mark_explored(&mut map, &VisibilitySet::new(8, 8));
    assert!(map.tile_at(2, 2).explored && map.tile_at(4, 4).explored);
}

#[test]
fn marking_same_set_twice_changes_nothing_more() {
    let mut map = Grid::new(5, 5);
    let mut v = VisibilitySet::new(5, 5);
    v.set_visible(1, 1, true);
    v.set_visible(0, 4, true);
    mark_explored(&mut map, &v);
    let once = snapshot(&map);
    mark_explored(&mut map, &v);
    assert_eq!(snapshot(&map), once);
}

#[test]
fn visibility_outside_is_false() {
    let mut v = VisibilitySet::new(4, 4);
    v.set_visible(3, 3, true);
    assert!(v.is_visible(3, 3));
    assert!(!v.is_visible(2, 3));
    assert!(!v.is_visible(-1, 0));
    assert!(!v.is_visible(4, 0));
    v.set_visible(3, 3, false);
    assert!(!v.is_visible(3, 3));
}

#[test]
fn names_under_joins_visible_names() {
    let objects = vec![
        Object::new(2, 2, 'o', "orc", white()),
        Object::new(1, 1, '@', "Player", white()),
        Object::new(2, 2, '%', "remains of troll", white()),
    ];
    let mut v = VisibilitySet::new(4, 4);
    assert_eq!(names_under(2, 2, &v, &objects), "");
    v.set_visible(2, 2, true);
    v.set_visible(3, 3, true);
    assert_eq!(names_under(2, 2, &v, &objects), "orc, remains of troll");
    assert_eq!(names_under(3, 3, &v, &objects), "");
    assert_eq!(names_under(9, 9, &v, &objects), "");
}

#[test]
fn render_gates() {
    let mut map = Grid::new(4, 4);
    let mut v = VisibilitySet::new(4, 4);
    let mut corpse = Object::new(1, 1, '%', "remains of orc", white());
    corpse.is_walkable = true;
    let orc = Object::new(2, 2, 'o', "orc", white());
    assert!(!draws_in_background(&corpse, &map));
    assert!(!draws_in_foreground(&orc, &v));
    v.set_visible(1, 1, true);
    v.set_visible(2, 2, true);
    mark_explored(&mut map, &v);
    assert!(draws_in_background(&corpse, &map));
    assert!(!draws_in_foreground(&corpse, &v));
    assert!(draws_in_foreground(&orc, &v));
    assert!(!draws_in_background(&orc, &map));
}
