use vstd::prelude::*;
use crate::color::{dark_red, orange, red, spec_dark_red, spec_orange, spec_red, spec_white, white, Color};
use crate::game::Game;
use crate::text::{decimal, decimal_text};

verus! {

/// Which irreversible transformation an entity undergoes when it dies.
#[derive(Clone, Copy, Debug, PartialEq, Eq, Structural)]
pub enum DeathCallback {
    Player,
    Monster,
}

/// Combat statistics of an entity that can fight.
#[derive(Clone, Copy, Debug, PartialEq, Eq, Structural)]
pub struct Fighter {
    pub max_hp: i32,
    pub hp: i32,
    pub defense: i32,
    pub attack: i32,
    pub on_death: DeathCallback,
}

/// Marks an entity that acts on its own in the monsters' phase.
#[derive(Clone, Copy, Debug, PartialEq, Eq, Structural)]
pub struct Ai;

/// Anything that stands on the grid: the player, a monster, a corpse.
#[derive(Debug)]
pub struct Object {
    pub x: i32,
    pub y: i32,
    pub char: char,
    pub color: Color,
    pub name: String,
    pub fighter: Option<Fighter>,
    pub ai: Option<Ai>,
    pub is_walkable: bool,
    pub is_alive: bool,
    pub was_seen: bool,
}

/// The attack value of `o`, 0 when it cannot fight.
pub open spec fn attack_power(o: Object) -> int {
    match o.fighter {
        Some(f) => f.attack as int,
        None => 0,
    }
}

/// The defense value of `o`, 0 when it cannot fight.
pub open spec fn defense_power(o: Object) -> int {
    match o.fighter {
        Some(f) => f.defense as int,
        None => 0,
    }
}

/// The damage that `attacker` deals to `defender`; no damage is dealt when it is not positive.
pub open spec fn damage_between(attacker: Object, defender: Object) -> int {
    attack_power(attacker) - defense_power(defender)
}

/// `after` is `before` once the death transition of `kind` has run on it.
pub open spec fn death_transition(before: Object, after: Object, kind: DeathCallback) -> bool {
    match kind {
        DeathCallback::Player => after == (Object {
            char: '%',
            color: spec_dark_red(),
            fighter: None,
            ai: None,
            is_walkable: true,
            ..before
        }),
        DeathCallback::Monster => {
            &&& after.x == before.x
            &&& after.y == before.y
            &&& after.char == '%'
            &&& after.color == spec_dark_red()
            &&& after.name@ == "remains of "@ + before.name@
            &&& after.fighter is None
            &&& after.ai is None
            &&& after.is_walkable
            &&& after.is_alive == before.is_alive
            &&& after.was_seen == before.was_seen
        },
    }
}

/// `after` is `before` killed: hit points at 0, no longer alive, and its death transition run.
pub open spec fn died(before: Object, after: Object) -> bool {
    match before.fighter {
        None => false,
        Some(f) => death_transition(
            Object { fighter: Some(Fighter { hp: 0, ..f }), is_alive: false, ..before },
            after,
            f.on_death,
        ),
    }
}

/// The message that announces the death of `o`.
pub open spec fn death_message(o: Object) -> (Seq<char>, Color) {
    if o.fighter is Some && o.fighter->0.on_death == DeathCallback::Player {
        ("You died!"@, spec_red())
    } else {
        (o.name@ + " is dead!"@, spec_orange())
    }
}

/// The damage kills `o`.
pub open spec fn is_lethal(o: Object, damage: int) -> bool {
    damage > 0 && o.fighter is Some && damage >= o.fighter->0.hp
}

/// `after` is `before` once it has taken `damage`.
pub open spec fn took_damage(before: Object, after: Object, damage: int) -> bool {
    if damage <= 0 || before.fighter is None {
        after == before
    } else if is_lethal(before, damage) {
        died(before, after)
    } else {
        after == (Object {
            fighter: Some(Fighter { hp: (before.fighter->0.hp - damage) as i32, ..before.fighter->0 }),
            ..before
        })
    }
}

/// The messages that taking `damage` adds to the log.
pub open spec fn damage_log(o: Object, damage: int) -> Seq<(Seq<char>, Color)> {
    if is_lethal(o, damage) {
        seq![death_message(o)]
    } else {
        seq![]
    }
}

pub open spec fn attack_text(attacker: Seq<char>, defender: Seq<char>, damage: nat) -> Seq<char> {
    attacker + " attacks "@ + defender + " for "@ + decimal(damage) + " damage"@
}

pub open spec fn no_effect_text(attacker: Seq<char>, defender: Seq<char>) -> Seq<char> {
    attacker + " attacks "@ + defender + " but it has no effect!"@
}

/// The messages that an attack adds to the log.
pub open spec fn attack_log(attacker: Object, defender: Object) -> Seq<(Seq<char>, Color)> {
    let d = damage_between(attacker, defender);
    if d > 0 {
        seq![(attack_text(attacker.name@, defender.name@, d as nat), spec_white())] + damage_log(defender, d)
    } else {
        seq![(no_effect_text(attacker.name@, defender.name@), spec_white())]
    }
}

impl DeathCallback {
    /// Runs the death transition of this kind on `object`.
    pub fn callback(self, object: &mut Object, game: &mut Game)
        requires
            old(object).fighter is Some,
            old(object).fighter->0.on_death == self,
        ensures
            death_transition(*old(object), *final(object), self),
            final(game).map == old(game).map,
            final(game).messages@ == old(game).messages@.push(death_message(*old(object))),
    {
        match self {
            DeathCallback::Player => player_death(object, game),
            DeathCallback::Monster => monster_death(object, game),
        }
    }
}

fn player_death(player: &mut Object, game: &mut Game)
    requires
        old(player).fighter is Some,
        old(player).fighter->0.on_death == DeathCallback::Player,
    ensures
        *final(player) == (Object {
            char: '%',
            color: spec_dark_red(),
            fighter: None,
            ai: None,
            is_walkable: true,
            ..*old(player)
        }),
        final(game).map == old(game).map,
        final(game).messages@ == old(game).messages@.push(("You died!"@, spec_red())),
{
    game.messages.add(String::from_str("You died!"), red());
    player.char = '%';
    player.color = dark_red();
    player.fighter = None;
    player.ai = None;
    player.is_walkable = true;
}

fn monster_death(monster: &mut Object, game: &mut Game)
    ensures
        final(monster).x == old(monster).x,
        final(monster).y == old(monster).y,
        final(monster).char == '%',
        final(monster).color == spec_dark_red(),
        final(monster).name@ == "remains of "@ + old(monster).name@,
        final(monster).fighter is None,
        final(monster).ai is None,
        final(monster).is_walkable,
        final(monster).is_alive == old(monster).is_alive,
        final(monster).was_seen == old(monster).was_seen,
        final(game).map == old(game).map,
        final(game).messages@ == old(game).messages@.push((old(monster).name@ + " is dead!"@, spec_orange())),
{
    let mut message = monster.name.clone();
    message.append(" is dead!");
    game.messages.add(message, orange());
    monster.char = '%';
    monster.color = dark_red();
    monster.is_walkable = true;
    monster.fighter = None;
    monster.ai = None;
    let mut remains = String::from_str("remains of ");
    remains.append(monster.name.as_str());
    monster.name = remains;
}

impl Object {
    pub fn new(x: i32, y: i32, char: char, name: &str, color: Color) -> (o: Object)
        ensures
            o.x == x,
            o.y == y,
            o.char == char,
            o.color == color,
            o.name@ == name@,
            o.fighter is None,
            o.ai is None,
            !o.is_walkable,
            o.is_alive,
            !o.was_seen,
    {
        Object {
            x,
            y,
            char,
            color,
            name: String::from_str(name),
            fighter: None,
            ai: None,
            is_walkable: false,
            is_alive: true,
            was_seen: false,
        }
    }

    pub fn pos(&self) -> (p: (i32, i32))
        ensures
            p == (self.x, self.y),
    {
        (self.x, self.y)
    }

    pub fn set_pos(&mut self, x: i32, y: i32)
        ensures
            *final(self) == (Object { x, y, ..*old(self) }),
    {
        self.x = x;
        self.y = y;
    }

    /// Lowers the hit points by `damage`; at 0 the entity dies.
    pub fn take_damage(&mut self, damage: i32, game: &mut Game)
        ensures
            took_damage(*old(self), *final(self), damage as int),
            final(game).map == old(game).map,
            final(game).messages@ == old(game).messages@ + damage_log(*old(self), damage as int),
    {
        if damage <= 0 {
            assert(old(game).messages@ + damage_log(*old(self), damage as int) =~= old(game).messages@);
            return;
        }
        match self.fighter {
            Some(fighter) => {
                if damage >= fighter.hp {
                    self.fighter = Some(Fighter { hp: 0, ..fighter });
                    self.is_alive = false;
                    fighter.on_death.callback(self, game);
                } else {
                    self.fighter = Some(Fighter { hp: fighter.hp - damage, ..fighter });
                    assert(old(game).messages@ + damage_log(*old(self), damage as int) =~= old(game).messages@);
                }
            },
            None => {
                assert(old(game).messages@ + damage_log(*old(self), damage as int) =~= old(game).messages@);
            },
        }
    }

    /// Attacks `other`: the damage is this entity's attack less the other's defense.
    pub fn attack(&self, other: &mut Object, game: &mut Game)
        ensures
            took_damage(*old(other), *final(other), damage_between(*self, *old(other))),
            final(game).map == old(game).map,
            final(game).messages@ == old(game).messages@ + attack_log(*self, *old(other)),
    {
        let power: i32 = match self.fighter {
            Some(f) => f.attack,
            None => 0,
        };
        let resistance: i32 = match other.fighter {
            Some(f) => f.defense,
            None => 0,
        };
        let damage = power as i64 - resistance as i64;
        let mut text = self.name.clone();
        text.append(" attacks ");
        text.append(other.name.as_str());
        if damage > 0 {
            text.append(" for ");
            let digits = decimal_text(damage as u64);
            text.append(digits.as_str());
            text.append(" damage");
            game.messages.add(text, white());
            let ghost logged = game.messages@;
            // Damage beyond the range of hit points kills just as the largest value does.
            let dealt: i32 = if damage > i32::MAX as i64 {
                i32::MAX
            } else {
                damage as i32
            };
            other.take_damage(dealt, game);
            assert(is_lethal(*old(other), dealt as int) == is_lethal(*old(other), damage as int));
            assert(game.messages@ =~= old(game).messages@ + attack_log(*self, *old(other)));
        } else {
            text.append(" but it has no effect!");
            game.messages.add(text, white());
            assert(game.messages@ =~= old(game).messages@ + attack_log(*self, *old(other)));
        }
    }

    /// Chebyshev distance: the larger of the two coordinate differences.
    pub fn grid_distance_to(&self, other: &Object) -> (d: i64)
        ensures
            d == grid_distance(self.x as int, self.y as int, other.x as int, other.y as int),
    {
        let dx = abs_diff(other.x, self.x);
        let dy = abs_diff(other.y, self.y);
        if dx >= dy {
            dx
        } else {
            dy
        }
    }
}

pub open spec fn abs(n: int) -> int {
    if n >= 0 {
        n
    } else {
        -n
    }
}

pub open spec fn grid_distance(x1: int, y1: int, x2: int, y2: int) -> int {
    let dx = abs(x2 - x1);
    let dy = abs(y2 - y1);
    if dx >= dy {
        dx
    } else {
        dy
    }
}

fn abs_diff(a: i32, b: i32) -> (d: i64)
    ensures
        d == abs(a - b),
{
    let d = a as i64 - b as i64;
    if d >= 0 {
        d
    } else {
        -d
    }
}


/// Taking damage moves nothing and changes no combat statistic but hit points.
pub proof fn lemma_damage_keeps_place(before: Object, after: Object, damage: int)
    requires
        took_damage(before, after, damage),
    ensures
        after.x == before.x,
        after.y == before.y,
        after.fighter is Some ==> before.fighter is Some && after.fighter->0.attack == before.fighter->0.attack
            && after.fighter->0.defense == before.fighter->0.defense,
        after.ai is Some ==> before.ai is Some && attack_power(after) == attack_power(before),
        defense_power(after) == defense_power(before) || defense_power(after) == 0,
{
}

} // verus!
