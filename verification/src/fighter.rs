//! The combat facet of an entity and what happens when it dies.
use vstd::prelude::*;
use crate::colors::{dark_red, red, Color};
use crate::game::{only_logged, Game};
use crate::object::{Object, ObjectView};

verus! {

/// Combat statistics of an entity, before equipment bonuses.
#[derive(Clone, Copy, Debug, PartialEq, Eq, Structural)]
pub struct Fighter {
    pub base_max_hp: i32,
    pub hp: i32,
    pub base_defense: i32,
    pub base_power: i32,
    pub xp: i32,
    pub on_death: DeathCallback,
}

/// What to do with an entity when its hit points run out.
#[derive(Clone, Copy, Debug, PartialEq, Eq, Structural)]
pub enum DeathCallback {
    Player,
    Monster,
}

/// The log line on the player's death.
pub open spec fn player_death_line() -> (Seq<char>, Color) {
    ("Your history ends here"@, red())
}

/// The player once dead: a dark red `%`, otherwise as before.
pub open spec fn spec_player_death(player: ObjectView) -> ObjectView {
    ObjectView { char: '%', color: dark_red(), ..player }
}

/// The log line on the death of `monster`.
pub open spec fn monster_death_line(monster: ObjectView) -> (Seq<char>, Color) {
    (monster.name + " dies!"@, red())
}

/// A monster once dead: remains that block nothing and can neither fight nor act.
pub open spec fn spec_monster_death(monster: ObjectView) -> ObjectView {
    ObjectView {
        char: '%',
        color: dark_red(),
        blocks: false,
        fighter: None,
        ai: None,
        name: "remains of "@ + monster.name,
        ..monster
    }
}

impl DeathCallback {
    /// The log line on the death of `object` under this policy.
    pub open spec fn line(self, object: ObjectView) -> (Seq<char>, Color) {
        match self {
            DeathCallback::Player => player_death_line(),
            DeathCallback::Monster => monster_death_line(object),
        }
    }

    /// What becomes of `object` when it dies under this policy.
    pub open spec fn apply(self, object: ObjectView) -> ObjectView {
        match self {
            DeathCallback::Player => spec_player_death(object),
            DeathCallback::Monster => spec_monster_death(object),
        }
    }

    /// Lets `object` die under this policy.
    pub fn callback(self, object: &mut Object, game: &mut Game)
        ensures
            final(object)@ == self.apply(old(object)@),
            only_logged(*old(game), *final(game), seq![self.line(old(object)@)]),
    {
        match self {
            DeathCallback::Player => player_death(object, game),
            DeathCallback::Monster => monster_death(object, game),
        }
    }
}

/// The player dies: the log says so and the player turns into a dark red `%`.
pub fn player_death(player: &mut Object, game: &mut Game)
    ensures
        final(player)@ == spec_player_death(old(player)@),
        only_logged(*old(game), *final(game), seq![player_death_line()]),
{
    game.messages.add_str("Your history ends here", red());
    player.char = '%';
    player.color = dark_red();
    assert(game.messages@ =~= old(game).messages@ + seq![player_death_line()]);
}

/// A monster dies: the log says so and the monster turns into its remains.
pub fn monster_death(monster: &mut Object, game: &mut Game)
    ensures
        final(monster)@ == spec_monster_death(old(monster)@),
        only_logged(*old(game), *final(game), seq![monster_death_line(old(monster)@)]),
{
    let mut line = monster.name.clone();
    line.append(" dies!");
    game.messages.add(line, red());
    monster.char = '%';
    monster.color = dark_red();
    monster.blocks = false;
    monster.fighter = None;
    monster.ai = None;
    let mut name = String::from_str("remains of ");
    name.append(monster.name.as_str());
    monster.name = name;
    assert(game.messages@ =~= old(game).messages@ + seq![monster_death_line(old(monster)@)]);
}

} // verus!
