//! One player's turn: throws, selections, re-rolls, exhaustion, bust and bank.

use vstd::prelude::*;
use crate::dice::{DiceSet, SLOTS, occupied, occupied_in, roll_dice, roll_faces, valid_face};
use crate::scoring::{OptionView, ScoringOption, all_options, lemma_options_selectable, views};

verus! {

/// Permanent score at which a player wins.
pub const TARGET: u64 = 4000;

/// Whether a permanent score and the points of the turn in progress reach the target.
pub fn would_win(score: u64, turn_points: u64) -> (r: bool)
    ensures
        r == (score + turn_points >= TARGET),
{
    turn_points >= TARGET || score >= TARGET - turn_points
}

/// Whether a throw offers no selection at all.
pub fn is_bust(options: &Vec<ScoringOption>) -> (r: bool)
    ensures
        r == (options@.len() == 0),
{
    options.len() == 0
}

/// A player and the score banked over the game.
pub struct Player {
    pub name: String,
    pub score: u64,
}

impl Player {
    /// A player who has banked nothing yet.
    pub fn new(name: String) -> (r: Player)
        ensures
            r.name@ == name@,
            r.score == 0,
    {
        Player { name, score: 0 }
    }

    /// Whether this player wins with `turn_points` more.
    pub fn would_win(&self, turn_points: u64) -> (r: bool)
        ensures
            r == (self.score + turn_points >= TARGET),
    {
        would_win(self.score, turn_points)
    }

    /// Adds the points of a turn to the banked score, and tells whether the
    /// new score wins.
    pub fn bank(&mut self, turn_points: u64) -> (won: bool)
        requires
            old(self).score + turn_points <= u64::MAX,
        ensures
            final(self).score == old(self).score + turn_points,
            final(self).name == old(self).name,
            won == (final(self).score >= TARGET),
    {
        self.score = self.score + turn_points;
        self.score >= TARGET
    }
}

/// The player to chase: the last of those with the highest score.
pub fn leader(players: &Vec<Player>) -> (r: usize)
    requires
        players@.len() > 0,
    ensures
        r < players@.len(),
        forall|i: int| 0 <= i < players@.len() ==> #[trigger] players@[i].score <= players@[r as int].score,
        forall|i: int| r < i < players@.len() ==> #[trigger] players@[i].score < players@[r as int].score,
{
    let mut best: usize = 0;
    let mut i: usize = 1;
    while i < players.len()
        invariant
            1 <= i <= players@.len(),
            best < i,
            forall|j: int| 0 <= j < i ==> #[trigger] players@[j].score <= players@[best as int].score,
            forall|j: int| best < j < i ==> #[trigger] players@[j].score < players@[best as int].score,
        decreases players@.len() - i,
    {
        if players[i].score >= players[best].score {
            best = i;
        }
        i = i + 1;
    }
    best
}

/// The slots `s` with every slot named in `taken` emptied.
pub open spec fn consumed(s: Seq<Option<u32>>, taken: Seq<usize>) -> Seq<Option<u32>> {
    Seq::new(
        SLOTS as nat,
        |i: int|
            if taken.contains(i as usize) {
                None
            } else {
                s[i]
            },
    )
}

/// The state of a turn, as mathematical values.
pub struct TurnView {
    pub dice: Seq<Option<u32>>,
    pub points: nat,
    pub can_reroll: bool,
    pub options: Seq<OptionView>,
}

/// A turn in progress: the dice in play, the points gathered this turn,
/// whether a re-roll is offered, and the selections that the dice offer.
pub struct Turn {
    dice: DiceSet,
    points: u64,
    can_reroll: bool,
    options: Vec<ScoringOption>,
}

impl View for Turn {
    type V = TurnView;

    closed spec fn view(&self) -> TurnView {
        TurnView {
            dice: self.dice@,
            points: self.points as nat,
            can_reroll: self.can_reroll,
            options: views(self.options@),
        }
    }
}

impl Turn {
    pub closed spec fn wf(&self) -> bool {
        &&& self.dice.wf()
        &&& views(self.options@) == all_options(self.dice@)
    }

    /// A turn that begins with the given throw: no points, no re-roll.
    pub fn with_throw(dice: DiceSet) -> (r: Turn)
        requires
            dice.wf(),
        ensures
            r.wf(),
            r@.dice == dice@,
            r@.points == 0,
            !r@.can_reroll,
            r@.options == all_options(dice@),
    {
        let options = dice.scoring_options();
        Turn { dice, points: 0, can_reroll: false, options }
    }

    /// A turn that begins with a throw of six dice.
    pub fn start() -> (r: Turn)
        ensures
            r.wf(),
            forall|i: int| 0 <= i < SLOTS ==> #[trigger] r@.dice[i] is Some,
            r@.points == 0,
            !r@.can_reroll,
    {
        Turn::with_throw(DiceSet::fresh())
    }

    /// The dice in play.
    pub fn dice(&self) -> (r: &DiceSet)
        requires
            self.wf(),
        ensures
            r.wf(),
            r@ == self@.dice,
    {
        &self.dice
    }

    /// The points gathered this turn.
    pub fn points(&self) -> (r: u64)
        ensures
            r == self@.points,
    {
        self.points
    }

    /// Whether a re-roll of the remaining dice is offered.
    pub fn can_reroll(&self) -> (r: bool)
        ensures
            r == self@.can_reroll,
    {
        self.can_reroll
    }

    /// The selections that the dice in play offer.
    pub fn options(&self) -> (r: &Vec<ScoringOption>)
        requires
            self.wf(),
        ensures
            views(r@) == self@.options,
            views(r@) == all_options(self@.dice),
    {
        &self.options
    }

    /// Takes the selection at `index`: its slots leave play, its points join
    /// the turn's, and a re-roll is offered. Where that leaves no dice in play,
    /// a new throw showing `refill` takes their place and no re-roll is
    /// offered; the turn's points are kept either way. Tells whether the
    /// player, with the points of the turn so far, has reached the target.
    pub fn select_with(&mut self, index: usize, player: &Player, refill: [u32; 6]) -> (won: bool)
        requires
            old(self).wf(),
            index < old(self)@.options.len(),
            old(self)@.points + old(self)@.options[index as int].score <= u64::MAX,
            forall|k: int| 0 <= k < SLOTS ==> valid_face(#[trigger] refill@[k]),
        ensures
            final(self).wf(),
            final(self)@.points == old(self)@.points + old(self)@.options[index as int].score,
            won == (player.score + final(self)@.points >= TARGET),
            occupied(consumed(old(self)@.dice, old(self)@.options[index as int].slots)) > 0 ==> {
                &&& final(self)@.dice == consumed(old(self)@.dice, old(self)@.options[index as int].slots)
                &&& final(self)@.can_reroll
            },
            occupied(consumed(old(self)@.dice, old(self)@.options[index as int].slots)) == 0 ==> {
                &&& forall|i: int| 0 <= i < SLOTS ==> #[trigger] final(self)@.dice[i] == Some(refill@[i])
                &&& !final(self)@.can_reroll
            },
    {
        proof {
            lemma_options_selectable(self.dice@);
            assert(views(self.options@)[index as int] == self.options@[index as int]@);
        }
        let score = self.options[index].score;
        self.dice.consume(&self.options[index].indexes);
        proof {
            assert(self.dice@ =~= consumed(old(self)@.dice, old(self)@.options[index as int].slots));
        }
        self.points = self.points + score as u64;
        self.can_reroll = true;
        if self.dice.is_exhausted() {
            self.dice = DiceSet::from_faces(refill).unwrap();
            self.can_reroll = false;
        }
        self.options = self.dice.scoring_options();
        would_win(player.score, self.points)
    }

    /// Takes the selection at `index` as `select_with` does; where the dice run
    /// out, the new throw is six random draws.
    pub fn select(&mut self, index: usize, player: &Player) -> (won: bool)
        requires
            old(self).wf(),
            index < old(self)@.options.len(),
            old(self)@.points + old(self)@.options[index as int].score <= u64::MAX,
        ensures
            final(self).wf(),
            final(self)@.points == old(self)@.points + old(self)@.options[index as int].score,
            won == (player.score + final(self)@.points >= TARGET),
            occupied(consumed(old(self)@.dice, old(self)@.options[index as int].slots)) > 0 ==> {
                &&& final(self)@.dice == consumed(old(self)@.dice, old(self)@.options[index as int].slots)
                &&& final(self)@.can_reroll
            },
            occupied(consumed(old(self)@.dice, old(self)@.options[index as int].slots)) == 0 ==> {
                &&& forall|i: int| 0 <= i < SLOTS ==> #[trigger] final(self)@.dice[i] is Some
                &&& !final(self)@.can_reroll
            },
    {
        let refill = roll_faces();
        let won = self.select_with(index, player, refill);
        proof {
            if occupied(consumed(old(self)@.dice, old(self)@.options[index as int].slots)) == 0 {
                assert(forall|i: int| 0 <= i < SLOTS ==> #[trigger] self@.dice[i] == Some(refill@[i]));
            }
        }
        won
    }

    /// Gives the dice still in play, in slot order, the faces in `draws`, one
    /// each; only offered right after a selection.
    pub fn reroll_with(&mut self, draws: &Vec<u32>)
        requires
            old(self).wf(),
            old(self)@.can_reroll,
            draws@.len() == occupied(old(self)@.dice),
            forall|k: int| 0 <= k < draws@.len() ==> valid_face(#[trigger] draws@[k]),
        ensures
            final(self).wf(),
            forall|i: int|
                0 <= i < SLOTS ==> #[trigger] final(self)@.dice[i] == if old(self)@.dice[i] is Some {
                    Some(draws@[occupied_in(old(self)@.dice, i) as int])
                } else {
                    None
                },
            final(self)@.points == old(self)@.points,
            !final(self)@.can_reroll,
    {
        self.dice.reroll_with(draws);
        self.can_reroll = false;
        self.options = self.dice.scoring_options();
    }

    /// Throws the dice still in play again; only offered right after a selection.
    pub fn reroll(&mut self)
        requires
            old(self).wf(),
            old(self)@.can_reroll,
        ensures
            final(self).wf(),
            forall|i: int| 0 <= i < SLOTS ==> (#[trigger] final(self)@.dice[i] is Some <==> old(self)@.dice[i] is Some),
            final(self)@.points == old(self)@.points,
            !final(self)@.can_reroll,
    {
        let draws = roll_dice(self.dice().occupied_count());
        self.reroll_with(&draws);
    }

    /// Ends the turn by adding its points to the player's banked score; tells
    /// whether the new score wins.
    pub fn bank(self, player: &mut Player) -> (won: bool)
        requires
            old(player).score + self@.points <= u64::MAX,
        ensures
            final(player).score == old(player).score + self@.points,
            final(player).name == old(player).name,
            won == (final(player).score >= TARGET),
    {
        player.bank(self.points)
    }

    /// Whether the dice in play offer nothing: the turn ends and its points are lost.
    pub fn is_bust(&self) -> (r: bool)
        requires
            self.wf(),
        ensures
            r == (all_options(self@.dice).len() == 0),
    {
        is_bust(&self.options)
    }
}

} // verus!
