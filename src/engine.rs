//! The walk through a story: the life counter, the current tag, and what
//! each turn does.
use vstd::prelude::*;
use crate::story::{Situation, SituationView, Story};

verus! {

/// The life a game starts with.
pub const START_LIFE: i32 = 100;

/// The state of a game: the life left and the tag of the situation reached.
pub struct Game {
    pub life: i32,
    pub current_tag: String,
}

pub struct GameView {
    pub life: int,
    pub current_tag: Seq<char>,
}

impl View for Game {
    type V = GameView;

    open spec fn view(&self) -> GameView {
        GameView { life: self.life as int, current_tag: self.current_tag@ }
    }
}

/// What a turn comes to, over the views.
pub enum Phase {
    GameOver,
    StoryExhausted,
    StoryEnded,
    Choose,
}

/// What a turn does: with no life left the game is over; where the current
/// tag names no situation the story is exhausted; a situation without
/// choices ends the story; otherwise the player chooses.
pub open spec fn phase(g: GameView, story: Map<Seq<char>, SituationView>) -> Phase {
    if g.life <= 0 {
        Phase::GameOver
    } else if !story.contains_key(g.current_tag) {
        Phase::StoryExhausted
    } else if story[g.current_tag].options.len() == 0 {
        Phase::StoryEnded
    } else {
        Phase::Choose
    }
}

/// What a turn comes to, with the position of the situation to present.
#[derive(Debug, Clone, Copy, PartialEq, Eq, Structural)]
pub enum Turn {
    GameOver,
    StoryExhausted,
    StoryEnded { situation: usize },
    Choose { situation: usize },
}

impl Turn {
    pub open spec fn phase(self) -> Phase {
        match self {
            Turn::GameOver => Phase::GameOver,
            Turn::StoryExhausted => Phase::StoryExhausted,
            Turn::StoryEnded { .. } => Phase::StoryEnded,
            Turn::Choose { .. } => Phase::Choose,
        }
    }
}

/// `life + delta`, held within the range of `i32`.
pub open spec fn add_life(life: int, delta: int) -> int {
    if life + delta > i32::MAX {
        i32::MAX as int
    } else if life + delta < i32::MIN {
        i32::MIN as int
    } else {
        life + delta
    }
}

/// A selection names a choice of `s`, counting from 1.
pub open spec fn valid_selection(s: SituationView, selection: int) -> bool {
    1 <= selection <= s.options.len()
}

/// The game after a selection at `s`: a valid selection moves to the tag of
/// the chosen choice, an invalid one stays; either way the life delta of `s`
/// is applied.
pub open spec fn after_choice(g: GameView, s: SituationView, selection: int) -> GameView {
    GameView {
        life: add_life(g.life, s.life_delta),
        current_tag: if valid_selection(s, selection) {
            s.options[selection - 1].target
        } else {
            g.current_tag
        },
    }
}

/// An invalid selection leaves the tag where it is and still applies the
/// life delta of the current situation; a delta that is not positive is
/// applied exactly.
pub proof fn lemma_invalid_selection_applies_life(g: Game, story: Story, selection: int)
    requires
        story.wf(),
        phase(g@, story@) is Choose,
        !valid_selection(story@[g.current_tag@], selection),
    ensures
        after_choice(g@, story@[g.current_tag@], selection).current_tag == g.current_tag@,
        after_choice(g@, story@[g.current_tag@], selection).life == add_life(
            g.life as int,
            story@[g.current_tag@].life_delta,
        ),
        story@[g.current_tag@].life_delta <= 0 ==> after_choice(
            g@,
            story@[g.current_tag@],
            selection,
        ).life == g.life + story@[g.current_tag@].life_delta,
{
    story.lemma_deltas_in_range();
    assert(story@.contains_key(g.current_tag@));
}

/// A valid selection moves the game to the tag of the chosen choice.
pub proof fn lemma_valid_selection_jumps(g: Game, story: Story, selection: int)
    requires
        story.wf(),
        phase(g@, story@) is Choose,
        valid_selection(story@[g.current_tag@], selection),
    ensures
        after_choice(g@, story@[g.current_tag@], selection).current_tag
            == story@[g.current_tag@].options[selection - 1].target,
{
}

/// A situation whose life delta uses up the life left ends the game at the
/// next turn, whatever is selected there.
pub proof fn lemma_life_depleted_game_over(g: Game, story: Story, selection: int)
    requires
        story.wf(),
        phase(g@, story@) is Choose,
        g.life + story@[g.current_tag@].life_delta <= 0,
    ensures
        phase(after_choice(g@, story@[g.current_tag@], selection), story@) is GameOver,
{
    story.lemma_deltas_in_range();
    assert(story@.contains_key(g.current_tag@));
}

impl Game {
    /// A game at the start: full life, at the entry tag `INICIO`.
    pub fn new() -> (r: Game)
        ensures
            r.life == START_LIFE,
            r.current_tag@ == "INICIO"@,
    {
        Game { life: START_LIFE, current_tag: String::from_str("INICIO") }
    }

    /// Decides the turn: game over, story exhausted, story ended at a
    /// situation, or a choice to ask for at a situation.
    pub fn turn(&self, story: &Story) -> (r: Turn)
        requires
            story.wf(),
        ensures
            r.phase() == phase(self@, story@),
            self.life <= 0 ==> r == Turn::GameOver,
            self.life > 0 && !story@.contains_key(self.current_tag@) ==> r == Turn::StoryExhausted,
            self.life > 0 && story@.contains_key(self.current_tag@) && story@[self.current_tag@].options.len()
                == 0 ==> r is StoryEnded,
            match r {
                Turn::StoryEnded { situation } | Turn::Choose { situation } => situation
                    < story.spec_len() && story.seq_view()[situation as int] == story@[self.current_tag@],
                _ => true,
            },
    {
        if self.life <= 0 {
            return Turn::GameOver;
        }
        match story.position(&self.current_tag) {
            None => Turn::StoryExhausted,
            Some(i) => {
                let s = story.situation(i);
                if s.options.len() == 0 {
                    Turn::StoryEnded { situation: i }
                } else {
                    Turn::Choose { situation: i }
                }
            },
        }
    }

    /// Applies a selection made at `situation`: moves to the chosen tag where
    /// the selection is valid, and adds the situation's life delta in any
    /// case. Returns whether the selection was valid.
    pub fn apply_selection(&mut self, situation: &Situation, selection: usize) -> (r: bool)
        ensures
            r == valid_selection(situation@, selection as int),
            final(self)@ == after_choice(old(self)@, situation@, selection as int),
    {
        let n = situation.options.len();
        let valid = 1 <= selection && selection <= n;
        if valid {
            self.current_tag = situation.options[selection - 1].target.clone();
        }
        let sum = self.life as i64 + situation.life_delta as i64;
        self.life = if sum > i32::MAX as i64 {
            i32::MAX
        } else if sum < i32::MIN as i64 {
            i32::MIN
        } else {
            sum as i32
        };
        valid
    }
}

} // verus!
