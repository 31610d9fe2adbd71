use vstd::prelude::*;
use crate::apple::Apple;
use crate::board::GameMap;
use crate::direction::{Direction, Pos};
use crate::draw::{Draw, DrawInstruction, Stamp};
use crate::board::interior;
use crate::game::{lemma_canonical_fits, tick_outcome, turn_outcome, Game};
use crate::snake::{
    canonical_body, lemma_canonical_shape, lemma_initial_step_moves, occupies, stepped, Snake,
};

verus! {

/// A request from the player.
#[derive(Clone, Copy, PartialEq, Eq, Structural, Debug)]
pub enum Control {
    Turn(Direction),
}

/// Why the game is asked to update.
#[derive(Clone, Copy, PartialEq, Eq, Structural, Debug)]
pub enum UpdateReason {
    Control(Control),
    Time,
}

/// A game as its driver sees it: built from a size, moved on by events.
pub struct SnakeGame {
    game: Game,
}

impl SnakeGame {
    pub closed spec fn game(&self) -> Game {
        self.game
    }

    /// A `width` by `height` game with the initial snake, the food spawned
    /// off it, and one tick taken: the snake has moved down one cell, or, on a
    /// grid of height 6, has met the bottom wall and starts again.
    pub fn new(size: (usize, usize)) -> (r: SnakeGame)
        requires
            size.0 >= 7,
            size.1 >= 6,
        ensures
            r.game().wf(),
            r.game().size() == (Pos { x: size.0, y: size.1 }),
            !r.game().character().is_growing(),
            r.game().character().body() == if size.1 >= 7 {
                stepped(canonical_body(), false)
            } else {
                canonical_body()
            },
    {
        let map = GameMap::new(size.0, size.1);
        let character = Snake::new();
        proof {
            lemma_canonical_shape();
            lemma_canonical_fits(map.size());
        }
        let mut game = Game::new(map, character, Apple::new());
        proof {
            let b = canonical_body();
            assert(interior(game.size(), Pos { x: 1, y: 1 }) && !occupies(b, Pos { x: 1, y: 1 }));
            assert(!occupies(b, game.food().pos));
            assert(!game.eats()) by {
                if game.eats() {
                    assert(b[b.len() - 1].1 == game.food().pos);
                }
            }
            lemma_initial_step_moves(&game.character());
            assert(game.next_head() == Pos { x: 5, y: 5 });
        }
        game.tick();
        SnakeGame { game }
    }

    /// A tick on `Time`; a turn request on `Control`.
    pub fn update(&mut self, reason: UpdateReason)
        requires
            old(self).game().wf(),
        ensures
            final(self).game().wf(),
            reason == UpdateReason::Time ==> tick_outcome(old(self).game(), final(self).game()),
            forall|d: Direction|
                reason == UpdateReason::Control(Control::Turn(d)) ==> turn_outcome(
                    old(self).game(),
                    final(self).game(),
                    d,
                ),
    {
        match reason {
            UpdateReason::Control(Control::Turn(direction)) => self.game.turn_character(direction),
            UpdateReason::Time => self.game.tick(),
        }
    }

    /// The game inside.
    pub fn get_game(&self) -> (r: &Game)
        ensures
            *r == self.game(),
    {
        &self.game
    }
}

impl Draw for SnakeGame {
    open spec fn drawable(&self) -> bool {
        self.game().wf()
    }

    open spec fn stamps(&self) -> Seq<Stamp> {
        self.game().stamps()
    }

    /// The frame of the game inside.
    fn draw(&self) -> (r: Vec<DrawInstruction>) {
        proof {
            let b = self.game.character().body();
            assert forall|i: int| 0 <= i < b.len() implies crate::board::in_bounds(
                self.game.size(),
                (#[trigger] b[i]).1,
            ) by {
                assert(crate::board::interior(self.game.size(), b[i].1));
            }
        }
        self.game.draw()
    }
}

} // verus!
