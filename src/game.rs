use vstd::prelude::*;
use crate::apple::Apple;
use crate::board::{ground_row, ground_stamps, in_bounds, interior, on_ring, GameMap};
use crate::direction::{can_advance, Direction, Directed, Pos, Size};
use crate::draw::{
    lemma_overlay_keeps_dims, overlay, overlay_instruction, rows_of, stamp_of, stamp_within,
    stamps_of, Draw, DrawInstruction, IsFreePos, Reset, Stamp, Symbol,
};
use crate::errors::GameError;
use crate::snake::{
    body_stamps, canonical_body, lemma_canonical_shape, next_segment, occupies, step_rejected,
    stepped, turn_rejected, turned, Snake,
};

verus! {

/// The grid leaves room for the initial body inside its ring.
pub open spec fn roomy(size: Size) -> bool {
    size.x >= 7 && size.y >= 6
}

/// Every segment of `body` lies inside the ring of a grid of the given size.
pub open spec fn inside(size: Size, body: Seq<Directed<Pos>>) -> bool {
    forall|i: int| 0 <= i < body.len() ==> interior(size, (#[trigger] body[i]).1)
}

/// What a respawn of the food against `body` leaves: a free interior cell
/// when there is one, otherwise the cell it had.
pub open spec fn food_placed(size: Size, body: Seq<Directed<Pos>>, before: Pos, after: Pos) -> bool {
    if exists|p: Pos| #[trigger] interior(size, p) && !occupies(body, p) {
        interior(size, after) && !occupies(body, after)
    } else {
        after == before
    }
}

/// The symbol rows of a frame: the map's rows with the given stamps written over them.
pub open spec fn frame_rows(size: Size, stamps: Seq<Stamp>) -> Seq<Seq<Directed<Symbol>>> {
    overlay(Seq::new(size.y as nat, |y: int| ground_row(size, y)), stamps)
}

/// How a tick changes a running game: the map stays; a step into the snake
/// or onto a wall resets the round, otherwise the snake steps, and the food
/// respawns against the snake exactly when the head was on it.
pub open spec fn tick_outcome(before: Game, after: Game) -> bool {
    &&& after.map() == before.map()
    &&& before.self_eats() || before.hits_wall() ==> {
        &&& after.character().body() == canonical_body()
        &&& !after.character().is_growing()
        &&& interior(before.size(), after.food().pos)
        &&& !occupies(canonical_body(), after.food().pos)
    }
    &&& !(before.self_eats() || before.hits_wall()) ==> {
        &&& after.character().body() == stepped(before.character().body(), before.grows())
        &&& !after.character().is_growing()
        &&& before.eats() ==> food_placed(
            before.size(),
            before.character().body(),
            before.food().pos,
            after.food().pos,
        )
        &&& !before.eats() ==> after.food() == before.food()
    }
}

/// How a turn request changes a running game: only the head's direction,
/// and only when the head would not land on the body.
pub open spec fn turn_outcome(before: Game, after: Game, direction: Direction) -> bool {
    &&& after.map() == before.map()
    &&& after.food() == before.food()
    &&& after.character().is_growing() == before.character().is_growing()
    &&& turn_rejected(before.character().body(), direction) ==> after.character().body()
        == before.character().body()
    &&& !turn_rejected(before.character().body(), direction) ==> after.character().body()
        == turned(before.character().body(), direction)
}

/// When the head is on the food and the round goes on, the snake is one
/// segment longer after the tick.
pub proof fn lemma_eating_lengthens(g: Game)
    requires
        g.wf(),
        g.eats(),
        !g.self_eats(),
        !g.hits_wall(),
    ensures
        stepped(g.character().body(), g.grows()).len() == g.character().body().len() + 1,
{
}

/// One map, one snake and one apple, and the rules of a round.
pub struct Game {
    map: GameMap,
    character: Snake,
    food: Apple,
}

impl Game {
    pub closed spec fn map(&self) -> GameMap {
        self.map
    }

    pub closed spec fn character(&self) -> Snake {
        self.character
    }

    pub closed spec fn food(&self) -> Apple {
        self.food
    }

    /// The map's size.
    pub open spec fn size(&self) -> Size {
        self.map().size()
    }

    /// What a reset needs: a valid, roomy map and the food on it.
    pub open spec fn sound(&self) -> bool {
        &&& self.map().wf()
        &&& roomy(self.size())
        &&& in_bounds(self.size(), self.food().pos)
    }

    /// A running round: the snake has two or more segments, all inside the ring.
    pub open spec fn wf(&self) -> bool {
        &&& self.sound()
        &&& self.character().wf()
        &&& self.character().body().len() >= 2
        &&& inside(self.size(), self.character().body())
    }

    /// The head lies on the food.
    pub open spec fn eats(&self) -> bool {
        self.character().head().1 == self.food().pos
    }

    /// The next step keeps the tail.
    pub open spec fn grows(&self) -> bool {
        self.character().is_growing() || self.eats()
    }

    /// The cell the head moves to on the next tick.
    pub open spec fn next_head(&self) -> Pos {
        next_segment(self.character().head()).1
    }

    /// The next tick's step runs into the snake itself.
    pub open spec fn self_eats(&self) -> bool {
        step_rejected(self.character().body(), self.grows())
    }

    /// The next tick's step is taken and lands on a wall.
    pub open spec fn hits_wall(&self) -> bool {
        !self.self_eats() && on_ring(self.size(), self.next_head())
    }

    /// Starts a game: the food is spawned against the snake.
    pub fn new(map: GameMap, character: Snake, food: Apple) -> (r: Game)
        requires
            map.wf(),
            roomy(map.size()),
            character.wf(),
            character.body().len() >= 2,
            inside(map.size(), character.body()),
            in_bounds(map.size(), food.pos),
        ensures
            r.wf(),
            r.map() == map,
            r.character() == character,
            food_placed(map.size(), character.body(), food.pos, r.food().pos),
    {
        let mut food = food;
        let map_size = map.get_size();
        food.spawn(&map_size, &character);
        Game { map, character, food }
    }

    /// Puts a game together from its parts as they are, without a spawn.
    pub fn from_parts(map: GameMap, character: Snake, food: Apple) -> (r: Game)
        requires
            map.wf(),
            roomy(map.size()),
            character.wf(),
            character.body().len() >= 2,
            inside(map.size(), character.body()),
            in_bounds(map.size(), food.pos),
        ensures
            r.wf(),
            r.map() == map,
            r.character() == character,
            r.food() == food,
    {
        Game { map, character, food }
    }

    /// The map.
    pub fn get_map(&self) -> (r: &GameMap)
        ensures
            *r == self.map(),
    {
        &self.map
    }

    /// The snake.
    pub fn get_character(&self) -> (r: &Snake)
        ensures
            *r == self.character(),
    {
        &self.character
    }

    /// The food.
    pub fn get_food(&self) -> (r: &Apple)
        ensures
            *r == self.food(),
    {
        &self.food
    }

    /// Whether the snake's head lies on the food.
    fn can_eat(&self) -> (r: bool)
        requires
            self.character().body().len() > 0,
        ensures
            r == self.eats(),
    {
        self.character.can_eat(&self.food.pos)
    }

    /// One step of the round. A head on the food makes the snake grow and the
    /// food respawn against the snake; then the snake steps, and a head that
    /// lands on a wall ends the round.
    pub fn step_character(&mut self) -> (r: Result<(), GameError>)
        requires
            old(self).wf(),
        ensures
            final(self).map() == old(self).map(),
            final(self).sound(),
            final(self).drawable(),
            r == Err::<(), GameError>(GameError::SelfEatingStepError(crate::errors::SelfEatingStepError))
                <==> old(self).self_eats(),
            r == Err::<(), GameError>(GameError::KilledByWall) <==> old(self).hits_wall(),
            r is Ok <==> !old(self).self_eats() && !old(self).hits_wall(),
            r is Ok ==> final(self).wf(),
            old(self).self_eats() ==> final(self).character().body() == old(self).character().body()
                && final(self).character().is_growing() == old(self).grows(),
            !old(self).self_eats() ==> final(self).character().body() == stepped(
                old(self).character().body(),
                old(self).grows(),
            ) && !final(self).character().is_growing(),
            old(self).eats() ==> food_placed(
                old(self).size(),
                old(self).character().body(),
                old(self).food().pos,
                final(self).food().pos,
            ),
            !old(self).eats() ==> final(self).food() == old(self).food(),
    {
        let ghost size = self.size();
        let map_size = self.map.get_size();
        if self.can_eat() {
            self.character.grow();
            self.food.spawn(&map_size, &self.character);
        }
        proof {
            let h = self.character.head();
            assert(interior(size, h.1)) by {
                assert(self.character.body()[self.character.body().len() - 1] == h);
            }
            assert(can_advance(h.1, h.0));
        }
        let ghost before = self.character.body();
        match self.character.step() {
            Err(e) => {
                return Err(GameError::from(e));
            },
            Ok(()) => {},
        }
        proof {
            self.lemma_stepped_in_bounds(before);
        }
        if !self.map.is_free_pos(self.character.get_head_pos()) {
            Err(GameError::KilledByWall)
        } else {
            proof {
                self.lemma_stepped_inside(before);
            }
            Ok(())
        }
    }

    /// One tick: the snake steps as `step_character` says, and a round that
    /// ends there is reset.
    pub fn tick(&mut self)
        requires
            old(self).wf(),
        ensures
            final(self).wf(),
            tick_outcome(*old(self), *final(self)),
    {
        match self.step_character() {
            Ok(()) => {},
            Err(_) => self.reset(),
        }
    }

    /// Points the snake's head towards `direction`; a turn that would make the
    /// head land on the body is ignored.
    pub fn turn_character(&mut self, direction: Direction)
        requires
            old(self).wf(),
        ensures
            final(self).wf(),
            turn_outcome(*old(self), *final(self), direction),
    {
        proof {
            let b = self.character.body();
            assert(interior(self.size(), b[b.len() - 1].1));
        }
        match self.character.turn(direction) {
            Ok(()) => {},
            Err(_) => {},
        }
        proof {
            let b = self.character.body();
            let ob = old(self).character.body();
            assert forall|i: int| 0 <= i < b.len() implies interior(
                self.size(),
                (#[trigger] b[i]).1,
            ) by {
                assert(b[i].1 == ob[i].1);
            }
        }
    }

    /// The cells of a snake that stepped from inside the ring lie on the map.
    proof fn lemma_stepped_in_bounds(&self, before: Seq<Directed<Pos>>)
        requires
            self.map.wf(),
            roomy(self.size()),
            before.len() >= 1,
            inside(self.size(), before),
            can_advance(before.last().1, before.last().0),
            self.character.body().len() > 0,
            self.character.body().last() == next_segment(before.last()),
            forall|i: int|
                0 <= i < self.character.body().len() - 1 ==> #[trigger] occupies(
                    before,
                    self.character.body()[i].1,
                ),
        ensures
            forall|i: int|
                0 <= i < self.character.body().len() ==> in_bounds(
                    self.size(),
                    (#[trigger] self.character.body()[i]).1,
                ),
            in_bounds(self.size(), self.character.head().1),
    {
        let size = self.size();
        let b = self.character.body();
        assert(interior(size, before[before.len() - 1].1));
        assert forall|i: int| 0 <= i < b.len() implies in_bounds(size, (#[trigger] b[i]).1) by {
            if i < b.len() - 1 {
                assert(occupies(before, b[i].1));
                let j = choose|j: int| 0 <= j < before.len() && before[j].1 == b[i].1;
                assert(interior(size, before[j].1));
            }
        }
    }

    /// The cells of a snake that stepped from inside the ring onto a free map
    /// cell all lie inside the ring.
    proof fn lemma_stepped_inside(&self, before: Seq<Directed<Pos>>)
        requires
            self.map.wf(),
            inside(self.size(), before),
            self.character.body().len() > 0,
            !on_ring(self.size(), self.character.head().1),
            forall|i: int|
                0 <= i < self.character.body().len() ==> in_bounds(
                    self.size(),
                    (#[trigger] self.character.body()[i]).1,
                ),
            forall|i: int|
                0 <= i < self.character.body().len() - 1 ==> #[trigger] occupies(
                    before,
                    self.character.body()[i].1,
                ),
        ensures
            inside(self.size(), self.character.body()),
    {
        let size = self.size();
        let b = self.character.body();
        assert forall|i: int| 0 <= i < b.len() implies interior(size, (#[trigger] b[i]).1) by {
            if i < b.len() - 1 {
                assert(occupies(before, b[i].1));
                let j = choose|j: int| 0 <= j < before.len() && before[j].1 == b[i].1;
                assert(interior(size, before[j].1));
            } else {
                assert(in_bounds(size, b[i].1));
            }
        }
    }
}

impl Draw for Game {
    open spec fn drawable(&self) -> bool {
        &&& self.map().wf()
        &&& self.character().body().len() > 0
        &&& forall|i: int|
            0 <= i < self.character().body().len() ==> in_bounds(
                self.size(),
                (#[trigger] self.character().body()[i]).1,
            )
        &&& in_bounds(self.size(), self.food().pos)
    }

    open spec fn stamps(&self) -> Seq<Stamp> {
        let rows = frame_rows(
            self.size(),
            self.food().stamps() + body_stamps(self.character().body()),
        );
        Seq::new(self.size().y as nat, |y: int| (Pos { x: 0, y: y as usize }, rows[y]))
    }

    /// The map's rows with the food's cell and then the snake's cells written
    /// over them; where the two meet the snake shows.
    fn draw(&self) -> (r: Vec<DrawInstruction>) {
        let ghost size = self.size();
        let ghost all = self.food().stamps() + body_stamps(self.character().body());
        let ghost rows0 = Seq::new(size.y as nat, |y: int| ground_row(size, y));
        let mut frame = self.map.draw();
        let mut overlays = self.food.draw();
        let mut body = self.character.draw();
        overlays.append(&mut body);
        proof {
            assert(stamps_of(overlays@) =~= all);
            assert(stamps_of(frame@) == ground_stamps(size));
            assert(frame@.len() == stamps_of(frame@).len());
            assert(frame@.len() == size.y);
            assert forall|y: int| 0 <= y < frame@.len() implies (#[trigger] frame@[y]).pos == (Pos {
                x: 0,
                y: y as usize,
            }) && rows_of(frame@)[y] == rows0[y] by {
                assert(stamps_of(frame@)[y] == stamp_of(frame@[y]));
                assert(stamps_of(frame@)[y] == ground_stamps(size)[y]);
                assert(rows_of(frame@)[y] == frame@[y].shape@);
            }
            assert(rows_of(frame@) =~= rows0);
            assert forall|i: int| 0 <= i < all.len() implies stamp_within(
                size.y as nat,
                size.x as nat,
                #[trigger] all[i],
            ) by {
                let fs = self.food().stamps();
                if i >= fs.len() {
                    let b = self.character().body();
                    assert(all[i] == body_stamps(b)[i - fs.len()]);
                    assert(in_bounds(size, b[i - fs.len()].1));
                }
            }
        }
        let n = overlays.len();
        let mut i: usize = 0;
        while i < n
            invariant
                n == overlays@.len(),
                stamps_of(overlays@) == all,
                i <= n,
                frame@.len() == size.y,
                forall|y: int| 0 <= y < size.y ==> (#[trigger] frame@[y]).pos == (Pos {
                    x: 0,
                    y: y as usize,
                }),
                rows_of(frame@) == overlay(rows0, all.subrange(0, i as int)),
                forall|y: int| 0 <= y < rows0.len() ==> (#[trigger] rows0[y]).len() == size.x,
                rows0.len() == size.y,
                forall|k: int| 0 <= k < all.len() ==> stamp_within(
                    size.y as nat,
                    size.x as nat,
                    #[trigger] all[k],
                ),
            decreases n - i,
        {
            proof {
                let pre = all.subrange(0, i as int);
                assert forall|k: int| 0 <= k < pre.len() implies stamp_within(
                    rows0.len(),
                    size.x as nat,
                    #[trigger] pre[k],
                ) by {
                    assert(pre[k] == all[k]);
                }
                lemma_overlay_keeps_dims(rows0, pre, size.x as nat);
                assert(stamps_of(overlays@)[i as int] == stamp_of(overlays@[i as int]));
                assert(stamp_within(size.y as nat, size.x as nat, all[i as int]));
            }
            overlay_instruction(&mut frame, &overlays[i]);
            proof {
                assert(all.subrange(0, i + 1).drop_last() =~= all.subrange(0, i as int));
                assert(stamps_of(overlays@)[i as int] == stamp_of(overlays@[i as int]));
            }
            i = i + 1;
        }
        proof {
            assert(all.subrange(0, n as int) =~= all);
            assert forall|y: int| 0 <= y < size.y implies #[trigger] stamps_of(frame@)[y]
                == self.stamps()[y] by {
                assert(stamps_of(frame@)[y] == stamp_of(frame@[y]));
                assert(rows_of(frame@)[y] == frame@[y].shape@);
            }
            assert(stamps_of(frame@) =~= self.stamps());
        }
        frame
    }
}

impl Reset for Game {
    open spec fn resettable(&self) -> bool {
        self.sound()
    }

    /// Starts a new round: the initial snake, and the food respawned against it.
    fn reset(&mut self)
        ensures
            final(self).wf(),
            final(self).map() == old(self).map(),
            final(self).character().body() == canonical_body(),
            !final(self).character().is_growing(),
            interior(old(self).size(), final(self).food().pos),
            !occupies(canonical_body(), final(self).food().pos),
    {
        self.character.reset();
        let map_size = self.map.get_size();
        proof {
            lemma_canonical_fits(map_size);
            assert(interior(map_size, Pos { x: 1, y: 1 }) && self.character.free_at(
                Pos { x: 1, y: 1 },
            ));
        }
        self.food.spawn(&map_size, &self.character);
    }
}

/// On a roomy grid the initial body lies inside the ring, and the cell
/// diagonally inside the top-left corner is free of it.
pub proof fn lemma_canonical_fits(size: Size)
    requires
        roomy(size),
    ensures
        inside(size, canonical_body()),
        interior(size, Pos { x: 1, y: 1 }),
        !occupies(canonical_body(), Pos { x: 1, y: 1 }),
{
    let b = canonical_body();
    lemma_canonical_shape();
    assert(b[0].1 == Pos { x: 3, y: 3 });
    assert(b[1].1 == Pos { x: 4, y: 3 });
    assert(b[2].1 == Pos { x: 5, y: 3 });
    assert(b[3].1 == Pos { x: 5, y: 4 });
}

} // verus!
