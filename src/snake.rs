use vstd::prelude::*;
use crate::direction::{
    advance, advanced, can_advance, lemma_advance_back, opposite, Directed,
    Direction, Pos,
};
use crate::draw::{stamp_of, stamps_of, Draw, DrawInstruction, IsFreePos, Reset, Stamp, Symbol};
use crate::errors::{SelfEatingStepError, SelfTurningDirectionError};

verus! {

/// Whether some segment of `body` lies on `p`.
pub open spec fn occupies(body: Seq<Directed<Pos>>, p: Pos) -> bool {
    exists|i: int| 0 <= i < body.len() && (#[trigger] body[i]).1 == p
}

/// No two segments of `body` share a cell.
pub open spec fn cells_distinct(body: Seq<Directed<Pos>>) -> bool {
    forall|i: int, j: int|
        0 <= i < body.len() && 0 <= j < body.len() && i != j ==> (#[trigger] body[i]).1 != (
        #[trigger] body[j]).1
}

/// The body every round starts with, tail first.
pub open spec fn canonical_body() -> Seq<Directed<Pos>> {
    seq![
        Directed(Direction::Right, Pos { x: 3, y: 3 }),
        Directed(Direction::Right, Pos { x: 4, y: 3 }),
        Directed(Direction::Down, Pos { x: 5, y: 3 }),
        Directed(Direction::Down, Pos { x: 5, y: 4 }),
    ]
}

/// The segment that follows `seg` when it moves one cell along its direction.
pub open spec fn next_segment(seg: Directed<Pos>) -> Directed<Pos> {
    Directed(seg.0, advanced(seg.1, seg.0))
}

/// The part of the body that stays during a step: all of it while growing,
/// otherwise all but the tail.
pub open spec fn kept(body: Seq<Directed<Pos>>, growing: bool) -> Seq<Directed<Pos>> {
    if growing {
        body
    } else {
        body.drop_first()
    }
}

/// A step can be computed: a head remains once the tail leaves, and its next
/// cell has unsigned coordinates.
pub open spec fn can_step(body: Seq<Directed<Pos>>, growing: bool) -> bool {
    &&& body.len() > 0
    &&& growing || body.len() >= 2
    &&& can_advance(body.last().1, body.last().0)
}

/// A step is refused when the next head cell lies on the part of the body that stays.
pub open spec fn step_rejected(body: Seq<Directed<Pos>>, growing: bool) -> bool {
    occupies(kept(body, growing), next_segment(body.last()).1)
}

/// The body after an accepted step.
pub open spec fn stepped(body: Seq<Directed<Pos>>, growing: bool) -> Seq<Directed<Pos>> {
    kept(body, growing).push(next_segment(body.last()))
}

/// A turn is refused when the head, moving towards `d`, would land on the body.
pub open spec fn turn_rejected(body: Seq<Directed<Pos>>, d: Direction) -> bool {
    occupies(body, advanced(body.last().1, d))
}

/// The body after an accepted turn: the head now faces `d`.
pub open spec fn turned(body: Seq<Directed<Pos>>, d: Direction) -> Seq<Directed<Pos>> {
    body.update(body.len() - 1, Directed(d, body.last().1))
}

/// What the snake draws: one cell per segment, the head marked apart.
pub open spec fn body_stamps(body: Seq<Directed<Pos>>) -> Seq<Stamp> {
    Seq::new(
        body.len(),
        |i: int|
            (
                body[i].1,
                seq![
                    Directed(
                        body[i].0,
                        if i == body.len() - 1 {
                            Symbol::SnakeHead
                        } else {
                            Symbol::SnakeBody
                        },
                    ),
                ],
            ),
    )
}

/// The snake: directed segments from tail to head, and whether it grows on its next step.
pub struct Snake {
    body: Vec<Directed<Pos>>,
    growing: bool,
}

impl Snake {
    /// The segments, tail first.
    pub closed spec fn body(&self) -> Seq<Directed<Pos>> {
        self.body@
    }

    /// Whether the next step keeps the tail.
    pub closed spec fn is_growing(&self) -> bool {
        self.growing
    }

    /// The last segment.
    pub open spec fn head(&self) -> Directed<Pos> {
        self.body().last()
    }

    /// A snake has at least one segment and no two segments share a cell.
    pub open spec fn wf(&self) -> bool {
        self.body().len() > 0 && cells_distinct(self.body())
    }

    /// A snake with the initial body, not growing.
    pub fn new() -> (r: Snake)
        ensures
            r.wf(),
            r.body() == canonical_body(),
            !r.is_growing(),
    {
        let r = Snake { body: Self::get_new_body(), growing: false };
        proof {
            lemma_canonical_shape();
        }
        r
    }

    /// A snake with the given segments, tail first.
    pub fn from_body(body: Vec<Directed<Pos>>, growing: bool) -> (r: Snake)
        requires
            body@.len() > 0,
            cells_distinct(body@),
        ensures
            r.wf(),
            r.body() == body@,
            r.is_growing() == growing,
    {
        Snake { body, growing }
    }

    /// The initial body.
    fn get_new_body() -> (r: Vec<Directed<Pos>>)
        ensures
            r@ == canonical_body(),
    {
        let mut body: Vec<Directed<Pos>> = Vec::new();
        body.push(Directed(Direction::Right, Pos { x: 3, y: 3 }));
        body.push(Directed(Direction::Right, Pos { x: 4, y: 3 }));
        body.push(Directed(Direction::Down, Pos { x: 5, y: 3 }));
        body.push(Directed(Direction::Down, Pos { x: 5, y: 4 }));
        assert(body@ =~= canonical_body());
        body
    }

    /// Whether some segment lies on the cell of `step`.
    pub fn is_self_eating_step(&self, step: &Directed<Pos>) -> (r: bool)
        ensures
            r == occupies(self.body(), step.1),
    {
        let mut i: usize = 0;
        while i < self.body.len()
            invariant
                i <= self.body@.len(),
                forall|k: int| 0 <= k < i ==> (#[trigger] self.body@[k]).1 != step.1,
            decreases self.body@.len() - i,
        {
            if self.body[i].1 == step.1 {
                return true;
            }
            i = i + 1;
        }
        false
    }

    /// The head segment.
    pub fn get_head(&self) -> (r: &Directed<Pos>)
        requires
            self.body().len() > 0,
        ensures
            *r == self.head(),
    {
        &self.body[self.body.len() - 1]
    }

    /// The segment that follows `last` when it moves one cell along its direction.
    pub fn get_next_step(&self, last: &Directed<Pos>) -> (r: Directed<Pos>)
        requires
            can_advance(last.1, last.0),
        ensures
            r == next_segment(*last),
    {
        Directed(last.0, advance(last.1, last.0))
    }

    /// Moves one cell along the head's direction. While growing the tail stays
    /// and growing ends; otherwise the tail leaves. A step onto the part of the
    /// body that stays is refused and changes nothing.
    pub fn step(&mut self) -> (r: Result<(), SelfEatingStepError>)
        requires
            old(self).wf(),
            can_step(old(self).body(), old(self).is_growing()),
        ensures
            final(self).wf(),
            r is Err <==> step_rejected(old(self).body(), old(self).is_growing()),
            r is Err ==> final(self).body() == old(self).body() && final(self).is_growing()
                == old(self).is_growing(),
            r is Ok ==> final(self).body() == stepped(old(self).body(), old(self).is_growing())
                && !final(self).is_growing(),
    {
        let ghost old_body = self.body@;
        let head = *self.get_head();
        let new_step = self.get_next_step(&head);
        if self.growing {
            if self.is_self_eating_step(&new_step) {
                return Err(SelfEatingStepError);
            }
            self.growing = false;
        } else {
            let tail = self.body.remove(0);
            assert(self.body@ =~= old_body.drop_first());
            if self.is_self_eating_step(&new_step) {
                self.body.insert(0, tail);
                assert(self.body@ =~= old_body);
                return Err(SelfEatingStepError);
            }
        }
        let ghost kept_body = self.body@;
        self.body.push(new_step);
        proof {
            assert forall|i: int, j: int|
                0 <= i < self.body@.len() && 0 <= j < self.body@.len() && i != j implies (
                #[trigger] self.body@[i]).1 != (#[trigger] self.body@[j]).1 by {
                if i < kept_body.len() && j < kept_body.len() {
                    if !old(self).growing {
                        assert(kept_body[i] == old_body[i + 1]);
                        assert(kept_body[j] == old_body[j + 1]);
                    }
                } else if i < kept_body.len() {
                    assert(self.body@[i] == kept_body[i]);
                } else {
                    assert(self.body@[j] == kept_body[j]);
                }
            }
        }
        Ok(())
    }

    /// Makes the next step keep the tail.
    pub fn grow(&mut self)
        ensures
            final(self).body() == old(self).body(),
            final(self).is_growing(),
    {
        self.growing = true;
    }

    /// Points the head towards `direction`, unless moving that way from the
    /// head would land on the body; then nothing changes.
    pub fn turn(&mut self, direction: Direction) -> (r: Result<(), SelfTurningDirectionError>)
        requires
            old(self).wf(),
            can_advance(old(self).head().1, direction),
        ensures
            final(self).wf(),
            r is Err <==> turn_rejected(old(self).body(), direction),
            r is Err ==> final(self).body() == old(self).body() && final(self).is_growing()
                == old(self).is_growing(),
            r is Ok ==> final(self).body() == turned(old(self).body(), direction)
                && final(self).is_growing() == old(self).is_growing(),
    {
        let head = *self.get_head();
        let next_step = self.get_next_step(&Directed(direction, head.1));
        if self.is_self_eating_step(&next_step) {
            Err(SelfTurningDirectionError)
        } else {
            let last = self.body.len() - 1;
            self.body.set(last, Directed(direction, head.1));
            assert(self.body@ =~= turned(old(self).body(), direction));
            proof {
                assert forall|i: int, j: int|
                    0 <= i < self.body@.len() && 0 <= j < self.body@.len() && i != j implies (
                    #[trigger] self.body@[i]).1 != (#[trigger] self.body@[j]).1 by {
                    assert(self.body@[i].1 == old(self).body@[i].1);
                    assert(self.body@[j].1 == old(self).body@[j].1);
                }
            }
            Ok(())
        }
    }

    /// The head's cell.
    pub fn get_head_pos(&self) -> (r: &Pos)
        requires
            self.body().len() > 0,
        ensures
            *r == self.head().1,
    {
        &self.get_head().1
    }

    /// Whether the head lies on `pos`.
    pub fn can_eat(&self, pos: &Pos) -> (r: bool)
        requires
            self.body().len() > 0,
        ensures
            r == (self.head().1 == *pos),
    {
        *self.get_head_pos() == *pos
    }

    /// The number of segments.
    pub fn len(&self) -> (r: usize)
        ensures
            r == self.body().len(),
    {
        self.body.len()
    }

    /// A copy of the segments, tail first.
    pub fn segments(&self) -> (r: Vec<Directed<Pos>>)
        ensures
            r@ == self.body(),
    {
        let mut out: Vec<Directed<Pos>> = Vec::new();
        let mut i: usize = 0;
        while i < self.body.len()
            invariant
                i <= self.body@.len(),
                out@ == self.body@.subrange(0, i as int),
            decreases self.body@.len() - i,
        {
            out.push(self.body[i]);
            i = i + 1;
            assert(out@ =~= self.body@.subrange(0, i as int));
        }
        assert(out@ =~= self.body@);
        out
    }
}

impl Draw for Snake {
    open spec fn drawable(&self) -> bool {
        self.body().len() > 0
    }

    open spec fn stamps(&self) -> Seq<Stamp> {
        body_stamps(self.body())
    }

    /// One single-cell instruction per segment, tail first; the head shows
    /// `SnakeHead`, the others `SnakeBody`, each with its segment's direction.
    fn draw(&self) -> (r: Vec<DrawInstruction>) {
        let n = self.body.len();
        let mut paint: Vec<DrawInstruction> = Vec::new();
        let mut i: usize = 0;
        while i < n
            invariant
                n == self.body@.len(),
                n > 0,
                i <= n,
                paint@.len() == i,
                forall|k: int|
                    0 <= k < i ==> #[trigger] stamp_of(paint@[k]) == body_stamps(self.body())[k],
            decreases n - i,
        {
            let part = self.body[i];
            let symbol = if i == n - 1 {
                Symbol::SnakeHead
            } else {
                Symbol::SnakeBody
            };
            let mut shape: Vec<Directed<Symbol>> = Vec::new();
            shape.push(Directed(part.0, symbol));
            assert(shape@ =~= body_stamps(self.body())[i as int].1);
            paint.push(DrawInstruction { pos: part.1, shape });
            assert(stamp_of(paint@[i as int]) == body_stamps(self.body())[i as int]);
            i = i + 1;
        }
        assert(stamps_of(paint@) =~= body_stamps(self.body()));
        paint
    }
}

impl IsFreePos for Snake {
    open spec fn can_check(&self, pos: Pos) -> bool {
        true
    }

    open spec fn free_at(&self, pos: Pos) -> bool {
        !occupies(self.body(), pos)
    }

    /// A cell is free exactly when no segment lies on it.
    fn is_free_pos(&self, pos: &Pos) -> (r: bool) {
        !self.is_self_eating_step(&Directed(Direction::Up, *pos))
    }
}

impl Reset for Snake {
    open spec fn resettable(&self) -> bool {
        true
    }

    /// Puts back the initial body and stops growing.
    fn reset(&mut self)
        ensures
            final(self).wf(),
            final(self).body() == canonical_body(),
            !final(self).is_growing(),
    {
        self.body = Self::get_new_body();
        self.growing = false;
        proof {
            lemma_canonical_shape();
        }
    }
}

/// The initial body has four segments in distinct cells, its head at (5, 4)
/// facing down, and the segment before the head right behind it.
pub proof fn lemma_canonical_shape()
    ensures
        canonical_body().len() == 4,
        cells_distinct(canonical_body()),
        canonical_body().last() == Directed(Direction::Down, Pos { x: 5, y: 4 }),
        canonical_body()[2].1 == advanced(
            canonical_body().last().1,
            opposite(canonical_body().last().0),
        ),
{
    let b = canonical_body();
    assert forall|i: int, j: int|
        0 <= i < b.len() && 0 <= j < b.len() && i != j implies (#[trigger] b[i]).1 != (
        #[trigger] b[j]).1 by {
        assert(b[0].1 == Pos { x: 3, y: 3 });
        assert(b[1].1 == Pos { x: 4, y: 3 });
        assert(b[2].1 == Pos { x: 5, y: 3 });
        assert(b[3].1 == Pos { x: 5, y: 4 });
    }
}

/// From the initial body, growing or not, a step can be computed, is accepted,
/// and moves the head to another cell.
pub proof fn lemma_initial_step_moves(s: &Snake)
    requires
        s.body() == canonical_body(),
    ensures
        can_step(s.body(), s.is_growing()),
        !step_rejected(s.body(), s.is_growing()),
        stepped(s.body(), s.is_growing()).last().1 != s.head().1,
{
    let b = canonical_body();
    let k = kept(b, s.is_growing());
    let n = next_segment(b.last()).1;
    assert(n == Pos { x: 5, y: 5 });
    assert forall|i: int| 0 <= i < k.len() implies (#[trigger] k[i]).1 != n by {
        assert(b[0].1 == Pos { x: 3, y: 3 });
        assert(b[1].1 == Pos { x: 4, y: 3 });
        assert(b[2].1 == Pos { x: 5, y: 3 });
        assert(b[3].1 == Pos { x: 5, y: 4 });
    }
}

/// When the head's next cell is the tail's cell, the step is refused exactly
/// when the snake is growing: a growing snake keeps its tail there, any other
/// snake moves its tail away first.
pub proof fn lemma_step_onto_tail(s: &Snake)
    requires
        s.wf(),
        s.body().len() >= 2,
        can_advance(s.head().1, s.head().0),
        next_segment(s.head()).1 == s.body()[0].1,
    ensures
        step_rejected(s.body(), s.is_growing()) <==> s.is_growing(),
{
    let b = s.body();
    let n = next_segment(b.last()).1;
    if s.is_growing() {
        assert(b[0].1 == n);
    } else {
        let k = b.drop_first();
        assert forall|i: int| 0 <= i < k.len() implies (#[trigger] k[i]).1 != n by {
            assert(k[i] == b[i + 1]);
        }
    }
}

/// While the segment before the head lies right behind it, turning the head
/// around is refused.
pub proof fn lemma_reverse_turn_rejected(s: &Snake)
    requires
        s.wf(),
        s.body().len() >= 2,
        s.body()[s.body().len() - 2].1 == advanced(s.head().1, opposite(s.head().0)),
    ensures
        turn_rejected(s.body(), opposite(s.head().0)),
{
    let b = s.body();
    assert(b[b.len() - 2].1 == advanced(b.last().1, opposite(b.last().0)));
}

/// After an accepted step, the segment before the head lies right behind it.
pub proof fn lemma_step_leaves_neck_behind(s: &Snake)
    requires
        s.wf(),
        can_step(s.body(), s.is_growing()),
        !step_rejected(s.body(), s.is_growing()),
    ensures
        stepped(s.body(), s.is_growing()).len() >= 2,
        ({
            let b = stepped(s.body(), s.is_growing());
            b[b.len() - 2].1 == advanced(b.last().1, opposite(b.last().0))
        }),
{
    let old_head = s.head();
    let b = stepped(s.body(), s.is_growing());
    let k = kept(s.body(), s.is_growing());
    lemma_advance_back(old_head.1, old_head.0);
    assert(k.last() == old_head);
    assert(b[b.len() - 2] == k.last());
}

} // verus!
