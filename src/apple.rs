use vstd::prelude::*;
use crate::board::interior;
use crate::direction::{Directed, Direction, Pos, Size};
use crate::draw::{stamp_of, stamps_of, Draw, DrawInstruction, IsFreePos, Stamp, Symbol};

verus! {

/// Relies on `rand::Rng::gen_range` with `rand::thread_rng`: a value of the
/// range `0..n`, which panics only when that range is empty.
#[verifier::external_body]
fn random_below(n: usize) -> (r: usize)
    requires
        n > 0,
    ensures
        r < n,
{
    rand::Rng::gen_range(&mut rand::thread_rng(), 0..n)
}

/// Whether some interior cell of `boundary` is free for `checker`.
pub open spec fn has_free_cell<T: IsFreePos>(boundary: Size, checker: &T) -> bool {
    exists|p: Pos| #[trigger] interior(boundary, p) && checker.free_at(p)
}

/// The food: one cell of the grid.
pub struct Apple {
    pub pos: Pos,
}

impl Apple {
    /// An apple at the origin, before its first spawn.
    pub fn new() -> (r: Apple)
        ensures
            r.pos == (Pos { x: 0, y: 0 }),
    {
        Apple { pos: Pos { x: 0, y: 0 } }
    }

    /// Moves the apple to a random interior cell of `boundary` that
    /// `position_checker` reports free, each such cell being equally likely.
    /// When there is none, the apple stays where it is.
    pub fn spawn<T: IsFreePos>(&mut self, boundary: &Size, position_checker: &T)
        requires
            forall|p: Pos| #[trigger] interior(*boundary, p) ==> position_checker.can_check(p),
        ensures
            has_free_cell(*boundary, position_checker) ==> interior(*boundary, final(self).pos)
                && position_checker.free_at(final(self).pos),
            !has_free_cell(*boundary, position_checker) ==> final(self).pos == old(self).pos,
    {
        let mut free: Vec<Pos> = Vec::new();
        if boundary.x >= 3 && boundary.y >= 3 {
            let mut y: usize = 1;
            while y <= boundary.y - 2
                invariant
                    boundary.x >= 3,
                    boundary.y >= 3,
                    1 <= y <= boundary.y - 1,
                    forall|p: Pos| #[trigger] interior(*boundary, p) ==> position_checker.can_check(p),
                    forall|k: int|
                        0 <= k < free@.len() ==> interior(*boundary, #[trigger] free@[k])
                            && position_checker.free_at(free@[k]),
                    forall|p: Pos|
                        #[trigger] interior(*boundary, p) && p.y < y && position_checker.free_at(p)
                            ==> free@.contains(p),
                decreases boundary.y - y,
            {
                let mut x: usize = 1;
                while x <= boundary.x - 2
                    invariant
                        boundary.x >= 3,
                        boundary.y >= 3,
                        1 <= y <= boundary.y - 2,
                        1 <= x <= boundary.x - 1,
                        forall|p: Pos| #[trigger] interior(*boundary, p) ==> position_checker.can_check(p),
                        forall|k: int|
                            0 <= k < free@.len() ==> interior(*boundary, #[trigger] free@[k])
                                && position_checker.free_at(free@[k]),
                        forall|p: Pos|
                            #[trigger] interior(*boundary, p) && (p.y < y || (p.y == y && p.x < x))
                                && position_checker.free_at(p) ==> free@.contains(p),
                    decreases boundary.x - x,
                {
                    let p = Pos { x, y };
                    let ghost before = free@;
                    assert(interior(*boundary, p));
                    if position_checker.is_free_pos(&p) {
                        free.push(p);
                        assert(free@[free@.len() - 1] == p);
                    }
                    assert forall|q: Pos|
                        #[trigger] interior(*boundary, q) && (q.y < y || (q.y == y && q.x <= x))
                            && position_checker.free_at(q) implies free@.contains(q) by {
                        if q != p {
                            let i = choose|i: int| 0 <= i < before.len() && before[i] == q;
                            assert(free@[i] == q);
                        }
                    }
                    x = x + 1;
                }
                y = y + 1;
            }
        }
        if free.len() > 0 {
            let k = random_below(free.len());
            self.pos = free[k];
        } else {
            assert(!has_free_cell(*boundary, position_checker)) by {
                if boundary.x >= 3 && boundary.y >= 3 {
                    assert forall|p: Pos|
                        #[trigger] interior(*boundary, p) implies !position_checker.free_at(p) by {
                        if position_checker.free_at(p) {
                            assert(free@.contains(p));
                        }
                    }
                }
            }
        }
    }

    /// The apple's cell.
    pub fn get_pos(&self) -> (r: &Pos)
        ensures
            *r == self.pos,
    {
        &self.pos
    }
}

impl Draw for Apple {
    open spec fn drawable(&self) -> bool {
        true
    }

    open spec fn stamps(&self) -> Seq<Stamp> {
        seq![(self.pos, seq![Directed(Direction::Up, Symbol::Apple)])]
    }

    /// One single-cell instruction at the apple's cell.
    fn draw(&self) -> (r: Vec<DrawInstruction>) {
        let mut shape: Vec<Directed<Symbol>> = Vec::new();
        shape.push(Directed(Direction::Up, Symbol::Apple));
        let mut paint: Vec<DrawInstruction> = Vec::new();
        paint.push(DrawInstruction { pos: self.pos, shape });
        assert(stamp_of(paint@[0]).1 =~= seq![Directed(Direction::Up, Symbol::Apple)]);
        assert(stamps_of(paint@) =~= self.stamps());
        paint
    }
}

} // verus!
