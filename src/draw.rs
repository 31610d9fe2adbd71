use vstd::prelude::*;
use crate::direction::{Directed, Direction, Pos};

verus! {

/// What a cell shows; the renderer picks a glyph for each.
#[derive(Clone, Copy, PartialEq, Eq, Structural, Debug)]
pub enum Symbol {
    Empty,
    Wall,
    Apple,
    SnakeBody,
    SnakeHead,
}

/// A run of directed symbols written left to right from `pos`.
#[derive(Debug, PartialEq)]
pub struct DrawInstruction {
    pub pos: Pos,
    pub shape: Vec<Directed<Symbol>>,
}

/// The mathematical content of a draw instruction: where it starts and what it writes.
pub type Stamp = (Pos, Seq<Directed<Symbol>>);

pub open spec fn stamp_of(d: DrawInstruction) -> Stamp {
    (d.pos, d.shape@)
}

pub open spec fn stamps_of(v: Seq<DrawInstruction>) -> Seq<Stamp> {
    v.map_values(|d: DrawInstruction| stamp_of(d))
}

/// `row` with the cells from `x` on replaced by `shape`.
pub open spec fn splice_row(
    row: Seq<Directed<Symbol>>,
    x: int,
    shape: Seq<Directed<Symbol>>,
) -> Seq<Directed<Symbol>> {
    row.subrange(0, x) + shape + row.subrange(x + shape.len(), row.len() as int)
}

/// Whether a stamp lies within a frame of rows.
pub open spec fn stamp_fits(rows: Seq<Seq<Directed<Symbol>>>, s: Stamp) -> bool {
    &&& s.0.y < rows.len()
    &&& s.0.x + s.1.len() <= rows[s.0.y as int].len()
}

/// The rows after writing each stamp in order; a later stamp wins where two meet.
pub open spec fn overlay(rows: Seq<Seq<Directed<Symbol>>>, stamps: Seq<Stamp>) -> Seq<
    Seq<Directed<Symbol>>,
>
    decreases stamps.len(),
{
    if stamps.len() == 0 {
        rows
    } else {
        let prev = overlay(rows, stamps.drop_last());
        let s = stamps.last();
        prev.update(s.0.y as int, splice_row(prev[s.0.y as int], s.0.x as int, s.1))
    }
}

/// The symbol rows of a frame.
pub open spec fn rows_of(v: Seq<DrawInstruction>) -> Seq<Seq<Directed<Symbol>>> {
    v.map_values(|d: DrawInstruction| d.shape@)
}

/// Whether a stamp lies within `h` rows of width `w`.
pub open spec fn stamp_within(h: nat, w: nat, s: Stamp) -> bool {
    s.0.y < h && s.0.x + s.1.len() <= w
}

/// Writing stamps that lie within rows of equal width keeps the number of rows and their width.
pub proof fn lemma_overlay_keeps_dims(rows: Seq<Seq<Directed<Symbol>>>, stamps: Seq<Stamp>, w: nat)
    requires
        forall|y: int| 0 <= y < rows.len() ==> (#[trigger] rows[y]).len() == w,
        forall|i: int| 0 <= i < stamps.len() ==> stamp_within(rows.len(), w, #[trigger] stamps[i]),
    ensures
        overlay(rows, stamps).len() == rows.len(),
        forall|y: int|
            0 <= y < rows.len() ==> (#[trigger] overlay(rows, stamps)[y]).len() == w,
    decreases stamps.len(),
{
    if stamps.len() > 0 {
        let init = stamps.drop_last();
        assert forall|i: int| 0 <= i < init.len() implies stamp_within(
            rows.len(),
            w,
            #[trigger] init[i],
        ) by {
            assert(init[i] == stamps[i]);
        }
        lemma_overlay_keeps_dims(rows, init, w);
        assert(stamp_within(rows.len(), w, stamps[stamps.len() - 1]));
    }
}

/// Writes the symbols of `ins` into the row of `frame` it names, from its column on.
pub fn overlay_instruction(frame: &mut Vec<DrawInstruction>, ins: &DrawInstruction)
    requires
        stamp_fits(rows_of(old(frame)@), stamp_of(*ins)),
    ensures
        final(frame)@.len() == old(frame)@.len(),
        forall|y: int|
            0 <= y < final(frame)@.len() ==> (#[trigger] final(frame)@[y]).pos == old(frame)@[y].pos,
        rows_of(final(frame)@) == rows_of(old(frame)@).update(
            ins.pos.y as int,
            splice_row(rows_of(old(frame)@)[ins.pos.y as int], ins.pos.x as int, ins.shape@),
        ),
{
    let ghost before = frame@;
    let y = ins.pos.y;
    let x = ins.pos.x;
    let mut row = frame.remove(y);
    let ghost old_shape = row.shape@;
    assert(old_shape == rows_of(before)[y as int]);
    let n = ins.shape.len();
    let w = row.shape.len();
    let mut k: usize = 0;
    while k < n
        invariant
            n == ins.shape@.len(),
            w == old_shape.len(),
            y < before.len(),
            x + n <= old_shape.len(),
            k <= n,
            row.pos == before[y as int].pos,
            row.shape@.len() == old_shape.len(),
            forall|i: int|
                0 <= i < old_shape.len() ==> #[trigger] row.shape@[i] == if x <= i < x + k {
                    ins.shape@[i - x]
                } else {
                    old_shape[i]
                },
        decreases n - k,
    {
        row.shape.set(x + k, ins.shape[k]);
        k = k + 1;
    }
    assert(row.shape@ =~= splice_row(old_shape, x as int, ins.shape@));
    frame.insert(y, row);
    assert(rows_of(frame@) =~= rows_of(before).update(
        y as int,
        splice_row(rows_of(before)[y as int], x as int, ins.shape@),
    ));
}

/// The character that shows a directed symbol: an arrow for the snake's head,
/// `#` for walls and the snake's body, a heart for the apple, a blank for empty ground.
pub open spec fn glyph_of(cell: Directed<Symbol>) -> char {
    match cell.1 {
        Symbol::SnakeHead => match cell.0 {
            Direction::Up => '\u{25b2}',
            Direction::Left => '\u{25c4}',
            Direction::Right => '\u{25ba}',
            Direction::Down => '\u{25bc}',
        },
        Symbol::Wall => '#',
        Symbol::SnakeBody => '#',
        Symbol::Empty => ' ',
        Symbol::Apple => '\u{2665}',
    }
}

/// The character that shows `cell`.
pub fn glyph(cell: &Directed<Symbol>) -> (r: char)
    ensures
        r == glyph_of(*cell),
{
    match cell.1 {
        Symbol::SnakeHead => match cell.0 {
            Direction::Up => '\u{25b2}',
            Direction::Left => '\u{25c4}',
            Direction::Right => '\u{25ba}',
            Direction::Down => '\u{25bc}',
        },
        Symbol::Wall => '#',
        Symbol::SnakeBody => '#',
        Symbol::Empty => ' ',
        Symbol::Apple => '\u{2665}',
    }
}

/// The characters that show a run of directed symbols, one per symbol.
pub fn glyphs(shape: &Vec<Directed<Symbol>>) -> (r: Vec<char>)
    ensures
        r@ == shape@.map_values(|c: Directed<Symbol>| glyph_of(c)),
{
    let mut out: Vec<char> = Vec::new();
    let mut i: usize = 0;
    while i < shape.len()
        invariant
            i <= shape@.len(),
            out@ == shape@.subrange(0, i as int).map_values(|c: Directed<Symbol>| glyph_of(c)),
        decreases shape@.len() - i,
    {
        out.push(glyph(&shape[i]));
        i = i + 1;
        assert(out@ =~= shape@.subrange(0, i as int).map_values(|c: Directed<Symbol>| glyph_of(c)));
    }
    assert(shape@.subrange(0, i as int) =~= shape@);
    out
}

/// Objects that can describe how they look.
pub trait Draw {
    /// Whether the object is in a state that can be drawn.
    spec fn drawable(&self) -> bool;

    /// What `draw` returns, as stamps.
    spec fn stamps(&self) -> Seq<Stamp>;

    /// Returns the draw instructions that paint the object.
    fn draw(&self) -> (r: Vec<DrawInstruction>)
        requires
            self.drawable(),
        ensures
            stamps_of(r@) == self.stamps(),
    ;
}

/// Objects that can put themselves back in their initial state.
pub trait Reset {
    /// Whether the object may be reset.
    spec fn resettable(&self) -> bool;

    /// Restores the initial state.
    fn reset(&mut self)
        requires
            old(self).resettable(),
    ;
}

/// Objects that can tell whether they leave a cell free.
pub trait IsFreePos {
    /// Whether `pos` may be asked about.
    spec fn can_check(&self, pos: Pos) -> bool;

    /// Whether the object leaves `pos` free.
    spec fn free_at(&self, pos: Pos) -> bool;

    /// Returns true when the object does not occupy `pos`.
    fn is_free_pos(&self, pos: &Pos) -> (r: bool)
        requires
            self.can_check(*pos),
        ensures
            r == self.free_at(*pos),
    ;
}

} // verus!
