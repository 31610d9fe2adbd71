use vstd::prelude::*;
use crate::direction::{Directed, Direction, Pos, Size};
use crate::draw::{stamp_of, stamps_of, Draw, DrawInstruction, IsFreePos, Stamp, Symbol};

verus! {

/// Whether `p` lies in a grid of the given size.
pub open spec fn in_bounds(size: Size, p: Pos) -> bool {
    p.x < size.x && p.y < size.y
}

/// Whether `p` lies on the outer ring of a grid of the given size.
pub open spec fn on_ring(size: Size, p: Pos) -> bool {
    p.x == 0 || p.y == 0 || p.x == size.x - 1 || p.y == size.y - 1
}

/// Whether `p` lies strictly inside the outer ring of a grid of the given size.
pub open spec fn interior(size: Size, p: Pos) -> bool {
    1 <= p.x <= size.x - 2 && 1 <= p.y <= size.y - 2
}

/// How the map shows the cell `p`: a wall on the ring, empty inside.
pub open spec fn ground(size: Size, p: Pos) -> Directed<Symbol> {
    Directed(Direction::Up, if on_ring(size, p) { Symbol::Wall } else { Symbol::Empty })
}

/// The symbols of row `y` of a grid of the given size.
pub open spec fn ground_row(size: Size, y: int) -> Seq<Directed<Symbol>> {
    Seq::new(size.x as nat, |x: int| ground(size, Pos { x: x as usize, y: y as usize }))
}

/// One instruction per row of the grid, each covering every column.
pub open spec fn ground_stamps(size: Size) -> Seq<Stamp> {
    Seq::new(size.y as nat, |y: int| (Pos { x: 0, y: y as usize }, ground_row(size, y)))
}

#[derive(Clone, Copy, PartialEq, Eq, Structural, Debug)]
enum MapElement {
    Empty,
    Block,
}

spec fn element_at(size: Size, p: Pos) -> MapElement {
    if on_ring(size, p) { MapElement::Block } else { MapElement::Empty }
}

/// A walled grid: the outer ring is blocked and every other cell is empty.
pub struct GameMap {
    content: Vec<Vec<MapElement>>,
}

impl GameMap {
    /// The width (`x`) and height (`y`) of the grid.
    pub closed spec fn size(&self) -> Size {
        Pos {
            x: if self.content@.len() > 0 { self.content@[0]@.len() as usize } else { 0 },
            y: self.content@.len() as usize,
        }
    }

    /// The grid is at least two cells each way, rectangular, and walled exactly on its ring.
    pub closed spec fn wf(&self) -> bool {
        &&& self.content@.len() >= 2
        &&& self.content@[0]@.len() >= 2
        &&& forall|y: int|
            0 <= y < self.content@.len() ==> #[trigger] self.content@[y]@.len()
                == self.content@[0]@.len()
        &&& forall|y: int, x: int|
            0 <= y < self.content@.len() && 0 <= x < self.content@[0]@.len()
                ==> #[trigger] self.content@[y]@[x] == element_at(
                self.size(),
                Pos { x: x as usize, y: y as usize },
            )
    }

    /// Builds a `width` by `height` grid whose outer ring is blocked.
    pub fn new(width: usize, height: usize) -> (r: GameMap)
        requires
            width >= 2,
            height >= 2,
        ensures
            r.wf(),
            r.size() == (Pos { x: width, y: height }),
    {
        let ghost size = Pos { x: width, y: height };
        let mut content: Vec<Vec<MapElement>> = Vec::new();
        let mut y: usize = 0;
        while y < height
            invariant
                size == (Pos { x: width, y: height }),
                y <= height,
                content@.len() == y,
                forall|j: int| 0 <= j < y ==> #[trigger] content@[j]@.len() == width,
                forall|j: int, x: int|
                    0 <= j < y && 0 <= x < width ==> #[trigger] content@[j]@[x] == element_at(
                        size,
                        Pos { x: x as usize, y: j as usize },
                    ),
            decreases height - y,
        {
            let mut line: Vec<MapElement> = Vec::new();
            let mut x: usize = 0;
            while x < width
                invariant
                    size == (Pos { x: width, y: height }),
                    x <= width,
                    y < height,
                    line@.len() == x,
                    forall|i: int|
                        0 <= i < x ==> #[trigger] line@[i] == element_at(
                            size,
                            Pos { x: i as usize, y: y },
                        ),
                decreases width - x,
            {
                if x == 0 || y == 0 || x == width - 1 || y == height - 1 {
                    line.push(MapElement::Block);
                } else {
                    line.push(MapElement::Empty);
                }
                x = x + 1;
            }
            content.push(line);
            y = y + 1;
        }
        let r = GameMap { content };
        assert(r.size() == size);
        r
    }

    /// Returns the width and height of the grid.
    pub fn get_size(&self) -> (r: Size)
        requires
            self.wf(),
        ensures
            r == self.size(),
    {
        Pos { x: self.content[0].len(), y: self.content.len() }
    }
}

impl IsFreePos for GameMap {
    open spec fn can_check(&self, pos: Pos) -> bool {
        self.wf() && in_bounds(self.size(), pos)
    }

    open spec fn free_at(&self, pos: Pos) -> bool {
        in_bounds(self.size(), pos) && !on_ring(self.size(), pos)
    }

    /// A cell is free exactly when it is not on the outer ring.
    fn is_free_pos(&self, pos: &Pos) -> (r: bool) {
        let row = &self.content[pos.y];
        match row[pos.x] {
            MapElement::Block => false,
            MapElement::Empty => true,
        }
    }
}

impl Draw for GameMap {
    open spec fn drawable(&self) -> bool {
        self.wf()
    }

    open spec fn stamps(&self) -> Seq<Stamp> {
        ground_stamps(self.size())
    }

    /// One instruction per row, at column 0, with a wall or empty symbol per column.
    fn draw(&self) -> (r: Vec<DrawInstruction>) {
        let ghost size = self.size();
        let height = self.content.len();
        let width = self.content[0].len();
        let mut rows: Vec<DrawInstruction> = Vec::new();
        let mut y: usize = 0;
        while y < height
            invariant
                self.wf(),
                size == self.size(),
                height == size.y,
                width == size.x,
                y <= height,
                rows@.len() == y,
                forall|j: int|
                    0 <= j < y ==> (#[trigger] rows@[j]).pos == (Pos { x: 0, y: j as usize })
                        && rows@[j].shape@ == ground_row(size, j),
            decreases height - y,
        {
            let line = &self.content[y];
            let mut shape: Vec<Directed<Symbol>> = Vec::new();
            let mut x: usize = 0;
            while x < width
                invariant
                    self.wf(),
                    size == self.size(),
                    width == size.x,
                    y < height,
                    height == size.y,
                    *line == self.content@[y as int],
                    x <= width,
                    shape@.len() == x,
                    forall|i: int|
                        0 <= i < x ==> #[trigger] shape@[i] == ground(
                            size,
                            Pos { x: i as usize, y: y },
                        ),
                decreases width - x,
            {
                let symbol = match line[x] {
                    MapElement::Block => Symbol::Wall,
                    MapElement::Empty => Symbol::Empty,
                };
                shape.push(Directed(Direction::Up, symbol));
                x = x + 1;
            }
            assert(shape@ =~= ground_row(size, y as int));
            rows.push(DrawInstruction { pos: Pos { x: 0, y }, shape });
            y = y + 1;
        }
        assert forall|j: int| 0 <= j < height implies stamps_of(rows@)[j] == ground_stamps(
            size,
        )[j] by {
            assert(stamps_of(rows@)[j] == stamp_of(rows@[j]));
        }
        assert(stamps_of(rows@) =~= ground_stamps(size));
        rows
    }
}

/// Every ring cell of a map is blocked, and on a map of at least 5 by 5 the
/// cell diagonally inside each corner is free.
pub proof fn lemma_ring_blocked_corners_free(m: &GameMap)
    requires
        m.wf(),
    ensures
        forall|p: Pos| in_bounds(m.size(), p) && on_ring(m.size(), p) ==> !m.free_at(p),
        m.size().x >= 5 && m.size().y >= 5 ==> {
            let w = m.size().x;
            let h = m.size().y;
            &&& m.free_at(Pos { x: 1, y: 1 })
            &&& m.free_at(Pos { x: (w - 2) as usize, y: 1 })
            &&& m.free_at(Pos { x: 1, y: (h - 2) as usize })
            &&& m.free_at(Pos { x: (w - 2) as usize, y: (h - 2) as usize })
        },
{
}

} // verus!
