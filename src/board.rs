use vstd::arithmetic::div_mod::lemma_small_mod;
use vstd::prelude::*;
use crate::rule::{
    count_illed_in, count_infected_in, next_cell_value, next_value, sum_of, BoardParameter,
};

verus! {

/// Offset of cell `(x, y)` in the row-major buffer of a grid `w` cells wide.
pub open spec fn index_of(w: int, x: int, y: int) -> int {
    y * w + x
}

proof fn lemma_index_bound(w: int, h: int, x: int, y: int)
    requires
        0 <= x < w,
        0 <= y < h,
    ensures
        0 <= index_of(w, x, y) < w * h,
{
    assert(0 <= y * w + x < w * h) by (nonlinear_arith)
        requires
            0 <= x < w,
            0 <= y < h,
    ;
}

/// Relies on rand::random (the thread-local generator of rand): any byte.
#[verifier::external_body]
fn random_byte() -> (r: u8) {
    rand::random::<u8>()
}

/// A `width` by `height` grid of cells, stored row by row.
pub struct Board {
    width: u32,
    height: u32,
    buff: Vec<u8>,
}

impl Board {
    pub closed spec fn spec_width(&self) -> nat {
        self.width as nat
    }

    pub closed spec fn spec_height(&self) -> nat {
        self.height as nat
    }

    /// The cells in row-major order.
    pub closed spec fn cells(&self) -> Seq<u8> {
        self.buff@
    }

    /// Both sides are positive, the cell count fits in a `u32`, and the
    /// buffer holds exactly one byte per cell.
    pub open spec fn wf(&self) -> bool {
        &&& self.spec_width() > 0
        &&& self.spec_height() > 0
        &&& self.spec_width() * self.spec_height() <= u32::MAX
        &&& self.cells().len() == self.spec_width() * self.spec_height()
    }

    pub open spec fn in_bounds(&self, x: int, y: int) -> bool {
        0 <= x < self.spec_width() && 0 <= y < self.spec_height()
    }

    /// The value of cell `(x, y)`.
    pub open spec fn cell(&self, x: int, y: int) -> u8 {
        self.cells()[index_of(self.spec_width() as int, x, y)]
    }

    /// Same dimensions as `other`.
    pub open spec fn same_shape(&self, other: &Board) -> bool {
        self.spec_width() == other.spec_width() && self.spec_height() == other.spec_height()
    }

    /// A grid of the given size with every cell healthy (zero).
    pub fn new(width: u32, height: u32) -> (r: Board)
        requires
            width > 0,
            height > 0,
            width * height <= u32::MAX,
        ensures
            r.wf(),
            r.spec_width() == width,
            r.spec_height() == height,
            forall|x: int, y: int| r.in_bounds(x, y) ==> #[trigger] r.cell(x, y) == 0,
    {
        let n: u32 = width * height;
        let buff: Vec<u8> = vec![0u8; n as usize];
        let r = Board { width, height, buff };
        assert forall|x: int, y: int| r.in_bounds(x, y) implies #[trigger] r.cell(x, y) == 0 by {
            lemma_index_bound(width as int, height as int, x, y);
        }
        r
    }

    pub fn width(&self) -> (r: u32)
        ensures
            r == self.spec_width(),
    {
        self.width
    }

    pub fn height(&self) -> (r: u32)
        ensures
            r == self.spec_height(),
    {
        self.height
    }

    /// The value of cell `(x, y)`.
    pub fn value(&self, x: u32, y: u32) -> (r: u8)
        requires
            self.wf(),
            self.in_bounds(x as int, y as int),
        ensures
            r == self.cell(x as int, y as int),
    {
        proof {
            lemma_index_bound(self.width as int, self.height as int, x as int, y as int);
        }
        self.buff[(y * self.width + x) as usize]
    }

    /// Writes `value` into cell `(x, y)` and leaves every other cell as it was.
    pub fn set_value(&mut self, x: u32, y: u32, value: u8)
        requires
            old(self).wf(),
            old(self).in_bounds(x as int, y as int),
        ensures
            final(self).wf(),
            final(self).same_shape(old(self)),
            final(self).cells() == old(self).cells().update(
                index_of(old(self).spec_width() as int, x as int, y as int),
                value,
            ),
    {
        proof {
            lemma_index_bound(self.width as int, self.height as int, x as int, y as int);
        }
        let i: usize = (y * self.width + x) as usize;
        self.buff.set(i, value);
    }
    /// The column left of `x`, wrapping round the torus.
    pub open spec fn left(&self, x: int) -> int {
        (x + self.spec_width() - 1) % (self.spec_width() as int)
    }

    /// The column right of `x`, wrapping round the torus.
    pub open spec fn right(&self, x: int) -> int {
        (x + 1) % (self.spec_width() as int)
    }

    /// The row above `y`, wrapping round the torus.
    pub open spec fn up(&self, y: int) -> int {
        (y + self.spec_height() - 1) % (self.spec_height() as int)
    }

    /// The row below `y`, wrapping round the torus.
    pub open spec fn down(&self, y: int) -> int {
        (y + 1) % (self.spec_height() as int)
    }

    /// The eight cells round `(x, y)` on the torus, from the upper left
    /// onwards row by row, the cell itself left out.
    pub open spec fn neighbors(&self, x: int, y: int) -> Seq<u8> {
        let (x1, x2, y1, y2) = (self.left(x), self.right(x), self.up(y), self.down(y));
        seq![
            self.cell(x1, y1),
            self.cell(x, y1),
            self.cell(x2, y1),
            self.cell(x1, y),
            self.cell(x2, y),
            self.cell(x1, y2),
            self.cell(x, y2),
            self.cell(x2, y2),
        ]
    }

    /// The values of the eight cells round `(x, y)`, in the order of
    /// `neighbors`.
    pub fn neighborhood(&self, x: u32, y: u32) -> (r: [u8; 8])
        requires
            self.wf(),
            self.in_bounds(x as int, y as int),
        ensures
            r@ == self.neighbors(x as int, y as int),
    {
        let w: u64 = self.width as u64;
        let h: u64 = self.height as u64;
        let x1: u32 = ((x as u64 + w - 1) % w) as u32;
        let x2: u32 = ((x as u64 + 1) % w) as u32;
        let y1: u32 = ((y as u64 + h - 1) % h) as u32;
        let y2: u32 = ((y as u64 + 1) % h) as u32;
        let r: [u8; 8] = [
            self.value(x1, y1),
            self.value(x, y1),
            self.value(x2, y1),
            self.value(x1, y),
            self.value(x2, y),
            self.value(x1, y2),
            self.value(x, y2),
            self.value(x2, y2),
        ];
        assert(r@ =~= self.neighbors(x as int, y as int));
        r
    }

    /// How many of the eight cells round `(x, y)` are infected.
    pub fn count_infected(&self, x: u32, y: u32) -> (r: u8)
        requires
            self.wf(),
            self.in_bounds(x as int, y as int),
        ensures
            r == count_infected_in(self.neighbors(x as int, y as int)),
    {
        let n: [u8; 8] = self.neighborhood(x, y);
        let mut count: u8 = 0;
        let mut i: usize = 0;
        while i < 8
            invariant
                i <= 8,
                n@.len() == 8,
                count <= i,
                count == count_infected_in(n@.subrange(0, i as int)),
            decreases 8 - i,
        {
            assert(n@.subrange(0, i + 1).drop_last() =~= n@.subrange(0, i as int));
            if n[i] > 0 && n[i] < 255 {
                count = count + 1;
            }
            i = i + 1;
        }
        assert(n@.subrange(0, 8) =~= n@);
        count
    }

    /// How many of the eight cells round `(x, y)` are fully ill.
    pub fn count_illed(&self, x: u32, y: u32) -> (r: u8)
        requires
            self.wf(),
            self.in_bounds(x as int, y as int),
        ensures
            r == count_illed_in(self.neighbors(x as int, y as int)),
    {
        let n: [u8; 8] = self.neighborhood(x, y);
        let mut count: u8 = 0;
        let mut i: usize = 0;
        while i < 8
            invariant
                i <= 8,
                n@.len() == 8,
                count <= i,
                count == count_illed_in(n@.subrange(0, i as int)),
            decreases 8 - i,
        {
            assert(n@.subrange(0, i + 1).drop_last() =~= n@.subrange(0, i as int));
            if n[i] == 255 {
                count = count + 1;
            }
            i = i + 1;
        }
        assert(n@.subrange(0, 8) =~= n@);
        count
    }

    /// The sum of the eight cells round `(x, y)` and of the cell itself.
    pub fn sum(&self, x: u32, y: u32) -> (r: u16)
        requires
            self.wf(),
            self.in_bounds(x as int, y as int),
        ensures
            r == sum_of(self.neighbors(x as int, y as int)) + self.cell(x as int, y as int),
    {
        let n: [u8; 8] = self.neighborhood(x, y);
        let mut total: u16 = 0;
        let mut i: usize = 0;
        while i < 8
            invariant
                i <= 8,
                n@.len() == 8,
                total <= 255 * i,
                total == sum_of(n@.subrange(0, i as int)),
            decreases 8 - i,
        {
            assert(n@.subrange(0, i + 1).drop_last() =~= n@.subrange(0, i as int));
            total = total + n[i] as u16;
            i = i + 1;
        }
        assert(n@.subrange(0, 8) =~= n@);
        total + self.value(x, y) as u16
    }
    /// Overwrites the cells with `draws`, one byte per cell in row-major
    /// order: cell `i` takes `draws[i]`. The dimensions stay as they were.
    pub fn fill(&mut self, draws: &Vec<u8>)
        requires
            old(self).wf(),
            draws@.len() == old(self).cells().len(),
        ensures
            final(self).wf(),
            final(self).same_shape(old(self)),
            final(self).cells() == draws@,
    {
        let n: usize = draws.len();
        let mut i: usize = 0;
        while i < n
            invariant
                self.wf(),
                self.same_shape(old(self)),
                n == draws@.len(),
                n == self.cells().len(),
                i <= n,
                forall|j: int| 0 <= j < i ==> self.cells()[j] == draws@[j],
            decreases n - i,
        {
            self.buff.set(i, draws[i]);
            i = i + 1;
        }
        assert(self.cells() =~= draws@);
    }

    /// Overwrites every cell with an independently drawn random byte, by
    /// drawing one byte per cell and handing them to `fill`; the dimensions
    /// stay as they were.
    pub fn seed(&mut self)
        requires
            old(self).wf(),
        ensures
            final(self).wf(),
            final(self).same_shape(old(self)),
    {
        let n: usize = self.buff.len();
        let mut draws: Vec<u8> = Vec::with_capacity(n);
        let mut i: usize = 0;
        while i < n
            invariant
                n == self.cells().len(),
                draws@.len() == i,
                i <= n,
            decreases n - i,
        {
            draws.push(random_byte());
            i = i + 1;
        }
        self.fill(&draws);
    }

    /// Copies every cell of `other`, a grid of the same dimensions, into this
    /// grid.
    pub fn copy_buff(&mut self, other: &Board)
        requires
            old(self).wf(),
            other.wf(),
            old(self).same_shape(other),
        ensures
            final(self).wf(),
            final(self).same_shape(old(self)),
            final(self).cells() == other.cells(),
    {
        let n: usize = other.buff.len();
        let mut i: usize = 0;
        while i < n
            invariant
                self.wf(),
                self.same_shape(old(self)),
                self.same_shape(other),
                n == other.cells().len(),
                n == self.cells().len(),
                i <= n,
                forall|j: int| 0 <= j < i ==> self.cells()[j] == other.cells()[j],
            decreases n - i,
        {
            let v: u8 = other.buff[i];
            self.buff.set(i, v);
            i = i + 1;
        }
        assert(self.cells() =~= other.cells());
    }

    /// The value cell `(x, y)` takes in the next generation, computed from
    /// this generation alone.
    pub open spec fn next_cell(&self, x: int, y: int, params: BoardParameter) -> u8 {
        let n = self.neighbors(x, y);
        next_cell_value(
            self.cell(x, y),
            count_infected_in(n),
            count_illed_in(n),
            sum_of(n) + self.cell(x, y) as nat,
            params,
        )
    }

    /// Advances the grid one generation. Every cell's new value is computed
    /// from the previous generation only; the new generation is built in a
    /// second grid and then published whole.
    pub fn step(&mut self, params: &BoardParameter)
        requires
            old(self).wf(),
            params.valid(),
        ensures
            final(self).wf(),
            final(self).same_shape(old(self)),
            forall|x: int, y: int|
                old(self).in_bounds(x, y) ==> #[trigger] final(self).cell(x, y) == old(
                    self,
                ).next_cell(x, y, *params),
    {
        let w: u32 = self.width;
        let h: u32 = self.height;
        let mut next_board = Board::new(w, h);
        let mut y: u32 = 0;
        while y < h
            invariant
                self.wf(),
                self.spec_width() == w,
                self.spec_height() == h,
                params.valid(),
                next_board.wf(),
                next_board.same_shape(self),
                y <= h,
                forall|xx: int, yy: int|
                    0 <= xx < w && 0 <= yy < y ==> #[trigger] next_board.cell(xx, yy)
                        == self.next_cell(xx, yy, *params),
            decreases h - y,
        {
            let mut x: u32 = 0;
            while x < w
                invariant
                    self.wf(),
                    self.spec_width() == w,
                    self.spec_height() == h,
                    params.valid(),
                    next_board.wf(),
                    next_board.same_shape(self),
                    y < h,
                    x <= w,
                    forall|xx: int, yy: int|
                        0 <= xx < w && 0 <= yy < y ==> #[trigger] next_board.cell(xx, yy)
                            == self.next_cell(xx, yy, *params),
                    forall|xx: int|
                        0 <= xx < x ==> #[trigger] next_board.cell(xx, y as int)
                            == self.next_cell(xx, y as int, *params),
                decreases w - x,
            {
                let value: u8 = self.value(x, y);
                let infected: u8 = self.count_infected(x, y);
                let illed: u8 = self.count_illed(x, y);
                let total: u16 = self.sum(x, y);
                let v: u8 = next_value(value, infected, illed, total, params);
                let ghost before = next_board;
                next_board.set_value(x, y, v);
                proof {
                    lemma_index_bound(w as int, h as int, x as int, y as int);
                    assert forall|xx: int, yy: int|
                        0 <= xx < w && 0 <= yy < y implies #[trigger] next_board.cell(xx, yy)
                            == self.next_cell(xx, yy, *params) by {
                        lemma_index_bound(w as int, y as int, xx, yy);
                        lemma_index_bound(w as int, h as int, xx, yy);
                        assert(next_board.cell(xx, yy) == before.cell(xx, yy));
                    }
                    assert forall|xx: int|
                        0 <= xx <= x implies #[trigger] next_board.cell(xx, y as int)
                            == self.next_cell(xx, y as int, *params) by {
                        lemma_index_bound(w as int, h as int, xx, y as int);
                        if xx < x {
                            assert(next_board.cell(xx, y as int) == before.cell(xx, y as int));
                        }
                    }
                }
                x = x + 1;
            }
            y = y + 1;
        }
        self.copy_buff(&next_board);
        assert forall|x: int, y: int| old(self).in_bounds(x, y) implies #[trigger] self.cell(x, y)
            == old(self).next_cell(x, y, *params) by {
            assert(next_board.cell(x, y) == old(self).next_cell(x, y, *params));
        }
    }
}

/// On the torus the first neighbour of the corner `(0, 0)`, its upper left
/// one, is the opposite corner `(width - 1, height - 1)`.
pub proof fn lemma_corner_wraps(b: &Board)
    requires
        b.wf(),
    ensures
        b.neighbors(0, 0)[0] == b.cell(b.spec_width() - 1, b.spec_height() - 1),
{
    lemma_small_mod((b.spec_width() - 1) as nat, b.spec_width());
    lemma_small_mod((b.spec_height() - 1) as nat, b.spec_height());
}

} // verus!
