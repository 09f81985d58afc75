use vstd::prelude::*;

verus! {

/// In a grid of `w` columns, a cell index tells row and column apart.
pub proof fn lemma_cell_index(w: int, i: int, j: int, h: int)
    requires
        0 <= i < h,
        0 <= j < w,
    ensures
        0 <= i * w <= i * w + j < h * w,
        (i * w + j) / w == i,
        (i * w + j) % w == j,
{
    assert(0 <= i * w && i * w + w <= h * w) by (nonlinear_arith)
        requires
            0 <= i < h,
            0 < w,
    ;
    vstd::arithmetic::div_mod::lemma_fundamental_div_mod_converse(i * w + j, w, i, j);
}

/// A grid of bits as a value: `rows` by `cols`, row after row.
pub struct BitGrid {
    pub rows: int,
    pub cols: int,
    pub bits: Seq<bool>,
}

impl BitGrid {
    /// The bit in row `i`, column `j`.
    pub open spec fn at(self, i: int, j: int) -> bool {
        self.bits[i * self.cols + j]
    }
}

/// A grid of bits, stored row after row.
pub struct Vec2d {
    data: Vec<bool>,
    w: usize,
}

impl View for Vec2d {
    type V = BitGrid;

    closed spec fn view(&self) -> BitGrid {
        BitGrid { rows: self.data@.len() as int / self.w as int, cols: self.w as int, bits: self.data@ }
    }
}

impl Vec2d {
    /// The bits, row after row.
    pub open spec fn cells(&self) -> Seq<bool> {
        self@.bits
    }

    /// The number of columns.
    pub open spec fn cols(&self) -> int {
        self@.cols
    }

    /// The number of rows.
    pub open spec fn rows(&self) -> int {
        self@.rows
    }

    /// The bit in row `i`, column `j`.
    pub open spec fn at(&self, i: int, j: int) -> bool {
        self@.at(i, j)
    }

    /// There is at least one column, and the rows are complete.
    pub open spec fn wf(&self) -> bool {
        &&& self.cols() > 0
        &&& self.cells().len() == self.rows() * self.cols()
    }

    /// A grid of `h` rows and `w` columns with every bit clear.
    pub fn new(h: usize, w: usize) -> (m: Vec2d)
        requires
            w > 0,
            h * w <= usize::MAX,
        ensures
            m.wf(),
            m.rows() == h,
            m.cols() == w,
            forall|k: int| 0 <= k < h * w ==> !#[trigger] m.cells()[k],
    {
        let n = h * w;
        let mut data: Vec<bool> = Vec::new();
        let mut k: usize = 0;
        while k < n
            invariant
                k <= n,
                data@.len() == k,
                forall|q: int| 0 <= q < k ==> !#[trigger] data@[q],
            decreases n - k,
        {
            data.push(false);
            k += 1;
        }
        proof {
            vstd::arithmetic::div_mod::lemma_div_by_multiple(h as int, w as int);
        }
        Vec2d { data, w }
    }

    /// The number of columns.
    pub fn width(&self) -> (w: usize)
        ensures
            w == self.cols(),
    {
        self.w
    }

    /// The number of rows.
    pub fn height(&self) -> (h: usize)
        requires
            self.wf(),
        ensures
            h == self.rows(),
    {
        self.data.len() / self.w
    }

    /// The bit in row `i`, column `j`.
    pub fn get(&self, i: usize, j: usize) -> (b: bool)
        requires
            self.wf(),
            i < self.rows(),
            j < self.cols(),
        ensures
            b == self.at(i as int, j as int),
    {
        let n = self.data.len();
        proof {
            lemma_cell_index(self.cols(), i as int, j as int, self.rows());
        }
        self.data[i * self.w + j]
    }

    /// Gives the bit in row `i`, column `j` the value `val`.
    pub fn set(&mut self, i: usize, j: usize, val: bool)
        requires
            old(self).wf(),
            i < old(self).rows(),
            j < old(self).cols(),
        ensures
            final(self).wf(),
            final(self).rows() == old(self).rows(),
            final(self).cols() == old(self).cols(),
            final(self).cells() == old(self).cells().update(i * old(self).cols() + j, val),
    {
        let n = self.data.len();
        proof {
            lemma_cell_index(self.cols(), i as int, j as int, self.rows());
        }
        let idx = i * self.w + j;
        self.data.set(idx, val);
    }
}

} // verus!
