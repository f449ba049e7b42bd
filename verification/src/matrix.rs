//! A row-major matrix with arbitrary data in each cell.

use vstd::prelude::*;

verus! {

/// Dense two-dimensional storage with row-major linear indexing.
///
/// The invariant [`Matrix::wf`] ties the flat buffer to the stated
/// dimensions: `data.len() == width * height`, with the cell `(x, y)`
/// stored at `y * width + x`.
#[derive(Debug, PartialEq, Eq)]
pub struct Matrix<T> {
    pub width: usize,
    pub height: usize,
    pub data: Vec<T>,
}

/// Row-major cells `(x, y)` with `x < w` and `y < h` index into a buffer of
/// length `w * h`.
pub proof fn lemma_row_major_bound(x: int, y: int, w: int, h: int) by (nonlinear_arith)
    requires
        0 <= x < w,
        0 <= y < h,
    ensures
        0 <= y * w + x < w * h,
        y * w + x < h * w,
{
}

impl<T> Matrix<T> {
    /// The dimensions describe the buffer exactly.
    pub open spec fn wf(self) -> bool {
        self.data.len() == self.width * self.height
    }

    /// The cell at column `x` of row `y`.
    pub open spec fn at(self, x: int, y: int) -> T {
        self.data[y * (self.width as int) + x]
    }

    /// Build a matrix from a flat row-major buffer of matching size.
    pub fn new(width: usize, height: usize, data: Vec<T>) -> (m: Self)
        requires
            data.len() == width * height,
        ensures
            m.wf(),
            m.width == width,
            m.height == height,
            m.data == data,
    {
        Self { width, height, data }
    }

    fn get_index(&self, x: usize, y: usize) -> (i: usize)
        requires
            self.wf(),
            x < self.width,
            y < self.height,
        ensures
            i == y * self.width + x,
            i < self.data.len(),
    {
        proof {
            lemma_row_major_bound(x as int, y as int, self.width as int, self.height as int);
        }
        y * self.width + x
    }

    /// Fill every cell from a position-to-value function.
    pub fn generate<F: Fn(usize, usize) -> T>(width: usize, height: usize, generator: F) -> (m:
        Self)
        requires
            width * height <= usize::MAX,
            forall|x: usize, y: usize|
                x < width && y < height ==> #[trigger] call_requires(generator, (x, y)),
        ensures
            m.wf(),
            m.width == width,
            m.height == height,
            forall|x: int, y: int|
                0 <= x < width && 0 <= y < height ==> call_ensures(
                    generator,
                    (x as usize, y as usize),
                    #[trigger] m.at(x, y),
                ),
    {
        let mut data: Vec<T> = Vec::new();
        let mut y: usize = 0;
        while y < height
            invariant
                y <= height,
                width * height <= usize::MAX,
                data.len() == y * width,
                forall|x: usize, yy: usize|
                    x < width && yy < height ==> #[trigger] call_requires(generator, (x, yy)),
                forall|i: int, j: int|
                    0 <= i < width && 0 <= j < y ==> call_ensures(
                        generator,
                        (i as usize, j as usize),
                        #[trigger] data[j * (width as int) + i],
                    ),
            decreases height - y,
        {
            let mut x: usize = 0;
            while x < width
                invariant
                    x <= width,
                    y < height,
                    width * height <= usize::MAX,
                    data.len() == y * width + x,
                    forall|i: usize, jj: usize|
                        i < width && jj < height ==> #[trigger] call_requires(generator, (i, jj)),
                    forall|i: int, j: int|
                        0 <= i < width && 0 <= j < y ==> call_ensures(
                            generator,
                            (i as usize, j as usize),
                            #[trigger] data[j * (width as int) + i],
                        ),
                    forall|i: int|
                        0 <= i < x ==> call_ensures(
                            generator,
                            (i as usize, y),
                            #[trigger] data[(y as int) * (width as int) + i],
                        ),
                decreases width - x,
            {
                proof {
                    lemma_row_major_bound(x as int, y as int, width as int, height as int);
                }
                let v = generator(x, y);
                data.push(v);
                proof {
                    assert forall|i: int, j: int| 0 <= i < width && 0 <= j < y implies call_ensures(
                        generator,
                        (i as usize, j as usize),
                        #[trigger] data[j * (width as int) + i],
                    ) by {
                        lemma_row_major_bound(i, j, width as int, y as int);
                    }
                }
                x = x + 1;
            }
            proof {
                assert(((y + 1) as int) * (width as int) == (y as int) * (width as int) + (
                width as int)) by (nonlinear_arith);
            }
            y = y + 1;
            proof {
                assert forall|i: int, j: int|
                    0 <= i < width && 0 <= j < y implies call_ensures(
                    generator,
                    (i as usize, j as usize),
                    #[trigger] data[j * (width as int) + i],
                ) by {
                    lemma_row_major_bound(i, j, width as int, height as int);
                }
            }
        }
        let m = Matrix { width, height, data };
        proof {
            assert((width as int) * (height as int) == (height as int) * (width as int))
                by (nonlinear_arith);
            assert forall|x: int, y: int| 0 <= x < width && 0 <= y < height implies call_ensures(
                generator,
                (x as usize, y as usize),
                #[trigger] m.at(x, y),
            ) by {
                lemma_row_major_bound(x, y, width as int, height as int);
            }
        }
        m
    }

    /// A reference to the cell at the given column and row, if in range.
    pub fn get_ref(&self, x: usize, y: usize) -> (r: Option<&T>)
        requires
            self.wf(),
        ensures
            r is Some <==> (x < self.width && y < self.height),
            r matches Some(v) ==> *v == self.at(x as int, y as int),
    {
        if x < self.width && y < self.height {
            let i = self.get_index(x, y);
            Some(&self.data[i])
        } else {
            None
        }
    }

    /// Store `item` at the given column and row; reports whether the
    /// position was in range (out-of-range stores are dropped).
    pub fn put(&mut self, x: usize, y: usize, item: T) -> (r: bool)
        requires
            old(self).wf(),
        ensures
            r <==> (x < old(self).width && y < old(self).height),
            final(self).width == old(self).width,
            final(self).height == old(self).height,
            final(self).wf(),
            r ==> final(self).data@ == old(self).data@.update(
                (y as int) * (old(self).width as int) + x,
                item,
            ),
            !r ==> final(self).data@ == old(self).data@,
    {
        if x >= self.width || y >= self.height {
            false
        } else {
            let idx = self.get_index(x, y);
            self.data.set(idx, item);
            true
        }
    }

    /// Is this a valid column and row?
    pub fn valid(&self, x: usize, y: usize) -> (r: bool)
        ensures
            r <==> (x < self.width && y < self.height),
    {
        x < self.width && y < self.height
    }
}

impl<T: Copy> Matrix<T> {
    /// An independent copy of row `i`.
    pub fn get_row(&self, i: usize) -> (row: Vec<T>)
        requires
            self.wf(),
            i < self.height,
        ensures
            row@ == Seq::new(self.width as nat, |x: int| self.at(x, i as int)),
    {
        let mut row: Vec<T> = Vec::new();
        let mut x: usize = 0;
        while x < self.width
            invariant
                self.wf(),
                i < self.height,
                x <= self.width,
                row@ == Seq::new(x as nat, |j: int| self.at(j, i as int)),
            decreases self.width - x,
        {
            let idx = self.get_index(x, i);
            row.push(self.data[idx]);
            proof {
                assert(row@ =~= Seq::new((x + 1) as nat, |j: int| self.at(j, i as int)));
            }
            x = x + 1;
        }
        row
    }

    /// An independent copy of column `i`.
    pub fn get_column(&self, i: usize) -> (col: Vec<T>)
        requires
            self.wf(),
            i < self.width,
        ensures
            col@ == Seq::new(self.height as nat, |y: int| self.at(i as int, y)),
    {
        let mut col: Vec<T> = Vec::new();
        let mut y: usize = 0;
        while y < self.height
            invariant
                self.wf(),
                i < self.width,
                y <= self.height,
                col@ == Seq::new(y as nat, |j: int| self.at(i as int, j)),
            decreases self.height - y,
        {
            let idx = self.get_index(i, y);
            col.push(self.data[idx]);
            proof {
                assert(col@ =~= Seq::new((y + 1) as nat, |j: int| self.at(i as int, j)));
            }
            y = y + 1;
        }
        col
    }

    /// A matrix of the given dimensions with every cell set to `datum`.
    pub fn fill(width: usize, height: usize, datum: T) -> (m: Self)
        requires
            width * height <= usize::MAX,
        ensures
            m.wf(),
            m.width == width,
            m.height == height,
            forall|i: int| 0 <= i < m.data.len() ==> m.data[i] == datum,
    {
        let n = width * height;
        let mut data: Vec<T> = Vec::new();
        let mut i: usize = 0;
        while i < n
            invariant
                i <= n,
                data.len() == i,
                forall|j: int| 0 <= j < i ==> data[j] == datum,
            decreases n - i,
        {
            data.push(datum);
            i = i + 1;
        }
        Self { width, height, data }
    }

    /// The value of the cell at the given column and row, if in range.
    pub fn get(&self, x: usize, y: usize) -> (r: Option<T>)
        requires
            self.wf(),
        ensures
            r is Some <==> (x < self.width && y < self.height),
            r matches Some(v) ==> v == self.at(x as int, y as int),
    {
        if x < self.width && y < self.height {
            let idx = self.get_index(x, y);
            Some(self.data[idx])
        } else {
            None
        }
    }
}

} // verus!
