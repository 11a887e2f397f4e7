//! A dense 2D matrix, used for accumulating and holding rendered images.

use vstd::prelude::*;

verus! {

/// A rectangular grid of values, indexed by `[x, y]`.
pub struct Matrix<T> {
    pub shape: [u32; 2],
    pub data: Vec<Vec<T>>,
}

impl<T: Copy> Matrix<T> {
    /// Well-formed matrix: one column vector per x coordinate, each of the
    /// full height.
    pub open spec fn wf(&self) -> bool {
        &&& self.data@.len() == self.shape[0]
        &&& forall|i: int| 0 <= i < self.data@.len() ==> (#[trigger] self.data@[i])@.len()
            == self.shape[1]
    }

    /// The element at `[x, y]`.
    pub open spec fn spec_at(&self, x: int, y: int) -> T {
        self.data@[x]@[y]
    }

    /// Builds a matrix of the given shape holding `value` everywhere.
    pub fn fill(shape: [u32; 2], value: T) -> (r: Matrix<T>)
        ensures
            r.wf(),
            r.shape == shape,
            forall|x: int, y: int|
                0 <= x < shape[0] && 0 <= y < shape[1] ==> #[trigger] r.spec_at(x, y) == value,
    {
        let mut data: Vec<Vec<T>> = Vec::new();
        let mut x: u32 = 0;
        while x < shape[0]
            invariant
                x <= shape[0],
                data@.len() == x,
                forall|i: int| 0 <= i < x ==> (#[trigger] data@[i])@.len() == shape[1],
                forall|i: int, j: int|
                    0 <= i < x && 0 <= j < shape[1] ==> #[trigger] data@[i]@[j] == value,
            decreases shape[0] - x,
        {
            let mut col: Vec<T> = Vec::new();
            let mut y: u32 = 0;
            while y < shape[1]
                invariant
                    y <= shape[1],
                    col@.len() == y,
                    forall|j: int| 0 <= j < y ==> #[trigger] col@[j] == value,
                decreases shape[1] - y,
            {
                col.push(value);
                y = y + 1;
            }
            data.push(col);
            x = x + 1;
        }
        Matrix { shape, data }
    }

    /// Every element exactly once with its index: position `k` of the
    /// result holds cell `[k % width, k / width]` — rows ordered by `y`,
    /// `x` varying fastest.
    pub fn iter(&self) -> (r: Vec<([u32; 2], T)>)
        requires
            self.wf(),
        ensures
            r@.len() == self.shape[0] * self.shape[1],
            forall|k: int|
                0 <= k < r@.len() ==> {
                    let (idx, v) = #[trigger] r@[k];
                    idx[0] == k % (self.shape[0] as int) && idx[1] == k / (self.shape[0] as int)
                        && v == self.spec_at(idx[0] as int, idx[1] as int)
                },
    {
        let w: u32 = self.shape[0];
        proof {
            assert(self.shape[0] * self.shape[1] <= 0x1_0000_0000_0000_0000int)
                by (nonlinear_arith)
                requires
                    self.shape[0] <= u32::MAX,
                    self.shape[1] <= u32::MAX,
            ;
        }
        let mut r: Vec<([u32; 2], T)> = Vec::new();
        let mut y: u32 = 0;
        while y < self.shape[1]
            invariant
                self.wf(),
                w == self.shape[0],
                y <= self.shape[1],
                r@.len() == y * w,
                forall|k: int|
                    0 <= k < r@.len() ==> {
                        let (idx, v) = #[trigger] r@[k];
                        idx[0] == k % (w as int) && idx[1] == k / (w as int) && v == self.spec_at(
                            idx[0] as int,
                            idx[1] as int,
                        )
                    },
            decreases self.shape[1] - y,
        {
            let mut x: u32 = 0;
            while x < self.shape[0]
                invariant
                    self.wf(),
                    w == self.shape[0],
                    y < self.shape[1],
                    x <= self.shape[0],
                    r@.len() == y * w + x,
                    forall|k: int|
                        0 <= k < r@.len() ==> {
                            let (idx, v) = #[trigger] r@[k];
                            idx[0] == k % (w as int) && idx[1] == k / (w as int) && v
                                == self.spec_at(idx[0] as int, idx[1] as int)
                        },
                decreases self.shape[0] - x,
            {
                proof {
                    assert((y as int) * (w as int) + x <= u32::MAX * (w as int) + x)
                        by (nonlinear_arith)
                        requires
                            y <= u32::MAX,
                            w >= 0,
                    ;
                    vstd::arithmetic::div_mod::lemma_fundamental_div_mod_converse(
                        (y as int) * (w as int) + (x as int),
                        w as int,
                        y as int,
                        x as int,
                    );
                }
                let v: T = self.at(x, y);
                r.push(([x, y], v));
                x = x + 1;
            }
            proof {
                assert((y as int) * (w as int) + (w as int) == ((y as int) + 1) * (w as int))
                    by (nonlinear_arith);
            }
            y = y + 1;
        }
        proof {
            assert((self.shape[1] as int) * (w as int) == (self.shape[0] as int) * (
            self.shape[1] as int)) by (nonlinear_arith)
                requires
                    w == self.shape[0],
            ;
        }
        r
    }

    /// The element at `[x, y]`.
    pub fn at(&self, x: u32, y: u32) -> (r: T)
        requires
            self.wf(),
            x < self.shape[0],
            y < self.shape[1],
        ensures
            r == self.spec_at(x as int, y as int),
    {
        self.data[x as usize][y as usize]
    }

}

impl<T> Matrix<T> {
    pub fn width(&self) -> (r: u32)
        ensures
            r == self.shape[0],
    {
        self.shape[0]
    }

    pub fn height(&self) -> (r: u32)
        ensures
            r == self.shape[1],
    {
        self.shape[1]
    }
}

} // verus!
