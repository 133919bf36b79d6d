//! Fixed-size square chunk of two-colored cells: the unit of storage and
//! sharing for the otherwise unbounded plane.

use vstd::prelude::*;

verus! {

/// Side length of every chunk the automaton uses.
pub const GRID_SIZE: usize = 32;

/// Index of the last row or column of a chunk.
pub const LAST_ELEM: usize = 31;

/// Index of the last element of a row or column of length `a`.
pub fn last_elem(a: usize) -> (r: usize)
    requires
        a >= 1,
    ensures
        r == a - 1,
{
    a - 1
}

/// Color of one cell. `White` is the default, unvisited color; `Black` marks
/// a cell the automaton has flipped.
#[derive(PartialEq, Eq, Structural, Hash, Copy, Clone, Debug)]
pub enum Color {
    White,
    Black,
}

impl Default for Color {
    fn default() -> (c: Color)
        ensures
            c == Color::White,
    {
        Color::White
    }
}

/// A dense `h` x `w` matrix of cell colors in row-major order.
#[derive(Eq, Hash, Debug)]
pub struct Grid {
    pub h: usize,
    pub w: usize,
    pub inner: Vec<Color>,
}

impl Grid {
    /// The cells as a row-major sequence of marks: `true` where the cell is
    /// `Black`.
    pub open spec fn contents(self) -> Seq<bool> {
        self.inner@.map_values(|c: Color| c == Color::Black)
    }

    /// Structural well-formedness: the cell vector matches the dimensions.
    pub open spec fn wf(self) -> bool {
        self.inner@.len() == self.h * self.w
    }

    /// The shape every chunk of the automaton has.
    pub open spec fn is_chunk(self) -> bool {
        &&& self.h == GRID_SIZE
        &&& self.w == GRID_SIZE
        &&& self.wf()
    }

    /// A fresh all-`White` grid of the given dimensions.
    pub fn new(h: usize, w: usize) -> (g: Grid)
        requires
            h * w <= usize::MAX,
        ensures
            g.h == h,
            g.w == w,
            g.wf(),
            g.contents() == all_white((h * w) as nat),
    {
        let mut inner: Vec<Color> = Vec::new();
        let n: usize = h * w;
        let mut i: usize = 0;
        while i < n
            invariant
                i <= n,
                inner@.len() == i,
                forall|j: int| 0 <= j < i ==> inner@[j] == Color::White,
            decreases n - i,
        {
            inner.push(Color::White);
            i += 1;
        }
        let g = Grid { h, w, inner };
        proof {
            assert(g.contents() =~= all_white((h * w) as nat));
        }
        g
    }

    /// Read the cell in row `y`, column `x`.
    pub fn get(&self, y: usize, x: usize) -> (c: Color)
        requires
            self.wf(),
            y < self.h,
            x < self.w,
        ensures
            (c == Color::Black) == self.contents()[y * self.w + x],
    {
        let n = self.inner.len();
        proof {
            lemma_row_major_index(self.h as int, self.w as int, y as int, x as int);
            assert(y * self.w + x < n);
        }
        self.inner[y * self.w + x]
    }

    /// Write the cell in row `y`, column `x`.
    pub fn set(&mut self, y: usize, x: usize, c: Color)
        requires
            old(self).wf(),
            y < old(self).h,
            x < old(self).w,
        ensures
            final(self).h == old(self).h,
            final(self).w == old(self).w,
            final(self).wf(),
            final(self).contents() == old(self).contents().update(
                y * old(self).w + x,
                c == Color::Black,
            ),
    {
        let n = self.inner.len();
        proof {
            lemma_row_major_index(self.h as int, self.w as int, y as int, x as int);
            assert(y * self.w + x < n);
        }
        let i: usize = y * self.w + x;
        self.inner[i] = c;
        proof {
            assert(self.contents() =~= old(self).contents().update(
                i as int,
                c == Color::Black,
            ));
        }
    }

    /// The cells in row-major order, as a plain vector copy.
    pub fn iter(&self) -> (cells: Vec<Color>)
        ensures
            cells@ == self.inner@,
            cells@.map_values(|c: Color| c == Color::Black) == self.contents(),
    {
        let mut cells: Vec<Color> = Vec::new();
        let mut i: usize = 0;
        while i < self.inner.len()
            invariant
                i <= self.inner@.len(),
                cells@ == self.inner@.take(i as int),
            decreases self.inner@.len() - i,
        {
            cells.push(self.inner[i]);
            proof {
                assert(cells@ =~= self.inner@.take(i + 1));
            }
            i += 1;
        }
        proof {
            assert(cells@ =~= self.inner@);
        }
        cells
    }

    /// How many cells of this grid are `Black`.
    pub fn count_black(&self) -> (n: usize)
        requires
            self.wf(),
        ensures
            n == black_in(self.contents()),
            n <= self.contents().len(),
    {
        let mut n: usize = 0;
        let mut i: usize = 0;
        proof {
            lemma_black_in_bound(self.contents().take(0));
        }
        while i < self.inner.len()
            invariant
                i <= self.inner@.len(),
                self.wf(),
                n == black_in(self.contents().take(i as int)),
                n <= i,
            decreases self.inner@.len() - i,
        {
            proof {
                let t = self.contents().take(i + 1);
                assert(t.drop_last() =~= self.contents().take(i as int));
                assert(t.last() == self.contents()[i as int]);
            }
            if matches!(self.inner[i], Color::Black) {
                n += 1;
            }
            i += 1;
        }
        proof {
            assert(self.contents().take(self.inner@.len() as int) =~= self.contents());
        }
        n
    }
}

impl Clone for Grid {
    /// A value copy: the clone has the same dimensions and cell sequence.
    fn clone(&self) -> (g: Grid)
        ensures
            g.h == self.h,
            g.w == self.w,
            g.inner@ == self.inner@,
    {
        Grid { h: self.h, w: self.w, inner: self.iter() }
    }
}

impl PartialEq for Grid {
    /// Structural equality over the dimensions and the full cell sequence.
    fn eq(&self, other: &Grid) -> (r: bool) {
        if self.h != other.h || self.w != other.w || self.inner.len() != other.inner.len() {
            return false;
        }
        let mut i: usize = 0;
        while i < self.inner.len()
            invariant
                i <= self.inner@.len(),
                self.inner@.len() == other.inner@.len(),
                forall|j: int| 0 <= j < i ==> self.inner@[j] == other.inner@[j],
            decreases self.inner@.len() - i,
        {
            if self.inner[i] != other.inner[i] {
                return false;
            }
            i += 1;
        }
        proof {
            assert(self.inner@ =~= other.inner@);
        }
        true
    }
}

impl vstd::std_specs::cmp::PartialEqSpecImpl for Grid {
    open spec fn obeys_eq_spec() -> bool {
        true
    }

    open spec fn eq_spec(&self, other: &Grid) -> bool {
        self.h == other.h && self.w == other.w && self.inner@ == other.inner@
    }
}

/// The content of a never-visited chunk: `n` unmarked cells.
pub open spec fn all_white(n: nat) -> Seq<bool> {
    Seq::new(n, |i: int| false)
}

/// How many marks a row-major cell sequence holds.
pub open spec fn black_in(cells: Seq<bool>) -> nat
    decreases cells.len(),
{
    if cells.len() == 0 {
        0
    } else {
        black_in(cells.drop_last()) + if cells.last() {
            1nat
        } else {
            0nat
        }
    }
}

/// A never-visited chunk holds no marks.
pub proof fn lemma_black_in_all_white(n: nat)
    ensures
        black_in(all_white(n)) == 0,
    decreases n,
{
    if n > 0 {
        assert(all_white(n).drop_last() =~= all_white((n - 1) as nat));
        lemma_black_in_all_white((n - 1) as nat);
    }
}

/// Writing one cell moves the mark count by the difference between the new
/// and the old value of that cell, and nothing else.
pub proof fn lemma_black_in_update(s: Seq<bool>, i: int, b: bool)
    requires
        0 <= i < s.len(),
    ensures
        black_in(s.update(i, b)) + (if s[i] {
            1nat
        } else {
            0nat
        }) == black_in(s) + (if b {
            1nat
        } else {
            0nat
        }),
    decreases s.len(),
{
    let t = s.update(i, b);
    if i == s.len() - 1 {
        assert(t.drop_last() =~= s.drop_last());
    } else {
        assert(t.drop_last() =~= s.drop_last().update(i, b));
        lemma_black_in_update(s.drop_last(), i, b);
    }
}

/// A mark count never exceeds the number of cells.
pub proof fn lemma_black_in_bound(cells: Seq<bool>)
    ensures
        black_in(cells) <= cells.len(),
    decreases cells.len(),
{
    if cells.len() > 0 {
        lemma_black_in_bound(cells.drop_last());
    }
}

/// The row-major index of a cell lies inside the flat cell vector.
pub proof fn lemma_row_major_index(h: int, w: int, y: int, x: int)
    requires
        0 <= y < h,
        0 <= x < w,
    ensures
        0 <= y * w + x < h * w,
{
    assert(y * w + x < h * w) by (nonlinear_arith)
        requires
            0 <= y < h,
            0 <= x < w,
    ;
    assert(y * w + x >= 0) by (nonlinear_arith)
        requires
            0 <= y,
            0 <= x,
            0 <= w,
    ;
}

} // verus!
