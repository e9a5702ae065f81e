//! The component grid: how many horizontal and vertical frequency bands a
//! placeholder keeps, the order of its terms, and the length of its text.

use vstd::prelude::*;

verus! {

/// The most components a grid may have along one axis.
pub const MAX_COMPONENTS: usize = 9;

/// The number of columns of the grid that is used where none is asked for.
pub const DEFAULT_COMPONENTS_X: usize = 4;

/// The number of rows of the grid that is used where none is asked for.
pub const DEFAULT_COMPONENTS_Y: usize = 3;

/// Why an image and a grid cannot be encoded.
#[derive(Clone, Copy, Debug, PartialEq, Eq, Structural)]
pub enum EncodeError {
    /// A side of the grid is outside `1..=9`.
    InvalidGrid,
    /// The image has no pixels: its width or its height is zero.
    EmptyImage,
}

/// A grid of `components_x` by `components_y` frequency terms.
///
/// The term in column `i` and row `j` weighs the image with
/// `cos(pi * i * x / width) * cos(pi * j * y / height)`. Term (0, 0) is the
/// average colour, the DC term; the others are the AC terms.
#[derive(Clone, Copy, Debug, PartialEq, Eq, Structural)]
pub struct ComponentGrid {
    x: usize,
    y: usize,
}

/// Whether `n` can be a side of a grid.
pub open spec fn is_side(n: int) -> bool {
    1 <= n <= MAX_COMPONENTS
}

/// The length of the text for a grid of `terms` terms: one digit for the
/// size of the grid, one for the scale of the AC terms, four for the DC term,
/// and two for each AC term.
pub open spec fn text_len(terms: int) -> int {
    1 + 1 + 4 + 2 * (terms - 1)
}

impl ComponentGrid {
    /// Number of columns, for use in contracts.
    pub closed spec fn spec_components_x(&self) -> usize {
        self.x
    }

    /// Number of rows, for use in contracts.
    pub closed spec fn spec_components_y(&self) -> usize {
        self.y
    }

    /// Both sides are within `1..=9`.
    pub open spec fn wf(&self) -> bool {
        is_side(self.components_x() as int) && is_side(self.components_y() as int)
    }

    /// Number of terms, DC included.
    pub open spec fn spec_term_count(&self) -> usize {
        (self.components_x() * self.components_y()) as usize
    }

    /// Number of AC terms.
    pub open spec fn spec_ac_count(&self) -> usize {
        (self.components_x() * self.components_y() - 1) as usize
    }

    /// The digit that a text opens with: `(x - 1) + (y - 1) * 9`.
    pub open spec fn spec_size_flag(&self) -> u64 {
        ((self.components_x() - 1) + (self.components_y() - 1) * 9) as u64
    }

    /// Number of symbols in a text for this grid.
    pub open spec fn spec_hash_len(&self) -> usize {
        text_len(self.components_x() * self.components_y()) as usize
    }

    /// Column and row of the term at `index` in row-major order: rows one
    /// after another, each from its first column on.
    pub open spec fn spec_term_at(&self, index: usize) -> Option<(usize, usize)> {
        if index < self.components_x() * self.components_y() {
            Some(
                (
                    (index % self.components_x()) as usize,
                    (index / self.components_x()) as usize,
                ),
            )
        } else {
            None
        }
    }

    /// Makes a grid. Fails with `InvalidGrid` exactly when a side is outside
    /// `1..=9`.
    pub fn new(components_x: usize, components_y: usize) -> (made: Result<ComponentGrid, EncodeError>)
        ensures
            made is Ok <==> is_side(components_x as int) && is_side(components_y as int),
            made matches Ok(grid) ==> grid.wf() && grid.components_x() == components_x
                && grid.components_y() == components_y,
            made matches Err(error) ==> error == EncodeError::InvalidGrid,
    {
        if 1 <= components_x && components_x <= MAX_COMPONENTS && 1 <= components_y && components_y
            <= MAX_COMPONENTS {
            Ok(ComponentGrid { x: components_x, y: components_y })
        } else {
            Err(EncodeError::InvalidGrid)
        }
    }

    /// Number of columns.
    #[verifier::when_used_as_spec(spec_components_x)]
    pub fn components_x(&self) -> (n: usize)
        ensures
            n == self.spec_components_x(),
    {
        self.x
    }

    /// Number of rows.
    #[verifier::when_used_as_spec(spec_components_y)]
    pub fn components_y(&self) -> (n: usize)
        ensures
            n == self.spec_components_y(),
    {
        self.y
    }

    /// Number of terms, DC included.
    #[verifier::when_used_as_spec(spec_term_count)]
    pub fn term_count(&self) -> (n: usize)
        requires
            self.wf(),
        ensures
            n == self.spec_term_count(),
            n == self.components_x() * self.components_y(),
            1 <= n <= 81,
    {
        assert(1 <= self.x * self.y <= 81) by (nonlinear_arith)
            requires
                1 <= self.x <= 9,
                1 <= self.y <= 9,
        ;
        self.x * self.y
    }

    /// Number of AC terms.
    #[verifier::when_used_as_spec(spec_ac_count)]
    pub fn ac_count(&self) -> (n: usize)
        requires
            self.wf(),
        ensures
            n == self.spec_ac_count(),
            n == self.components_x() * self.components_y() - 1,
            n <= 80,
    {
        self.term_count() - 1
    }

    /// The digit that a text opens with.
    #[verifier::when_used_as_spec(spec_size_flag)]
    pub fn size_flag(&self) -> (flag: u64)
        requires
            self.wf(),
        ensures
            flag == self.spec_size_flag(),
            flag == (self.components_x() - 1) + (self.components_y() - 1) * 9,
            flag <= 80,
    {
        ((self.x - 1) + (self.y - 1) * 9) as u64
    }

    /// The grid that a text's opening digit stands for. Every digit up to 80
    /// stands for one; 81 and 82 stand for none.
    pub fn from_size_flag(flag: u64) -> (made: Option<ComponentGrid>)
        ensures
            made is Some <==> flag <= 80,
            made matches Some(grid) ==> grid.wf() && grid.size_flag() == flag
                && grid.components_x() == flag % 9 + 1 && grid.components_y() == flag / 9 + 1,
    {
        if flag <= 80 {
            Some(ComponentGrid { x: (flag % 9 + 1) as usize, y: (flag / 9 + 1) as usize })
        } else {
            None
        }
    }

    /// Number of symbols in a text for this grid.
    #[verifier::when_used_as_spec(spec_hash_len)]
    pub fn hash_len(&self) -> (n: usize)
        requires
            self.wf(),
        ensures
            n == self.spec_hash_len(),
            n == text_len(self.components_x() * self.components_y()),
            n == 6 + 2 * self.ac_count(),
    {
        6 + 2 * self.ac_count()
    }

    /// Column and row of the term at `index` in row-major order, or `None`
    /// where the grid has no such term. Index 0 is the DC term.
    #[verifier::when_used_as_spec(spec_term_at)]
    pub fn term_at(&self, index: usize) -> (place: Option<(usize, usize)>)
        requires
            self.wf(),
        ensures
            place == self.spec_term_at(index),
            place is Some <==> index < self.term_count(),
            place matches Some((i, j)) ==> i < self.components_x() && j < self.components_y()
                && index == j * self.components_x() + i,
    {
        if index < self.term_count() {
            let i = index % self.x;
            let j = index / self.x;
            assert(j < self.y && index == j * self.x + i) by (nonlinear_arith)
                requires
                    index < self.x * self.y,
                    self.x >= 1,
                    i == index % self.x,
                    j == index / self.x,
            ;
            Some((i, j))
        } else {
            None
        }
    }
}

impl Default for ComponentGrid {
    /// The grid of 4 by 3 terms.
    fn default() -> (grid: ComponentGrid)
        ensures
            grid.wf(),
            grid.components_x() == DEFAULT_COMPONENTS_X,
            grid.components_y() == DEFAULT_COMPONENTS_Y,
    {
        ComponentGrid { x: DEFAULT_COMPONENTS_X, y: DEFAULT_COMPONENTS_Y }
    }
}

/// The terms come in row-major order: the term in column `i` of row `j` is
/// the one at index `j * components_x + i`.
pub proof fn lemma_row_major(grid: ComponentGrid, i: usize, j: usize)
    requires
        grid.wf(),
        i < grid.components_x(),
        j < grid.components_y(),
    ensures
        j * grid.components_x() + i < grid.term_count(),
        grid.term_at((j * grid.components_x() + i) as usize) == Some((i, j)),
{
    let x = grid.components_x() as int;
    let y = grid.components_y() as int;
    let index = j * x + i;
    assert(0 <= index < x * y && x * y <= 81) by (nonlinear_arith)
        requires
            0 <= i < x,
            0 <= j < y,
            1 <= x <= 9,
            1 <= y <= 9,
            index == j * x + i,
    ;
    assert(index % x == i && index / x == j) by (nonlinear_arith)
        requires
            0 <= i < x,
            0 <= j,
            index == j * x + i,
    ;
}

/// A grid is known by its size flag: the flag of a valid grid is at most 80,
/// and no other valid grid has it.
pub proof fn lemma_size_flag_names_grid(a: ComponentGrid, b: ComponentGrid)
    requires
        a.wf(),
        b.wf(),
        a.size_flag() == b.size_flag(),
    ensures
        a.size_flag() <= 80,
        a.components_x() == b.components_x(),
        a.components_y() == b.components_y(),
{
}

/// A larger grid has a longer text, by exactly two symbols for each term
/// more. Growing one side while the other stays or grows adds terms.
pub proof fn lemma_growth(small: ComponentGrid, large: ComponentGrid)
    requires
        small.wf(),
        large.wf(),
        small.components_x() <= large.components_x(),
        small.components_y() <= large.components_y(),
    ensures
        large.hash_len() - small.hash_len() == 2 * (large.term_count() - small.term_count()),
        small.term_count() <= large.term_count(),
        small.components_x() < large.components_x() || small.components_y() < large.components_y()
            ==> small.hash_len() < large.hash_len(),
{
    let sx = small.components_x() as int;
    let sy = small.components_y() as int;
    let lx = large.components_x() as int;
    let ly = large.components_y() as int;
    assert(sx * sy <= lx * ly && lx * ly <= 81 && 1 <= sx * sy) by (nonlinear_arith)
        requires
            1 <= sx <= lx <= 9,
            1 <= sy <= ly <= 9,
    ;
    if sx < lx || sy < ly {
        assert(sx * sy < lx * ly) by (nonlinear_arith)
            requires
                1 <= sx <= lx,
                1 <= sy <= ly,
                sx < lx || sy < ly,
        ;
    }
}

} // verus!
