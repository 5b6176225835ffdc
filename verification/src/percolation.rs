//! A percolation model on an n-by-n grid of sites. A site is either full
//! (blocked) or open; opening a site joins it with its open orthogonal
//! neighbors in a weighted quick-union structure, together with a virtual
//! top site above the first row and a virtual bottom site below the last.
//! The system percolates when the virtual top and bottom are connected.

use crate::weighted_quick_union::{WeightedQuickUnion, WQU};
use vstd::prelude::*;

verus! {

#[derive(Clone, Copy, PartialEq, Eq)]
pub enum SiteState {
    Open,
    Full,
}

/// How many of the sites at positions `lo .. hi` are open.
pub open spec fn count_open(s: Seq<SiteState>, lo: int, hi: int) -> nat
    decreases hi - lo,
{
    if lo >= hi {
        0
    } else {
        count_open(s, lo, hi - 1) + if s[hi - 1] == SiteState::Open {
            1nat
        } else {
            0nat
        }
    }
}

/// No more sites are open than there are positions.
proof fn lemma_count_open_bound(s: Seq<SiteState>, lo: int, hi: int)
    ensures
        count_open(s, lo, hi) <= (if hi >= lo {
            hi - lo
        } else {
            0
        }),
    decreases hi - lo,
{
    if lo < hi {
        lemma_count_open_bound(s, lo, hi - 1);
    }
}

/// Opening one position raises the count of open positions by one.
proof fn lemma_count_open_update(s: Seq<SiteState>, lo: int, hi: int, i: int)
    requires
        0 <= lo <= i < hi <= s.len(),
        s[i] == SiteState::Full,
    ensures
        count_open(s.update(i, SiteState::Open), lo, hi) == count_open(s, lo, hi) + 1,
    decreases hi - lo,
{
    let s2 = s.update(i, SiteState::Open);
    if i == hi - 1 {
        assert(count_open(s2, lo, hi - 1) == count_open(s, lo, hi - 1)) by {
            lemma_count_open_frame(s, s2, lo, hi - 1);
        }
    } else {
        lemma_count_open_update(s, lo, hi - 1, i);
    }
}

/// Counting open positions only looks at the counted range.
proof fn lemma_count_open_frame(s1: Seq<SiteState>, s2: Seq<SiteState>, lo: int, hi: int)
    requires
        forall|k: int| lo <= k < hi ==> s1[k] == s2[k],
    ensures
        count_open(s1, lo, hi) == count_open(s2, lo, hi),
    decreases hi - lo,
{
    if lo < hi {
        lemma_count_open_frame(s1, s2, lo, hi - 1);
    }
}

/// The percolation operations.
pub trait Percolation: Sized {
    /// The representation invariant.
    spec fn wf(&self) -> bool;

    /// The side length of the grid.
    spec fn grid_size(&self) -> nat;

    /// Whether the site at `(row, col)` is open.
    spec fn open_spec(&self, row: int, col: int) -> bool;

    /// How many grid sites are open.
    spec fn open_count_spec(&self) -> nat;

    /// Whether the virtual top is connected to the virtual bottom.
    spec fn percolates_spec(&self) -> bool;

    /// What a grid size must satisfy before construction.
    spec fn new_requires(n: usize) -> bool;

    /// Create an n-by-n grid with all sites blocked.
    fn new(n: usize) -> (r: Self)
        requires
            Self::new_requires(n),
        ensures
            r.wf(),
            r.grid_size() == n,
            forall|row: int, col: int| 0 <= row < n && 0 <= col < n ==> !r.open_spec(row, col),
            r.open_count_spec() == 0,
            !r.percolates_spec(),
    ;

    /// Open the site at `(row, col)` if it is not open already, joining it
    /// with its open neighbors. A percolating system keeps percolating.
    fn open(&mut self, row: usize, col: usize)
        requires
            old(self).wf(),
            row < old(self).grid_size(),
            col < old(self).grid_size(),
        ensures
            final(self).wf(),
            final(self).grid_size() == old(self).grid_size(),
            final(self).open_spec(row as int, col as int),
            forall|r2: int, c2: int|
                0 <= r2 < old(self).grid_size() && 0 <= c2 < old(self).grid_size() && !(r2 == row
                    && c2 == col) ==> final(self).open_spec(r2, c2) == old(self).open_spec(r2, c2),
            final(self).open_count_spec() == old(self).open_count_spec() + (if old(self).open_spec(
                row as int,
                col as int,
            ) {
                0nat
            } else {
                1nat
            }),
            old(self).percolates_spec() ==> final(self).percolates_spec(),
    ;

    /// Whether the site at `(row, col)` is open.
    fn is_open(&self, row: usize, col: usize) -> (r: bool)
        requires
            self.wf(),
            row < self.grid_size(),
            col < self.grid_size(),
        ensures
            r == self.open_spec(row as int, col as int),
    ;

    /// Whether the site at `(row, col)` is still blocked.
    fn is_full(&self, row: usize, col: usize) -> (r: bool)
        requires
            self.wf(),
            row < self.grid_size(),
            col < self.grid_size(),
        ensures
            r == !self.open_spec(row as int, col as int),
    ;

    /// How many sites have been opened.
    fn number_of_open_sites(&self) -> (r: usize)
        requires
            self.wf(),
        ensures
            r == self.open_count_spec(),
    ;

    /// Whether open sites connect the top row to the bottom row.
    fn percolates(&self) -> (r: bool)
        requires
            self.wf(),
        ensures
            r == self.percolates_spec(),
    ;
}

/// Identifies sites in the grid.
enum Site {
    Coord { row: usize, col: usize },
    VirtualTop,
    VirtualBottom,
}

pub struct PercolationState {
    size: usize,
    wqu: WQU,
    site_states: Vec<SiteState>,
    open_count: usize,
}

impl PercolationState {
    /// The position a site occupies in the site vectors: the virtual top
    /// first, then the grid row by row, then the virtual bottom.
    spec fn index_of(&self, row: int, col: int) -> int {
        row * (self.size as int) + col + 1
    }

    /// Converts a site to an index in a vector.
    fn site_to_index(&self, grid_site: Site) -> (r: usize)
        requires
            self.wf(),
            grid_site matches Site::Coord { row, col } ==> row < self.size && col < self.size,
        ensures
            r == match grid_site {
                Site::VirtualTop => 0int,
                Site::Coord { row, col } => self.index_of(row as int, col as int),
                Site::VirtualBottom => self.size * self.size + 1,
            },
            r < self.site_states@.len(),
    {
        let n = self.size;
        let len = self.site_states.len();
        proof {
            assert(len == n * n + 2);
        }
        match grid_site {
            Site::VirtualTop => 0,
            Site::Coord { row, col } => {
                proof {
                    assert(row * n + col + 1 < n * n + 2) by (nonlinear_arith)
                        requires
                            row < n,
                            col < n,
                    ;
                }
                row * n + col + 1
            },
            Site::VirtualBottom => len - 1,
        }
    }

    /// Calculates the necessary size of the site vectors for a grid size.
    fn vec_size(size: usize) -> (r: usize)
        requires
            size * size + 2 <= usize::MAX,
        ensures
            r == size * size + 2,
    {
        size * size + 2
    }

    /// Connects a just-opened site to each of its open orthogonal neighbors;
    /// the top row also joins the virtual top and the bottom row the virtual
    /// bottom.
    fn connect_to_open_neighbors(&mut self, row: usize, col: usize)
        requires
            old(self).wf(),
            row < old(self).size,
            col < old(self).size,
        ensures
            final(self).wf(),
            final(self).size == old(self).size,
            final(self).site_states@ == old(self).site_states@,
            final(self).open_count == old(self).open_count,
            forall|n: usize| final(self).wqu.valid(n) <==> old(self).wqu.valid(n),
            forall|a: usize, b: usize|
                old(self).wqu.valid(a) && old(self).wqu.valid(b) && old(self).wqu.connected(a, b)
                    ==> final(self).wqu.connected(a, b),
    {
        let index = self.site_to_index(Site::Coord { row, col });
        let upper_neighbor_index = if row == 0 {
            self.site_to_index(Site::VirtualTop)
        } else {
            self.site_to_index(Site::Coord { row: row - 1, col })
        };
        self.connect_if_open(index, upper_neighbor_index);
        let ghost s1 = *self;
        let lower_neighbor_index = if row == self.size - 1 {
            self.site_to_index(Site::VirtualBottom)
        } else {
            self.site_to_index(Site::Coord { row: row + 1, col })
        };
        self.connect_if_open(index, lower_neighbor_index);
        proof {
            assert forall|a: usize, b: usize|
                old(self).wqu.valid(a) && old(self).wqu.valid(b) && old(self).wqu.connected(
                    a,
                    b,
                ) implies self.wqu.connected(a, b) by {
                assert(s1.wqu.valid(a) && s1.wqu.valid(b));
                assert(s1.wqu.connected(a, b));
            }
        }
        let ghost s2 = *self;
        if col != 0 {
            let left_neighbor_index = self.site_to_index(Site::Coord { row, col: col - 1 });
            self.connect_if_open(index, left_neighbor_index);
        }
        proof {
            assert forall|a: usize, b: usize|
                old(self).wqu.valid(a) && old(self).wqu.valid(b) && old(self).wqu.connected(
                    a,
                    b,
                ) implies self.wqu.connected(a, b) by {
                assert(s2.wqu.valid(a) && s2.wqu.valid(b));
                assert(s2.wqu.connected(a, b));
            }
        }
        let ghost s3 = *self;
        if col != self.size - 1 {
            let right_neighbor_index = self.site_to_index(Site::Coord { row, col: col + 1 });
            self.connect_if_open(index, right_neighbor_index);
        }
        proof {
            assert forall|a: usize, b: usize|
                old(self).wqu.valid(a) && old(self).wqu.valid(b) && old(self).wqu.connected(
                    a,
                    b,
                ) implies self.wqu.connected(a, b) by {
                assert(s3.wqu.valid(a) && s3.wqu.valid(b));
                assert(s3.wqu.connected(a, b));
            }
        }
    }

    /// Connects two sites when they are both open.
    fn connect_if_open(&mut self, first: usize, second: usize)
        requires
            old(self).wf(),
            first < old(self).site_states@.len(),
            second < old(self).site_states@.len(),
        ensures
            final(self).wf(),
            final(self).size == old(self).size,
            final(self).site_states@ == old(self).site_states@,
            final(self).open_count == old(self).open_count,
            forall|n: usize| final(self).wqu.valid(n) <==> old(self).wqu.valid(n),
            forall|a: usize, b: usize|
                old(self).wqu.valid(a) && old(self).wqu.valid(b) && old(self).wqu.connected(a, b)
                    ==> final(self).wqu.connected(a, b),
    {
        let first_open = matches!(self.site_states[first], SiteState::Open);
        let second_open = matches!(self.site_states[second], SiteState::Open);
        if first_open && second_open {
            proof {
                crate::weighted_quick_union::lemma_wqu_valid(&self.wqu, first);
                crate::weighted_quick_union::lemma_wqu_valid(&self.wqu, second);
            }
            self.wqu.connect(first, second);
        }
    }
}

impl Percolation for PercolationState {
    closed spec fn wf(&self) -> bool {
        &&& self.wqu.wf()
        &&& self.wqu.size_spec() == self.site_states@.len()
        &&& self.site_states@.len() == self.size * self.size + 2
        &&& self.site_states@[0] == SiteState::Open
        &&& self.site_states@[self.size * self.size + 1] == SiteState::Open
        &&& self.open_count == count_open(
            self.site_states@,
            1,
            self.size * self.size + 1,
        )
    }

    closed spec fn grid_size(&self) -> nat {
        self.size as nat
    }

    closed spec fn open_spec(&self, row: int, col: int) -> bool {
        self.site_states@[self.index_of(row, col)] == SiteState::Open
    }

    closed spec fn open_count_spec(&self) -> nat {
        self.open_count as nat
    }

    closed spec fn percolates_spec(&self) -> bool {
        self.wqu.connected(0, (self.size * self.size + 1) as usize)
    }

    closed spec fn new_requires(n: usize) -> bool {
        n * n + 2 <= usize::MAX
    }

    fn new(size: usize) -> (r: Self) {
        let vec_size = PercolationState::vec_size(size);
        let wqu: WQU = WeightedQuickUnion::new(vec_size);
        let mut site_states: Vec<SiteState> = Vec::with_capacity(vec_size);
        let mut i: usize = 0;
        while i < vec_size
            invariant
                i <= vec_size,
                site_states@.len() == i,
                forall|k: int| 0 <= k < i ==> site_states@[k] == SiteState::Full,
            decreases vec_size - i,
        {
            site_states.push(SiteState::Full);
            i = i + 1;
        }
        site_states[0] = SiteState::Open;
        site_states[vec_size - 1] = SiteState::Open;
        let r = PercolationState { size, wqu, site_states, open_count: 0 };
        proof {
            lemma_count_open_frame(
                r.site_states@,
                Seq::new(r.site_states@.len(), |k: int| SiteState::Full),
                1,
                size * size + 1,
            );
            assert(count_open(
                Seq::new(r.site_states@.len(), |k: int| SiteState::Full),
                1,
                (size * size + 1) as int,
            ) == 0) by {
                lemma_count_open_all_full(
                    Seq::new(r.site_states@.len(), |k: int| SiteState::Full),
                    1,
                    (size * size + 1) as int,
                );
            }
            let n = size as int;
            assert forall|row: int, col: int|
                0 <= row < size && 0 <= col < size implies !r.open_spec(row, col) by {
                assert(r.index_of(row, col) == row * n + col + 1);
                assert(1 <= row * n + col + 1 < n * n + 1) by (nonlinear_arith)
                    requires
                        0 <= row < n,
                        0 <= col < n,
                ;
            }
            crate::weighted_quick_union::lemma_wqu_valid(&r.wqu, 0);
            crate::weighted_quick_union::lemma_wqu_valid(&r.wqu, (size * size + 1) as usize);
        }
        r
    }

    fn open(&mut self, row: usize, col: usize) {
        let ghost n = self.size as int;
        let len = self.site_states.len();
        let i = self.site_to_index(Site::Coord { row, col });
        proof {
            assert(1 <= row * n + col + 1 < n * n + 1) by (nonlinear_arith)
                requires
                    0 <= row < n,
                    0 <= col < n,
            ;
            assert(1 <= i < self.size * self.size + 1);
        }
        if matches!(self.site_states[i], SiteState::Full) {
            proof {
                lemma_count_open_bound(self.site_states@, 1, self.size * self.size + 1);
                lemma_count_open_update(
                    self.site_states@,
                    1,
                    self.size * self.size + 1,
                    i as int,
                );
            }
            self.site_states[i] = SiteState::Open;
            self.open_count = self.open_count + 1;
            self.connect_to_open_neighbors(row, col);
        }
        proof {
            assert forall|r2: int, c2: int|
                0 <= r2 < old(self).grid_size() && 0 <= c2 < old(self).grid_size() && !(r2 == row
                    && c2 == col) implies self.open_spec(r2, c2) == old(self).open_spec(
                r2,
                c2,
            ) by {
                assert(r2 * n + c2 + 1 != row * n + col + 1 && 1 <= r2 * n + c2 + 1 < n * n + 1)
                    by (nonlinear_arith)
                    requires
                        0 <= r2 < n,
                        0 <= c2 < n,
                        0 <= row < n,
                        0 <= col < n,
                        !(r2 == row && c2 == col),
                ;
            }
            if old(self).percolates_spec() {
                let bottom = (old(self).size * old(self).size + 1) as usize;
                crate::weighted_quick_union::lemma_wqu_valid(&old(self).wqu, 0);
                crate::weighted_quick_union::lemma_wqu_valid(&old(self).wqu, bottom);
                assert(self.wqu.connected(0, bottom));
            }
        }
    }

    fn is_open(&self, row: usize, col: usize) -> (r: bool) {
        let i = self.site_to_index(Site::Coord { row, col });
        matches!(self.site_states[i], SiteState::Open)
    }

    fn is_full(&self, row: usize, col: usize) -> (r: bool) {
        let i = self.site_to_index(Site::Coord { row, col });
        matches!(self.site_states[i], SiteState::Full)
    }

    fn number_of_open_sites(&self) -> (r: usize) {
        self.open_count
    }

    fn percolates(&self) -> (r: bool) {
        let virtual_top = self.site_to_index(Site::VirtualTop);
        let virtual_bottom = self.site_to_index(Site::VirtualBottom);
        proof {
            crate::weighted_quick_union::lemma_wqu_valid(&self.wqu, virtual_top);
            crate::weighted_quick_union::lemma_wqu_valid(&self.wqu, virtual_bottom);
        }
        self.wqu.is_connected(virtual_top, virtual_bottom)
    }
}

/// A range of entirely full sites has no open ones.
proof fn lemma_count_open_all_full(s: Seq<SiteState>, lo: int, hi: int)
    requires
        forall|k: int| lo <= k < hi ==> s[k] == SiteState::Full,
    ensures
        count_open(s, lo, hi) == 0,
    decreases hi - lo,
{
    if lo < hi {
        lemma_count_open_all_full(s, lo, hi - 1);
    }
}

} // verus!
