use vstd::prelude::*;
use vstd::arithmetic::div_mod::{
    lemma_div_is_ordered, lemma_div_nonincreasing, lemma_fundamental_div_mod,
    lemma_fundamental_div_mod_converse, lemma_mod_bound,
};

verus! {

/// Largest coordinate magnitude (in fixed-point units) the spatial layer
/// accepts; it keeps squared distances and grid arithmetic inside i64/u64.
pub const COORD_LIMIT: i64 = 0x4000_0000;

/// Ceiling of `a / b` for positive `b` and non-negative `a`.
pub open spec fn ceil_div(a: int, b: int) -> int {
    (a + b - 1) / b
}

/// Number of grid columns the chunk-size search assumes for a span:
/// the ceiling of span over size, and at least one.
pub open spec fn cols_for(span: int, size: int) -> int {
    if ceil_div(span, size) < 1 {
        1
    } else {
        ceil_div(span, size)
    }
}

/// Number of chunks the geometric chunk-size search sees for a given size.
pub open spec fn nchunks_for(xspan: int, yspan: int, size: int) -> int {
    cols_for(xspan, size) * cols_for(yspan, size)
}

/// One step of the geometric chunk-size growth: half the size is added
/// (plus one, so the step is strictly increasing even at size one).
pub open spec fn grow_size(size: int) -> int {
    size + size / 2 + 1
}

/// The chunk size after `k` growth steps from `initial`.
pub open spec fn grown_size(initial: int, k: nat) -> int
    decreases k,
{
    if k == 0 {
        initial
    } else {
        grow_size(grown_size(initial, (k - 1) as nat))
    }
}

proof fn lemma_cols_for_one(span: int, size: int)
    requires
        0 <= span <= size,
        1 <= size,
    ensures
        cols_for(span, size) == 1,
{
    if span == 0 {
        assert((size - 1) / size == 0) by {
            lemma_fundamental_div_mod_converse(size - 1, size, 0, size - 1);
        }
    } else {
        assert((span + size - 1) / size == 1) by {
            lemma_fundamental_div_mod_converse(span + size - 1, size, 1, span - 1);
        }
    }
}

proof fn lemma_cols_for_ge_one(span: int, size: int)
    requires
        0 <= span,
        1 <= size,
    ensures
        1 <= cols_for(span, size),
        span >= 1 ==> cols_for(span, size) == ceil_div(span, size),
{
    if span >= 1 {
        lemma_div_is_ordered(size, span + size - 1, size);
        assert(size / size == 1) by {
            lemma_fundamental_div_mod_converse(size, size, 1, 0);
        }
    }
}

/// Finds the chunk size for the local-move grid: starting from `initial`,
/// the size grows geometrically until the expected number of cells per
/// chunk reaches `min_cells_per_chunk`. The result is the first size of
/// that growth sequence that satisfies the density threshold, so the
/// search is non-decreasing and terminates for any spans and cell count.
pub fn choose_chunk_size(
    initial: u64,
    ncells: u64,
    xspan: u64,
    yspan: u64,
    min_cells_per_chunk: u64,
) -> (size: u64)
    requires
        1 <= initial <= 0x1_0000_0000,
        xspan <= 0x8000_0000,
        yspan <= 0x8000_0000,
        min_cells_per_chunk <= ncells,
    ensures
        size >= initial,
        ncells >= min_cells_per_chunk * nchunks_for(xspan as int, yspan as int, size as int),
        exists|k: nat|
            size == grown_size(initial as int, k) && (forall|j: nat|
                j < k ==> ncells < min_cells_per_chunk * nchunks_for(
                    xspan as int,
                    yspan as int,
                    #[trigger] grown_size(initial as int, j),
                )),
{
    let mut size: u64 = initial;
    let ghost mut steps: nat = 0;
    loop
        invariant
            1 <= size <= 0x1_0000_0000,
            size >= initial,
            1 <= initial <= 0x1_0000_0000,
            xspan <= 0x8000_0000,
            yspan <= 0x8000_0000,
            min_cells_per_chunk <= ncells,
            size == grown_size(initial as int, steps),
            forall|j: nat|
                j < steps ==> ncells < min_cells_per_chunk * nchunks_for(
                    xspan as int,
                    yspan as int,
                    #[trigger] grown_size(initial as int, j),
                ),
        decreases 2 * (xspan + yspan) - size,
    {
        let ncols_x = chunk_cols(xspan, size);
        let ncols_y = chunk_cols(yspan, size);
        proof {
            assert((ncols_x as int) * (ncols_y as int) <= 0x4000_0000_0000_0000) by (nonlinear_arith)
                requires
                    0 <= ncols_x <= 0x8000_0000,
                    0 <= ncols_y <= 0x8000_0000,
            ;
            assert((min_cells_per_chunk as int) * ((ncols_x as int) * (ncols_y as int))
                <= 0xffff_ffff_ffff_ffff * 0x4000_0000_0000_0000) by (nonlinear_arith)
                requires
                    0 <= min_cells_per_chunk <= 0xffff_ffff_ffff_ffff,
                    0 <= (ncols_x as int) * (ncols_y as int) <= 0x4000_0000_0000_0000,
            ;
        }
        let nchunks = (ncols_x as u128) * (ncols_y as u128);
        if (ncells as u128) >= (min_cells_per_chunk as u128) * nchunks {
            assert(ncells >= min_cells_per_chunk * nchunks_for(
                xspan as int,
                yspan as int,
                size as int,
            ));
            return size;
        }
        proof {
            // Once the size covers both spans there is a single chunk and the
            // threshold holds, so the loop only continues below that size.
            if size >= xspan && size >= yspan {
                lemma_cols_for_one(xspan as int, size as int);
                lemma_cols_for_one(yspan as int, size as int);
                assert((ncols_x as int) * (ncols_y as int) == 1) by (nonlinear_arith)
                    requires
                        ncols_x == 1u64,
                        ncols_y == 1u64,
                ;
                assert(nchunks == 1);
                assert(ncells < min_cells_per_chunk);
                assert(false);
            }
        }
        size = size + size / 2 + 1;
        proof {
            steps = steps + 1;
        }
    }
}

/// Number of grid columns for one axis at a given chunk size; the
/// executable counterpart of `cols_for`.
fn chunk_cols(span: u64, size: u64) -> (cols: u64)
    requires
        1 <= size,
        span <= 0x8000_0000,
        size <= 0x1_0000_0000,
    ensures
        cols == cols_for(span as int, size as int),
        1 <= cols <= 0x8000_0000,
{
    proof {
        lemma_cols_for_ge_one(span as int, size as int);
    }
    if span == 0 {
        proof {
            lemma_cols_for_one(0, size as int);
        }
        1
    } else {
        let c = (span + size - 1) / size;
        proof {
            assert(span as int <= span as int * size as int) by (nonlinear_arith)
                requires
                    1 <= span,
                    1 <= size,
            ;
            lemma_div_is_ordered(
                span as int + size as int - 1,
                span as int * size as int + size as int - 1,
                size as int,
            );
            lemma_fundamental_div_mod_converse(
                span as int * size as int + size as int - 1,
                size as int,
                span as int,
                size as int - 1,
            );
        }
        if c < 1 {
            1
        } else {
            c
        }
    }
}

/// The square grid laid over the bounding region: every point of the region
/// belongs to exactly one chunk, and chunks are numbered row-major.
pub struct ChunkGrid {
    pub xmin: i64,
    pub xmax: i64,
    pub ymin: i64,
    pub ymax: i64,
    pub size: i64,
    pub nx: u64,
    pub ny: u64,
}

impl ChunkGrid {
    pub open spec fn wf(self) -> bool {
        &&& 1 <= self.size <= 0x1_0000_0000
        &&& -COORD_LIMIT <= self.xmin <= self.xmax <= COORD_LIMIT
        &&& -COORD_LIMIT <= self.ymin <= self.ymax <= COORD_LIMIT
        &&& self.nx == (self.xmax - self.xmin) / (self.size as int) + 1
        &&& self.ny == (self.ymax - self.ymin) / (self.size as int) + 1
    }

    pub open spec fn nchunks(self) -> int {
        self.nx * self.ny
    }

    /// Column of the chunk holding a point with abscissa `x`.
    pub open spec fn chunk_col(self, x: int) -> int {
        (x - self.xmin) / (self.size as int)
    }

    /// Row of the chunk holding a point with ordinate `y`.
    pub open spec fn chunk_row(self, y: int) -> int {
        (y - self.ymin) / (self.size as int)
    }

    /// Row-major index of the chunk holding point (x, y).
    pub open spec fn chunk_id(self, x: int, y: int) -> int {
        self.chunk_col(x) + self.nx * self.chunk_row(y)
    }

    /// Whether chunk `c` covers point (x, y): the chunk owns the half-open
    /// square of side `size` at its column and row.
    pub open spec fn chunk_covers(self, c: int, x: int, y: int) -> bool {
        let col = c % (self.nx as int);
        let row = c / (self.nx as int);
        &&& self.xmin + col * self.size <= x < self.xmin + (col + 1) * self.size
        &&& self.ymin + row * self.size <= y < self.ymin + (row + 1) * self.size
    }

    /// Lays the grid over a bounding region. The column and row counts are
    /// chosen so that the far edges of the region still fall inside the grid.
    pub fn new(xmin: i64, xmax: i64, ymin: i64, ymax: i64, size: i64) -> (grid: ChunkGrid)
        requires
            1 <= size <= 0x1_0000_0000,
            -COORD_LIMIT <= xmin <= xmax <= COORD_LIMIT,
            -COORD_LIMIT <= ymin <= ymax <= COORD_LIMIT,
        ensures
            grid.wf(),
            grid.xmin == xmin && grid.xmax == xmax && grid.ymin == ymin && grid.ymax == ymax
                && grid.size == size,
    {
        let xspan = (xmax - xmin) as u64;
        let yspan = (ymax - ymin) as u64;
        let nx = xspan / (size as u64) + 1;
        let ny = yspan / (size as u64) + 1;
        ChunkGrid { xmin, xmax, ymin, ymax, size, nx, ny }
    }

    /// The number of chunks of the grid.
    pub fn chunk_count(&self) -> (n: u64)
        requires
            self.wf(),
        ensures
            n == self.nchunks(),
    {
        proof {
            self.lemma_counts_bounded();
            assert((self.nx as int) * (self.ny as int) <= 0x8000_0001 * 0x8000_0001)
                by (nonlinear_arith)
                requires
                    0 <= self.nx <= 0x8000_0001,
                    0 <= self.ny <= 0x8000_0001,
            ;
        }
        self.nx * self.ny
    }

    proof fn lemma_counts_bounded(self)
        requires
            self.wf(),
        ensures
            1 <= self.nx <= 0x8000_0001,
            1 <= self.ny <= 0x8000_0001,
    {
        lemma_div_is_ordered(0, self.xmax - self.xmin, self.size as int);
        lemma_div_is_ordered(0, self.ymax - self.ymin, self.size as int);
        lemma_div_nonincreasing(self.xmax - self.xmin, self.size as int);
        lemma_div_nonincreasing(self.ymax - self.ymin, self.size as int);
    }

    /// The chunk holding point (x, y); every point of the bounding region
    /// maps to exactly one chunk index, always below `nchunks`.
    pub fn chunk_of(&self, x: i64, y: i64) -> (c: u64)
        requires
            self.wf(),
            self.xmin <= x <= self.xmax,
            self.ymin <= y <= self.ymax,
        ensures
            c == self.chunk_id(x as int, y as int),
            0 <= c < self.nchunks(),
    {
        proof {
            self.lemma_counts_bounded();
            lemma_div_is_ordered(x - self.xmin, self.xmax - self.xmin, self.size as int);
            lemma_div_is_ordered(0, x - self.xmin, self.size as int);
            lemma_div_is_ordered(y - self.ymin, self.ymax - self.ymin, self.size as int);
            lemma_div_is_ordered(0, y - self.ymin, self.size as int);
        }
        let col = ((x - self.xmin) as u64) / (self.size as u64);
        let row = ((y - self.ymin) as u64) / (self.size as u64);
        proof {
            assert((self.nx as int) * (row as int) + (col as int) < (self.nx as int) * (self.ny as int))
                by (nonlinear_arith)
                requires
                    0 <= col < self.nx,
                    0 <= row < self.ny,
                    0 < self.nx,
            ;
            assert((self.nx as int) * (self.ny as int) <= 0x8000_0001 * 0x8000_0001)
                by (nonlinear_arith)
                requires
                    0 <= self.nx <= 0x8000_0001,
                    0 <= self.ny <= 0x8000_0001,
            ;
        }
        col + self.nx * row
    }

    /// For any point of the bounding region, the computed chunk index is
    /// a valid one.
    pub proof fn lemma_chunk_id_in_range(self, x: int, y: int)
        requires
            self.wf(),
            self.xmin <= x <= self.xmax,
            self.ymin <= y <= self.ymax,
        ensures
            0 <= self.chunk_id(x, y) < self.nchunks(),
    {
        let s = self.size as int;
        self.lemma_counts_bounded();
        lemma_div_is_ordered(x - self.xmin, self.xmax - self.xmin, s);
        lemma_div_is_ordered(0, x - self.xmin, s);
        lemma_div_is_ordered(y - self.ymin, self.ymax - self.ymin, s);
        lemma_div_is_ordered(0, y - self.ymin, s);
        let col = self.chunk_col(x);
        let row = self.chunk_row(y);
        assert((self.nx as int) * row + col < (self.nx as int) * (self.ny as int))
            by (nonlinear_arith)
            requires
                0 <= col < self.nx,
                0 <= row < self.ny,
                0 < self.nx,
        ;
        assert((self.nx as int) * row >= 0) by (nonlinear_arith)
            requires
                0 <= row,
                0 <= self.nx,
        ;
    }

    /// Chunks tile the bounding region: a point of the region lies in chunk
    /// `c`'s square exactly when `c` is the index `chunk_id` computes, so
    /// every point belongs to one and only one chunk.
    pub proof fn lemma_chunk_partition(self, x: int, y: int, c: int)
        requires
            self.wf(),
            self.xmin <= x <= self.xmax,
            self.ymin <= y <= self.ymax,
            0 <= c < self.nchunks(),
        ensures
            self.chunk_covers(c, x, y) <==> c == self.chunk_id(x, y),
    {
        let s = self.size as int;
        let nx = self.nx as int;
        let ny = self.ny as int;
        self.lemma_counts_bounded();
        lemma_div_is_ordered(x - self.xmin, self.xmax - self.xmin, s);
        lemma_div_is_ordered(0, x - self.xmin, s);
        lemma_div_is_ordered(y - self.ymin, self.ymax - self.ymin, s);
        lemma_div_is_ordered(0, y - self.ymin, s);
        let col = self.chunk_col(x);
        let row = self.chunk_row(y);
        lemma_fundamental_div_mod(x - self.xmin, s);
        lemma_fundamental_div_mod(y - self.ymin, s);
        lemma_mod_bound(x - self.xmin, s);
        lemma_mod_bound(y - self.ymin, s);
        assert((col + 1) * s == col * s + s && s * col == col * s && (row + 1) * s == row * s + s
            && s * row == row * s) by (nonlinear_arith);
        if c == self.chunk_id(x, y) {
            // The computed chunk covers the point.
            assert(c == row * nx + col) by (nonlinear_arith)
                requires
                    c == col + nx * row,
            ;
            lemma_fundamental_div_mod_converse(c, nx, row, col);
        } else {
            if self.chunk_covers(c, x, y) {
                // A covering chunk must agree with the division.
                let ccol = c % nx;
                let crow = c / nx;
                assert(ccol * s == s * ccol && (ccol + 1) * s == ccol * s + s && crow * s == s
                    * crow && (crow + 1) * s == crow * s + s) by (nonlinear_arith);
                assert(x - self.xmin == ccol * s + (x - self.xmin - s * ccol));
                lemma_fundamental_div_mod_converse(
                    x - self.xmin,
                    s,
                    ccol,
                    x - self.xmin - s * ccol,
                );
                lemma_fundamental_div_mod_converse(
                    y - self.ymin,
                    s,
                    crow,
                    y - self.ymin - s * crow,
                );
                lemma_fundamental_div_mod(c, nx);
                assert(nx * crow == crow * nx) by (nonlinear_arith);
                assert(false);
            }
        }
    }
}

/// Sorts the transcripts into the chunks of a grid: `members[c]` lists, in
/// order, exactly the transcripts whose position falls in chunk `c`. With
/// `chunk_id` a function of the position, every transcript appears in one
/// and only one list: the chunks partition the catalog.
pub fn chunk_members(grid: &ChunkGrid, transcripts: &Vec<crate::transcripts::Transcript>) -> (
    members: Vec<Vec<usize>>)
    requires
        grid.wf(),
        grid.nchunks() <= 0xffff_ffff,
        forall|i: int|
            0 <= i < transcripts@.len() ==> grid.xmin <= (#[trigger] transcripts@[i]).x
                <= grid.xmax && grid.ymin <= transcripts@[i].y <= grid.ymax,
    ensures
        members@.len() == grid.nchunks(),
        forall|c: int, k: int|
            0 <= c < members@.len() && 0 <= k < members@[c]@.len() ==> (#[trigger] members@[c]@[k])
                < transcripts@.len() && grid.chunk_id(
                transcripts@[members@[c]@[k] as int].x as int,
                transcripts@[members@[c]@[k] as int].y as int,
            ) == c,
        forall|t: int|
            0 <= t < transcripts@.len() ==> crate::graph::member(
                #[trigger] members@[grid.chunk_id(
                    transcripts@[t].x as int,
                    transcripts@[t].y as int,
                )]@,
                t,
            ),
        forall|c: int, k1: int, k2: int|
            0 <= c < members@.len() && 0 <= k1 < k2 < members@[c]@.len() ==> members@[c]@[k1]
                < members@[c]@[k2],
{
    let ghost ts = transcripts@;
    let nchunks = grid.chunk_count() as usize;
    let mut members: Vec<Vec<usize>> = Vec::new();
    let mut c: usize = 0;
    while c < nchunks
        invariant
            0 <= c <= nchunks,
            members@.len() == c,
            forall|a: int| 0 <= a < c ==> (#[trigger] members@[a]@).len() == 0,
        decreases nchunks - c,
    {
        members.push(Vec::new());
        c = c + 1;
    }

    let n = transcripts.len();
    let mut t: usize = 0;
    while t < n
        invariant
            n == ts.len(),
            ts == transcripts@,
            grid.wf(),
            grid.nchunks() == nchunks,
            nchunks <= 0xffff_ffff,
            forall|i: int|
                0 <= i < n ==> grid.xmin <= (#[trigger] ts[i]).x <= grid.xmax && grid.ymin
                    <= ts[i].y <= grid.ymax,
            0 <= t <= n,
            members@.len() == nchunks,
            forall|a: int, k: int|
                0 <= a < nchunks && 0 <= k < members@[a]@.len() ==> (#[trigger] members@[a]@[k]) < t
                    && grid.chunk_id(
                    ts[members@[a]@[k] as int].x as int,
                    ts[members@[a]@[k] as int].y as int,
                ) == a,
            forall|u: int|
                0 <= u < t ==> crate::graph::member(
                    #[trigger] members@[grid.chunk_id(ts[u].x as int, ts[u].y as int)]@,
                    u,
                ),
            forall|a: int, k1: int, k2: int|
                0 <= a < nchunks && 0 <= k1 < k2 < members@[a]@.len() ==> members@[a]@[k1]
                    < members@[a]@[k2],
        decreases n - t,
    {
        let tx = transcripts[t].x;
        let ty = transcripts[t].y;
        let home = grid.chunk_of(tx, ty) as usize;
        let ghost before = members@[home as int]@;
        let list = vstd::std_specs::vec::vec_index_mut(&mut members, home);
        list.push(t);
        proof {
            crate::graph::lemma_member_push(before, t, t as int);
            assert forall|u: int|
                0 <= u < t + 1 implies crate::graph::member(
                #[trigger] members@[grid.chunk_id(ts[u].x as int, ts[u].y as int)]@,
                u,
            ) by {
                grid.lemma_chunk_id_in_range(ts[u].x as int, ts[u].y as int);
                let hu = grid.chunk_id(ts[u].x as int, ts[u].y as int);
                if u < t {
                    if hu == home {
                        crate::graph::lemma_member_push(before, t, u);
                    }
                }
            }
        }
        t = t + 1;
    }
    members
}

} // verus!
