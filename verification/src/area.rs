use vstd::prelude::*;
use vstd::arithmetic::div_mod::{lemma_div_is_ordered, lemma_div_nonincreasing};
use crate::chunks::COORD_LIMIT;
use crate::transcripts::Transcript;

verus! {

/// A dense 2D boolean grid recording which spatial bins hold at least one
/// transcript. The storage is an ndarray matrix; what it holds is named by
/// `grid_cells` and `grid_dims`, and the wrappers below state what each
/// operation does to them.
#[verifier::external_body]
pub struct OccupancyGrid {
    grid: ndarray::Array2<bool>,
}

/// What the grid holds: one boolean per in-range bin index pair.
pub uninterp spec fn grid_cells(g: OccupancyGrid) -> Map<(int, int), bool>;

/// The row and column counts the grid was created with.
pub uninterp spec fn grid_dims(g: OccupancyGrid) -> (int, int);

/// Number of occupied cells among the first `idx` bins in row-major order.
pub open spec fn count_occupied_upto(m: Map<(int, int), bool>, ny: int, idx: nat) -> nat
    decreases idx,
{
    if idx == 0 {
        0
    } else {
        count_occupied_upto(m, ny, (idx - 1) as nat) + if m[((idx - 1) / ny, (idx - 1) as int % ny)] {
            1nat
        } else {
            0nat
        }
    }
}

/// Number of occupied bins of an nx-by-ny grid.
pub open spec fn count_occupied(m: Map<(int, int), bool>, nx: int, ny: int) -> nat {
    count_occupied_upto(m, ny, (nx * ny) as nat)
}

/// Relies on ndarray::Array2::from_elem: a fresh nx-by-ny matrix holds the
/// given element — here `false` — at every position.
#[verifier::external_body]
fn grid_new(nx: usize, ny: usize) -> (g: OccupancyGrid)
    ensures
        grid_dims(g) == (nx as int, ny as int),
        grid_cells(g).dom() == Set::<(int, int)>::new(
            |p: (int, int)| 0 <= p.0 < nx && 0 <= p.1 < ny,
        ),
        forall|p: (int, int)| 0 <= p.0 < nx && 0 <= p.1 < ny ==> !(#[trigger] grid_cells(g)[p]),
{
    OccupancyGrid { grid: ndarray::Array2::from_elem((nx, ny), false) }
}

/// Relies on ndarray's IndexMut for Array2: assigning one element changes
/// that element and no other.
#[verifier::external_body]
fn grid_mark(g: &mut OccupancyGrid, i: usize, j: usize)
    requires
        0 <= i < grid_dims(*old(g)).0,
        0 <= j < grid_dims(*old(g)).1,
    ensures
        grid_dims(*final(g)) == grid_dims(*old(g)),
        grid_cells(*final(g)) == grid_cells(*old(g)).insert((i as int, j as int), true),
{
    g.grid[[i, j]] = true;
}

/// Relies on ndarray::ArrayBase::iter: it visits every element exactly
/// once, so the filtered count is the number of occupied bins.
#[verifier::external_body]
fn grid_count_occupied(g: &OccupancyGrid) -> (count: u64)
    requires
        0 <= grid_dims(*g).0 * grid_dims(*g).1 <= 0xffff_ffff_ffff_ffff,
    ensures
        count == count_occupied(grid_cells(*g), grid_dims(*g).0, grid_dims(*g).1),
        count <= grid_dims(*g).0 * grid_dims(*g).1,
{
    g.grid.iter().filter(|occupied| **occupied) .count() as u64
}

/// The bin a transcript falls in, for a given origin and bin size.
pub open spec fn bin_of(t: Transcript, xmin: int, ymin: int, binsize: int) -> (int, int) {
    ((t.x - xmin) / binsize, (t.y - ymin) / binsize)
}

/// The occupancy implied by a transcript list: an nx-by-ny map that is
/// true exactly at the bins some transcript falls in.
pub open spec fn occupied_bins(
    ts: Seq<Transcript>,
    xmin: int,
    ymin: int,
    binsize: int,
    nx: int,
    ny: int,
) -> Map<(int, int), bool> {
    Map::new(
        |p: (int, int)| 0 <= p.0 < nx && 0 <= p.1 < ny,
        |p: (int, int)|
            exists|t: int| #![auto] 0 <= t < ts.len() && bin_of(ts[t], xmin, ymin, binsize) == p,
    )
}

/// Estimates the modeled region's area by overlaying a square binning of
/// the bounding box and counting the bins that hold at least one
/// transcript: the estimate is the occupied-bin count times the bin area,
/// so unoccupied margins of the bounding box are not counted.
pub fn estimate_full_area(
    transcripts: &Vec<Transcript>,
    binsize: i64,
    xmin: i64,
    xmax: i64,
    ymin: i64,
    ymax: i64,
) -> (area: u128)
    requires
        1 <= binsize <= 0x1_0000_0000,
        -COORD_LIMIT <= xmin <= xmax <= COORD_LIMIT,
        -COORD_LIMIT <= ymin <= ymax <= COORD_LIMIT,
        forall|i: int|
            0 <= i < transcripts@.len() ==> xmin <= (#[trigger] transcripts@[i]).x <= xmax && ymin
                <= transcripts@[i].y <= ymax,
    ensures
        ({
            let nx = (xmax - xmin) / (binsize as int) + 1;
            let ny = (ymax - ymin) / (binsize as int) + 1;
            area == binsize * binsize * count_occupied(
                occupied_bins(transcripts@, xmin as int, ymin as int, binsize as int, nx, ny),
                nx,
                ny,
            )
        }),
{
    let ghost ts = transcripts@;
    let nx = ((xmax - xmin) as u64 / (binsize as u64) + 1) as usize;
    let ny = ((ymax - ymin) as u64 / (binsize as u64) + 1) as usize;
    proof {
        lemma_div_is_ordered(0, xmax - xmin, binsize as int);
        lemma_div_is_ordered(0, ymax - ymin, binsize as int);
        lemma_div_nonincreasing(xmax - xmin, binsize as int);
        lemma_div_nonincreasing(ymax - ymin, binsize as int);
        assert((nx as int) * (ny as int) <= 0x8000_0001 * 0x8000_0001) by (nonlinear_arith)
            requires
                0 <= nx <= 0x8000_0001,
                0 <= ny <= 0x8000_0001,
        ;
    }
    let mut grid = grid_new(nx, ny);
    let n = transcripts.len();
    let mut k: usize = 0;
    while k < n
        invariant
            n == ts.len(),
            ts == transcripts@,
            1 <= binsize <= 0x1_0000_0000,
            -COORD_LIMIT <= xmin <= xmax <= COORD_LIMIT,
            -COORD_LIMIT <= ymin <= ymax <= COORD_LIMIT,
            forall|i: int|
                0 <= i < ts.len() ==> xmin <= (#[trigger] ts[i]).x <= xmax && ymin <= ts[i].y
                    <= ymax,
            nx == (xmax - xmin) / (binsize as int) + 1,
            ny == (ymax - ymin) / (binsize as int) + 1,
            0 <= k <= n,
            grid_dims(grid) == (nx as int, ny as int),
            grid_cells(grid) =~= occupied_bins(
                ts.take(k as int),
                xmin as int,
                ymin as int,
                binsize as int,
                nx as int,
                ny as int,
            ),
        decreases n - k,
    {
        let t = transcripts[k];
        proof {
            lemma_div_is_ordered(0, t.x - xmin, binsize as int);
            lemma_div_is_ordered(t.x - xmin, xmax - xmin, binsize as int);
            lemma_div_is_ordered(0, t.y - ymin, binsize as int);
            lemma_div_is_ordered(t.y - ymin, ymax - ymin, binsize as int);
        }
        let bx = ((t.x - xmin) as u64 / (binsize as u64)) as usize;
        let by = ((t.y - ymin) as u64 / (binsize as u64)) as usize;
        let ghost before = grid_cells(grid);
        grid_mark(&mut grid, bx, by);
        proof {
            let kk = k as int;
            let bp = (bx as int, by as int);
            let target = occupied_bins(
                ts.take(kk + 1),
                xmin as int,
                ymin as int,
                binsize as int,
                nx as int,
                ny as int,
            );
            assert(ts.take(kk + 1)[kk] == ts[kk]);
            assert(bin_of(ts[kk], xmin as int, ymin as int, binsize as int) == bp);
            assert forall|p: (int, int)| #![auto] target.dom().contains(p) implies grid_cells(
                grid,
            )[p] == target[p] by {
                if p == bp {
                    assert(bin_of(
                        ts.take(kk + 1)[kk],
                        xmin as int,
                        ymin as int,
                        binsize as int,
                    ) == p);
                    assert(target[p]);
                    assert(grid_cells(grid)[p]);
                } else {
                    assert(grid_cells(grid)[p] == before[p]);
                    if target[p] {
                        let w = choose|t: int|
                            0 <= t < kk + 1 && (#[trigger] bin_of(
                                ts.take(kk + 1)[t],
                                xmin as int,
                                ymin as int,
                                binsize as int,
                            )) == p;
                        assert(ts.take(kk + 1)[w] == ts[w]);
                        assert(w != kk);
                        assert(ts.take(kk)[w] == ts[w]);
                        assert((#[trigger] bin_of(
                            ts.take(kk)[w],
                            xmin as int,
                            ymin as int,
                            binsize as int,
                        )) == p);
                        assert(before[p]);
                    }
                    if before[p] {
                        let w = choose|t: int|
                            0 <= t < kk && (#[trigger] bin_of(
                                ts.take(kk)[t],
                                xmin as int,
                                ymin as int,
                                binsize as int,
                            )) == p;
                        assert(ts.take(kk)[w] == ts[w]);
                        assert(ts.take(kk + 1)[w] == ts[w]);
                        assert((#[trigger] bin_of(
                            ts.take(kk + 1)[w],
                            xmin as int,
                            ymin as int,
                            binsize as int,
                        )) == p);
                        assert(target[p]);
                    }
                }
            }
            assert(grid_cells(grid) =~= target);
        }
        k = k + 1;
    }
    proof {
        assert(ts.take(n as int) =~= ts);
    }
    let occupied = grid_count_occupied(&grid);
    proof {
        assert((binsize as int) * (binsize as int) <= 0x1_0000_0000 * 0x1_0000_0000)
            by (nonlinear_arith)
            requires
                1 <= binsize <= 0x1_0000_0000,
        ;
        assert((binsize as int) * (binsize as int) * (occupied as int) <= 0x1_0000_0000
            * 0x1_0000_0000 * 0xffff_ffff_ffff_ffff) by (nonlinear_arith)
            requires
                0 <= (binsize as int) * (binsize as int) <= 0x1_0000_0000 * 0x1_0000_0000,
                0 <= occupied <= 0xffff_ffff_ffff_ffff,
        ;
    }
    (binsize as u128) * (binsize as u128) * (occupied as u128)
}

} // verus!
