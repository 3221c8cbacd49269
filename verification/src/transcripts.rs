use vstd::prelude::*;

verus! {

/// A cell is identified by a dense index; `BACKGROUND_CELL` is the reserved
/// sentinel for a transcript that no cell owns.
pub type CellIndex = u32;

pub const BACKGROUND_CELL: u32 = 0xffff_ffff;

/// One detected molecule: fixed-point spatial coordinates and a dense gene id.
/// Coordinates are integers in a fixed sub-micron unit chosen at ingestion.
#[derive(Clone, Copy, PartialEq, Eq, Structural)]
pub struct Transcript {
    pub x: i64,
    pub y: i64,
    pub z: i64,
    pub gene: u32,
}

/// Number of entries of `s` that are assigned to cell `c`.
pub open spec fn count_assigned(s: Seq<u32>, c: int) -> nat
    decreases s.len(),
{
    if s.len() == 0 {
        0
    } else {
        count_assigned(s.drop_last(), c) + if s.last() as int == c { 1nat } else { 0nat }
    }
}

/// Number of entries of `s` equal to the background sentinel.
pub open spec fn count_background(s: Seq<u32>) -> nat {
    count_assigned(s, BACKGROUND_CELL as int)
}

/// Number of entries of `s` assigned to some (non-background) cell.
pub open spec fn count_foreground(s: Seq<u32>) -> nat
    decreases s.len(),
{
    if s.len() == 0 {
        0
    } else {
        count_foreground(s.drop_last()) + if s.last() != BACKGROUND_CELL { 1nat } else { 0nat }
    }
}

/// The number of cells implied by an assignment vector: one more than the
/// largest assigned cell index, or zero when every entry is background.
pub open spec fn ncells_of(s: Seq<u32>) -> int
    decreases s.len(),
{
    if s.len() == 0 {
        0
    } else {
        let rest = ncells_of(s.drop_last());
        if s.last() != BACKGROUND_CELL && s.last() + 1 > rest {
            s.last() + 1
        } else {
            rest
        }
    }
}

pub proof fn lemma_count_assigned_le_len(s: Seq<u32>, c: int)
    ensures
        count_assigned(s, c) <= s.len(),
    decreases s.len(),
{
    if s.len() > 0 {
        lemma_count_assigned_le_len(s.drop_last(), c);
    }
}

proof fn lemma_ncells_of_drop_last(s: Seq<u32>)
    requires
        s.len() > 0,
    ensures
        ncells_of(s.drop_last()) <= ncells_of(s),
{
}

/// Every assigned entry lies below the implied cell count.
pub proof fn lemma_assigned_below_ncells(s: Seq<u32>, i: int)
    requires
        0 <= i < s.len(),
        s[i] != BACKGROUND_CELL,
    ensures
        s[i] + 1 <= ncells_of(s),
    decreases s.len(),
{
    if i == s.len() - 1 {
    } else {
        lemma_assigned_below_ncells(s.drop_last(), i);
        lemma_ncells_of_drop_last(s);
    }
}

/// Conservation of transcripts: however an assignment vector is written,
/// its background entries and its cell-owned entries together account for
/// every transcript exactly once.
pub proof fn lemma_conservation(s: Seq<u32>)
    ensures
        count_foreground(s) + count_background(s) == s.len(),
    decreases s.len(),
{
    if s.len() > 0 {
        lemma_conservation(s.drop_last());
    }
}

pub proof fn lemma_count_assigned_take_step(s: Seq<u32>, i: int, c: int)
    requires
        0 <= i < s.len(),
    ensures
        count_assigned(s.take(i + 1), c) == count_assigned(s.take(i), c) + if s[i] as int == c {
            1nat
        } else {
            0nat
        },
{
    assert(s.take(i + 1).drop_last() =~= s.take(i));
    assert(s.take(i + 1).last() == s[i]);
}

proof fn lemma_ncells_of_take_step(s: Seq<u32>, i: int)
    requires
        0 <= i < s.len(),
    ensures
        ncells_of(s.take(i + 1)) == if s[i] != BACKGROUND_CELL && s[i] + 1 > ncells_of(s.take(i)) {
            s[i] + 1
        } else {
            ncells_of(s.take(i))
        },
{
    assert(s.take(i + 1).drop_last() =~= s.take(i));
    assert(s.take(i + 1).last() == s[i]);
}

/// From an initial assignment vector, derives the number of cells (one more
/// than the largest assigned index, or zero when everything is background)
/// and tallies how many transcripts each cell owns.
pub fn postprocess_cell_assignments(cell_assignments: &Vec<CellIndex>) -> (cell_population: Vec<
    usize,
>)
    requires
        cell_assignments@.len() <= u32::MAX,
    ensures
        cell_population@.len() == ncells_of(cell_assignments@),
        forall|c: int|
            0 <= c < cell_population@.len() ==> cell_population@[c] == count_assigned(
                cell_assignments@,
                c,
            ),
{
    let n = cell_assignments.len();
    let mut ncells: usize = 0;
    let mut i: usize = 0;
    while i < n
        invariant
            n == cell_assignments@.len(),
            n <= u32::MAX,
            0 <= i <= n,
            ncells == ncells_of(cell_assignments@.take(i as int)),
            ncells <= u32::MAX,
        decreases n - i,
    {
        let cell_id = cell_assignments[i];
        proof {
            lemma_ncells_of_take_step(cell_assignments@, i as int);
        }
        if cell_id != BACKGROUND_CELL && cell_id as usize >= ncells {
            ncells = cell_id as usize + 1;
        }
        i = i + 1;
    }
    proof {
        assert(cell_assignments@.take(n as int) =~= cell_assignments@);
    }

    let mut cell_population: Vec<usize> = Vec::new();
    let mut c: usize = 0;
    while c < ncells
        invariant
            0 <= c <= ncells,
            cell_population@.len() == c,
            forall|k: int| 0 <= k < c ==> cell_population@[k] == 0,
        decreases ncells - c,
    {
        cell_population.push(0);
        c = c + 1;
    }

    let mut i: usize = 0;
    while i < n
        invariant
            n == cell_assignments@.len(),
            n <= u32::MAX,
            0 <= i <= n,
            ncells == ncells_of(cell_assignments@),
            ncells <= u32::MAX,
            cell_population@.len() == ncells,
            forall|k: int|
                0 <= k < ncells ==> cell_population@[k] == count_assigned(
                    cell_assignments@.take(i as int),
                    k,
                ),
        decreases n - i,
    {
        let cell_id = cell_assignments[i];
        proof {
            lemma_count_assigned_take_step(cell_assignments@, i as int, cell_id as int);
            if cell_id != BACKGROUND_CELL {
                lemma_assigned_below_ncells(cell_assignments@, i as int);
                lemma_count_assigned_le_len(cell_assignments@.take(i as int), cell_id as int);
                lemma_count_assigned_le_len(cell_assignments@, cell_id as int);
            }
        }
        if cell_id != BACKGROUND_CELL {
            let idx = cell_id as usize;
            let prev = cell_population[idx];
            cell_population.set(idx, prev + 1);
        }
        proof {
            assert forall|k: int| 0 <= k < ncells implies cell_population@[k] == count_assigned(
                cell_assignments@.take(i as int + 1),
                k,
            ) by {
                lemma_count_assigned_take_step(cell_assignments@, i as int, k);
            }
        }
        i = i + 1;
    }
    proof {
        assert(cell_assignments@.take(n as int) =~= cell_assignments@);
    }
    cell_population
}

/// Whether a transcript's coordinates lie inside the given per-axis bounds
/// (min x, max x, min y, max y, min z, max z).
pub open spec fn in_span(t: Transcript, span: (i64, i64, i64, i64, i64, i64)) -> bool {
    span.0 <= t.x <= span.1 && span.2 <= t.y <= span.3 && span.4 <= t.z <= span.5
}

/// Smallest and largest coordinate on each axis over all transcripts.
/// An empty catalog yields the empty interval (i64::MAX, i64::MIN) per axis,
/// so that folding any further point into it behaves as expected.
pub fn coordinate_span(transcripts: &Vec<Transcript>) -> (span: (i64, i64, i64, i64, i64, i64))
    ensures
        forall|i: int| 0 <= i < transcripts@.len() ==> in_span(#[trigger] transcripts@[i], span),
        transcripts@.len() > 0 ==> (exists|i: int|
            0 <= i < transcripts@.len() && (#[trigger] transcripts@[i]).x == span.0) && (exists|
            i: int,
        |
            0 <= i < transcripts@.len() && (#[trigger] transcripts@[i]).x == span.1) && (exists|
            i: int,
        |
            0 <= i < transcripts@.len() && (#[trigger] transcripts@[i]).y == span.2) && (exists|
            i: int,
        |
            0 <= i < transcripts@.len() && (#[trigger] transcripts@[i]).y == span.3) && (exists|
            i: int,
        |
            0 <= i < transcripts@.len() && (#[trigger] transcripts@[i]).z == span.4) && (exists|
            i: int,
        |
            0 <= i < transcripts@.len() && (#[trigger] transcripts@[i]).z == span.5),
        transcripts@.len() == 0 ==> span == (
            i64::MAX,
            i64::MIN,
            i64::MAX,
            i64::MIN,
            i64::MAX,
            i64::MIN,
        ),
{
    let mut min_x: i64 = i64::MAX;
    let mut max_x: i64 = i64::MIN;
    let mut min_y: i64 = i64::MAX;
    let mut max_y: i64 = i64::MIN;
    let mut min_z: i64 = i64::MAX;
    let mut max_z: i64 = i64::MIN;

    let n = transcripts.len();
    let mut i: usize = 0;
    while i < n
        invariant
            n == transcripts@.len(),
            0 <= i <= n,
            forall|k: int|
                0 <= k < i ==> in_span(
                    #[trigger] transcripts@[k],
                    (min_x, max_x, min_y, max_y, min_z, max_z),
                ),
            i > 0 ==> (exists|k: int|
                0 <= k < i && (#[trigger] transcripts@[k]).x == min_x) && (exists|k: int|
                0 <= k < i && (#[trigger] transcripts@[k]).x == max_x) && (exists|k: int|
                0 <= k < i && (#[trigger] transcripts@[k]).y == min_y) && (exists|k: int|
                0 <= k < i && (#[trigger] transcripts@[k]).y == max_y) && (exists|k: int|
                0 <= k < i && (#[trigger] transcripts@[k]).z == min_z) && (exists|k: int|
                0 <= k < i && (#[trigger] transcripts@[k]).z == max_z),
            i == 0 ==> min_x == i64::MAX && max_x == i64::MIN && min_y == i64::MAX && max_y
                == i64::MIN && min_z == i64::MAX && max_z == i64::MIN,
        decreases n - i,
    {
        let t = transcripts[i];
        if t.x < min_x {
            min_x = t.x;
        }
        if t.x > max_x {
            max_x = t.x;
        }
        if t.y < min_y {
            min_y = t.y;
        }
        if t.y > max_y {
            max_y = t.y;
        }
        if t.z < min_z {
            min_z = t.z;
        }
        if t.z > max_z {
            max_z = t.z;
        }
        i = i + 1;
    }
    (min_x, max_x, min_y, max_y, min_z, max_z)
}

} // verus!
