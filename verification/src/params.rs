use vstd::prelude::*;
use vstd::std_specs::vec::vec_index_mut;
use crate::transcripts::{
    Transcript, BACKGROUND_CELL, count_assigned, count_background, count_foreground,
    lemma_conservation, lemma_count_assigned_le_len, lemma_count_assigned_take_step,
};

verus! {

/// Number of transcripts of gene `g` currently assigned to cell `c`:
/// the sufficient statistic the expression model works from.
pub open spec fn count_gene(assign: Seq<u32>, ts: Seq<Transcript>, c: int, g: int) -> nat
    decreases assign.len(),
{
    if assign.len() == 0 {
        0
    } else {
        count_gene(assign.drop_last(), ts, c, g) + if assign.last() as int == c && ts[assign.len()
            - 1].gene as int == g {
            1nat
        } else {
            0nat
        }
    }
}

/// Total local-area contribution of the transcripts assigned to cell `c`.
pub open spec fn sum_area(assign: Seq<u32>, areas: Seq<u64>, c: int) -> nat
    decreases assign.len(),
{
    if assign.len() == 0 {
        0
    } else {
        sum_area(assign.drop_last(), areas, c) + if assign.last() as int == c {
            areas[assign.len() - 1] as nat
        } else {
            0nat
        }
    }
}

/// Changing one assignment changes each per-cell gene count by the moved
/// transcript's contribution and nothing else.
pub proof fn lemma_count_gene_update(
    assign: Seq<u32>,
    ts: Seq<Transcript>,
    t: int,
    v: u32,
    c: int,
    g: int,
)
    requires
        0 <= t < assign.len(),
    ensures
        count_gene(assign.update(t, v), ts, c, g) + (if assign[t] as int == c && ts[t].gene as int
            == g {
            1nat
        } else {
            0nat
        }) == count_gene(assign, ts, c, g) + (if v as int == c && ts[t].gene as int == g {
            1nat
        } else {
            0nat
        }),
    decreases assign.len(),
{
    let s2 = assign.update(t, v);
    if t == assign.len() - 1 {
        assert(s2.drop_last() =~= assign.drop_last());
    } else {
        assert(s2.drop_last() =~= assign.drop_last().update(t, v));
        lemma_count_gene_update(assign.drop_last(), ts, t, v, c, g);
    }
}

/// Changing one assignment changes each cell's population by at most the
/// moved transcript.
pub proof fn lemma_count_assigned_update(assign: Seq<u32>, t: int, v: u32, c: int)
    requires
        0 <= t < assign.len(),
    ensures
        count_assigned(assign.update(t, v), c) + (if assign[t] as int == c {
            1nat
        } else {
            0nat
        }) == count_assigned(assign, c) + (if v as int == c {
            1nat
        } else {
            0nat
        }),
    decreases assign.len(),
{
    let s2 = assign.update(t, v);
    if t == assign.len() - 1 {
        assert(s2.drop_last() =~= assign.drop_last());
    } else {
        assert(s2.drop_last() =~= assign.drop_last().update(t, v));
        lemma_count_assigned_update(assign.drop_last(), t, v, c);
    }
}

/// Changing one assignment shifts each cell's area by the moved
/// transcript's local-area contribution and nothing else.
pub proof fn lemma_sum_area_update(assign: Seq<u32>, areas: Seq<u64>, t: int, v: u32, c: int)
    requires
        0 <= t < assign.len(),
    ensures
        sum_area(assign.update(t, v), areas, c) + (if assign[t] as int == c {
            areas[t] as nat
        } else {
            0nat
        }) == sum_area(assign, areas, c) + (if v as int == c {
            areas[t] as nat
        } else {
            0nat
        }),
    decreases assign.len(),
{
    let s2 = assign.update(t, v);
    if t == assign.len() - 1 {
        assert(s2.drop_last() =~= assign.drop_last());
    } else {
        assert(s2.drop_last() =~= assign.drop_last().update(t, v));
        lemma_sum_area_update(assign.drop_last(), areas, t, v, c);
    }
}

pub proof fn lemma_count_gene_le_len(assign: Seq<u32>, ts: Seq<Transcript>, c: int, g: int)
    ensures
        count_gene(assign, ts, c, g) <= assign.len(),
    decreases assign.len(),
{
    if assign.len() > 0 {
        lemma_count_gene_le_len(assign.drop_last(), ts, c, g);
    }
}

pub proof fn lemma_sum_area_bounded(assign: Seq<u32>, areas: Seq<u64>, c: int)
    requires
        assign.len() <= areas.len(),
        forall|k: int| 0 <= k < areas.len() ==> #[trigger] areas[k] <= 0x1_0000_0000,
    ensures
        sum_area(assign, areas, c) <= assign.len() * 0x1_0000_0000,
    decreases assign.len(),
{
    if assign.len() > 0 {
        lemma_sum_area_bounded(assign.drop_last(), areas, c);
    }
}

proof fn lemma_count_gene_take_step(assign: Seq<u32>, ts: Seq<Transcript>, i: int, c: int, g: int)
    requires
        0 <= i < assign.len(),
    ensures
        count_gene(assign.take(i + 1), ts, c, g) == count_gene(assign.take(i), ts, c, g) + (if
        assign[i] as int == c && ts[i].gene as int == g {
            1nat
        } else {
            0nat
        }),
{
    assert(assign.take(i + 1).drop_last() =~= assign.take(i));
    assert(assign.take(i + 1).last() == assign[i]);
}

proof fn lemma_sum_area_take_step(assign: Seq<u32>, areas: Seq<u64>, i: int, c: int)
    requires
        0 <= i < assign.len(),
    ensures
        sum_area(assign.take(i + 1), areas, c) == sum_area(assign.take(i), areas, c) + (if assign[i]
            as int == c {
            areas[i] as nat
        } else {
            0nat
        }),
{
    assert(assign.take(i + 1).drop_last() =~= assign.take(i));
    assert(assign.take(i + 1).last() == assign[i]);
}

/// Sum of a cell's gene counts over the genes below `g`.
pub open spec fn sum_counts_over_genes(assign: Seq<u32>, ts: Seq<Transcript>, c: int, g: nat) -> nat
    decreases g,
{
    if g == 0 {
        0
    } else {
        sum_counts_over_genes(assign, ts, c, (g - 1) as nat) + count_gene(
            assign,
            ts,
            c,
            g - 1,
        )
    }
}

proof fn lemma_sum_counts_drop_last(assign: Seq<u32>, ts: Seq<Transcript>, c: int, g: nat)
    requires
        assign.len() > 0,
    ensures
        sum_counts_over_genes(assign, ts, c, g) == sum_counts_over_genes(
            assign.drop_last(),
            ts,
            c,
            g,
        ) + if assign.last() as int == c && ts[assign.len() - 1].gene < g {
            1nat
        } else {
            0nat
        },
    decreases g,
{
    if g > 0 {
        lemma_sum_counts_drop_last(assign, ts, c, (g - 1) as nat);
    }
}

/// A cell's population is the sum of its gene-count row: the derived
/// aggregates agree with each other, not only with the assignment vector.
pub proof fn lemma_count_assigned_is_gene_sum(
    assign: Seq<u32>,
    ts: Seq<Transcript>,
    c: int,
    g: nat,
)
    requires
        assign.len() <= ts.len(),
        forall|t: int| 0 <= t < ts.len() ==> (#[trigger] ts[t].gene) < g,
    ensures
        count_assigned(assign, c) == sum_counts_over_genes(assign, ts, c, g),
    decreases assign.len(),
{
    if assign.len() == 0 {
        lemma_sum_counts_empty(assign, ts, c, g);
    } else {
        lemma_count_assigned_is_gene_sum(assign.drop_last(), ts, c, g);
        lemma_sum_counts_drop_last(assign, ts, c, g);
    }
}

proof fn lemma_sum_counts_empty(assign: Seq<u32>, ts: Seq<Transcript>, c: int, g: nat)
    requires
        assign.len() == 0,
    ensures
        sum_counts_over_genes(assign, ts, c, g) == 0,
    decreases g,
{
    if g > 0 {
        lemma_sum_counts_empty(assign, ts, c, (g - 1) as nat);
    }
}

/// The mutable posterior state of the model: the transcript-to-cell
/// partition being inferred, with the per-cell sufficient statistics
/// (gene counts, population, area) kept exactly in sync with it, and the
/// per-cell mixture-component labels.
pub struct ModelParams {
    pub ncells: u32,
    pub ngenes: u32,
    pub ncomponents: u32,
    pub cell_assignments: Vec<u32>,
    pub counts: Vec<Vec<u32>>,
    pub cell_population: Vec<usize>,
    pub cell_area: Vec<u64>,
    pub z: Vec<u32>,
}

impl ModelParams {
    /// The invariant that every local move must preserve: the sufficient
    /// statistics equal the exact tallies implied by `cell_assignments`,
    /// every transcript is owned by one cell or by the background, the cell
    /// roster is fixed, and component labels are in range.
    pub open spec fn wf(self, ts: Seq<Transcript>, areas: Seq<u64>) -> bool {
        &&& self.cell_assignments@.len() == ts.len()
        &&& areas.len() == ts.len()
        &&& ts.len() <= 0xffff_ffff
        &&& self.ncells < BACKGROUND_CELL
        &&& self.ncomponents >= 1
        &&& forall|t: int|
            0 <= t < ts.len() ==> (#[trigger] self.cell_assignments@[t] == BACKGROUND_CELL
                || self.cell_assignments@[t] < self.ncells)
        &&& forall|t: int| 0 <= t < ts.len() ==> (#[trigger] ts[t].gene) < self.ngenes
        &&& forall|t: int| 0 <= t < areas.len() ==> (#[trigger] areas[t]) <= 0x1_0000_0000
        &&& self.counts@.len() == self.ncells
        &&& forall|c: int|
            0 <= c < self.ncells ==> (#[trigger] self.counts@[c]@.len()) == self.ngenes
        &&& forall|c: int, g: int|
            0 <= c < self.ncells && 0 <= g < self.ngenes ==> (#[trigger] self.counts@[c]@[g])
                == count_gene(self.cell_assignments@, ts, c, g)
        &&& self.cell_population@.len() == self.ncells
        &&& forall|c: int|
            0 <= c < self.ncells ==> (#[trigger] self.cell_population@[c]) == count_assigned(
                self.cell_assignments@,
                c,
            )
        &&& self.cell_area@.len() == self.ncells
        &&& forall|c: int|
            0 <= c < self.ncells ==> (#[trigger] self.cell_area@[c]) == sum_area(
                self.cell_assignments@,
                areas,
                c,
            )
        &&& self.z@.len() == self.ncells
        &&& forall|c: int| 0 <= c < self.ncells ==> (#[trigger] self.z@[c]) < self.ncomponents
    }

    /// Builds the initial model state from the catalog and the initial
    /// assignments: tallies the per-cell gene counts, populations and areas
    /// so that the sync invariant holds from the start. Every cell starts
    /// in mixture component zero; the first global resampling pass
    /// relabels them.
    pub fn new(
        transcripts: &Vec<Transcript>,
        init_cell_assignments: &Vec<u32>,
        transcript_areas: &Vec<u64>,
        ncells: u32,
        ngenes: u32,
        ncomponents: u32,
    ) -> (params: ModelParams)
        requires
            init_cell_assignments@.len() == transcripts@.len(),
            transcript_areas@.len() == transcripts@.len(),
            transcripts@.len() <= 0xffff_ffff,
            ncells < BACKGROUND_CELL,
            ncomponents >= 1,
            forall|t: int|
                0 <= t < transcripts@.len() ==> (#[trigger] init_cell_assignments@[t]
                    == BACKGROUND_CELL || init_cell_assignments@[t] < ncells),
            forall|t: int| 0 <= t < transcripts@.len() ==> (#[trigger] transcripts@[t].gene) < ngenes,
            forall|t: int|
                0 <= t < transcript_areas@.len() ==> (#[trigger] transcript_areas@[t])
                    <= 0x1_0000_0000,
        ensures
            params.wf(transcripts@, transcript_areas@),
            params.cell_assignments@ == init_cell_assignments@,
            params.ncells == ncells,
            params.ngenes == ngenes,
            params.ncomponents == ncomponents,
            forall|c: int| 0 <= c < ncells ==> (#[trigger] params.z@[c]) == 0,
    {
        let n = transcripts.len();
        let ghost init = init_cell_assignments@;
        let ghost ts = transcripts@;
        let ghost areas = transcript_areas@;

        let mut cell_assignments: Vec<u32> = Vec::new();
        let mut i: usize = 0;
        while i < n
            invariant
                n == init.len(),
                init == init_cell_assignments@,
                0 <= i <= n,
                cell_assignments@ =~= init.take(i as int),
            decreases n - i,
        {
            cell_assignments.push(init_cell_assignments[i]);
            proof {
                assert(cell_assignments@ =~= init.take(i + 1));
            }
            i = i + 1;
        }
        proof {
            assert(init.take(n as int) =~= init);
        }

        let mut counts: Vec<Vec<u32>> = Vec::new();
        let mut c: usize = 0;
        while c < ncells as usize
            invariant
                0 <= c <= ncells,
                counts@.len() == c,
                forall|a: int| 0 <= a < c ==> (#[trigger] counts@[a]@.len()) == ngenes,
                forall|a: int, g: int|
                    0 <= a < c && 0 <= g < ngenes ==> (#[trigger] counts@[a]@[g]) == 0,
            decreases ncells - c,
        {
            let mut row: Vec<u32> = Vec::new();
            let mut g: usize = 0;
            while g < ngenes as usize
                invariant
                    0 <= g <= ngenes,
                    row@.len() == g,
                    forall|k: int| 0 <= k < g ==> (#[trigger] row@[k]) == 0,
                decreases ngenes - g,
            {
                row.push(0);
                g = g + 1;
            }
            counts.push(row);
            c = c + 1;
        }

        let mut cell_population: Vec<usize> = Vec::new();
        let mut cell_area: Vec<u64> = Vec::new();
        let mut z: Vec<u32> = Vec::new();
        let mut c: usize = 0;
        while c < ncells as usize
            invariant
                0 <= c <= ncells,
                cell_population@.len() == c,
                cell_area@.len() == c,
                z@.len() == c,
                forall|a: int| 0 <= a < c ==> (#[trigger] cell_population@[a]) == 0,
                forall|a: int| 0 <= a < c ==> (#[trigger] cell_area@[a]) == 0,
                forall|a: int| 0 <= a < c ==> (#[trigger] z@[a]) == 0,
            decreases ncells - c,
        {
            cell_population.push(0);
            cell_area.push(0);
            z.push(0);
            c = c + 1;
        }

        let mut t: usize = 0;
        while t < n
            invariant
                n == ts.len(),
                init.len() == n,
                areas.len() == n,
                n <= 0xffff_ffff,
                init == init_cell_assignments@,
                ts == transcripts@,
                areas == transcript_areas@,
                ncells < BACKGROUND_CELL,
                forall|k: int|
                    0 <= k < n ==> (#[trigger] init[k] == BACKGROUND_CELL || init[k] < ncells),
                forall|k: int| 0 <= k < n ==> (#[trigger] ts[k].gene) < ngenes,
                forall|k: int| 0 <= k < n ==> (#[trigger] areas[k]) <= 0x1_0000_0000,
                0 <= t <= n,
                counts@.len() == ncells,
                cell_population@.len() == ncells,
                cell_area@.len() == ncells,
                forall|a: int| 0 <= a < ncells ==> (#[trigger] counts@[a]@.len()) == ngenes,
                forall|a: int, g: int|
                    0 <= a < ncells && 0 <= g < ngenes ==> (#[trigger] counts@[a]@[g]) == count_gene(
                        init.take(t as int),
                        ts,
                        a,
                        g,
                    ),
                forall|a: int|
                    0 <= a < ncells ==> (#[trigger] cell_population@[a]) == count_assigned(
                        init.take(t as int),
                        a,
                    ),
                forall|a: int|
                    0 <= a < ncells ==> (#[trigger] cell_area@[a]) == sum_area(
                        init.take(t as int),
                        areas,
                        a,
                    ),
            decreases n - t,
        {
            let cell = init_cell_assignments[t];
            if cell != BACKGROUND_CELL {
                let ci = cell as usize;
                let gi = transcripts[t].gene as usize;
                proof {
                    lemma_count_gene_le_len(init.take(t as int), ts, ci as int, gi as int);
                    lemma_count_assigned_le_len(init.take(t as int), ci as int);
                    lemma_sum_area_bounded(init.take(t as int), areas, ci as int);
                }
                let row = vec_index_mut(&mut counts, ci);
                let prev = row[gi];
                row.set(gi, prev + 1);
                let pp = cell_population[ci];
                cell_population.set(ci, pp + 1);
                let pa = cell_area[ci];
                cell_area.set(ci, pa + transcript_areas[t]);
            }
            proof {
                assert forall|a: int, g: int| 0 <= a < ncells && 0 <= g < ngenes implies (
                #[trigger] counts@[a]@[g]) == count_gene(init.take(t as int + 1), ts, a, g) by {
                    lemma_count_gene_take_step(init, ts, t as int, a, g);
                }
                assert forall|a: int| 0 <= a < ncells implies (#[trigger] cell_population@[a])
                    == count_assigned(init.take(t as int + 1), a) by {
                    lemma_count_assigned_take_step(init, t as int, a);
                }
                assert forall|a: int| 0 <= a < ncells implies (#[trigger] cell_area@[a])
                    == sum_area(init.take(t as int + 1), areas, a) by {
                    lemma_sum_area_take_step(init, areas, t as int, a);
                }
            }
            t = t + 1;
        }
        proof {
            assert(init.take(n as int) =~= init);
        }

        ModelParams {
            ncells,
            ngenes,
            ncomponents,
            cell_assignments,
            counts,
            cell_population,
            cell_area,
            z,
        }
    }

    /// One accepted local move: reassigns transcript `t` from its current
    /// cell (or the background) to `dest` (a neighbor's cell, or the
    /// background) and updates the gene counts, population and area of
    /// exactly the source and destination cells — an O(1) incremental
    /// update that preserves the sync invariant. No other cell's state
    /// changes, and the cell roster and component labels stay as they are.
    pub fn apply_local_move(
        &mut self,
        transcripts: &Vec<Transcript>,
        transcript_areas: &Vec<u64>,
        t: usize,
        dest: u32,
    )
        requires
            old(self).wf(transcripts@, transcript_areas@),
            t < transcripts@.len(),
            dest == BACKGROUND_CELL || dest < old(self).ncells,
        ensures
            final(self).wf(transcripts@, transcript_areas@),
            final(self).cell_assignments@ == old(self).cell_assignments@.update(t as int, dest),
            final(self).ncells == old(self).ncells,
            final(self).ngenes == old(self).ngenes,
            final(self).ncomponents == old(self).ncomponents,
            final(self).z@ == old(self).z@,
            forall|c: int|
                0 <= c < old(self).ncells && c != old(self).cell_assignments@[t as int] && c != dest
                    ==> (#[trigger] final(self).counts@[c]@) == old(self).counts@[c]@
                    && final(self).cell_population@[c] == old(self).cell_population@[c]
                    && final(self).cell_area@[c] == old(self).cell_area@[c],
    {
        let ghost ts = transcripts@;
        let ghost areas = transcript_areas@;
        let ghost a0 = old(self).cell_assignments@;
        let ghost a1 = a0.update(t as int, dest);
        let src = self.cell_assignments[t];
        self.cell_assignments.set(t, dest);
        if src != dest {
            let gi = transcripts[t].gene as usize;
            let ta = transcript_areas[t];
            if src != BACKGROUND_CELL {
                let ci = src as usize;
                proof {
                    lemma_count_gene_update(a0, ts, t as int, dest, ci as int, gi as int);
                    lemma_count_assigned_update(a0, t as int, dest, ci as int);
                    lemma_sum_area_update(a0, areas, t as int, dest, ci as int);
                }
                let row = vec_index_mut(&mut self.counts, ci);
                let prev = row[gi];
                row.set(gi, prev - 1);
                let pp = self.cell_population[ci];
                self.cell_population.set(ci, pp - 1);
                let pa = self.cell_area[ci];
                self.cell_area.set(ci, pa - ta);
            }
            if dest != BACKGROUND_CELL {
                let ci = dest as usize;
                proof {
                    lemma_count_gene_update(a0, ts, t as int, dest, ci as int, gi as int);
                    lemma_count_assigned_update(a0, t as int, dest, ci as int);
                    lemma_sum_area_update(a0, areas, t as int, dest, ci as int);
                    lemma_count_gene_le_len(a1, ts, ci as int, gi as int);
                    lemma_count_assigned_le_len(a1, ci as int);
                    lemma_sum_area_bounded(a1, areas, ci as int);
                }
                let row = vec_index_mut(&mut self.counts, ci);
                let prev = row[gi];
                row.set(gi, prev + 1);
                let pp = self.cell_population[ci];
                self.cell_population.set(ci, pp + 1);
                let pa = self.cell_area[ci];
                self.cell_area.set(ci, pa + ta);
            }
        }
        proof {
            if src == dest {
                assert(a1 =~= a0);
            }
            assert forall|c: int, g: int|
                0 <= c < self.ncells && 0 <= g < self.ngenes implies (#[trigger] self.counts@[c]@[g])
                == count_gene(a1, ts, c, g) by {
                lemma_count_gene_update(a0, ts, t as int, dest, c, g);
            }
            assert forall|c: int| 0 <= c < self.ncells implies (#[trigger] self.cell_population@[c])
                == count_assigned(a1, c) by {
                lemma_count_assigned_update(a0, t as int, dest, c);
            }
            assert forall|c: int| 0 <= c < self.ncells implies (#[trigger] self.cell_area@[c])
                == sum_area(a1, areas, c) by {
                lemma_sum_area_update(a0, areas, t as int, dest, c);
            }
        }
    }

    /// Settles one proposed local move: an accepted move is applied as one
    /// incremental update, and a rejected move leaves the state untouched.
    pub fn resolve_local_move(
        &mut self,
        transcripts: &Vec<Transcript>,
        transcript_areas: &Vec<u64>,
        t: usize,
        dest: u32,
        accept: bool,
    )
        requires
            old(self).wf(transcripts@, transcript_areas@),
            t < transcripts@.len(),
            dest == BACKGROUND_CELL || dest < old(self).ncells,
        ensures
            final(self).wf(transcripts@, transcript_areas@),
            accept ==> final(self).cell_assignments@ == old(self).cell_assignments@.update(
                t as int,
                dest,
            ),
            !accept ==> *final(self) == *old(self),
            final(self).ncells == old(self).ncells,
            final(self).z@ == old(self).z@,
    {
        if accept {
            self.apply_local_move(transcripts, transcript_areas, t, dest);
        }
    }

    /// Number of transcripts currently unassigned (mapped to background).
    pub fn nunassigned(&self) -> (n: usize)
        ensures
            n == count_background(self.cell_assignments@),
    {
        let total = self.cell_assignments.len();
        let mut n: usize = 0;
        let mut i: usize = 0;
        while i < total
            invariant
                total == self.cell_assignments@.len(),
                0 <= i <= total,
                n == count_assigned(
                    self.cell_assignments@.take(i as int),
                    BACKGROUND_CELL as int,
                ),
                n <= i,
            decreases total - i,
        {
            proof {
                lemma_count_assigned_take_step(
                    self.cell_assignments@,
                    i as int,
                    BACKGROUND_CELL as int,
                );
            }
            if self.cell_assignments[i] == BACKGROUND_CELL {
                n = n + 1;
            }
            i = i + 1;
        }
        proof {
            assert(self.cell_assignments@.take(total as int) =~= self.cell_assignments@);
        }
        n
    }

    /// Conservation: the transcripts owned by cells and the transcripts in
    /// the background together account for the whole catalog, in any
    /// well-formed state — so after every iteration.
    pub proof fn lemma_params_conservation(self, ts: Seq<Transcript>, areas: Seq<u64>)
        requires
            self.wf(ts, areas),
        ensures
            count_foreground(self.cell_assignments@) + count_background(self.cell_assignments@)
                == ts.len(),
    {
        lemma_conservation(self.cell_assignments@);
    }

    /// In any well-formed state, each cell's population equals the sum of
    /// its gene-count row.
    pub proof fn lemma_population_is_row_sum(self, ts: Seq<Transcript>, areas: Seq<u64>, c: int)
        requires
            self.wf(ts, areas),
            0 <= c < self.ncells,
        ensures
            self.cell_population@[c] == sum_counts_over_genes(
                self.cell_assignments@,
                ts,
                c,
                self.ngenes as nat,
            ),
    {
        lemma_count_assigned_is_gene_sum(self.cell_assignments@, ts, c, self.ngenes as nat);
    }

    /// Resets one cell's mixture-component label, as the global resampling
    /// pass decides; nothing else of the state changes.
    pub fn set_component_label(&mut self, cell: usize, label: u32)
        requires
            cell < old(self).z@.len(),
            label < old(self).ncomponents,
        ensures
            final(self).z@ == old(self).z@.update(cell as int, label),
            final(self).ncells == old(self).ncells,
            final(self).ngenes == old(self).ngenes,
            final(self).ncomponents == old(self).ncomponents,
            final(self).cell_assignments == old(self).cell_assignments,
            final(self).counts == old(self).counts,
            final(self).cell_population == old(self).cell_population,
            final(self).cell_area == old(self).cell_area,
            forall|ts: Seq<Transcript>, areas: Seq<u64>|
                old(self).wf(ts, areas) ==> #[trigger] final(self).wf(ts, areas),
    {
        self.z.set(cell, label);
    }
}

} // verus!
