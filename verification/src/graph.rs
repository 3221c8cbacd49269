use vstd::prelude::*;
use crate::chunks::COORD_LIMIT;
use crate::transcripts::Transcript;

verus! {

/// Whether a transcript's coordinates are within the magnitude the spatial
/// layer accepts; squared distances then fit in u64.
pub open spec fn coord_bounded(t: Transcript) -> bool {
    -COORD_LIMIT <= t.x <= COORD_LIMIT && -COORD_LIMIT <= t.y <= COORD_LIMIT && -COORD_LIMIT <= t.z
        <= COORD_LIMIT
}

pub open spec fn all_coords_bounded(ts: Seq<Transcript>) -> bool {
    forall|i: int| 0 <= i < ts.len() ==> coord_bounded(#[trigger] ts[i])
}

/// Squared Euclidean distance between two transcripts.
pub open spec fn dist2(a: Transcript, b: Transcript) -> int {
    (a.x - b.x) * (a.x - b.x) + (a.y - b.y) * (a.y - b.y) + (a.z - b.z) * (a.z - b.z)
}

/// Whether `b` occurs in the index list `s`.
pub open spec fn member(s: Seq<usize>, b: int) -> bool {
    exists|k: int| 0 <= k < s.len() && s[k] == b
}

pub proof fn lemma_member_push(s: Seq<usize>, v: usize, b: int)
    ensures
        member(s.push(v), b) <==> (member(s, b) || v == b),
{
    if member(s, b) {
        let k = choose|k: int| 0 <= k < s.len() && s[k] == b;
        assert(s.push(v)[k] == b);
    }
    if v == b {
        assert(s.push(v)[s.len() as int] == b);
    }
    if member(s.push(v), b) {
        let k = choose|k: int| 0 <= k < s.push(v).len() && s.push(v)[k] == b;
        if k < s.len() {
            assert(s[k] == b);
        }
    }
}

/// Undirected spatial neighborhood graph over transcript indices: an edge
/// joins two distinct transcripts whose squared distance is at most
/// `radius2`. Built once, read-only afterwards.
pub struct NeighborhoodGraph {
    pub adj: Vec<Vec<usize>>,
    pub radius2: u64,
}

impl NeighborhoodGraph {
    /// Whether j is listed among i's neighbors.
    pub open spec fn has_edge(self, i: int, j: int) -> bool {
        member(self.adj@[i]@, j)
    }

    /// The adjacency is exactly the "spatially close" relation: well-formed
    /// against the transcript list it was built from.
    pub open spec fn wf(self, ts: Seq<Transcript>) -> bool {
        &&& self.adj@.len() == ts.len()
        &&& forall|i: int, j: int|
            0 <= i < ts.len() && 0 <= j < ts.len() ==> (self.has_edge(i, j) <==> (i != j && dist2(
                ts[i],
                ts[j],
            ) <= self.radius2))
        &&& forall|i: int, k: int|
            0 <= i < ts.len() && 0 <= k < self.adj@[i]@.len() ==> #[trigger] self.adj@[i]@[k]
                < ts.len()
        &&& forall|i: int| 0 <= i < ts.len() ==> #[trigger] self.adj@[i]@.len() <= ts.len()
    }

    /// How many neighbors transcript i has.
    pub fn degree(&self, i: usize) -> (d: usize)
        requires
            i < self.adj@.len(),
        ensures
            d == self.adj@[i as int]@.len(),
    {
        self.adj[i].len()
    }

    /// The k-th neighbor of transcript i.
    pub fn neighbor(&self, i: usize, k: usize) -> (j: usize)
        requires
            i < self.adj@.len(),
            k < self.adj@[i as int]@.len(),
        ensures
            j == self.adj@[i as int]@[k as int],
    {
        self.adj[i][k]
    }

    /// Symmetry of the neighborhood graph: whenever j is listed among i's
    /// neighbors, i is listed among j's.
    pub proof fn lemma_symmetric(self, ts: Seq<Transcript>, i: int, j: int)
        requires
            self.wf(ts),
            0 <= i < ts.len(),
            0 <= j < ts.len(),
            self.has_edge(i, j),
        ensures
            self.has_edge(j, i),
    {
        let a = ts[i];
        let b = ts[j];
        assert((a.x - b.x) * (a.x - b.x) == (b.x - a.x) * (b.x - a.x)) by (nonlinear_arith);
        assert((a.y - b.y) * (a.y - b.y) == (b.y - a.y) * (b.y - a.y)) by (nonlinear_arith);
        assert((a.z - b.z) * (a.z - b.z) == (b.z - a.z) * (b.z - a.z)) by (nonlinear_arith);
        assert(dist2(a, b) == dist2(b, a));
    }
}

/// Squared distance between two coordinate-bounded transcripts, exactly.
fn dist2_exec(a: &Transcript, b: &Transcript) -> (d: u64)
    requires
        coord_bounded(*a),
        coord_bounded(*b),
    ensures
        d == dist2(*a, *b),
{
    let dx = a.x - b.x;
    let dy = a.y - b.y;
    let dz = a.z - b.z;
    proof {
        assert(0 <= (dx as int) * (dx as int) <= 0x4000_0000_0000_0000 && 0 <= (dy as int) * (
        dy as int) <= 0x4000_0000_0000_0000 && 0 <= (dz as int) * (dz as int)
            <= 0x4000_0000_0000_0000) by (nonlinear_arith)
            requires
                -0x8000_0000 <= dx <= 0x8000_0000,
                -0x8000_0000 <= dy <= 0x8000_0000,
                -0x8000_0000 <= dz <= 0x8000_0000,
        ;
    }
    let sx = (dx * dx) as u64;
    let sy = (dy * dy) as u64;
    let sz = (dz * dz) as u64;
    sx + sy + sz
}

/// Builds the neighborhood graph over the transcripts: every pair of
/// distinct transcripts within the given squared radius is joined, in both
/// directions. Deterministic in the transcript order; no randomness.
pub fn neighborhood_graph(transcripts: &Vec<Transcript>, radius2: u64) -> (graph:
    NeighborhoodGraph)
    requires
        all_coords_bounded(transcripts@),
    ensures
        graph.wf(transcripts@),
        graph.radius2 == radius2,
{
    let n = transcripts.len();
    let mut adj: Vec<Vec<usize>> = Vec::new();
    let mut i: usize = 0;
    while i < n
        invariant
            n == transcripts@.len(),
            all_coords_bounded(transcripts@),
            0 <= i <= n,
            adj@.len() == i,
            forall|a: int, k: int|
                0 <= a < i && 0 <= k < adj@[a]@.len() ==> #[trigger] adj@[a]@[k] < n,
            forall|a: int| 0 <= a < i ==> #[trigger] adj@[a]@.len() <= n,
            forall|a: int, b: int|
                0 <= a < i && 0 <= b < n ==> (#[trigger] member(adj@[a]@, b) <==> (a != b && dist2(
                    transcripts@[a],
                    transcripts@[b],
                ) <= radius2)),
        decreases n - i,
    {
        let mut nbrs: Vec<usize> = Vec::new();
        let mut j: usize = 0;
        while j < n
            invariant
                n == transcripts@.len(),
                all_coords_bounded(transcripts@),
                0 <= i < n,
                0 <= j <= n,
                nbrs@.len() <= j,
                forall|k: int| 0 <= k < nbrs@.len() ==> #[trigger] nbrs@[k] < j,
                forall|b: int|
                    0 <= b < j ==> (#[trigger] member(nbrs@, b) <==> (i != b && dist2(
                    transcripts@[i as int],
                    transcripts@[b],
                ) <= radius2)),
            decreases n - j,
        {
            let ghost prev = nbrs@;
            let mut close = false;
            if j != i {
                let d = dist2_exec(&transcripts[i], &transcripts[j]);
                if d <= radius2 {
                    nbrs.push(j);
                    close = true;
                }
            }
            proof {
                assert forall|b: int| 0 <= b < j + 1 implies (member(nbrs@, b) <==> (i != b
                    && dist2(transcripts@[i as int], transcripts@[b]) <= radius2)) by {
                    if close {
                        lemma_member_push(prev, j, b);
                    }
                    if b == j && !close {
                        if member(nbrs@, b) {
                            let k = choose|k: int| 0 <= k < nbrs@.len() && nbrs@[k] == b;
                        }
                    }
                }
            }
            j = j + 1;
        }
        proof {
            let ghost pre = adj@;
            assert(pre.push(nbrs).len() == i + 1);
        }
        adj.push(nbrs);
        proof {
            assert forall|a: int, b: int| 0 <= a < i + 1 && 0 <= b < n implies (#[trigger] member(
                adj@[a]@,
                b,
            ) <==> (a != b && dist2(transcripts@[a], transcripts@[b]) <= radius2)) by {
                if a < i {
                    assert(adj@[a]@ =~= adj@.subrange(0, i as int)[a]@);
                }
            }
        }
        i = i + 1;
    }
    NeighborhoodGraph { adj, radius2 }
}

/// The per-transcript local area proxy: the search area quantum divided by
/// one plus the transcript's neighbor count, so that transcripts in dense
/// neighborhoods contribute less area to their cell.
pub fn transcript_areas(graph: &NeighborhoodGraph, area_quantum: u64) -> (areas: Vec<u64>)
    requires
        1 <= area_quantum <= 0x1_0000_0000,
        graph.adj@.len() <= 0x4000_0000,
        forall|i: int| 0 <= i < graph.adj@.len() ==> #[trigger] graph.adj@[i]@.len() <= 0x4000_0000,
    ensures
        areas@.len() == graph.adj@.len(),
        forall|i: int|
            0 <= i < areas@.len() ==> #[trigger] areas@[i] == area_quantum as int / (1int
                + graph.adj@[i]@.len()),
        forall|i: int| 0 <= i < areas@.len() ==> #[trigger] areas@[i] <= 0x1_0000_0000,
{
    let n = graph.adj.len();
    let mut areas: Vec<u64> = Vec::new();
    let mut i: usize = 0;
    while i < n
        invariant
            n == graph.adj@.len(),
            n <= 0x4000_0000,
            forall|k: int| 0 <= k < n ==> #[trigger] graph.adj@[k]@.len() <= 0x4000_0000,
            1 <= area_quantum <= 0x1_0000_0000,
            0 <= i <= n,
            areas@.len() == i,
            forall|k: int|
                0 <= k < i ==> #[trigger] areas@[k] == area_quantum as int / (1int
                    + graph.adj@[k]@.len()),
            forall|k: int| 0 <= k < i ==> #[trigger] areas@[k] <= 0x1_0000_0000,
        decreases n - i,
    {
        let deg = graph.adj[i].len();
        let q = area_quantum / (1 + deg as u64);
        proof {
            vstd::arithmetic::div_mod::lemma_div_nonincreasing(
                area_quantum as int,
                1 + deg as int,
            );
        }
        areas.push(q);
        i = i + 1;
    }
    areas
}

} // verus!
