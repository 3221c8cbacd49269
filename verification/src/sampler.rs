use vstd::prelude::*;
use crate::graph::NeighborhoodGraph;
use crate::params::ModelParams;
use crate::transcripts::{Transcript, BACKGROUND_CELL};

verus! {

pub const RNG_MODULUS: u64 = 0x7fff_ffff;

pub const RNG_MULTIPLIER: u64 = 48271;

pub const RNG_INCREMENT: u64 = 12345;

/// The successor of a generator state: a fixed linear congruence. The whole
/// local-move schedule is a pure function of the seed through this map.
pub open spec fn rng_next(s: int) -> int {
    (s * 48271 + 12345) % 0x7fff_ffff
}

/// Deterministic pseudo-random source for the sampler. One generator
/// drives one worker; with a single worker the run is reproducible
/// bit for bit from the seed.
pub struct Rng {
    pub state: u64,
}

impl Rng {
    pub open spec fn wf(self) -> bool {
        self.state < RNG_MODULUS
    }

    pub fn new(seed: u64) -> (rng: Rng)
        ensures
            rng.wf(),
            rng.state == seed as int % RNG_MODULUS as int,
    {
        Rng { state: seed % RNG_MODULUS }
    }

    /// Advances the generator one step and returns the new state.
    pub fn next(&mut self) -> (draw: u32)
        requires
            old(self).wf(),
        ensures
            final(self).wf(),
            final(self).state == rng_next(old(self).state as int),
            draw == final(self).state,
    {
        let s = (self.state * RNG_MULTIPLIER + RNG_INCREMENT) % RNG_MODULUS;
        self.state = s;
        s as u32
    }
}

/// One proposed local move: transcript `t`, its current owner `src`, and
/// the proposed destination `dest` (a neighbor's cell or the background).
#[derive(Clone, Copy, PartialEq, Eq, Structural)]
pub struct Proposal {
    pub t: usize,
    pub src: u32,
    pub dest: u32,
}

/// The adjacency lists of the graph as a sequence of sequences.
pub open spec fn adj_view(graph: NeighborhoodGraph) -> Seq<Seq<usize>> {
    graph.adj@.map_values(|row: Vec<usize>| row@)
}

/// What `propose` returns: the move is a pure function of the generator
/// state, the current assignments and the adjacency — the heart of the
/// single-worker determinism guarantee.
pub open spec fn propose_spec(s0: int, assign: Seq<u32>, adj: Seq<Seq<usize>>) -> Proposal {
    let s1 = rng_next(s0);
    let t = s1 % (assign.len() as int);
    let s2 = rng_next(s1);
    let deg = adj[t].len() as int;
    let k = s2 % (deg + 1);
    let dest = if k == deg {
        BACKGROUND_CELL
    } else {
        assign[adj[t][k] as int]
    };
    Proposal { t: t as usize, src: assign[t], dest }
}

/// Draws a candidate transcript and a proposed destination: one of the
/// transcript's graph neighbors' current cells, or the background. The
/// restriction to graph neighbors is what keeps moves spatially local.
pub fn propose(
    rng: &mut Rng,
    params: &ModelParams,
    graph: &NeighborhoodGraph,
    transcripts: &Vec<Transcript>,
    transcript_areas: &Vec<u64>,
) -> (proposal: Proposal)
    requires
        old(rng).wf(),
        params.wf(transcripts@, transcript_areas@),
        graph.wf(transcripts@),
        transcripts@.len() >= 1,
    ensures
        final(rng).wf(),
        final(rng).state == rng_next(rng_next(old(rng).state as int)),
        proposal == propose_spec(
            old(rng).state as int,
            params.cell_assignments@,
            adj_view(*graph),
        ),
        proposal.t < transcripts@.len(),
        proposal.src == params.cell_assignments@[proposal.t as int],
        proposal.dest == BACKGROUND_CELL || proposal.dest < params.ncells,
{
    let n = transcripts.len();
    let draw_t = rng.next();
    let t = (draw_t as usize) % n;
    let deg = graph.degree(t);
    let draw_k = rng.next();
    let k = ((draw_k as u64) % (deg as u64 + 1)) as usize;
    let dest: u32;
    if k == deg {
        dest = BACKGROUND_CELL;
    } else {
        let j = graph.neighbor(t, k);
        dest = params.cell_assignments[j];
    }
    let src = params.cell_assignments[t];
    proof {
        assert(adj_view(*graph)[t as int] == graph.adj@[t as int]@);
    }
    Proposal { t, src, dest }
}

/// What `propose_from` returns, as a pure function of the generator state,
/// the assignments, the adjacency and the candidate list.
pub open spec fn propose_from_spec(
    s0: int,
    assign: Seq<u32>,
    adj: Seq<Seq<usize>>,
    candidates: Seq<usize>,
) -> Proposal {
    let s1 = rng_next(s0);
    let t = candidates[s1 % (candidates.len() as int)] as int;
    let s2 = rng_next(s1);
    let deg = adj[t].len() as int;
    let k = s2 % (deg + 1);
    let dest = if k == deg {
        BACKGROUND_CELL
    } else {
        assign[adj[t][k] as int]
    };
    Proposal { t: t as usize, src: assign[t], dest }
}

/// Draws a candidate transcript from one chunk's member list and a
/// proposed destination among its graph neighbors' cells or the
/// background: the within-chunk form of the local move, so that chunks can
/// be worked through without touching each other's candidates.
pub fn propose_from(
    rng: &mut Rng,
    params: &ModelParams,
    graph: &NeighborhoodGraph,
    transcripts: &Vec<Transcript>,
    transcript_areas: &Vec<u64>,
    candidates: &Vec<usize>,
) -> (proposal: Proposal)
    requires
        old(rng).wf(),
        params.wf(transcripts@, transcript_areas@),
        graph.wf(transcripts@),
        candidates@.len() >= 1,
        forall|k: int|
            0 <= k < candidates@.len() ==> (#[trigger] candidates@[k]) < transcripts@.len(),
    ensures
        final(rng).wf(),
        final(rng).state == rng_next(rng_next(old(rng).state as int)),
        proposal == propose_from_spec(
            old(rng).state as int,
            params.cell_assignments@,
            adj_view(*graph),
            candidates@,
        ),
        proposal.t < transcripts@.len(),
        proposal.src == params.cell_assignments@[proposal.t as int],
        proposal.dest == BACKGROUND_CELL || proposal.dest < params.ncells,
{
    let draw_t = rng.next();
    let t = candidates[(draw_t as usize) % candidates.len()];
    let deg = graph.degree(t);
    let draw_k = rng.next();
    let k = ((draw_k as u64) % (deg as u64 + 1)) as usize;
    let dest: u32;
    if k == deg {
        dest = BACKGROUND_CELL;
    } else {
        let j = graph.neighbor(t, k);
        dest = params.cell_assignments[j];
    }
    let src = params.cell_assignments[t];
    proof {
        assert(adj_view(*graph)[t as int] == graph.adj@[t as int]@);
    }
    Proposal { t, src, dest }
}

/// Accepts or rejects a proposed move: the acceptance probability,
/// already folded into `threshold` as a fraction of the generator
/// modulus, is compared against one fresh draw.
pub fn decide(rng: &mut Rng, threshold: u32) -> (accept: bool)
    requires
        old(rng).wf(),
    ensures
        final(rng).wf(),
        final(rng).state == rng_next(old(rng).state as int),
        accept == (rng_next(old(rng).state as int) < threshold),
{
    let draw = rng.next();
    draw < threshold
}

/// Determinism of the local-move engine: from equal states and equal
/// generator seeds, the same transcript and destination are proposed. With
/// the accept decision and the state update equally pinned by their
/// contracts, two single-worker runs from one seed coincide move for move.
pub proof fn lemma_propose_deterministic(
    s1: int,
    s2: int,
    assign1: Seq<u32>,
    assign2: Seq<u32>,
    adj1: Seq<Seq<usize>>,
    adj2: Seq<Seq<usize>>,
)
    requires
        s1 == s2,
        assign1 == assign2,
        adj1 == adj2,
    ensures
        propose_spec(s1, assign1, adj1) == propose_spec(s2, assign2, adj2),
        rng_next(s1) == rng_next(s2),
{
}

/// Which of the three move categories a proposal falls in.
#[derive(Clone, Copy, PartialEq, Eq, Structural)]
pub enum MoveKind {
    CellToCell,
    ToBackground,
    FromBackground,
}

pub open spec fn move_kind(src: u32, dest: u32) -> MoveKind {
    if dest == BACKGROUND_CELL {
        MoveKind::ToBackground
    } else if src == BACKGROUND_CELL {
        MoveKind::FromBackground
    } else {
        MoveKind::CellToCell
    }
}

/// Saturating bump for a diagnostics counter.
pub open spec fn bumped(x: u64) -> int {
    if x < 0xffff_ffff_ffff_ffff {
        x + 1
    } else {
        x as int
    }
}

/// Per-iteration diagnostics: how many moves of each category were
/// proposed and how many of them were accepted. Reset every outer
/// iteration; never part of the model state.
pub struct ProposalStats {
    pub cell_to_cell_proposed: u64,
    pub cell_to_cell_accepted: u64,
    pub to_background_proposed: u64,
    pub to_background_accepted: u64,
    pub from_background_proposed: u64,
    pub from_background_accepted: u64,
}

impl ProposalStats {
    pub open spec fn all_zero(self) -> bool {
        self.cell_to_cell_proposed == 0 && self.cell_to_cell_accepted == 0
            && self.to_background_proposed == 0 && self.to_background_accepted == 0
            && self.from_background_proposed == 0 && self.from_background_accepted == 0
    }

    pub fn new() -> (stats: ProposalStats)
        ensures
            stats.all_zero(),
    {
        ProposalStats {
            cell_to_cell_proposed: 0,
            cell_to_cell_accepted: 0,
            to_background_proposed: 0,
            to_background_accepted: 0,
            from_background_proposed: 0,
            from_background_accepted: 0,
        }
    }

    pub fn reset(&mut self)
        ensures
            final(self).all_zero(),
    {
        self.cell_to_cell_proposed = 0;
        self.cell_to_cell_accepted = 0;
        self.to_background_proposed = 0;
        self.to_background_accepted = 0;
        self.from_background_proposed = 0;
        self.from_background_accepted = 0;
    }

    /// Records one proposal of the given category, and whether it was
    /// accepted; the other categories' counters are untouched.
    pub fn record(&mut self, src: u32, dest: u32, accepted: bool)
        ensures
            move_kind(src, dest) == MoveKind::CellToCell ==> final(self).cell_to_cell_proposed
                == bumped(old(self).cell_to_cell_proposed) && final(self).to_background_proposed
                == old(self).to_background_proposed && final(self).from_background_proposed
                == old(self).from_background_proposed,
            move_kind(src, dest) == MoveKind::ToBackground ==> final(self).to_background_proposed
                == bumped(old(self).to_background_proposed) && final(self).cell_to_cell_proposed
                == old(self).cell_to_cell_proposed && final(self).from_background_proposed
                == old(self).from_background_proposed,
            move_kind(src, dest) == MoveKind::FromBackground ==> final(self).from_background_proposed
                == bumped(old(self).from_background_proposed) && final(self).cell_to_cell_proposed
                == old(self).cell_to_cell_proposed && final(self).to_background_proposed
                == old(self).to_background_proposed,
            accepted && move_kind(src, dest) == MoveKind::CellToCell ==> final(self).cell_to_cell_accepted
                == bumped(old(self).cell_to_cell_accepted),
            accepted && move_kind(src, dest) == MoveKind::ToBackground ==> final(self).to_background_accepted
                == bumped(old(self).to_background_accepted),
            accepted && move_kind(src, dest) == MoveKind::FromBackground ==> final(self).from_background_accepted
                == bumped(old(self).from_background_accepted),
            !accepted ==> final(self).cell_to_cell_accepted == old(self).cell_to_cell_accepted
                && final(self).to_background_accepted == old(self).to_background_accepted
                && final(self).from_background_accepted == old(self).from_background_accepted,
    {
        if dest == BACKGROUND_CELL {
            if self.to_background_proposed < 0xffff_ffff_ffff_ffff {
                self.to_background_proposed = self.to_background_proposed + 1;
            }
            if accepted {
                if self.to_background_accepted < 0xffff_ffff_ffff_ffff {
                    self.to_background_accepted = self.to_background_accepted + 1;
                }
            }
        } else if src == BACKGROUND_CELL {
            if self.from_background_proposed < 0xffff_ffff_ffff_ffff {
                self.from_background_proposed = self.from_background_proposed + 1;
            }
            if accepted {
                if self.from_background_accepted < 0xffff_ffff_ffff_ffff {
                    self.from_background_accepted = self.from_background_accepted + 1;
                }
            }
        } else {
            if self.cell_to_cell_proposed < 0xffff_ffff_ffff_ffff {
                self.cell_to_cell_proposed = self.cell_to_cell_proposed + 1;
            }
            if accepted {
                if self.cell_to_cell_accepted < 0xffff_ffff_ffff_ffff {
                    self.cell_to_cell_accepted = self.cell_to_cell_accepted + 1;
                }
            }
        }
    }
}

} // verus!
