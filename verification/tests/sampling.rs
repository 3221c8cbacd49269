use hexseg::transcripts::BACKGROUND_CELL;
use hexseg::ingest::build_catalog;
use hexseg::graph::{neighborhood_graph, transcript_areas};
use hexseg::params::ModelParams;
use hexseg::sampler::{decide, propose, propose_from, ProposalStats, Rng, RNG_MODULUS};

fn names(rows: &[&str]) -> Vec<Vec<u8>> {
    rows.iter().map(|s| s.as_bytes().to_vec()).collect()
}

/// Four transcripts of two genes, two pre-labeled cells with one transcript
/// each, two background transcripts.
fn small_state() -> (ModelParams, hexseg::ingest::Catalog, hexseg::graph::NeighborhoodGraph, Vec<u64>)
{
    let rows = names(&["g0", "g1", "g0", "g1"]);
    let xs: Vec<i64> = vec![0, 10, 0, 10];
    let ys: Vec<i64> = vec![0, 0, 10, 10];
    let zs: Vec<i64> = vec![0, 0, 0, 0];
    let cell_ids: Vec<i32> = vec![0, 1, -1, -1];
    let overlaps: Vec<i32> = vec![1, 1, 0, 0];
    let catalog = build_catalog(&rows, &xs, &ys, &zs, &cell_ids, &overlaps);
    let graph = neighborhood_graph(&catalog.transcripts, 500);
    let areas = transcript_areas(&graph, 64);
    let params = ModelParams::new(
        &catalog.transcripts,
        &catalog.cell_assignments,
        &areas,
        2,
        2,
        1,
    );
    (params, catalog, graph, areas)
}

#[test]
fn initial_state_tallies_match() {
    let (params, catalog, _graph, _areas) = small_state();
    assert_eq!(params.ncells, 2);
    assert_eq!(params.counts.len(), 2);
    assert_eq!(params.counts[0], vec![1, 0]);
    assert_eq!(params.counts[1], vec![0, 1]);
    assert_eq!(params.cell_population, vec![1, 1]);
    assert_eq!(params.nunassigned(), 2);
    assert_eq!(catalog.cell_population, vec![1, 1]);
}

#[test]
fn accepted_move_updates_exactly_the_two_cells() {
    let (mut params, catalog, _graph, areas) = small_state();
    let area_before = params.cell_area[0];
    // Move the first background transcript (gene g0) into cell 0.
    params.apply_local_move(&catalog.transcripts, &areas, 2, 0);
    assert_eq!(params.counts[0], vec![2, 0]);
    assert_eq!(params.counts[1], vec![0, 1]);
    assert_eq!(params.cell_population, vec![2, 1]);
    assert_eq!(params.cell_area[0], area_before + areas[2]);
    assert_eq!(params.nunassigned(), 1);
    // And back out to the background: the state returns to the start.
    params.apply_local_move(&catalog.transcripts, &areas, 2, BACKGROUND_CELL);
    assert_eq!(params.counts[0], vec![1, 0]);
    assert_eq!(params.cell_population, vec![1, 1]);
    assert_eq!(params.cell_area[0], area_before);
    assert_eq!(params.nunassigned(), 2);
}

#[test]
fn conservation_holds_across_moves() {
    let (mut params, catalog, graph, areas) = small_state();
    let total = catalog.transcripts.len();
    let mut rng = Rng::new(1234);
    for _ in 0..50 {
        let proposal = propose(&mut rng, &params, &graph, &catalog.transcripts, &areas);
        let accept = decide(&mut rng, 0x4000_0000);
        if accept {
            params.apply_local_move(&catalog.transcripts, &areas, proposal.t, proposal.dest);
        }
        let assigned: usize = params.cell_population.iter().sum();
        assert_eq!(assigned + params.nunassigned(), total);
        assert_eq!(params.ncells, 2);
    }
}

/// End-to-end: one outer iteration with one local step over the small
/// state; the cell roster is unchanged, no gene gains transcripts, and at
/// most the two initially unassigned transcripts stay unassigned.
#[test]
fn one_iteration_one_local_step() {
    let (mut params, catalog, graph, areas) = small_state();
    let mut rng = Rng::new(42);
    let mut stats = ProposalStats::new();
    let proposal = propose(&mut rng, &params, &graph, &catalog.transcripts, &areas);
    // The acceptance evaluation rejects this proposal.
    let accept = decide(&mut rng, 0);
    assert!(!accept);
    stats.record(proposal.src, proposal.dest, accept);
    let assignments_before = params.cell_assignments.clone();
    params.resolve_local_move(&catalog.transcripts, &areas, proposal.t, proposal.dest, accept);
    // The rejected move left the partition untouched.
    assert_eq!(params.cell_assignments, assignments_before);
    // Global pass over component labels (a single component).
    for c in 0..params.ncells as usize {
        params.set_component_label(c, 0);
    }
    assert_eq!(params.ncells, 2);
    for g in 0..2usize {
        let across_cells: u32 = (0..2usize).map(|c| params.counts[c][g]).sum();
        assert!(across_cells <= 4);
    }
    assert!(params.nunassigned() <= 2);
    let proposed = stats.cell_to_cell_proposed + stats.to_background_proposed
        + stats.from_background_proposed;
    assert_eq!(proposed, 1);
    let accepted = stats.cell_to_cell_accepted + stats.to_background_accepted
        + stats.from_background_accepted;
    assert_eq!(accepted, 0);
}

/// End-to-end: a fully background input yields no cells, and the sampler
/// leaves the count table empty without aborting.
#[test]
fn fully_background_input_keeps_the_count_table_empty() {
    let rows = names(&["g0", "g1", "g0", "g1"]);
    let xs: Vec<i64> = vec![0, 10, 0, 10];
    let ys: Vec<i64> = vec![0, 0, 10, 10];
    let zs: Vec<i64> = vec![0, 0, 0, 0];
    let cell_ids: Vec<i32> = vec![-1, -1, -1, -1];
    let overlaps: Vec<i32> = vec![0, 0, 0, 0];
    let catalog = build_catalog(&rows, &xs, &ys, &zs, &cell_ids, &overlaps);
    assert_eq!(catalog.cell_population.len(), 0);
    let graph = neighborhood_graph(&catalog.transcripts, 500);
    let areas = transcript_areas(&graph, 64);
    let mut params = ModelParams::new(
        &catalog.transcripts,
        &catalog.cell_assignments,
        &areas,
        0,
        2,
        1,
    );
    let mut rng = Rng::new(7);
    for _ in 0..10 {
        let proposal = propose(&mut rng, &params, &graph, &catalog.transcripts, &areas);
        let accept = decide(&mut rng, RNG_MODULUS as u32);
        if accept {
            params.apply_local_move(&catalog.transcripts, &areas, proposal.t, proposal.dest);
        }
    }
    assert_eq!(params.counts.len(), 0);
    assert_eq!(params.nunassigned(), 4);
}

/// Determinism: one worker, one seed, two runs — identical assignments.
#[test]
fn fixed_seed_single_worker_runs_coincide() {
    let mut outcomes: Vec<Vec<u32>> = Vec::new();
    for _ in 0..2 {
        let (mut params, catalog, graph, areas) = small_state();
        let mut rng = Rng::new(99);
        for _ in 0..100 {
            let proposal = propose(&mut rng, &params, &graph, &catalog.transcripts, &areas);
            let accept = decide(&mut rng, 0x2000_0000);
            if accept {
                params.apply_local_move(&catalog.transcripts, &areas, proposal.t, proposal.dest);
            }
        }
        outcomes.push(params.cell_assignments.clone());
    }
    assert_eq!(outcomes[0], outcomes[1]);
}

#[test]
fn rng_stream_is_reproducible() {
    let mut a = Rng::new(2024);
    let mut b = Rng::new(2024);
    for _ in 0..32 {
        assert_eq!(a.next(), b.next());
    }
    let mut c = Rng::new(2025);
    let first_a = Rng::new(2024).next();
    let first_c = c.next();
    assert!(first_a != first_c);
}

#[test]
fn proposal_stats_reset_clears_counters() {
    let mut stats = ProposalStats::new();
    stats.record(0, 1, true);
    stats.record(0, BACKGROUND_CELL, false);
    stats.record(BACKGROUND_CELL, 1, true);
    assert_eq!(stats.cell_to_cell_proposed, 1);
    assert_eq!(stats.cell_to_cell_accepted, 1);
    assert_eq!(stats.to_background_proposed, 1);
    assert_eq!(stats.to_background_accepted, 0);
    assert_eq!(stats.from_background_proposed, 1);
    assert_eq!(stats.from_background_accepted, 1);
    stats.reset();
    assert_eq!(stats.cell_to_cell_proposed, 0);
    assert_eq!(stats.from_background_accepted, 0);
}

/// Moves proposed from one chunk's candidate list only ever move that
/// chunk's transcripts.
#[test]
fn chunk_restricted_proposals_stay_in_the_chunk() {
    let (mut params, catalog, graph, areas) = small_state();
    let candidates: Vec<usize> = vec![0, 2];
    let mut rng = Rng::new(5);
    for _ in 0..20 {
        let proposal = propose_from(
            &mut rng,
            &params,
            &graph,
            &catalog.transcripts,
            &areas,
            &candidates,
        );
        assert!(candidates.contains(&proposal.t));
        let accept = decide(&mut rng, 0x4000_0000);
        if accept {
            params.apply_local_move(&catalog.transcripts, &areas, proposal.t, proposal.dest);
        }
        assert_eq!(params.cell_assignments[1], 1);
        assert_eq!(params.cell_assignments[3], BACKGROUND_CELL);
    }
}
