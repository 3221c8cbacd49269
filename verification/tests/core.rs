use hexseg::transcripts::{coordinate_span, postprocess_cell_assignments, Transcript, BACKGROUND_CELL};
use hexseg::ingest::{assign_gene_ids, build_catalog, find_column, initial_cell_assignment};
use hexseg::chunks::{choose_chunk_size, chunk_members, ChunkGrid};
use hexseg::graph::{neighborhood_graph, transcript_areas};
use hexseg::area::estimate_full_area;

fn names(rows: &[&str]) -> Vec<Vec<u8>> {
    rows.iter().map(|s| s.as_bytes().to_vec()).collect()
}

#[test]
fn postprocess_counts_each_cell() {
    let assignments: Vec<u32> = vec![2, BACKGROUND_CELL, 0, 2];
    let population = postprocess_cell_assignments(&assignments);
    assert_eq!(population, vec![1, 0, 2]);
}

#[test]
fn postprocess_empty_and_all_background() {
    let empty: Vec<u32> = Vec::new();
    assert_eq!(postprocess_cell_assignments(&empty).len(), 0);
    let all_bg: Vec<u32> = vec![BACKGROUND_CELL; 5];
    assert_eq!(postprocess_cell_assignments(&all_bg).len(), 0);
}

#[test]
fn span_of_empty_catalog_is_the_empty_interval() {
    let ts: Vec<Transcript> = Vec::new();
    let span = coordinate_span(&ts);
    assert_eq!(span, (i64::MAX, i64::MIN, i64::MAX, i64::MIN, i64::MAX, i64::MIN));
}

#[test]
fn span_tracks_every_axis() {
    let ts = vec![
        Transcript { x: -5, y: 2, z: 0, gene: 0 },
        Transcript { x: 7, y: -9, z: 3, gene: 1 },
        Transcript { x: 1, y: 1, z: -2, gene: 0 },
    ];
    let span = coordinate_span(&ts);
    assert_eq!(span, (-5, 7, -9, 2, -2, 3));
}

#[test]
fn find_column_returns_first_match_or_nothing() {
    let headers = names(&["x_location", "y_location", "feature_name"]);
    assert_eq!(find_column(&headers, &b"y_location".to_vec()), Some(1));
    assert_eq!(find_column(&headers, &b"qv".to_vec()), None);
}

#[test]
fn gene_ids_are_dense_in_first_seen_order() {
    let rows = names(&["GENE_B", "GENE_A", "GENE_B", "GENE_C", "GENE_A"]);
    let (dict, ids) = assign_gene_ids(&rows);
    assert_eq!(dict, names(&["GENE_B", "GENE_A", "GENE_C"]));
    assert_eq!(ids, vec![0, 1, 0, 2, 1]);
}

#[test]
fn nucleus_overlap_rule() {
    assert_eq!(initial_cell_assignment(3, 1), 3);
    assert_eq!(initial_cell_assignment(3, 0), BACKGROUND_CELL);
    assert_eq!(initial_cell_assignment(-1, 1), BACKGROUND_CELL);
}

#[test]
fn catalog_assembles_rows() {
    let rows = names(&["g0", "g1", "g0", "g1"]);
    let xs: Vec<i64> = vec![0, 10, 0, 10];
    let ys: Vec<i64> = vec![0, 0, 10, 10];
    let zs: Vec<i64> = vec![0, 0, 0, 0];
    let cell_ids: Vec<i32> = vec![0, 1, -1, 5];
    let overlaps: Vec<i32> = vec![1, 1, 1, 0];
    let catalog = build_catalog(&rows, &xs, &ys, &zs, &cell_ids, &overlaps);
    assert_eq!(catalog.gene_names, names(&["g0", "g1"]));
    assert_eq!(catalog.transcripts.len(), 4);
    assert_eq!(catalog.transcripts[1].x, 10);
    assert_eq!(catalog.transcripts[2].gene, 0);
    assert_eq!(
        catalog.cell_assignments,
        vec![0, 1, BACKGROUND_CELL, BACKGROUND_CELL]
    );
    assert_eq!(catalog.cell_population, vec![1, 1]);
}

#[test]
fn chunk_size_search_grows_until_dense_enough() {
    // size 1: 16 chunks; size 2: 4 chunks; size 4: one chunk, and
    // 100 cells / 1 chunk meets the 100-cell threshold.
    let size = choose_chunk_size(1, 100, 4, 4, 100);
    assert_eq!(size, 4);
    // Already satisfied at the initial size: nothing grows.
    assert_eq!(choose_chunk_size(7, 50, 4, 4, 1), 7);
    // No cells at all: the threshold is zero and the search stops at once.
    assert_eq!(choose_chunk_size(3, 0, 100, 100, 0), 3);
}

#[test]
fn every_point_maps_to_one_chunk() {
    let grid = ChunkGrid::new(0, 10, 0, 10, 5);
    assert_eq!(grid.chunk_count(), 9);
    assert_eq!(grid.chunk_of(0, 0), 0);
    assert_eq!(grid.chunk_of(4, 0), 0);
    assert_eq!(grid.chunk_of(5, 0), 1);
    assert_eq!(grid.chunk_of(0, 5), 3);
    assert_eq!(grid.chunk_of(10, 10), 8);
    for x in 0..=10i64 {
        for y in 0..=10i64 {
            let c = grid.chunk_of(x, y);
            assert!(c < grid.chunk_count());
        }
    }
}

#[test]
fn neighborhood_graph_is_symmetric() {
    let ts = vec![
        Transcript { x: 0, y: 0, z: 0, gene: 0 },
        Transcript { x: 3, y: 0, z: 0, gene: 1 },
        Transcript { x: 100, y: 0, z: 0, gene: 0 },
    ];
    let graph = neighborhood_graph(&ts, 25);
    assert_eq!(graph.degree(0), 1);
    assert_eq!(graph.neighbor(0, 0), 1);
    assert_eq!(graph.degree(1), 1);
    assert_eq!(graph.neighbor(1, 0), 0);
    assert_eq!(graph.degree(2), 0);
}

#[test]
fn transcript_area_is_inverse_density() {
    let ts = vec![
        Transcript { x: 0, y: 0, z: 0, gene: 0 },
        Transcript { x: 3, y: 0, z: 0, gene: 1 },
        Transcript { x: 100, y: 0, z: 0, gene: 0 },
    ];
    let graph = neighborhood_graph(&ts, 25);
    let areas = transcript_areas(&graph, 100);
    assert_eq!(areas, vec![50, 50, 100]);
}

#[test]
fn area_estimate_counts_occupied_bins_once() {
    let ts = vec![
        Transcript { x: 0, y: 0, z: 0, gene: 0 },
        Transcript { x: 5, y: 5, z: 0, gene: 0 },
    ];
    // Both transcripts share the single occupied bin.
    assert_eq!(estimate_full_area(&ts, 10, 0, 5, 0, 5), 100);
    let spread = vec![
        Transcript { x: 0, y: 0, z: 0, gene: 0 },
        Transcript { x: 25, y: 0, z: 0, gene: 0 },
    ];
    // Two occupied bins out of three columns: margins are not counted.
    assert_eq!(estimate_full_area(&spread, 10, 0, 25, 0, 0), 200);
}

#[test]
fn chunks_partition_the_transcripts() {
    let ts = vec![
        Transcript { x: 0, y: 0, z: 0, gene: 0 },
        Transcript { x: 9, y: 9, z: 0, gene: 0 },
        Transcript { x: 2, y: 7, z: 0, gene: 1 },
        Transcript { x: 10, y: 0, z: 0, gene: 1 },
    ];
    let grid = ChunkGrid::new(0, 10, 0, 10, 5);
    let members = chunk_members(&grid, &ts);
    assert_eq!(members.len() as u64, grid.chunk_count());
    let mut seen = vec![0usize; ts.len()];
    for (c, list) in members.iter().enumerate() {
        for &t in list {
            seen[t] += 1;
            assert_eq!(grid.chunk_of(ts[t].x, ts[t].y) as usize, c);
        }
    }
    assert!(seen.iter().all(|&count| count == 1));
}
