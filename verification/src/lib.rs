//! Probabilistic segmentation of spatial transcriptomics data: a catalog of
//! located molecule detections is partitioned into cell regions by Markov
//! chain Monte Carlo over a spatial neighborhood graph. The library holds
//! the discrete engine — the catalog, the graph, the chunk grid that makes
//! local moves parallelizable, the model state with its sufficient
//! statistics, and the local-move machinery — with its invariants proved:
//! the per-cell tallies always equal what the assignment vector implies,
//! transcripts are conserved, the cell roster never changes, the graph is
//! symmetric, the chunks partition the region, and the move engine is a
//! pure function of its seed.

pub mod area;
pub mod chunks;
pub mod graph;
pub mod ingest;
pub mod params;
pub mod sampler;
pub mod transcripts;
