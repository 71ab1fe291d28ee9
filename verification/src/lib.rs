//! Taxonomic read-classification core: hit aggregation, weighted
//! lowest-common-ancestor consensus, spatial hit-string rendering, and the
//! binary index-header codec, together with the bookkeeping that drives the
//! parallel classification pipeline.

pub mod classify;
pub mod counts;
pub mod hitgroup;
pub mod options;
pub mod pipeline;
pub mod render;
pub mod seed;
pub mod spacedist;
pub mod taxonomy;

pub use classify::{process_hitgroup, resolve_tree, stat_hits};
pub use hitgroup::{HitGroup, OptionPair, Row};
pub use options::{u64_to_option, IndexOptions, Meros};
pub use seed::{construct_seed_template, parse_binary};
pub use taxonomy::{Taxonomy, TaxonomyNode};
