//! Verified core of the MusubiCAD design pipeline: pick-id encoding,
//! deterministic STEP headers, parameter expressions, semantic diffs,
//! topology-reference bookkeeping and sketch profile detection.

pub mod bytes;
pub mod constraint;
pub mod diff;
pub mod equations;
pub mod error;
pub mod expr_steps;
pub mod face_catalog;
pub mod fixtures;
pub mod index_map;
pub mod kernel;
pub mod mesh;
pub mod occt;
pub mod offscreen;
pub mod order;
pub mod overlay;
pub mod param_expr;
pub mod param_graph;
pub mod presentation;
pub mod profile;
pub mod provenance;
pub mod ref_sync;
pub mod refs;
pub mod residual;
pub mod selection;
pub mod step;
pub mod store;
pub mod text;
pub mod topo_sync;
