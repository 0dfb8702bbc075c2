//! Ensemble asset pipeline for Halo Wars: table and asset classification,
//! dirty tracking for the edit/save workflow, cross-reference diagnostics,
//! schema-aware mod merging, layered asset resolution and scenario paths.
use vstd::prelude::*;

pub mod assets;
pub mod assoc;
pub mod database;
pub mod diagnostics;
pub mod edit;
pub mod loader;
pub mod manifest;
pub mod merge;
pub mod merge_laws;
pub mod resolve;
pub mod save;
pub mod scenario;
pub mod scene;
pub mod source;
pub mod strset;
pub mod stringtable;
pub mod text;
pub mod validate;
pub mod watch;

verus! {

} // verus!
