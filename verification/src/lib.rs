use vstd::prelude::*;

pub mod anti_workflow;
pub mod engine;
pub mod models;
pub mod process;
pub mod registry;

pub use crate::anti_workflow::create_anti_workflow;

use crate::engine::RollbackTable;

verus! {

/// Start-up configuration: the broker endpoint list and the static rollback
/// function table, both loaded once before the control loops start and
/// read-only afterwards.
#[derive(Debug)]
pub struct ManagerConfiguration {
    pub hosts: Vec<String>,
    pub rollback_functions: RollbackTable,
}

} // verus!
