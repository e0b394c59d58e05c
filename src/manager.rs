use vstd::prelude::*;

use crate::config::SwayNameManagerConfig;
use crate::flat::{flat_inventory, flat_inventory_of, Client, FlatWorkspace};
use crate::reconcile::{plan_renames, renames_of, RenameCommand};
use crate::tree::{
    conflicted_workspaces, holders, tree_inventory, tree_inventory_of, window_nodes,
    workspace_nodes_of, IntegrityError, TreeNode,
};

verus! {

/// Keeps the labels of a tree-based backend in step with its windows, under
/// a snapshot of the configuration.
pub struct SwayNameManager {
    pub config: SwayNameManagerConfig,
}

/// What one pass over a layout tree asks for: the renames to send, and an
/// error for each workspace the pass left alone.
pub struct SwayPass {
    pub renames: Vec<RenameCommand>,
    pub errors: Vec<IntegrityError>,
}

impl SwayNameManager {
    pub fn new(config: SwayNameManagerConfig) -> (r: Self)
        ensures
            r.config == config,
    {
        SwayNameManager { config }
    }

    /// One reconciliation pass over the layout tree under `root`.
    pub fn update(&self, root: &TreeNode) -> (r: SwayPass)
        ensures
            r.renames@.map_values(|c: RenameCommand| c@) == renames_of(
                tree_inventory_of(*root),
                self.config@,
            ),
            r.errors@.len() == conflicted_workspaces(*root).len(),
            forall|i: int|
                0 <= i < r.errors@.len() ==> {
                    let w = conflicted_workspaces(*root)[i];
                    &&& (#[trigger] r.errors@[i]).workspace == w.num.unwrap()
                    &&& exists|j: int|
                        0 <= j < window_nodes(w).len() && (#[trigger] window_nodes(w)[j]).id
                            == r.errors@[i].window_id && holders(
                            workspace_nodes_of(*root),
                            r.errors@[i].window_id,
                        ).len() != 1
                },
    {
        let inv = tree_inventory(root);
        let renames = plan_renames(&inv.workspaces, &self.config);
        SwayPass { renames, errors: inv.errors }
    }
}

/// Keeps the labels of a flat backend, which lists workspaces and clients
/// apart, in step with its windows, under a snapshot of the configuration.
pub struct HyprlandManager {
    pub config: SwayNameManagerConfig,
}

impl HyprlandManager {
    pub fn new(config: SwayNameManagerConfig) -> (r: Self)
        ensures
            r.config == config,
    {
        HyprlandManager { config }
    }

    /// The renames of one reconciliation pass over the listed workspaces and
    /// clients.
    pub fn update(&self, workspaces: &Vec<FlatWorkspace>, clients: &Vec<Client>) -> (r: Vec<
        RenameCommand,
    >)
        ensures
            r@.map_values(|c: RenameCommand| c@) == renames_of(
                flat_inventory_of(workspaces@, clients@),
                self.config@,
            ),
    {
        let inv = flat_inventory(workspaces, clients);
        plan_renames(&inv, &self.config)
    }
}

} // verus!
