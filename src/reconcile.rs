use vstd::prelude::*;
use vstd::string::StringExecFns;

use crate::config::{ConfigModel, SwayNameManagerConfig};
use crate::naming::{label, workspace_label, Workspace, WorkspaceView};

verus! {

/// A rename the backend is asked to perform.
pub struct RenameCommand {
    pub id: i32,
    pub old_name: String,
    pub new_name: String,
}

pub struct RenameView {
    pub id: int,
    pub old_name: Seq<char>,
    pub new_name: Seq<char>,
}

impl View for RenameCommand {
    type V = RenameView;

    open spec fn view(&self) -> RenameView {
        RenameView { id: self.id as int, old_name: self.old_name@, new_name: self.new_name@ }
    }
}

/// Whether a workspace shows a label other than the one the policy computes.
pub open spec fn needs_rename(ws: WorkspaceView, cfg: ConfigModel) -> bool {
    workspace_label(ws, cfg) != ws.name
}

pub open spec fn rename_view(ws: WorkspaceView, cfg: ConfigModel) -> RenameView {
    RenameView { id: ws.id, old_name: ws.name, new_name: workspace_label(ws, cfg) }
}

/// The renames of one reconciliation pass: one for each workspace whose
/// label changed, in inventory order.
pub open spec fn renames_of(inv: Seq<WorkspaceView>, cfg: ConfigModel) -> Seq<RenameView>
    decreases inv.len(),
{
    if inv.len() == 0 {
        Seq::empty()
    } else {
        let rest = renames_of(inv.drop_last(), cfg);
        if needs_rename(inv.last(), cfg) {
            rest.push(rename_view(inv.last(), cfg))
        } else {
            rest
        }
    }
}

/// The inventory once the renames of a pass have been applied: every
/// workspace renamed by the pass shows its new label.
pub open spec fn after_pass(inv: Seq<WorkspaceView>, cfg: ConfigModel) -> Seq<WorkspaceView> {
    inv.map_values(
        |ws: WorkspaceView|
            if needs_rename(ws, cfg) {
                WorkspaceView { name: workspace_label(ws, cfg), ..ws }
            } else {
                ws
            },
    )
}

pub open spec fn views_of(inv: Seq<Workspace>) -> Seq<WorkspaceView> {
    inv.map_values(|w: Workspace| w@)
}

/// The renames one reconciliation pass over `inv` issues under `cfg`.
pub fn plan_renames(inv: &Vec<Workspace>, cfg: &SwayNameManagerConfig) -> (r: Vec<RenameCommand>)
    ensures
        r@.map_values(|c: RenameCommand| c@) == renames_of(views_of(inv@), cfg@),
{
    let ghost v = views_of(inv@);
    let mut out: Vec<RenameCommand> = Vec::new();
    let mut i: usize = 0;
    proof {
        assert(v.take(0) =~= Seq::<WorkspaceView>::empty());
        assert(out@.map_values(|c: RenameCommand| c@) =~= renames_of(v.take(0), cfg@));
    }
    while i < inv.len()
        invariant
            i <= inv.len(),
            v == views_of(inv@),
            out@.map_values(|c: RenameCommand| c@) == renames_of(v.take(i as int), cfg@),
        decreases inv.len() - i,
    {
        let ws = &inv[i];
        let new_name = label(ws, cfg);
        proof {
            assert(v.take(i + 1).drop_last() =~= v.take(i as int));
            assert(v.take(i + 1).last() == ws@);
        }
        if !new_name.eq(&ws.name) {
            let ghost before = out@;
            out.push(RenameCommand { id: ws.id, old_name: ws.name.clone(), new_name });
            proof {
                assert(out@.map_values(|c: RenameCommand| c@) =~= before.map_values(
                    |c: RenameCommand| c@,
                ).push(rename_view(ws@, cfg@)));
            }
        }
        i = i + 1;
    }
    proof {
        assert(v.take(inv.len() as int) =~= v);
    }
    out
}

impl RenameCommand {
    /// The command text that asks a tree-based backend for this rename:
    /// `rename workspace "<old>" to "<new>"`.
    pub fn command_text(&self) -> (r: String)
        ensures
            r@ == "rename workspace \""@ + self.old_name@ + "\" to \""@ + self.new_name@ + "\""@,
    {
        let mut out = String::from_str("rename workspace \"");
        out.append(self.old_name.as_str());
        out.append("\" to \"");
        out.append(self.new_name.as_str());
        out.append("\"");
        out
    }
}

/// A pass issues no rename for a workspace that already shows its label, and
/// renames every other workspace to its label.
pub proof fn lemma_renames_exact(inv: Seq<WorkspaceView>, cfg: ConfigModel)
    ensures
        renames_of(inv, cfg) == inv.filter(|ws: WorkspaceView| needs_rename(ws, cfg)).map_values(
            |ws: WorkspaceView| rename_view(ws, cfg),
        ),
    decreases inv.len(),
{
    reveal(Seq::filter);
    if inv.len() > 0 {
        lemma_renames_exact(inv.drop_last(), cfg);
        assert(renames_of(inv, cfg) =~= inv.filter(|ws: WorkspaceView| needs_rename(ws, cfg)).map_values(
            |ws: WorkspaceView| rename_view(ws, cfg),
        ));
    }
}

/// Idempotence: once the renames of a pass are applied, a second pass over
/// the same inventory and configuration issues no rename at all.
pub proof fn lemma_second_pass_idle(inv: Seq<WorkspaceView>, cfg: ConfigModel)
    ensures
        renames_of(after_pass(inv, cfg), cfg).len() == 0,
    decreases inv.len(),
{
    if inv.len() > 0 {
        lemma_second_pass_idle(inv.drop_last(), cfg);
        assert(after_pass(inv, cfg).drop_last() =~= after_pass(inv.drop_last(), cfg));
        let last = after_pass(inv, cfg).last();
        assert(workspace_label(last, cfg) == workspace_label(inv.last(), cfg));
    }
}

} // verus!
