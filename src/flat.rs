use vstd::prelude::*;

use crate::naming::{Window, WindowView, Workspace, WorkspaceView};
use crate::tree::lemma_filter_step;

verus! {

/// A client as a flat backend lists it: its class, the workspace it is on,
/// and whether it is fullscreen.
pub struct Client {
    pub class: String,
    pub workspace_id: i32,
    pub fullscreen: bool,
}

/// A workspace as a flat backend lists it: its id and the name it shows.
pub struct FlatWorkspace {
    pub id: i32,
    pub name: String,
}

pub open spec fn client_window(c: Client) -> WindowView {
    WindowView { app_id: c.class@, fullscreen: c.fullscreen }
}

/// The windows of workspace `id`: the clients on it, in the order listed.
pub open spec fn windows_on(clients: Seq<Client>, id: i32) -> Seq<WindowView> {
    clients.filter(|c: Client| c.workspace_id == id).map_values(|c: Client| client_window(c))
}

pub open spec fn flat_entry(w: FlatWorkspace, clients: Seq<Client>) -> WorkspaceView {
    WorkspaceView { id: w.id as int, windows: windows_on(clients, w.id), name: w.name@ }
}

/// The inventory that two flat listings stand for: each listed workspace, in
/// the order listed, with the clients that name it.
pub open spec fn flat_inventory_of(workspaces: Seq<FlatWorkspace>, clients: Seq<Client>) -> Seq<
    WorkspaceView,
> {
    workspaces.map_values(|w: FlatWorkspace| flat_entry(w, clients))
}

/// The windows of workspace `id`, in the order the clients are listed.
fn clients_on(clients: &Vec<Client>, id: i32) -> (r: Vec<Window>)
    ensures
        r@.map_values(|w: Window| w@) == windows_on(clients@, id),
{
    let ghost pred = |c: Client| c.workspace_id == id;
    let mut out: Vec<Window> = Vec::new();
    let mut i: usize = 0;
    proof {
        reveal(Seq::filter);
        assert(clients@.take(0) =~= Seq::<Client>::empty());
        assert(out@.map_values(|w: Window| w@) =~= clients@.take(0).filter(pred).map_values(
            |c: Client| client_window(c),
        ));
    }
    while i < clients.len()
        invariant
            i <= clients.len(),
            pred == (|c: Client| c.workspace_id == id),
            out@.map_values(|w: Window| w@) == clients@.take(i as int).filter(pred).map_values(
                |c: Client| client_window(c),
            ),
        decreases clients.len() - i,
    {
        let c = &clients[i];
        let ghost before = out@;
        proof {
            lemma_filter_step(clients@, i as int, pred);
            assert(clients@[i as int] == *c);
        }
        if c.workspace_id == id {
            out.push(Window { app_id: c.class.clone(), fullscreen: c.fullscreen });
            proof {
                assert(out@.map_values(|w: Window| w@) =~= before.map_values(|w: Window| w@).push(
                    client_window(*c),
                ));
                assert(out@.map_values(|w: Window| w@) =~= clients@.take(i + 1).filter(
                    pred,
                ).map_values(|c: Client| client_window(c)));
            }
        }
        i = i + 1;
    }
    proof {
        assert(clients@.take(clients.len() as int) =~= clients@);
    }
    out
}

/// Groups the listed clients under the listed workspaces by workspace id.
pub fn flat_inventory(workspaces: &Vec<FlatWorkspace>, clients: &Vec<Client>) -> (r: Vec<Workspace>)
    ensures
        r@.map_values(|w: Workspace| w@) == flat_inventory_of(workspaces@, clients@),
{
    let mut out: Vec<Workspace> = Vec::new();
    let mut i: usize = 0;
    while i < workspaces.len()
        invariant
            i <= workspaces.len(),
            out@.map_values(|w: Workspace| w@) == flat_inventory_of(
                workspaces@.take(i as int),
                clients@,
            ),
        decreases workspaces.len() - i,
    {
        let w = &workspaces[i];
        let windows = clients_on(clients, w.id);
        let ghost before = out@;
        let entry = Workspace { id: w.id, windows, name: w.name.clone() };
        assert(entry@ == flat_entry(*w, clients@));
        out.push(entry);
        proof {
            assert(workspaces@.take(i + 1) =~= workspaces@.take(i as int).push(*w));
            assert(out@.map_values(|w: Workspace| w@) =~= before.map_values(|w: Workspace| w@).push(
                flat_entry(*w, clients@),
            ));
            assert(out@.map_values(|w: Workspace| w@) =~= flat_inventory_of(
                workspaces@.take(i + 1),
                clients@,
            ));
        }
        i = i + 1;
    }
    proof {
        assert(workspaces@.take(workspaces.len() as int) =~= workspaces@);
    }
    out
}

} // verus!
