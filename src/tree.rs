use vstd::prelude::*;

use crate::naming::{Window, WindowView, Workspace, WorkspaceView};

verus! {

/// Kind of a container in the window manager's layout tree.
pub enum NodeKind {
    Root,
    Output,
    Workspace,
    Con,
    FloatingCon,
    Dockarea,
}

/// A node of the window manager's layout tree.
pub struct TreeNode {
    pub id: i64,
    pub kind: NodeKind,
    /// Workspace number; absent for workspaces without one (the scratch area).
    pub num: Option<i32>,
    pub name: Option<String>,
    /// Application id of a native client.
    pub app_id: Option<String>,
    /// Instance name of a compatibility-layer client.
    pub instance: Option<String>,
    pub fullscreen: bool,
    pub nodes: Vec<TreeNode>,
}

/// Collects `own` over a forest in work-list order: the last tree first,
/// each tree as its root followed by its children's forest.
pub open spec fn forest_collect<T>(f: Seq<TreeNode>, own: spec_fn(TreeNode) -> Seq<T>) -> Seq<T>
    decreases f,
{
    if f.len() == 0 {
        Seq::empty()
    } else {
        let n = f.last();
        own(n) + forest_collect(n.nodes@, own) + forest_collect(f.drop_last(), own)
    }
}

/// Application identifier of a node: its app id, else its instance name.
pub open spec fn node_app(n: TreeNode) -> Option<Seq<char>> {
    match n.app_id {
        Some(a) => Some(a@),
        None => match n.instance {
            Some(i) => Some(i@),
            None => None,
        },
    }
}

pub open spec fn own_window(n: TreeNode) -> Seq<WindowView> {
    if n.kind is Con && node_app(n) is Some {
        seq![WindowView { app_id: node_app(n).unwrap(), fullscreen: n.fullscreen }]
    } else {
        Seq::empty()
    }
}

pub open spec fn own_node(n: TreeNode) -> Seq<TreeNode> {
    seq![n]
}

/// The windows of a forest in traversal order.
pub open spec fn forest_windows(f: Seq<TreeNode>) -> Seq<WindowView> {
    forest_collect(f, |n: TreeNode| own_window(n))
}

/// Every node of a forest in traversal order.
pub open spec fn forest_nodes(f: Seq<TreeNode>) -> Seq<TreeNode> {
    forest_collect(f, |n: TreeNode| own_node(n))
}

/// The windows under `n`, `n` included, in traversal order.
pub open spec fn subtree_windows(n: TreeNode) -> Seq<WindowView> {
    forest_windows(seq![n])
}

pub proof fn lemma_forest_append<T>(a: Seq<TreeNode>, b: Seq<TreeNode>, own: spec_fn(TreeNode) -> Seq<T>)
    ensures
        forest_collect(a + b, own) == forest_collect(b, own) + forest_collect(a, own),
    decreases b.len(),
{
    if b.len() == 0 {
        assert(a + b =~= a);
        assert(forest_collect(b, own) =~= Seq::<T>::empty());
        assert(forest_collect(a + b, own) =~= forest_collect(b, own) + forest_collect(a, own));
    } else {
        let ab = a + b;
        assert(ab.last() == b.last());
        assert(ab.drop_last() =~= a + b.drop_last());
        lemma_forest_append(a, b.drop_last(), own);
        assert(forest_collect(a + b, own) =~= forest_collect(b, own) + forest_collect(a, own));
    }
}

pub open spec fn deref_all(s: Seq<&TreeNode>) -> Seq<TreeNode> {
    s.map_values(|r: &TreeNode| *r)
}

/// The windows under `n`, `n` included, in traversal order.
pub fn window_list(n: &TreeNode) -> (r: Vec<Window>)
    ensures
        r@.map_values(|w: Window| w@) == subtree_windows(*n),
{
    let mut stack: Vec<&TreeNode> = Vec::new();
    stack.push(n);
    let mut out: Vec<Window> = Vec::new();
    proof {
        assert(deref_all(stack@) =~= seq![*n]);
    }
    while stack.len() > 0
        invariant
            out@.map_values(|w: Window| w@) + forest_windows(deref_all(stack@)) == subtree_windows(*n),
        decreases forest_nodes(deref_all(stack@)).len(),
    {
        let ghost before = deref_all(stack@);
        let ghost out_before = out@;
        let node = stack.pop().unwrap();
        let ghost rest = deref_all(stack@);
        proof {
            assert(before.drop_last() =~= rest);
            assert(before.last() == *node);
        }
        if let NodeKind::Con = node.kind {
            if let Some(a) = &node.app_id {
                out.push(Window { app_id: a.clone(), fullscreen: node.fullscreen });
            } else if let Some(i) = &node.instance {
                out.push(Window { app_id: i.clone(), fullscreen: node.fullscreen });
            }
        }
        proof {
            assert(out@.map_values(|w: Window| w@) =~= out_before.map_values(|w: Window| w@)
                + own_window(*node));
        }
        let k = node.nodes.len();
        let mut j: usize = 0;
        while j < k
            invariant
                j <= k == node.nodes.len(),
                deref_all(stack@) == rest + node.nodes@.take(j as int),
            decreases k - j,
        {
            let ghost s0 = deref_all(stack@);
            let child = &node.nodes[j];
            stack.push(child);
            proof {
                assert(deref_all(stack@) =~= s0.push(*child));
                assert(node.nodes@.take(j + 1) =~= node.nodes@.take(j as int).push(*child));
                assert(deref_all(stack@) =~= rest + node.nodes@.take(j + 1));
            }
            j = j + 1;
        }
        proof {
            assert(node.nodes@.take(k as int) =~= node.nodes@);
            lemma_forest_append(rest, node.nodes@, |m: TreeNode| own_window(m));
            lemma_forest_append(rest, node.nodes@, |m: TreeNode| own_node(m));
            assert(out@.map_values(|w: Window| w@) + forest_windows(deref_all(stack@))
                =~= out_before.map_values(|w: Window| w@) + forest_windows(before));
        }
    }
    proof {
        assert(forest_windows(deref_all(stack@)) =~= Seq::<WindowView>::empty());
        assert(out@.map_values(|w: Window| w@) =~= subtree_windows(*n));
    }
    out
}

/// Every node under `n`, `n` included, in traversal order.
pub fn node_list(n: &TreeNode) -> (r: Vec<&TreeNode>)
    ensures
        deref_all(r@) == forest_nodes(seq![*n]),
{
    let mut stack: Vec<&TreeNode> = Vec::new();
    stack.push(n);
    let mut out: Vec<&TreeNode> = Vec::new();
    proof {
        assert(deref_all(stack@) =~= seq![*n]);
        assert(deref_all(out@) =~= Seq::<TreeNode>::empty());
    }
    while stack.len() > 0
        invariant
            deref_all(out@) + forest_nodes(deref_all(stack@)) == forest_nodes(seq![*n]),
        decreases forest_nodes(deref_all(stack@)).len(),
    {
        let ghost before = deref_all(stack@);
        let ghost out_before = deref_all(out@);
        let node = stack.pop().unwrap();
        let ghost rest = deref_all(stack@);
        proof {
            assert(before.drop_last() =~= rest);
            assert(before.last() == *node);
        }
        out.push(node);
        proof {
            assert(deref_all(out@) =~= out_before + own_node(*node));
        }
        let k = node.nodes.len();
        let mut j: usize = 0;
        while j < k
            invariant
                j <= k == node.nodes.len(),
                deref_all(stack@) == rest + node.nodes@.take(j as int),
            decreases k - j,
        {
            let ghost s0 = deref_all(stack@);
            let child = &node.nodes[j];
            stack.push(child);
            proof {
                assert(deref_all(stack@) =~= s0.push(*child));
                assert(node.nodes@.take(j + 1) =~= node.nodes@.take(j as int).push(*child));
            }
            j = j + 1;
        }
        proof {
            assert(node.nodes@.take(k as int) =~= node.nodes@);
            lemma_forest_append(rest, node.nodes@, |m: TreeNode| own_node(m));
            assert(deref_all(out@) + forest_nodes(deref_all(stack@)) =~= out_before + forest_nodes(
                before,
            ));
        }
    }
    proof {
        assert(forest_nodes(deref_all(stack@)) =~= Seq::<TreeNode>::empty());
        assert(deref_all(out@) =~= forest_nodes(seq![*n]));
    }
    out
}

/// A workspace that carries a number; the scratch area carries none.
pub open spec fn is_numbered_workspace(n: TreeNode) -> bool {
    n.kind is Workspace && n.num is Some
}

/// The numbered workspaces of the tree under `root`, in traversal order.
pub open spec fn workspace_nodes_of(root: TreeNode) -> Seq<TreeNode> {
    forest_nodes(seq![root]).filter(|n: TreeNode| is_numbered_workspace(n))
}

/// Whether some node under `n`, `n` included, has identifier `id`.
pub open spec fn subtree_has_id(n: TreeNode, id: i64) -> bool {
    exists|i: int| 0 <= i < forest_nodes(seq![n]).len() && #[trigger] forest_nodes(seq![n])[i].id == id
}

/// The workspaces among `wss` that hold a node with identifier `id`.
pub open spec fn holders(wss: Seq<TreeNode>, id: i64) -> Seq<TreeNode> {
    wss.filter(|w: TreeNode| subtree_has_id(w, id))
}

/// The window containers under `n`, in traversal order.
pub open spec fn window_nodes(n: TreeNode) -> Seq<TreeNode> {
    forest_nodes(seq![n]).filter(|m: TreeNode| m.kind is Con)
}

/// Whether a window container under `w` is held by other than exactly one
/// workspace of `wss`.
pub open spec fn conflicted(wss: Seq<TreeNode>, w: TreeNode) -> bool {
    exists|i: int|
        0 <= i < window_nodes(w).len() && holders(wss, #[trigger] window_nodes(w)[i].id).len() != 1
}

/// Filtering one more element of a sequence keeps it or not by `pred`.
pub proof fn lemma_filter_step<A>(s: Seq<A>, i: int, pred: spec_fn(A) -> bool)
    requires
        0 <= i < s.len(),
    ensures
        s.take(i + 1).filter(pred) == if pred(s[i]) {
            s.take(i).filter(pred).push(s[i])
        } else {
            s.take(i).filter(pred)
        },
{
    reveal(Seq::filter);
    assert(s.take(i + 1).drop_last() =~= s.take(i));
    assert(s.take(i + 1).last() == s[i]);
}

/// The numbered workspaces of the tree under `root`, in traversal order.
pub fn get_workspace_nodes(root: &TreeNode) -> (r: Vec<&TreeNode>)
    ensures
        deref_all(r@) == workspace_nodes_of(*root),
{
    let all = node_list(root);
    let ghost nodes = deref_all(all@);
    let ghost pred = |n: TreeNode| is_numbered_workspace(n);
    let mut out: Vec<&TreeNode> = Vec::new();
    let mut i: usize = 0;
    proof {
        reveal(Seq::filter);
        assert(nodes.take(0) =~= Seq::<TreeNode>::empty());
        assert(deref_all(out@) =~= nodes.take(0).filter(pred));
    }
    while i < all.len()
        invariant
            i <= all.len(),
            nodes == deref_all(all@),
            nodes == forest_nodes(seq![*root]),
            pred == (|n: TreeNode| is_numbered_workspace(n)),
            deref_all(out@) == nodes.take(i as int).filter(pred),
        decreases all.len() - i,
    {
        let node = all[i];
        let ghost out_before = deref_all(out@);
        proof {
            lemma_filter_step(nodes, i as int, pred);
            assert(nodes[i as int] == *node);
        }
        if let NodeKind::Workspace = node.kind {
            if node.num.is_some() {
                out.push(node);
                proof {
                    assert(deref_all(out@) =~= out_before.push(*node));
                }
            }
        }
        i = i + 1;
    }
    proof {
        assert(nodes.take(all.len() as int) =~= nodes);
    }
    out
}

/// Whether some node under `ws`, `ws` included, has identifier `id`.
pub fn contains(ws: &TreeNode, id: i64) -> (r: bool)
    ensures
        r == subtree_has_id(*ws, id),
{
    let all = node_list(ws);
    let mut i: usize = 0;
    while i < all.len()
        invariant
            i <= all.len(),
            deref_all(all@) == forest_nodes(seq![*ws]),
            forall|j: int| 0 <= j < i ==> (#[trigger] forest_nodes(seq![*ws])[j]).id != id,
        decreases all.len() - i,
    {
        proof {
            assert(deref_all(all@)[i as int] == *all[i as int]);
        }
        if all[i].id == id {
            return true;
        }
        i = i + 1;
    }
    false
}

/// The one workspace of `wss` that holds a node with identifier `id`; none
/// when no workspace or several of them do.
pub fn get_workspace<'a>(wss: &Vec<&'a TreeNode>, id: i64) -> (r: Option<&'a TreeNode>)
    ensures
        r is Some <==> holders(deref_all(wss@), id).len() == 1,
        r matches Some(w) ==> *w == holders(deref_all(wss@), id)[0],
{
    let ghost s = deref_all(wss@);
    let ghost pred = |w: TreeNode| subtree_has_id(w, id);
    let mut found: Option<&'a TreeNode> = None;
    let mut i: usize = 0;
    proof {
        reveal(Seq::filter);
        assert(s.take(0) =~= Seq::<TreeNode>::empty());
    }
    while i < wss.len()
        invariant
            i <= wss.len(),
            s == deref_all(wss@),
            pred == (|w: TreeNode| subtree_has_id(w, id)),
            s.take(i as int).filter(pred).len() <= 1,
            found is Some <==> s.take(i as int).filter(pred).len() == 1,
            found matches Some(w) ==> *w == s.take(i as int).filter(pred)[0],
        decreases wss.len() - i,
    {
        proof {
            lemma_filter_step(s, i as int, pred);
            assert(s[i as int] == *wss[i as int]);
        }
        if contains(wss[i], id) {
            if found.is_some() {
                proof {
                    let t = s.take(i + 1).filter(pred);
                    s.subrange(i + 1, s.len() as int).lemma_filter_len(pred);
                    assert(t.len() == 2);
                    assert(s =~= s.take(i + 1) + s.subrange(i + 1, s.len() as int));
                    Seq::filter_distributes_over_add(
                        s.take(i + 1),
                        s.subrange(i + 1, s.len() as int),
                        pred,
                    );
                }
                return None;
            }
            found = Some(wss[i]);
        }
        i = i + 1;
    }
    proof {
        assert(s.take(wss.len() as int) =~= s);
    }
    found
}

/// A window container found under more than one workspace (or under none of
/// them): the snapshot is inconsistent for the workspace that holds it.
pub struct IntegrityError {
    pub window_id: i64,
    pub workspace: i32,
}

/// The first window container under `w` that is not held by exactly one of
/// `wss`.
fn first_conflict(wss: &Vec<&TreeNode>, w: &TreeNode) -> (r: Option<i64>)
    ensures
        r is None <==> !conflicted(deref_all(wss@), *w),
        r matches Some(id) ==> exists|i: int|
            0 <= i < window_nodes(*w).len() && (#[trigger] window_nodes(*w)[i]).id == id && holders(
                deref_all(wss@),
                id,
            ).len() != 1,
{
    let all = node_list(w);
    let ghost nodes = deref_all(all@);
    let ghost is_con = |m: TreeNode| m.kind is Con;
    let mut i: usize = 0;
    while i < all.len()
        invariant
            i <= all.len(),
            nodes == deref_all(all@),
            nodes == forest_nodes(seq![*w]),
            is_con == (|m: TreeNode| m.kind is Con),
            forall|j: int|
                0 <= j < i && (#[trigger] nodes[j]).kind is Con ==> holders(
                    deref_all(wss@),
                    nodes[j].id,
                ).len() == 1,
        decreases all.len() - i,
    {
        let node = all[i];
        proof {
            assert(nodes[i as int] == *node);
        }
        if let NodeKind::Con = node.kind {
            if get_workspace(wss, node.id).is_none() {
                proof {
                    nodes.lemma_filter_contains(is_con, i as int);
                    let k = choose|k: int|
                        0 <= k < nodes.filter(is_con).len() && nodes.filter(is_con)[k] == *node;
                    assert(window_nodes(*w)[k].id == node.id);
                }
                return Some(node.id);
            }
        }
        i = i + 1;
    }
    proof {
        assert forall|k: int| 0 <= k < window_nodes(*w).len() implies holders(
            deref_all(wss@),
            #[trigger] window_nodes(*w)[k].id,
        ).len() == 1 by {
            let elem = window_nodes(*w)[k];
            assert(nodes.filter(is_con).contains(elem));
            nodes.lemma_filter_contains_rev(is_con, elem);
            nodes.lemma_filter_pred(is_con, k);
            let j = choose|j: int| 0 <= j < nodes.len() && nodes[j] == elem;
            assert(nodes[j].kind is Con);
        }
    }
    None
}

pub open spec fn name_or_empty(name: Option<String>) -> Seq<char> {
    match name {
        Some(n) => n@,
        None => Seq::empty(),
    }
}

/// The inventory entry of a numbered workspace node.
pub open spec fn workspace_view_of(w: TreeNode) -> WorkspaceView {
    WorkspaceView { id: w.num.unwrap() as int, windows: subtree_windows(w), name: name_or_empty(w.name) }
}

/// The numbered workspaces under `root` whose windows are each held by
/// exactly one workspace.
pub open spec fn sound_workspaces(root: TreeNode) -> Seq<TreeNode> {
    let wss = workspace_nodes_of(root);
    wss.filter(|w: TreeNode| !conflicted(wss, w))
}

/// The numbered workspaces under `root` holding a window that is not held by
/// exactly one workspace.
pub open spec fn conflicted_workspaces(root: TreeNode) -> Seq<TreeNode> {
    let wss = workspace_nodes_of(root);
    wss.filter(|w: TreeNode| conflicted(wss, w))
}

/// The inventory that a layout tree stands for: every numbered workspace whose
/// windows are all its own, in traversal order.
pub open spec fn tree_inventory_of(root: TreeNode) -> Seq<WorkspaceView> {
    sound_workspaces(root).map_values(|w: TreeNode| workspace_view_of(w))
}

/// An inventory snapshot built from a layout tree, with an error for each
/// workspace left out of it.
pub struct TreeInventory {
    pub workspaces: Vec<Workspace>,
    pub errors: Vec<IntegrityError>,
}

/// The inventory entry of a numbered workspace node.
fn workspace_entry(w: &TreeNode) -> (r: Workspace)
    requires
        is_numbered_workspace(*w),
    ensures
        r@ == workspace_view_of(*w),
{
    let windows = window_list(w);
    let name = match &w.name {
        Some(n) => n.clone(),
        None => String::new(),
    };
    let id = match w.num {
        Some(n) => n,
        None => 0,
    };
    Workspace { id, windows, name }
}

/// Builds the inventory snapshot of the tree under `root`. A workspace holding
/// a window found under another workspace too is left out, and an
/// `IntegrityError` naming it and that window is reported instead.
pub fn tree_inventory(root: &TreeNode) -> (r: TreeInventory)
    ensures
        r.workspaces@.map_values(|w: Workspace| w@) == tree_inventory_of(*root),
        r.errors@.len() == conflicted_workspaces(*root).len(),
        forall|i: int|
            0 <= i < r.errors@.len() ==> {
                let w = conflicted_workspaces(*root)[i];
                &&& (#[trigger] r.errors@[i]).workspace == w.num.unwrap()
                &&& exists|j: int|
                    0 <= j < window_nodes(w).len() && (#[trigger] window_nodes(w)[j]).id
                        == r.errors@[i].window_id && holders(workspace_nodes_of(*root), r.errors@[i].window_id).len() != 1
            },
{
    let wss = get_workspace_nodes(root);
    let ghost s = deref_all(wss@);
    let ghost sound = |w: TreeNode| !conflicted(s, w);
    let ghost bad = |w: TreeNode| conflicted(s, w);
    let mut workspaces: Vec<Workspace> = Vec::new();
    let mut errors: Vec<IntegrityError> = Vec::new();
    let mut i: usize = 0;
    proof {
        reveal(Seq::filter);
        assert(s.take(0) =~= Seq::<TreeNode>::empty());
        assert(workspaces@.map_values(|w: Workspace| w@) =~= s.take(0).filter(sound).map_values(
            |w: TreeNode| workspace_view_of(w),
        ));
    }
    while i < wss.len()
        invariant
            i <= wss.len(),
            s == deref_all(wss@),
            s == workspace_nodes_of(*root),
            sound == (|w: TreeNode| !conflicted(s, w)),
            bad == (|w: TreeNode| conflicted(s, w)),
            workspaces@.map_values(|w: Workspace| w@) == s.take(i as int).filter(sound).map_values(
                |w: TreeNode| workspace_view_of(w),
            ),
            errors@.len() == s.take(i as int).filter(bad).len(),
            forall|k: int|
                0 <= k < errors@.len() ==> {
                    let w = s.take(i as int).filter(bad)[k];
                    &&& (#[trigger] errors@[k]).workspace == w.num.unwrap()
                    &&& exists|j: int|
                        0 <= j < window_nodes(w).len() && (#[trigger] window_nodes(w)[j]).id
                            == errors@[k].window_id && holders(s, errors@[k].window_id).len() != 1
                },
        decreases wss.len() - i,
    {
        let w = wss[i];
        let ghost errs_before = errors@;
        proof {
            lemma_filter_step(s, i as int, sound);
            lemma_filter_step(s, i as int, bad);
            assert(s[i as int] == *w);
            assert(is_numbered_workspace(*w)) by {
                let all = forest_nodes(seq![*root]);
                all.lemma_filter_pred(|n: TreeNode| is_numbered_workspace(n), i as int);
            }
        }
        match first_conflict(&wss, w) {
            None => {
                let entry = workspace_entry(w);
                workspaces.push(entry);
                proof {
                    assert(sound(*w));
                    assert(s.take(i + 1).filter(sound) == s.take(i as int).filter(sound).push(*w));
                    assert(s.take(i + 1).filter(sound).map_values(|w: TreeNode| workspace_view_of(w))
                        =~= s.take(i as int).filter(sound).map_values(
                        |w: TreeNode| workspace_view_of(w),
                    ).push(workspace_view_of(*w)));
                    assert(workspaces@.map_values(|w: Workspace| w@) =~= s.take(i + 1).filter(
                        sound,
                    ).map_values(|w: TreeNode| workspace_view_of(w)));
                }
            },
            Some(id) => {
                let num = match w.num {
                    Some(n) => n,
                    None => 0,
                };
                errors.push(IntegrityError { window_id: id, workspace: num });
                proof {
                    let f = s.take(i + 1).filter(bad);
                    assert(f == s.take(i as int).filter(bad).push(*w));
                    assert forall|k: int| 0 <= k < errors@.len() implies {
                        let w = f[k];
                        &&& (#[trigger] errors@[k]).workspace == w.num.unwrap()
                        &&& exists|j: int|
                            0 <= j < window_nodes(w).len() && (#[trigger] window_nodes(w)[j]).id
                                == errors@[k].window_id && holders(s, errors@[k].window_id).len() != 1
                    } by {
                        if k < errors@.len() - 1 {
                            assert(errors@[k] == errs_before[k]);
                            assert(f[k] == s.take(i as int).filter(bad)[k]);
                        }
                    }
                }
            },
        }
        i = i + 1;
    }
    proof {
        assert(s.take(wss.len() as int) =~= s);
    }
    TreeInventory { workspaces, errors }
}

/// Two positions of a sequence that both pass `pred` leave at least two
/// elements in its filter.
proof fn lemma_filter_two<A>(s: Seq<A>, pred: spec_fn(A) -> bool, i: int, j: int)
    requires
        0 <= i < j < s.len(),
        pred(s[i]),
        pred(s[j]),
    ensures
        s.filter(pred).len() >= 2,
{
    let a = s.take(j);
    let b = s.subrange(j, s.len() as int);
    assert(s =~= a + b);
    Seq::filter_distributes_over_add(a, b, pred);
    assert(a[i] == s[i]);
    a.lemma_filter_contains(pred, i);
    assert(b[0] == s[j]);
    b.lemma_filter_contains(pred, 0);
}

/// Containment: a window container of one numbered workspace that is also
/// found under another puts the first in conflict, so `tree_inventory` leaves
/// it out and reports it. Hence no window is named in the labels of two
/// workspaces of one pass.
pub proof fn lemma_shared_window_conflicts(root: TreeNode, p: int, q: int, k: int)
    requires
        0 <= p < workspace_nodes_of(root).len(),
        0 <= q < workspace_nodes_of(root).len(),
        p != q,
        0 <= k < window_nodes(workspace_nodes_of(root)[p]).len(),
    ensures
        subtree_has_id(
            workspace_nodes_of(root)[q],
            window_nodes(workspace_nodes_of(root)[p])[k].id,
        ) ==> conflicted(workspace_nodes_of(root), workspace_nodes_of(root)[p]),
{
    let wss = workspace_nodes_of(root);
    let w = wss[p];
    let c = window_nodes(w)[k];
    let nodes = forest_nodes(seq![w]);
    let is_con = |m: TreeNode| m.kind is Con;
    assert(nodes.filter(is_con)[k] == c);
    assert(nodes.filter(is_con).contains(c));
    nodes.lemma_filter_contains_rev(is_con, c);
    let m = choose|m: int| 0 <= m < nodes.len() && nodes[m] == c;
    assert(nodes[m].id == c.id);
    assert(subtree_has_id(w, c.id));
    if subtree_has_id(wss[q], c.id) {
        let pred = |x: TreeNode| subtree_has_id(x, c.id);
        if p < q {
            lemma_filter_two(wss, pred, p, q);
        } else {
            lemma_filter_two(wss, pred, q, p);
        }
        assert(holders(wss, window_nodes(w)[k].id).len() != 1);
    }
}

} // verus!
