use vstd::prelude::*;
use vstd::string::StringExecFns;

use crate::config::{symbol_of, ConfigModel, SwayNameManagerConfig};

verus! {

/// A window as the naming policy sees it.
pub struct Window {
    /// App id for native clients, instance name for compatibility-layer ones.
    pub app_id: String,
    pub fullscreen: bool,
}

/// A workspace of an inventory snapshot: its backend-assigned number, its
/// windows in the order the backend reported them, and the label it shows now.
pub struct Workspace {
    pub id: i32,
    pub windows: Vec<Window>,
    pub name: String,
}

pub struct WindowView {
    pub app_id: Seq<char>,
    pub fullscreen: bool,
}

pub struct WorkspaceView {
    pub id: int,
    pub windows: Seq<WindowView>,
    pub name: Seq<char>,
}

impl View for Window {
    type V = WindowView;

    open spec fn view(&self) -> WindowView {
        WindowView { app_id: self.app_id@, fullscreen: self.fullscreen }
    }
}

impl View for Workspace {
    type V = WorkspaceView;

    open spec fn view(&self) -> WorkspaceView {
        WorkspaceView {
            id: self.id as int,
            windows: self.windows@.map_values(|w: Window| w@),
            name: self.name@,
        }
    }
}

pub open spec fn digit_text(d: nat) -> Seq<char> {
    if d == 0 {
        "0"@
    } else if d == 1 {
        "1"@
    } else if d == 2 {
        "2"@
    } else if d == 3 {
        "3"@
    } else if d == 4 {
        "4"@
    } else if d == 5 {
        "5"@
    } else if d == 6 {
        "6"@
    } else if d == 7 {
        "7"@
    } else if d == 8 {
        "8"@
    } else {
        "9"@
    }
}

/// Decimal digits of a natural number, most significant first.
pub open spec fn nat_decimal(n: nat) -> Seq<char>
    decreases n,
{
    if n < 10 {
        digit_text(n)
    } else {
        nat_decimal(n / 10) + digit_text(n % 10)
    }
}

/// Decimal text of an integer, with a leading minus sign when negative.
pub open spec fn decimal(n: int) -> Seq<char> {
    if n < 0 {
        "-"@ + nat_decimal((-n) as nat)
    } else {
        nat_decimal(n as nat)
    }
}

/// How one window shows in a label: its symbol, wrapped in a colour span
/// when the window is fullscreen and a fullscreen colour is configured.
pub open spec fn rendered(cfg: ConfigModel, w: WindowView) -> Seq<char> {
    let sym = symbol_of(cfg, w.app_id);
    match cfg.fullscreen_color {
        Some(color) if w.fullscreen => "<span foreground=\""@ + color + "\">"@ + sym + "</span>"@,
        _ => sym,
    }
}

/// The rendered windows in label order: the last discovered window first.
pub open spec fn label_parts(cfg: ConfigModel, windows: Seq<WindowView>) -> Seq<Seq<char>> {
    Seq::new(windows.len(), |i: int| rendered(cfg, windows[windows.len() - 1 - i]))
}

/// The parts joined with `|` between neighbours.
pub open spec fn join_bar(parts: Seq<Seq<char>>) -> Seq<char>
    decreases parts.len(),
{
    if parts.len() == 0 {
        Seq::empty()
    } else if parts.len() == 1 {
        parts[0]
    } else {
        join_bar(parts.drop_last()) + "|"@ + parts.last()
    }
}

/// The label of workspace `id` holding `windows`: the bare number when it
/// holds none, else the number, `": "` and the joined symbols.
pub open spec fn label_of(id: int, windows: Seq<WindowView>, cfg: ConfigModel) -> Seq<char> {
    if windows.len() == 0 {
        decimal(id)
    } else {
        decimal(id) + ": "@ + join_bar(label_parts(cfg, windows))
    }
}

pub open spec fn workspace_label(ws: WorkspaceView, cfg: ConfigModel) -> Seq<char> {
    label_of(ws.id, ws.windows, cfg)
}

fn digit(d: u32) -> (r: &'static str)
    requires
        d < 10,
    ensures
        r@ == digit_text(d as nat),
{
    if d == 0 {
        "0"
    } else if d == 1 {
        "1"
    } else if d == 2 {
        "2"
    } else if d == 3 {
        "3"
    } else if d == 4 {
        "4"
    } else if d == 5 {
        "5"
    } else if d == 6 {
        "6"
    } else if d == 7 {
        "7"
    } else if d == 8 {
        "8"
    } else {
        "9"
    }
}

fn push_nat_decimal(out: &mut String, n: u32)
    ensures
        final(out)@ == old(out)@ + nat_decimal(n as nat),
    decreases n,
{
    if n >= 10 {
        push_nat_decimal(out, n / 10);
        out.append(digit(n % 10));
        assert(final(out)@ =~= old(out)@ + nat_decimal(n as nat));
    } else {
        out.append(digit(n));
    }
}

/// Appends the decimal text of `n` to `out`.
pub fn push_decimal(out: &mut String, n: i32)
    ensures
        final(out)@ == old(out)@ + decimal(n as int),
{
    if n < 0 {
        out.append("-");
        let m: u32 = (0i64 - n as i64) as u32;
        push_nat_decimal(out, m);
        assert(final(out)@ =~= old(out)@ + decimal(n as int));
    } else {
        push_nat_decimal(out, n as u32);
    }
}

/// Appends how window `w` shows in a label under `cfg`.
pub fn push_rendered(out: &mut String, w: &Window, cfg: &SwayNameManagerConfig)
    ensures
        final(out)@ == old(out)@ + rendered(cfg@, w@),
{
    let sym = cfg.get_symbol(w.app_id.as_str());
    match &cfg.fullscreen_color {
        Some(color) if w.fullscreen => {
            out.append("<span foreground=\"");
            out.append(color.as_str());
            out.append("\">");
            out.append(sym.as_str());
            out.append("</span>");
            assert(final(out)@ =~= old(out)@ + rendered(cfg@, w@));
        },
        _ => {
            out.append(sym.as_str());
        },
    }
}

/// The label of workspace `ws` under `cfg`.
pub fn label(ws: &Workspace, cfg: &SwayNameManagerConfig) -> (r: String)
    ensures
        r@ == workspace_label(ws@, cfg@),
{
    let mut out = String::new();
    push_decimal(&mut out, ws.id);
    let n = ws.windows.len();
    if n == 0 {
        assert(out@ =~= workspace_label(ws@, cfg@));
        return out;
    }
    out.append(": ");
    let ghost head = out@;
    let ghost windows = ws@.windows;
    let ghost parts = label_parts(cfg@, windows);
    let mut k: usize = 0;
    while k < n
        invariant
            k <= n == ws.windows.len() == windows.len() == parts.len(),
            windows == ws@.windows,
            parts == label_parts(cfg@, windows),
            out@ == head + join_bar(parts.take(k as int)),
        decreases n - k,
    {
        let i = n - 1 - k;
        if k > 0 {
            out.append("|");
        }
        push_rendered(&mut out, &ws.windows[i], cfg);
        proof {
            let t = parts.take(k + 1);
            assert(t.drop_last() =~= parts.take(k as int));
            assert(ws.windows@[i as int]@ == windows[i as int]);
            assert(t.last() == parts[k as int]);
            assert(out@ =~= head + join_bar(t));
        }
        k = k + 1;
    }
    assert(parts.take(n as int) =~= parts);
    out
}

/// A label is a function of the workspace's number, its windows and the
/// configuration: two workspaces that agree on those get the same label,
/// whatever they show now.
pub proof fn lemma_label_deterministic(
    a: WorkspaceView,
    b: WorkspaceView,
    cfg_a: ConfigModel,
    cfg_b: ConfigModel,
)
    requires
        a.id == b.id,
        a.windows == b.windows,
        cfg_a == cfg_b,
    ensures
        workspace_label(a, cfg_a) == workspace_label(b, cfg_b),
{
}

} // verus!
