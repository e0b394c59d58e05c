use vstd::prelude::*;
use vstd::string::{StrSliceExecFns, StringExecFns};

verus! {

/// One entry of the symbol mapping: an application identifier and the
/// text shown for it in a workspace label.
#[derive(Clone)]
pub struct SymbolEntry {
    pub app: String,
    pub symbol: String,
}

/// The naming policy's configuration: a mapping from application identifier
/// to display symbol, and an optional colour for fullscreen windows.
///
/// The mapping is held as a list of entries whose identifiers are pairwise
/// distinct (see `wf`).
#[derive(Clone)]
pub struct SwayNameManagerConfig {
    pub app_symbols: Vec<SymbolEntry>,
    pub fullscreen_color: Option<String>,
}

/// Mathematical model of a configuration.
pub struct ConfigModel {
    pub app_symbols: Map<Seq<char>, Seq<char>>,
    pub fullscreen_color: Option<Seq<char>>,
}

pub open spec fn keys_unique(entries: Seq<SymbolEntry>) -> bool {
    forall|i: int, j: int|
        0 <= i < entries.len() && 0 <= j < entries.len() && i != j
            ==> entries[i].app@ != entries[j].app@
}

/// The mapping that a list of entries stands for; a later entry for the same
/// identifier overrides an earlier one.
pub open spec fn entries_map(entries: Seq<SymbolEntry>) -> Map<Seq<char>, Seq<char>>
    decreases entries.len(),
{
    if entries.len() == 0 {
        Map::empty()
    } else {
        let last = entries.last();
        entries_map(entries.drop_last()).insert(last.app@, last.symbol@)
    }
}

pub open spec fn option_view(o: Option<String>) -> Option<Seq<char>> {
    match o {
        Some(s) => Some(s@),
        None => None,
    }
}

impl View for SwayNameManagerConfig {
    type V = ConfigModel;

    open spec fn view(&self) -> ConfigModel {
        ConfigModel {
            app_symbols: entries_map(self.app_symbols@),
            fullscreen_color: option_view(self.fullscreen_color),
        }
    }
}

/// The symbol shown for an application: its mapped symbol, or the
/// identifier itself when the mapping has no entry for it.
pub open spec fn symbol_of(cfg: ConfigModel, app: Seq<char>) -> Seq<char> {
    if cfg.app_symbols.contains_key(app) {
        cfg.app_symbols[app]
    } else {
        app
    }
}

/// What the mapping holds for `k` is decided by the last entry naming `k`.
pub proof fn lemma_entries_lookup(entries: Seq<SymbolEntry>, k: Seq<char>)
    ensures
        (forall|i: int| 0 <= i < entries.len() ==> entries[i].app@ != k)
            ==> !entries_map(entries).contains_key(k),
        forall|i: int|
            #![trigger entries[i]]
            0 <= i < entries.len() && entries[i].app@ == k && (forall|j: int|
                i < j < entries.len() ==> entries[j].app@ != k) ==> {
                &&& entries_map(entries).contains_key(k)
                &&& entries_map(entries)[k] == entries[i].symbol@
            },
    decreases entries.len(),
{
    if entries.len() > 0 {
        let rest = entries.drop_last();
        lemma_entries_lookup(rest, k);
        assert forall|i: int|
            #![trigger entries[i]]
            0 <= i < entries.len() && entries[i].app@ == k && (forall|j: int|
                i < j < entries.len() ==> entries[j].app@ != k) implies {
            &&& entries_map(entries).contains_key(k)
            &&& entries_map(entries)[k] == entries[i].symbol@
        } by {
            if i < entries.len() - 1 {
                assert(rest[i] == entries[i]);
                assert forall|j: int| i < j < rest.len() implies rest[j].app@ != k by {
                    assert(rest[j] == entries[j]);
                }
            }
        }
        if forall|i: int| 0 <= i < entries.len() ==> entries[i].app@ != k {
            assert forall|i: int| 0 <= i < rest.len() implies rest[i].app@ != k by {
                assert(rest[i] == entries[i]);
            }
        }
    }
}

/// Replacing the entry that names an identifier, in a list whose identifiers
/// are distinct, updates the mapping at that identifier only.
pub proof fn lemma_entries_update(entries: Seq<SymbolEntry>, i: int, e: SymbolEntry)
    requires
        keys_unique(entries),
        0 <= i < entries.len(),
        entries[i].app@ == e.app@,
    ensures
        keys_unique(entries.update(i, e)),
        entries_map(entries.update(i, e)) == entries_map(entries).insert(e.app@, e.symbol@),
{
    let upd = entries.update(i, e);
    assert forall|k: Seq<char>|
        #![trigger entries_map(upd).contains_key(k)]
        #![trigger entries_map(entries).insert(e.app@, e.symbol@).contains_key(k)]
        entries_map(upd).contains_key(k) == entries_map(entries).insert(
            e.app@,
            e.symbol@,
        ).contains_key(k) && (entries_map(upd).contains_key(k) ==> entries_map(upd)[k]
            == entries_map(entries).insert(e.app@, e.symbol@)[k]) by {
        lemma_entries_lookup(entries, k);
        lemma_entries_lookup(upd, k);
        if k == e.app@ {
            assert(upd[i] == e);
        } else if exists|m: int| 0 <= m < entries.len() && entries[m].app@ == k {
            let m = choose|m: int| 0 <= m < entries.len() && entries[m].app@ == k;
            assert(upd[m] == entries[m]);
        } else {
            assert forall|m: int| 0 <= m < upd.len() implies upd[m].app@ != k by {
                if m != i {
                    assert(upd[m] == entries[m]);
                }
            }
        }
    }
    assert(entries_map(upd) =~= entries_map(entries).insert(e.app@, e.symbol@));
}

/// Appending an entry updates the mapping at its identifier.
pub proof fn lemma_entries_push(entries: Seq<SymbolEntry>, e: SymbolEntry)
    ensures
        entries_map(entries.push(e)) == entries_map(entries).insert(e.app@, e.symbol@),
{
    assert(entries.push(e).drop_last() =~= entries);
}

impl SwayNameManagerConfig {
    /// Identifiers of the mapping are pairwise distinct.
    pub open spec fn wf(&self) -> bool {
        keys_unique(self.app_symbols@)
    }

    /// The empty configuration: every identifier passes through, no colour.
    pub fn new() -> (r: Self)
        ensures
            r.wf(),
            r@.app_symbols == Map::<Seq<char>, Seq<char>>::empty(),
            r@.fullscreen_color is None,
    {
        SwayNameManagerConfig { app_symbols: Vec::new(), fullscreen_color: None }
    }

    /// The symbol shown for `app`; an identifier with no entry passes through
    /// unchanged.
    pub fn get_symbol(&self, app: &str) -> (r: String)
        ensures
            r@ == symbol_of(self@, app@),
            !self@.app_symbols.contains_key(app@) ==> r@ == app@,
    {
        let key = String::from_str(app);
        let n = self.app_symbols.len();
        let mut i: usize = n;
        while i > 0
            invariant
                i <= n == self.app_symbols.len(),
                key@ == app@,
                forall|j: int| i <= j < n ==> self.app_symbols@[j].app@ != app@,
            decreases i,
        {
            i = i - 1;
            let e = &self.app_symbols[i];
            if e.app.eq(&key) {
                proof {
                    lemma_entries_lookup(self.app_symbols@, app@);
                    assert(self.app_symbols@[i as int] == *e);
                }
                return e.symbol.clone();
            }
        }
        proof {
            lemma_entries_lookup(self.app_symbols@, app@);
        }
        key
    }
    /// Maps `app` to `symbol`, replacing any symbol it had before.
    pub fn set_symbol(&mut self, app: String, symbol: String)
        requires
            old(self).wf(),
        ensures
            final(self).wf(),
            final(self)@.app_symbols == old(self)@.app_symbols.insert(app@, symbol@),
            final(self)@.fullscreen_color == old(self)@.fullscreen_color,
    {
        let n = self.app_symbols.len();
        let mut i: usize = 0;
        while i < n
            invariant
                i <= n == self.app_symbols.len(),
                self.app_symbols@ == old(self).app_symbols@,
                self.fullscreen_color == old(self).fullscreen_color,
                keys_unique(self.app_symbols@),
                forall|j: int| 0 <= j < i ==> self.app_symbols@[j].app@ != app@,
            decreases n - i,
        {
            if self.app_symbols[i].app.eq(&app) {
                let e = SymbolEntry { app, symbol };
                proof {
                    lemma_entries_update(self.app_symbols@, i as int, e);
                }
                self.app_symbols.set(i, e);
                return;
            }
            i = i + 1;
        }
        let e = SymbolEntry { app, symbol };
        proof {
            lemma_entries_push(self.app_symbols@, e);
        }
        self.app_symbols.push(e);
    }

    /// Sets the colour that marks fullscreen windows in a label.
    pub fn set_fullscreen_color(&mut self, color: Option<String>)
        ensures
            final(self).app_symbols@ == old(self).app_symbols@,
            final(self)@.app_symbols == old(self)@.app_symbols,
            final(self)@.fullscreen_color == option_view(color),
    {
        self.fullscreen_color = color;
    }
}

/// What reading the configuration file gave.
pub enum ConfigLoad {
    Loaded(SwayNameManagerConfig),
    /// The file could not be opened.
    OpenFailed,
    /// The file could not be parsed.
    ParseFailed,
}

impl ConfigLoad {
    pub open spec fn wf(&self) -> bool {
        match self {
            ConfigLoad::Loaded(c) => c.wf(),
            _ => true,
        }
    }
}

/// What a reload did with the active configuration.
pub enum ReloadOutcome {
    Replaced,
    KeptAfterOpenError,
    KeptAfterParseError,
}

/// The configuration in force at start-up: the loaded one, else the empty one.
pub open spec fn startup_config_of(load: ConfigLoad) -> ConfigModel {
    match load {
        ConfigLoad::Loaded(c) => c@,
        _ => ConfigModel { app_symbols: Map::empty(), fullscreen_color: None },
    }
}

/// The configuration in force after a reload: the loaded one, else the one
/// that was in force before.
pub open spec fn reloaded_config_of(previous: ConfigModel, load: ConfigLoad) -> ConfigModel {
    match load {
        ConfigLoad::Loaded(c) => c@,
        _ => previous,
    }
}

/// The configuration to start with: a missing or broken file gives the empty
/// configuration.
pub fn startup_config(load: ConfigLoad) -> (r: SwayNameManagerConfig)
    requires
        load.wf(),
    ensures
        r.wf(),
        r@ == startup_config_of(load),
{
    match load {
        ConfigLoad::Loaded(c) => c,
        _ => SwayNameManagerConfig::new(),
    }
}

/// Applies a reload to the active configuration. A configuration that could
/// not be read never replaces the one in force.
pub fn reload(current: &mut SwayNameManagerConfig, load: ConfigLoad) -> (r: ReloadOutcome)
    requires
        old(current).wf(),
        load.wf(),
    ensures
        final(current).wf(),
        final(current)@ == reloaded_config_of(old(current)@, load),
        r is Replaced <==> load is Loaded,
        r is KeptAfterOpenError <==> load is OpenFailed,
        r is KeptAfterParseError <==> load is ParseFailed,
{
    match load {
        ConfigLoad::Loaded(c) => {
            *current = c;
            ReloadOutcome::Replaced
        },
        ConfigLoad::OpenFailed => ReloadOutcome::KeptAfterOpenError,
        ConfigLoad::ParseFailed => ReloadOutcome::KeptAfterParseError,
    }
}

/// A reload that fails after one that succeeded leaves the mapping of the
/// successful one in force.
pub proof fn lemma_broken_reload_keeps_good(
    start: ConfigModel,
    good: SwayNameManagerConfig,
    broken: ConfigLoad,
)
    requires
        !(broken is Loaded),
    ensures
        reloaded_config_of(reloaded_config_of(start, ConfigLoad::Loaded(good)), broken).app_symbols
            == good@.app_symbols,
        reloaded_config_of(reloaded_config_of(start, ConfigLoad::Loaded(good)), broken) == good@,
{
}

pub open spec fn first_existing(exists: Seq<bool>, i: int) -> bool {
    0 <= i < exists.len() && exists[i] && forall|j: int| 0 <= j < i ==> !exists[j]
}

/// Relies on dirs::config_dir: the user's configuration directory, when one
/// is known, as text. It depends on the environment, so nothing is promised
/// of what comes back.
#[verifier::external_body]
fn user_config_dir() -> (r: Option<String>) {
    dirs::config_dir().map(|p| p.to_string_lossy().into_owned())
}

/// The per-user configuration file under directory `dir`, joined as a path:
/// a separator is put between the two unless `dir` is empty or ends in one.
pub open spec fn user_config_file(dir: Seq<char>) -> Seq<char> {
    if dir.len() == 0 {
        "swayautonames/config.json"@
    } else if dir.last() == '/' {
        dir + "swayautonames/config.json"@
    } else {
        dir + "/"@ + "swayautonames/config.json"@
    }
}

/// The places searched for a configuration file, in order, given the user's
/// configuration directory (none when unknown): the one given explicitly,
/// the working directory, the user's configuration directory and the
/// system-wide one.
pub open spec fn config_paths_of(additional: Option<Seq<char>>, dir: Option<Seq<char>>) -> Seq<
    Seq<char>,
> {
    let given = match additional {
        Some(a) => seq![a],
        None => Seq::empty(),
    };
    let user_dir = match dir {
        Some(d) => d,
        None => Seq::empty(),
    };
    given + seq![
        "./config.json"@,
        user_config_file(user_dir),
        "/etc/swayautonames/config.json"@,
    ]
}

/// The per-user configuration file under `dir`.
fn user_config_path(dir: &Option<String>) -> (r: String)
    ensures
        r@ == user_config_file(option_view(*dir).unwrap_or(Seq::empty())),
{
    match dir {
        None => String::from_str("swayautonames/config.json"),
        Some(d) => {
            let n = d.as_str().unicode_len();
            let mut out = d.clone();
            if n == 0 {
                return String::from_str("swayautonames/config.json");
            }
            if d.as_str().get_char(n - 1) != '/' {
                out.append("/");
            }
            out.append("swayautonames/config.json");
            out
        },
    }
}

/// The places searched for a configuration file, given the user's
/// configuration directory.
pub fn config_paths_in(additional: &Option<String>, dir: &Option<String>) -> (r: Vec<String>)
    ensures
        r@.map_values(|p: String| p@) == config_paths_of(option_view(*additional), option_view(*dir)),
{
    let mut paths: Vec<String> = Vec::new();
    if let Some(p) = additional {
        paths.push(p.clone());
    }
    paths.push(String::from_str("./config.json"));
    paths.push(user_config_path(dir));
    paths.push(String::from_str("/etc/swayautonames/config.json"));
    proof {
        let expected = config_paths_of(option_view(*additional), option_view(*dir));
        assert(paths@.map_values(|p: String| p@) =~= expected);
    }
    paths
}

/// The places searched for a configuration file, with the user's
/// configuration directory as the environment gives it.
pub fn get_config_paths(additional: &Option<String>) -> (r: Vec<String>)
    ensures
        exists|dir: Option<Seq<char>>|
            r@.map_values(|p: String| p@) == config_paths_of(option_view(*additional), dir),
{
    let dir = user_config_dir();
    config_paths_in(additional, &dir)
}

/// The configuration file to use: the one given explicitly, else the first
/// of `candidates` that exists (`exists[i]` tells whether `candidates[i]` does).
pub fn get_config(additional: Option<String>, candidates: &Vec<String>, exists: &Vec<bool>) -> (r:
    Option<String>)
    requires
        candidates.len() == exists.len(),
    ensures
        additional is Some ==> r == additional,
        additional is None ==> match r {
            Some(p) => exists|i: int|
                first_existing(exists@, i) && #[trigger] candidates@[i]@ == p@,
            None => forall|i: int| 0 <= i < exists.len() ==> !exists@[i],
        },
{
    if additional.is_some() {
        return additional;
    }
    let mut i: usize = 0;
    while i < candidates.len()
        invariant
            i <= candidates.len() == exists.len(),
            additional is None,
            forall|j: int| 0 <= j < i ==> !exists@[j],
        decreases candidates.len() - i,
    {
        if exists[i] {
            let p = candidates[i].clone();
            assert(first_existing(exists@, i as int) && candidates@[i as int]@ == p@);
            return Some(p);
        }
        i = i + 1;
    }
    None
}

} // verus!
