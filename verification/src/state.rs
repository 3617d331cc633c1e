//! Application settings and the recent-connection history: the pure state
//! logic behind the shell's settings file.  Reading and writing the file
//! itself is the caller's business; it hands the loaded settings in and
//! persists what comes back.

use vstd::prelude::*;

verus! {

/// One remembered connection.
#[derive(Debug, Clone)]
pub struct ConnectionHistory {
    pub server: String,
    pub database: String,
    pub username: String,
    pub last_used: String,
}

/// The persisted settings: recent connections, and the optional theme and
/// schema filter.
#[derive(Debug, Clone)]
pub struct AppSettings {
    pub recent_connections: Vec<ConnectionHistory>,
    pub theme: Option<String>,
    pub schema_filter: Option<String>,
}

impl Default for AppSettings {
    /// Fresh settings: no connections, no theme, no filter.
    fn default() -> (r: AppSettings)
        ensures
            r.recent_connections@.len() == 0,
            r.theme is None,
            r.schema_filter is None,
    {
        AppSettings { recent_connections: Vec::new(), theme: None, schema_filter: None }
    }
}

/// A partial settings change: only the fields that are present move.
#[derive(Debug, Clone)]
pub struct AppSettingsUpdate {
    pub theme: Option<String>,
    pub schema_filter: Option<String>,
}

/// The state the shell keeps for the lifetime of the process.
#[derive(Debug)]
pub struct AppState {
    pub settings: AppSettings,
}

/// How many connections the history keeps.
pub const HISTORY_LIMIT: usize = 10;

/// The history without the entries for one server and database pair.
pub open spec fn history_without(
    s: Seq<ConnectionHistory>,
    server: Seq<char>,
    database: Seq<char>,
) -> Seq<ConnectionHistory>
    decreases s.len(),
{
    if s.len() == 0 {
        Seq::empty()
    } else {
        let pre = history_without(s.drop_last(), server, database);
        if s.last().server@ == server && s.last().database@ == database {
            pre
        } else {
            pre.push(s.last())
        }
    }
}

/// Copies one history entry.
fn clone_history(c: &ConnectionHistory) -> (r: ConnectionHistory)
    ensures
        r == *c,
{
    ConnectionHistory {
        server: c.server.clone(),
        database: c.database.clone(),
        username: c.username.clone(),
        last_used: c.last_used.clone(),
    }
}

/// Copies a history list.
fn clone_history_list(v: &Vec<ConnectionHistory>) -> (r: Vec<ConnectionHistory>)
    ensures
        r@ == v@,
{
    let n = v.len();
    let mut r: Vec<ConnectionHistory> = Vec::new();
    let mut i: usize = 0;
    while i < n
        invariant
            i <= n,
            n == v@.len(),
            r@ =~= v@.subrange(0, i as int),
        decreases n - i,
    {
        r.push(clone_history(&v[i]));
        i = i + 1;
        proof {
            assert(r@ =~= v@.subrange(0, i as int));
        }
    }
    proof {
        assert(r@ =~= v@);
    }
    r
}

/// Copies an optional string.
fn clone_opt_string(v: &Option<String>) -> (r: Option<String>)
    ensures
        r == *v,
{
    match v {
        Some(s) => Some(s.clone()),
        None => None,
    }
}

impl AppState {
    /// State holding the settings the caller loaded, or fresh settings
    /// when nothing was stored.
    pub fn new(loaded: Option<AppSettings>) -> (r: AppState)
        ensures
            loaded matches Some(s) ==> r.settings == s,
            loaded is None ==> r.settings.recent_connections@.len() == 0
                && r.settings.theme is None && r.settings.schema_filter is None,
    {
        match loaded {
            Some(s) => AppState { settings: s },
            None => AppState { settings: Default::default() },
        }
    }

    /// The current settings.
    pub fn get_settings(&self) -> (r: AppSettings)
        ensures
            r.recent_connections@ == self.settings.recent_connections@,
            r.theme == self.settings.theme,
            r.schema_filter == self.settings.schema_filter,
    {
        AppSettings {
            recent_connections: clone_history_list(&self.settings.recent_connections),
            theme: clone_opt_string(&self.settings.theme),
            schema_filter: clone_opt_string(&self.settings.schema_filter),
        }
    }

    /// Applies a partial change: each field that the update carries
    /// replaces the stored one, each absent field stays, and the
    /// connection history is untouched.  Returns the settings as they
    /// stand afterwards.
    pub fn update_settings(&mut self, update: AppSettingsUpdate) -> (r: AppSettings)
        ensures
            final(self).settings.theme == (if update.theme is Some {
                update.theme
            } else {
                old(self).settings.theme
            }),
            final(self).settings.schema_filter == (if update.schema_filter is Some {
                update.schema_filter
            } else {
                old(self).settings.schema_filter
            }),
            final(self).settings.recent_connections@ == old(self).settings.recent_connections@,
            r.recent_connections@ == final(self).settings.recent_connections@,
            r.theme == final(self).settings.theme,
            r.schema_filter == final(self).settings.schema_filter,
    {
        if let Some(theme) = update.theme {
            self.settings.theme = Some(theme);
        }
        if let Some(filter) = update.schema_filter {
            self.settings.schema_filter = Some(filter);
        }
        self.get_settings()
    }

    /// Remembers a connection: any earlier entry for the same server and
    /// database leaves, the new entry goes to the front, and the history
    /// keeps at most its limit of entries.
    pub fn add_connection(&mut self, connection: ConnectionHistory)
        ensures
            ({
                let kept = history_without(
                    old(self).settings.recent_connections@,
                    connection.server@,
                    connection.database@,
                );
                let full = seq![connection] + kept;
                final(self).settings.recent_connections@ == (if full.len() <= HISTORY_LIMIT {
                    full
                } else {
                    full.subrange(0, HISTORY_LIMIT as int)
                })
            }),
            final(self).settings.theme == old(self).settings.theme,
            final(self).settings.schema_filter == old(self).settings.schema_filter,
    {
        let ghost server = connection.server@;
        let ghost database = connection.database@;
        let old_list = &self.settings.recent_connections;
        let n = old_list.len();
        let mut kept: Vec<ConnectionHistory> = Vec::new();
        let mut i: usize = 0;
        while i < n
            invariant
                i <= n,
                n == old_list@.len(),
                server == connection.server@,
                database == connection.database@,
                kept@ == history_without(old_list@.subrange(0, i as int), server, database),
            decreases n - i,
        {
            let c = &old_list[i];
            proof {
                assert(old_list@.subrange(0, i + 1).drop_last() =~= old_list@.subrange(
                    0,
                    i as int,
                ));
                assert(old_list@.subrange(0, i + 1).last() == old_list@[i as int]);
            }
            if !(c.server.eq(&connection.server) && c.database.eq(&connection.database)) {
                kept.push(clone_history(c));
            }
            i = i + 1;
        }
        proof {
            assert(old_list@.subrange(0, n as int) =~= old_list@);
        }
        let mut full: Vec<ConnectionHistory> = Vec::new();
        full.push(connection);
        let mut j: usize = 0;
        let ghost kept_view = kept@;
        let nk = kept.len();
        while j < nk
            invariant
                j <= nk,
                nk == kept@.len(),
                kept@ == kept_view,
                full@ =~= seq![connection] + kept_view.subrange(0, j as int),
            decreases nk - j,
        {
            full.push(clone_history(&kept[j]));
            j = j + 1;
            proof {
                assert(full@ =~= seq![connection] + kept_view.subrange(0, j as int));
            }
        }
        proof {
            assert(kept_view.subrange(0, nk as int) =~= kept_view);
        }
        full.truncate(HISTORY_LIMIT);
        self.settings.recent_connections = full;
        proof {
            let whole = seq![connection] + kept_view;
            if whole.len() > HISTORY_LIMIT {
                assert(self.settings.recent_connections@ =~= whole.subrange(
                    0,
                    HISTORY_LIMIT as int,
                ));
            }
        }
    }

    /// Forgets every entry for one server and database pair.
    pub fn remove_connection(&mut self, server: &str, database: &str)
        ensures
            final(self).settings.recent_connections@ == history_without(
                old(self).settings.recent_connections@,
                server@,
                database@,
            ),
            final(self).settings.theme == old(self).settings.theme,
            final(self).settings.schema_filter == old(self).settings.schema_filter,
    {
        let old_list = &self.settings.recent_connections;
        let n = old_list.len();
        let mut kept: Vec<ConnectionHistory> = Vec::new();
        let mut i: usize = 0;
        while i < n
            invariant
                i <= n,
                n == old_list@.len(),
                kept@ == history_without(old_list@.subrange(0, i as int), server@, database@),
            decreases n - i,
        {
            let c = &old_list[i];
            proof {
                assert(old_list@.subrange(0, i + 1).drop_last() =~= old_list@.subrange(
                    0,
                    i as int,
                ));
                assert(old_list@.subrange(0, i + 1).last() == old_list@[i as int]);
            }
            if !(crate::text::str_eq(c.server.as_str(), server) && crate::text::str_eq(
                c.database.as_str(),
                database,
            )) {
                kept.push(clone_history(c));
            }
            i = i + 1;
        }
        proof {
            assert(old_list@.subrange(0, n as int) =~= old_list@);
        }
        self.settings.recent_connections = kept;
    }

    /// The remembered connections, most recent first.
    pub fn get_connections(&self) -> (r: Vec<ConnectionHistory>)
        ensures
            r@ == self.settings.recent_connections@,
    {
        clone_history_list(&self.settings.recent_connections)
    }
}

/// What the shell reports about the state of its window, so that menu
/// entries can be enabled and disabled to match.
#[derive(Debug, Clone)]
pub struct MenuUiState {
    pub is_canvas_mode: bool,
    pub has_focus: bool,
    pub has_active_filters: bool,
}

} // verus!
