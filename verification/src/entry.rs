//! The entry data model and the repository that builds the candidate set:
//! one entry per installed application and one per currently running
//! window, merged side by side (a program that is installed and running
//! appears twice, once launchable and once as a switch-to row).

use vstd::prelude::*;
use crate::history::History;
use crate::text::{dec_digits, u64_to_string};
use vstd::string::StringExecFns;

verus! {

/// A running window as reported by the compositor.
pub struct NiriWindow {
    pub id: u32,
    pub title: Option<String>,
    pub app_id: String,
    pub workspace_id: u8,
    pub is_focused: bool,
}

/// A workspace as reported by the compositor.
pub struct NiriWorkspace {
    pub id: u8,
    pub idx: u32,
    pub name: Option<String>,
    pub output: String,
    pub is_active: bool,
    pub is_focused: bool,
    pub active_window_id: Option<u32>,
}

/// An installed application, as the external desktop-file source reports
/// it (entries without a name or command, or marked hidden, never reach
/// the core).
pub struct AppDef {
    /// The name shown and matched against.
    pub name: String,
    /// Further text matched against (the entry's description).
    pub keywords: String,
    /// The command-line template, possibly holding placeholder tokens.
    pub exec_command: String,
    /// Whether the application asks to be run in a terminal.
    pub terminal_required: bool,
    /// The stable id that keys the usage history.
    pub id: String,
}

/// How an application entry is launched.
pub struct AppLaunchSpec {
    /// The command-line template, possibly holding placeholder tokens.
    pub exec_template: String,
    /// The stable id that keys the usage history.
    pub id: String,
    /// Whether the command must be wrapped in a terminal.
    pub terminal_required: bool,
}

/// What activating an entry does: launch an application, or focus an
/// already running window through a custom command.
pub enum LaunchSpec {
    App(AppLaunchSpec),
    Window { custom_command: String },
}

/// One launchable or focusable item of the result list.
pub struct Entry {
    /// Stable identity of the entry inside one launcher run; the
    /// presentation layer holds only this key.
    pub identity: u64,
    /// The name shown in the list and matched first.
    pub display_name: String,
    /// Further text the query is matched against.
    pub search_keywords: String,
    /// How activation launches or focuses this entry.
    pub launch_spec: LaunchSpec,
    /// True for entries that represent an already running window.
    pub display_flag: bool,
    /// Recomputed on every query change: hidden entries are filtered out.
    pub hidden: bool,
    /// The fuzzy match score of the current query (higher is better).
    pub match_score: i64,
    /// The usage count of the application, fixed when the entry is built.
    pub history_weight: u64,
}

/// The command that focuses the running window with the given id.
pub open spec fn focus_command_spec(window_id: u32) -> Seq<char> {
    "niri msg action focus-window --id "@ + dec_digits(window_id as nat)
}

/// The display name of a window entry: the window title, or the
/// application id of an untitled window.
pub open spec fn window_name_spec(w: NiriWindow) -> Seq<char> {
    match w.title {
        Some(t) => t@,
        None => w.app_id@,
    }
}

/// The name of the first workspace with the given id, if that workspace
/// exists and is named.
pub open spec fn workspace_name_in(workspaces: Seq<NiriWorkspace>, wsid: u8) -> Option<
    Seq<char>,
>
    decreases workspaces.len(),
{
    if workspaces.len() == 0 {
        None
    } else if workspaces[0].id == wsid {
        match workspaces[0].name {
            Some(n) => Some(n@),
            None => None,
        }
    } else {
        workspace_name_in(workspaces.drop_first(), wsid)
    }
}

/// The search keywords of a window entry: its application id, extended
/// with the name of its workspace where one is known.
pub open spec fn window_keywords_spec(w: NiriWindow, workspaces: Seq<NiriWorkspace>) -> Seq<
    char,
> {
    match workspace_name_in(workspaces, w.workspace_id) {
        Some(n) => w.app_id@ + seq![' '] + n,
        None => w.app_id@,
    }
}

/// The entry built for the application `a` under identity `idx`, with its
/// order seeded from the usage history.
pub open spec fn entry_from_app(e: Entry, a: AppDef, idx: int, h: History) -> bool {
    &&& e.identity == idx
    &&& e.display_name@ == a.name@
    &&& e.search_keywords@ == a.keywords@
    &&& e.launch_spec matches LaunchSpec::App(s) && s.exec_template@ == a.exec_command@
        && s.id@ == a.id@ && s.terminal_required == a.terminal_required
    &&& e.display_flag == false
    &&& e.hidden == false
    &&& e.match_score == 0
    &&& e.history_weight == h.spec_count(a.id@)
}

/// The entry built for the running window `w` under identity `idx`.
pub open spec fn entry_from_window(
    e: Entry,
    w: NiriWindow,
    idx: int,
    workspaces: Seq<NiriWorkspace>,
) -> bool {
    &&& e.identity == idx
    &&& e.display_name@ == window_name_spec(w)
    &&& e.search_keywords@ == window_keywords_spec(w, workspaces)
    &&& e.launch_spec matches LaunchSpec::Window { custom_command } && custom_command@
        == focus_command_spec(w.id)
    &&& e.display_flag == true
    &&& e.hidden == false
    &&& e.match_score == 0
    &&& e.history_weight == 0
}

/// The name of the workspace with id `wsid`, if it exists and is named.
fn workspace_name(workspaces: &Vec<NiriWorkspace>, wsid: u8) -> (r: Option<String>)
    ensures
        match r {
            Some(n) => workspace_name_in(workspaces@, wsid) == Some(n@),
            None => workspace_name_in(workspaces@, wsid) is None,
        },
{
    let n = workspaces.len();
    let mut i: usize = 0;
    proof {
        assert(workspaces@.skip(0) =~= workspaces@);
    }
    while i < n
        invariant
            i <= n,
            n == workspaces@.len(),
            workspace_name_in(workspaces@, wsid) == workspace_name_in(
                workspaces@.skip(i as int),
                wsid,
            ),
        decreases n - i,
    {
        proof {
            assert(workspaces@.skip(i as int)[0] == workspaces@[i as int]);
            assert(workspaces@.skip(i as int).drop_first() =~= workspaces@.skip(i + 1));
        }
        if workspaces[i].id == wsid {
            return match &workspaces[i].name {
                Some(name) => Some(name.clone()),
                None => None,
            };
        }
        i = i + 1;
    }
    None
}

/// The command line that focuses the window with the given id.
pub fn focus_command(window_id: u32) -> (r: String)
    ensures
        r@ == focus_command_spec(window_id),
{
    let mut r = String::from_str("niri msg action focus-window --id ");
    let digits = u64_to_string(window_id as u64);
    r.append(digits.as_str());
    r
}

/// Build the candidate set: one entry per installed application, then one
/// entry per running window.  Window entries are added beside the
/// application entries, never merged into them, so a program that is both
/// installed and running yields two independent rows.
pub fn build_entries(
    apps: &Vec<AppDef>,
    windows: &Vec<NiriWindow>,
    workspaces: &Vec<NiriWorkspace>,
    history: &History,
) -> (r: Vec<Entry>)
    ensures
        r@.len() == apps@.len() + windows@.len(),
        forall|i: int|
            0 <= i < apps@.len() ==> entry_from_app(#[trigger] r@[i], apps@[i], i, *history),
        forall|j: int|
            0 <= j < windows@.len() ==> entry_from_window(
                #[trigger] r@[apps@.len() + j],
                windows@[j],
                apps@.len() + j,
                workspaces@,
            ),
{
    let mut r: Vec<Entry> = Vec::new();
    let na = apps.len();
    let mut i: usize = 0;
    while i < na
        invariant
            i <= na,
            na == apps@.len(),
            r@.len() == i,
            forall|k: int|
                0 <= k < i ==> entry_from_app(#[trigger] r@[k], apps@[k], k, *history),
        decreases na - i,
    {
        let a = &apps[i];
        let weight = history.lookup(a.id.as_str());
        r.push(
            Entry {
                identity: i as u64,
                display_name: a.name.clone(),
                search_keywords: a.keywords.clone(),
                launch_spec: LaunchSpec::App(
                    AppLaunchSpec {
                        exec_template: a.exec_command.clone(),
                        id: a.id.clone(),
                        terminal_required: a.terminal_required,
                    },
                ),
                display_flag: false,
                hidden: false,
                match_score: 0,
                history_weight: weight,
            },
        );
        i = i + 1;
    }
    let nw = windows.len();
    let mut j: usize = 0;
    while j < nw
        invariant
            j <= nw,
            na == apps@.len(),
            nw == windows@.len(),
            r@.len() == na + j,
            forall|k: int|
                0 <= k < na ==> entry_from_app(#[trigger] r@[k], apps@[k], k, *history),
            forall|k: int|
                0 <= k < j ==> entry_from_window(
                    #[trigger] r@[na + k],
                    windows@[k],
                    na + k,
                    workspaces@,
                ),
        decreases nw - j,
    {
        let w = &windows[j];
        let name = match &w.title {
            Some(t) => t.clone(),
            None => w.app_id.clone(),
        };
        let mut keywords = w.app_id.clone();
        match workspace_name(workspaces, w.workspace_id) {
            Some(ws_name) => {
                keywords.append(" ");
                keywords.append(ws_name.as_str());
                assert(keywords@ =~= window_keywords_spec(*w, workspaces@)) by {
                    assert(" "@ =~= seq![' ']) by {
                        reveal_strlit(" ");
                    }
                }
            },
            None => {},
        }
        let cur = r.len();
        r.push(
            Entry {
                identity: cur as u64,
                display_name: name,
                search_keywords: keywords,
                launch_spec: LaunchSpec::Window { custom_command: focus_command(w.id) },
                display_flag: true,
                hidden: false,
                match_score: 0,
                history_weight: 0,
            },
        );
        j = j + 1;
    }
    r
}

} // verus!
