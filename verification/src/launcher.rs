//! The controller that owns the launcher's state for one run: the entry
//! collection, the usage history and the configuration.  The surrounding
//! event loop calls `on_query_changed` on every keystroke, `on_activate`
//! when the user confirms, and `on_launched` after a spawn succeeded; it
//! never touches entry internals itself.

use vstd::prelude::*;
use crate::command::is_command;
use crate::config::Config;
use crate::entry::{
    AppDef, Entry, LaunchSpec, NiriWindow, NiriWorkspace, build_entries, entry_from_app,
    entry_from_window,
};
use crate::history::{History, valid_id};
use crate::launch::{
    ActivationPlan, LaunchError, app_plan_spec, command_plan_spec, plan_app_launch,
    plan_command, plan_window_focus, window_plan_spec,
};
use crate::ranking::match_step;

verus! {

/// The launcher's state: the candidate entries, the usage history and
/// the configuration, owned by the single-threaded event loop.
pub struct Launcher {
    pub entries: Vec<Entry>,
    pub history: History,
    pub config: Config,
}

/// Application entries must carry a storable history id; window entries
/// carry none.
pub open spec fn entry_id_valid(e: Entry) -> bool {
    match e.launch_spec {
        LaunchSpec::App(s) => valid_id(s.id@),
        LaunchSpec::Window { .. } => true,
    }
}

/// The first entry carrying the given identity, if any.
pub open spec fn entry_with(entries: Seq<Entry>, ident: u64) -> Option<Entry>
    decreases entries.len(),
{
    if entries.len() == 0 {
        None
    } else if entries[0].identity == ident {
        Some(entries[0])
    } else {
        entry_with(entries.drop_first(), ident)
    }
}

/// What an activation does, if anything: nothing when no visible entry
/// is selected outside command mode; otherwise the planned argument
/// vector together with the history id to record on success.
pub open spec fn activation_spec(
    l: Launcher,
    query: Seq<char>,
    selected: Option<u64>,
    env_terminal: Option<String>,
    escaped_unit: Seq<char>,
    pid: u64,
) -> Option<Result<(Seq<Seq<char>>, Option<Seq<char>>), LaunchError>> {
    if is_command(query, l.config.command_prefix@) {
        match command_plan_spec(query, l.config.command_prefix@) {
            Ok(v) => Some(Ok((v, None))),
            Err(e) => Some(Err(e)),
        }
    } else {
        match selected {
            None => None,
            Some(ident) => match entry_with(l.entries@, ident) {
                None => None,
                Some(e) => if e.hidden {
                    None
                } else {
                    match e.launch_spec {
                        LaunchSpec::Window { custom_command } => match window_plan_spec(
                            custom_command@,
                        ) {
                            Ok(v) => Some(Ok((v, None))),
                            Err(err) => Some(Err(err)),
                        },
                        LaunchSpec::App(s) => match app_plan_spec(
                            s,
                            l.config,
                            env_terminal,
                            escaped_unit,
                            pid,
                        ) {
                            Ok(v) => Some(Ok((v, Some(s.id@)))),
                            Err(err) => Some(Err(err)),
                        },
                    }
                },
            },
        }
    }
}

impl Launcher {
    /// The history is well formed and every application entry carries a
    /// storable id.
    pub open spec fn wf(self) -> bool {
        &&& self.history.wf()
        &&& forall|i: int|
            0 <= i < self.entries@.len() ==> entry_id_valid(#[trigger] self.entries@[i])
    }

    /// Build the launcher's state: the merged entry collection over the
    /// installed applications and the running windows, seeded from the
    /// loaded history.
    pub fn new(
        apps: &Vec<AppDef>,
        windows: &Vec<NiriWindow>,
        workspaces: &Vec<NiriWorkspace>,
        history: History,
        config: Config,
    ) -> (r: Launcher)
        requires
            history.wf(),
            forall|i: int| 0 <= i < apps@.len() ==> valid_id(#[trigger] apps@[i].id@),
        ensures
            r.wf(),
            r.history == history,
            r.config == config,
            r.entries@.len() == apps@.len() + windows@.len(),
            forall|i: int|
                0 <= i < apps@.len() ==> entry_from_app(
                    #[trigger] r.entries@[i],
                    apps@[i],
                    i,
                    history,
                ),
            forall|j: int|
                0 <= j < windows@.len() ==> entry_from_window(
                    #[trigger] r.entries@[apps@.len() + j],
                    windows@[j],
                    apps@.len() + j,
                    workspaces@,
                ),
    {
        let entries = build_entries(apps, windows, workspaces, &history);
        let r = Launcher { entries, history, config };
        proof {
            assert forall|i: int|
                0 <= i < r.entries@.len() implies entry_id_valid(#[trigger] r.entries@[i]) by {
                if i < apps@.len() {
                    assert(entry_from_app(r.entries@[i], apps@[i], i, r.history));
                } else {
                    let j = i - apps@.len();
                    assert(entry_from_window(
                        r.entries@[apps@.len() + j],
                        windows@[j],
                        apps@.len() + j,
                        workspaces@,
                    ));
                    assert(apps@.len() + j == i);
                }
            }
        }
        r
    }

    /// Rank every entry against the new query: in command mode all
    /// entries become hidden; otherwise each entry's visibility and
    /// order key are recomputed from its fuzzy match.
    pub fn on_query_changed(&mut self, query: &str)
        requires
            old(self).wf(),
        ensures
            final(self).wf(),
            final(self).history == old(self).history,
            final(self).config == old(self).config,
            final(self).entries@.len() == old(self).entries@.len(),
            forall|i: int|
                0 <= i < old(self).entries@.len() ==> final(self).entries@[i] == match_step(
                    #[trigger] old(self).entries@[i],
                    query@,
                    old(self).config.command_prefix@,
                ),
    {
        let n = self.entries.len();
        let mut i: usize = 0;
        while i < n
            invariant
                i <= n,
                n == self.entries@.len(),
                self.history == old(self).history,
                self.config == old(self).config,
                forall|k: int|
                    0 <= k < i ==> self.entries@[k] == match_step(
                        #[trigger] old(self).entries@[k],
                        query@,
                        old(self).config.command_prefix@,
                    ),
                forall|k: int|
                    i <= k < n ==> #[trigger] self.entries@[k] == old(self).entries@[k],
            decreases n - i,
        {
            let e = &mut self.entries[i];
            e.update_match(query, &self.config);
            i = i + 1;
        }
        proof {
            assert forall|i2: int|
                0 <= i2 < self.entries@.len() implies entry_id_valid(
                #[trigger] self.entries@[i2],
            ) by {
                assert(entry_id_valid(old(self).entries@[i2]));
                assert(self.entries@[i2].launch_spec == old(self).entries@[i2].launch_spec);
            }
        }
    }

    /// Plan what the confirmed activation does.  A command-mode query is
    /// executed directly; otherwise the selected entry, if visible, is
    /// focused (window entries) or launched (application entries, which
    /// also name the history id to record on success).  Nothing is
    /// planned when no visible entry is selected.
    pub fn on_activate(
        &self,
        query: &str,
        selected: Option<u64>,
        env_terminal: &Option<String>,
        escaped_unit: &str,
        pid: u64,
    ) -> (r: Option<Result<ActivationPlan, LaunchError>>)
        ensures
            match r {
                None => activation_spec(
                    *self,
                    query@,
                    selected,
                    *env_terminal,
                    escaped_unit@,
                    pid,
                ) is None,
                Some(Ok(plan)) => activation_spec(
                    *self,
                    query@,
                    selected,
                    *env_terminal,
                    escaped_unit@,
                    pid,
                ) == Some(
                    Ok::<_, LaunchError>((plan.argv.deep_view(), plan.history_id.deep_view())),
                ),
                Some(Err(e)) => activation_spec(
                    *self,
                    query@,
                    selected,
                    *env_terminal,
                    escaped_unit@,
                    pid,
                ) == Some(Err::<(Seq<Seq<char>>, Option<Seq<char>>), _>(e)),
            },
    {
        if crate::command::is_cmd(query, self.config.command_prefix.as_str()) {
            return match plan_command(query, self.config.command_prefix.as_str()) {
                Ok(argv) => Some(Ok(ActivationPlan { argv, history_id: None })),
                Err(e) => Some(Err(e)),
            };
        }
        let ident = match selected {
            Some(ident) => ident,
            None => {
                return None;
            },
        };
        let n = self.entries.len();
        let mut i: usize = 0;
        proof {
            assert(self.entries@.skip(0) =~= self.entries@);
        }
        while i < n
            invariant
                i <= n,
                n == self.entries@.len(),
                !is_command(query@, self.config.command_prefix@),
                selected == Some(ident),
                entry_with(self.entries@, ident) == entry_with(
                    self.entries@.skip(i as int),
                    ident,
                ),
            decreases n - i,
        {
            proof {
                assert(self.entries@.skip(i as int)[0] == self.entries@[i as int]);
                assert(self.entries@.skip(i as int).drop_first() =~= self.entries@.skip(
                    i + 1,
                ));
            }
            if self.entries[i].identity == ident {
                proof {
                    assert(entry_with(self.entries@, ident) == Some(
                        self.entries@[i as int],
                    ));
                }
                let e = &self.entries[i];
                if e.hidden {
                    return None;
                }
                return match &e.launch_spec {
                    LaunchSpec::Window { custom_command } => {
                        match plan_window_focus(custom_command.as_str()) {
                            Ok(argv) => Some(Ok(ActivationPlan { argv, history_id: None })),
                            Err(err) => Some(Err(err)),
                        }
                    },
                    LaunchSpec::App(s) => {
                        match plan_app_launch(s, &self.config, env_terminal, escaped_unit, pid) {
                            Ok(argv) => Some(
                                Ok(
                                    ActivationPlan {
                                        argv,
                                        history_id: Some(s.id.clone()),
                                    },
                                ),
                            ),
                            Err(err) => Some(Err(err)),
                        }
                    },
                };
            }
            i = i + 1;
        }
        proof {
            assert(self.entries@.skip(n as int) =~= Seq::<Entry>::empty());
        }
        None
    }

    /// Record one successful application launch in the history.  The
    /// caller persists the serialized history afterwards.
    pub fn on_launched(&mut self, id: &str)
        requires
            old(self).wf(),
            valid_id(id@),
            old(self).history.spec_count(id@) < u64::MAX,
        ensures
            final(self).wf(),
            final(self).entries == old(self).entries,
            final(self).config == old(self).config,
            final(self).history.spec_count(id@) == old(self).history.spec_count(id@) + 1,
            forall|other: Seq<char>|
                other != id@ ==> final(self).history.spec_count(other) == old(
                    self,
                ).history.spec_count(other),
    {
        self.history.record_launch(id);
    }
}

} // verus!
