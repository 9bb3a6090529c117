//! The launch planner: turns a selected entry, or a command-mode query,
//! into the argument vector the surrounding program spawns.  Application
//! command lines are resolved by stripping desktop-entry placeholder
//! tokens, then wrapped for the terminal where the application asks for
//! one, then wrapped in a transient user-scope unit where that is
//! enabled.  The planner never spawns anything itself.

use vstd::prelude::*;
use crate::command::{command_text, is_command};
use crate::config::Config;
use crate::entry::AppLaunchSpec;
use crate::text::{
    chars_to_string, dec_digits, str_chars, subrange_vec, u64_to_string,
};
use vstd::string::StringExecFns;

verus! {

/// Why a launch attempt was aborted or reported.  No failure here is
/// fatal to the launcher itself: the window stays open and the user can
/// retry.
#[derive(Clone, Copy, PartialEq, Eq, Structural, Debug)]
pub enum LaunchError {
    /// The window or desktop source failed; the caller degrades to an
    /// application-only entry set.
    SourceUnavailable,
    /// A command line could not be split into words (or was empty).
    ParseError,
    /// A terminal application was selected but no terminal is available.
    NoTerminalAvailable,
    /// The operating system refused to start the process.
    SpawnFailed,
    /// The history could not be persisted; the launch itself stands.
    PersistenceFailed,
}

/// The description of each failure, as shown to the user.
pub open spec fn message_spec(e: LaunchError) -> Seq<char> {
    match e {
        LaunchError::SourceUnavailable => "window source unavailable"@,
        LaunchError::ParseError => "cannot parse command line"@,
        LaunchError::NoTerminalAvailable => "no usable terminal"@,
        LaunchError::SpawnFailed => "failed to spawn process"@,
        LaunchError::PersistenceFailed => "failed to save history"@,
    }
}

impl LaunchError {
    /// A short description of the failure.
    pub fn message(&self) -> (r: String)
        ensures
            r@ == message_spec(*self),
    {
        match self {
            LaunchError::SourceUnavailable => String::from_str("window source unavailable"),
            LaunchError::ParseError => String::from_str("cannot parse command line"),
            LaunchError::NoTerminalAvailable => String::from_str("no usable terminal"),
            LaunchError::SpawnFailed => String::from_str("failed to spawn process"),
            LaunchError::PersistenceFailed => String::from_str("failed to save history"),
        }
    }
}

/// What the shell-style word splitter yields on `s`: the words, or
/// nothing when `s` ends inside a quotation or escape.
pub uninterp spec fn shell_split(s: Seq<char>) -> Option<Seq<Seq<char>>>;

/// Relies on shlex::split: POSIX-shell-like word splitting of a command
/// line; yields nothing exactly when the input is erroneous (it ends
/// inside a quotation or right after an unescaped backslash).
#[verifier::external_body]
fn shlex_split(s: &str) -> (r: Option<Vec<String>>)
    ensures
        r.deep_view() == shell_split(s@),
{
    shlex::split(s)
}

/// The two-character placeholder tokens of desktop-entry command lines.
pub open spec fn is_placeholder(c0: char, c1: char) -> bool {
    c0 == '%' && (c1 == 'U' || c1 == 'F' || c1 == 'u' || c1 == 'f')
}

/// `s` with every placeholder token removed, scanning left to right.
pub open spec fn strip_placeholders_spec(s: Seq<char>) -> Seq<char>
    decreases s.len(),
{
    if s.len() == 0 {
        Seq::empty()
    } else if s.len() >= 2 && is_placeholder(s[0], s[1]) {
        strip_placeholders_spec(s.skip(2))
    } else {
        seq![s[0]] + strip_placeholders_spec(s.skip(1))
    }
}

/// `t` with every `{}` replaced by `r`, scanning left to right.
pub open spec fn subst_template_spec(t: Seq<char>, r: Seq<char>) -> Seq<char>
    decreases t.len(),
{
    if t.len() == 0 {
        Seq::empty()
    } else if t.len() >= 2 && t[0] == '{' && t[1] == '}' {
        r + subst_template_spec(t.skip(2), r)
    } else {
        seq![t[0]] + subst_template_spec(t.skip(1), r)
    }
}

/// Remove the placeholder tokens from a command-line template.
pub fn strip_placeholders(cs: &Vec<char>) -> (out: Vec<char>)
    ensures
        out@ == strip_placeholders_spec(cs@),
{
    let n = cs.len();
    let mut out: Vec<char> = Vec::new();
    let mut i: usize = 0;
    proof {
        assert(cs@.skip(0) =~= cs@);
        assert(out@ + strip_placeholders_spec(cs@) =~= strip_placeholders_spec(cs@));
    }
    while i < n
        invariant
            i <= n,
            n == cs@.len(),
            strip_placeholders_spec(cs@) == out@ + strip_placeholders_spec(
                cs@.skip(i as int),
            ),
        decreases n - i,
    {
        let ghost tail = cs@.skip(i as int);
        proof {
            assert(tail[0] == cs@[i as int]);
        }
        if i + 1 < n && cs[i] == '%' && (cs[i + 1] == 'U' || cs[i + 1] == 'F' || cs[i + 1]
            == 'u' || cs[i + 1] == 'f') {
            proof {
                assert(tail[1] == cs@[i + 1]);
                assert(tail.skip(2) =~= cs@.skip(i + 2));
            }
            i = i + 2;
        } else {
            proof {
                assert(tail.skip(1) =~= cs@.skip(i + 1));
                if i + 1 < n {
                    assert(tail[1] == cs@[i + 1]);
                }
            }
            let ghost old_out = out@;
            out.push(cs[i]);
            proof {
                assert(old_out + (seq![tail[0]] + strip_placeholders_spec(cs@.skip(i + 1)))
                    =~= out@ + strip_placeholders_spec(cs@.skip(i + 1)));
            }
            i = i + 1;
        }
    }
    proof {
        assert(cs@.skip(n as int) =~= Seq::<char>::empty());
        assert(out@ + strip_placeholders_spec(Seq::<char>::empty()) =~= out@);
    }
    out
}

/// Substitute `r` for every `{}` in the template `t`.
pub fn subst_template(t: &Vec<char>, r: &Vec<char>) -> (out: Vec<char>)
    ensures
        out@ == subst_template_spec(t@, r@),
{
    let n = t.len();
    let mut out: Vec<char> = Vec::new();
    let mut i: usize = 0;
    proof {
        assert(t@.skip(0) =~= t@);
        assert(out@ + subst_template_spec(t@, r@) =~= subst_template_spec(t@, r@));
    }
    while i < n
        invariant
            i <= n,
            n == t@.len(),
            subst_template_spec(t@, r@) == out@ + subst_template_spec(
                t@.skip(i as int),
                r@,
            ),
        decreases n - i,
    {
        let ghost tail = t@.skip(i as int);
        proof {
            assert(tail[0] == t@[i as int]);
        }
        if i + 1 < n && t[i] == '{' && t[i + 1] == '}' {
            proof {
                assert(tail[1] == t@[i + 1]);
                assert(tail.skip(2) =~= t@.skip(i + 2));
            }
            let ghost old_out = out@;
            let m = r.len();
            let mut k: usize = 0;
            while k < m
                invariant
                    k <= m,
                    m == r@.len(),
                    out@ =~= old_out + r@.subrange(0, k as int),
                decreases m - k,
            {
                out.push(r[k]);
                k = k + 1;
            }
            proof {
                assert(out@ =~= old_out + r@);
                assert(old_out + (r@ + subst_template_spec(t@.skip(i + 2), r@)) =~= out@
                    + subst_template_spec(t@.skip(i + 2), r@));
            }
            i = i + 2;
        } else {
            proof {
                assert(tail.skip(1) =~= t@.skip(i + 1));
                if i + 1 < n {
                    assert(tail[1] == t@[i + 1]);
                }
            }
            let ghost old_out = out@;
            out.push(t[i]);
            proof {
                assert(old_out + (seq![tail[0]] + subst_template_spec(t@.skip(i + 1), r@))
                    =~= out@ + subst_template_spec(t@.skip(i + 1), r@));
            }
            i = i + 1;
        }
    }
    proof {
        assert(t@.skip(n as int) =~= Seq::<char>::empty());
        assert(out@ + subst_template_spec(Seq::<char>::empty(), r@) =~= out@);
    }
    out
}

/// An application's unit base name: its stable id with a trailing
/// `.desktop` extension removed.
pub open spec fn unit_base_spec(id: Seq<char>) -> Seq<char> {
    if id.len() >= 8 && id.subrange(id.len() - 8, id.len() as int) == ".desktop"@ {
        id.subrange(0, id.len() - 8)
    } else {
        id
    }
}

/// The base name from which a launch's transient unit is named: the
/// application id without its `.desktop` extension.  The caller escapes
/// it before handing it back to the planner.
pub fn unit_base_name(id: &str) -> (r: String)
    ensures
        r@ == unit_base_spec(id@),
{
    let cs = str_chars(id);
    let n = cs.len();
    proof {
        reveal_strlit(".desktop");
    }
    if n >= 8 {
        let s = n - 8;
        if cs[s] == '.' && cs[s + 1] == 'd' && cs[s + 2] == 'e' && cs[s + 3] == 's' && cs[s
            + 4] == 'k' && cs[s + 5] == 't' && cs[s + 6] == 'o' && cs[s + 7] == 'p' {
            assert(cs@.subrange(n - 8, n as int) =~= ".desktop"@);
            let base = subrange_vec(&cs, 0, s);
            return chars_to_string(&base);
        }
        assert(cs@.subrange(n - 8, n as int) != ".desktop"@) by {
            if cs@.subrange(n - 8, n as int) == ".desktop"@ {
                assert(cs@.subrange(n - 8, n as int)[0] == cs@[n - 8]);
                assert(cs@.subrange(n - 8, n as int)[1] == cs@[n - 7]);
                assert(cs@.subrange(n - 8, n as int)[2] == cs@[n - 6]);
                assert(cs@.subrange(n - 8, n as int)[3] == cs@[n - 5]);
                assert(cs@.subrange(n - 8, n as int)[4] == cs@[n - 4]);
                assert(cs@.subrange(n - 8, n as int)[5] == cs@[n - 3]);
                assert(cs@.subrange(n - 8, n as int)[6] == cs@[n - 2]);
                assert(cs@.subrange(n - 8, n as int)[7] == cs@[n - 1]);
            }
        }
    }
    id.to_owned()
}

/// The words of `s`, or a parse error when `s` cannot be split or holds
/// no word at all.
pub open spec fn split_or_parse_err(s: Seq<char>) -> Result<Seq<Seq<char>>, LaunchError> {
    match shell_split(s) {
        None => Err(LaunchError::ParseError),
        Some(v) => if v.len() == 0 {
            Err(LaunchError::ParseError)
        } else {
            Ok(v)
        },
    }
}

/// Split a command line into its words; empty or malformed command lines
/// are parse errors.
fn split_nonempty(s: &str) -> (r: Result<Vec<String>, LaunchError>)
    ensures
        match r {
            Ok(v) => split_or_parse_err(s@) == Ok::<_, LaunchError>(v.deep_view()),
            Err(e) => split_or_parse_err(s@) == Err::<Seq<Seq<char>>, _>(e),
        },
{
    match shlex_split(s) {
        None => Err(LaunchError::ParseError),
        Some(v) => {
            if v.len() == 0 {
                Err(LaunchError::ParseError)
            } else {
                assert(v.deep_view().len() == v@.len());
                Ok(v)
            }
        },
    }
}

/// The plan for a command-mode activation: the query's command line,
/// split into words.  No history id: direct commands are not recorded.
pub open spec fn command_plan_spec(query: Seq<char>, prefix: Seq<char>) -> Result<
    Seq<Seq<char>>,
    LaunchError,
> {
    split_or_parse_err(command_text(query, prefix))
}

/// Plan the activation of a command-mode query: everything after the
/// prefix is split shell-style and spawned as it stands.
pub fn plan_command(query: &str, cmd_prefix: &str) -> (r: Result<Vec<String>, LaunchError>)
    requires
        is_command(query@, cmd_prefix@),
    ensures
        match r {
            Ok(v) => command_plan_spec(query@, cmd_prefix@) == Ok::<_, LaunchError>(
                v.deep_view(),
            ),
            Err(e) => command_plan_spec(query@, cmd_prefix@) == Err::<Seq<Seq<char>>, _>(e),
        },
{
    let line = crate::command::extract_command(query, cmd_prefix);
    let line_str = chars_to_string(&line);
    split_nonempty(line_str.as_str())
}

/// The plan for focusing a running window: its custom command, split
/// into words.  No history id: focusing is not recorded.
pub open spec fn window_plan_spec(cmd: Seq<char>) -> Result<Seq<Seq<char>>, LaunchError> {
    split_or_parse_err(cmd)
}

/// Plan the activation of a running-window entry: its custom command is
/// split shell-style and spawned as it stands.
pub fn plan_window_focus(custom_command: &str) -> (r: Result<Vec<String>, LaunchError>)
    ensures
        match r {
            Ok(v) => window_plan_spec(custom_command@) == Ok::<_, LaunchError>(v.deep_view()),
            Err(e) => window_plan_spec(custom_command@) == Err::<Seq<Seq<char>>, _>(e),
        },
{
    split_nonempty(custom_command)
}

/// The `--unit=` argument of a cgroup-scoped launch: a name derived from
/// the escaped application id, tagged with the launcher's process id so
/// concurrent launches of one application get distinct units.
pub open spec fn unit_arg_spec(escaped_unit: Seq<char>, pid: u64) -> Seq<char> {
    "--unit=app-skoll-"@ + escaped_unit + "-"@ + dec_digits(pid as nat)
}

fn unit_arg(escaped_unit: &str, pid: u64) -> (r: String)
    ensures
        r@ == unit_arg_spec(escaped_unit@, pid),
{
    let mut r = String::from_str("--unit=app-skoll-");
    r.append(escaped_unit);
    r.append("-");
    let digits = u64_to_string(pid);
    r.append(digits.as_str());
    r
}

/// A cgroup-scoped launch: the argument vector, run inside a transient
/// user-scope unit.
pub open spec fn cgroup_wrap_spec(
    argv: Seq<Seq<char>>,
    escaped_unit: Seq<char>,
    pid: u64,
) -> Seq<Seq<char>> {
    seq!["systemd-run"@, "--scope"@, "--user"@, unit_arg_spec(escaped_unit, pid)] + argv
}

/// The plan for launching an application: its command template with
/// placeholder tokens stripped, wrapped for a terminal when the
/// application requires one (first through the configured template, else
/// through the environment's terminal, else the launch is refused), and
/// wrapped in a transient unit when cgroup launching is enabled.
pub open spec fn app_plan_spec(
    app: AppLaunchSpec,
    cfg: Config,
    env_terminal: Option<String>,
    escaped_unit: Seq<char>,
    pid: u64,
) -> Result<Seq<Seq<char>>, LaunchError> {
    let resolved = strip_placeholders_spec(app.exec_template@);
    let based: Result<Seq<Seq<char>>, LaunchError> = if !app.terminal_required {
        split_or_parse_err(resolved)
    } else {
        match cfg.term_command {
            Some(t) => split_or_parse_err(subst_template_spec(t@, resolved)),
            None => match env_terminal {
                Some(term) => match split_or_parse_err(resolved) {
                    Err(e) => Err(e),
                    Ok(v) => Ok(seq![term@, "-e"@] + v),
                },
                None => Err(LaunchError::NoTerminalAvailable),
            },
        }
    };
    match based {
        Err(e) => Err(e),
        Ok(v) => if cfg.cgroups {
            Ok(cgroup_wrap_spec(v, escaped_unit, pid))
        } else {
            Ok(v)
        },
    }
}

/// Plan the launch of an application entry.  `escaped_unit` is the
/// escaped form of `unit_base_name` of the application's id, supplied by
/// the caller and used only when cgroup launching is enabled; `pid` is
/// the launcher's process id.
pub fn plan_app_launch(
    app: &AppLaunchSpec,
    config: &Config,
    env_terminal: &Option<String>,
    escaped_unit: &str,
    pid: u64,
) -> (r: Result<Vec<String>, LaunchError>)
    ensures
        match r {
            Ok(v) => app_plan_spec(*app, *config, *env_terminal, escaped_unit@, pid)
                == Ok::<_, LaunchError>(v.deep_view()),
            Err(e) => app_plan_spec(*app, *config, *env_terminal, escaped_unit@, pid)
                == Err::<Seq<Seq<char>>, _>(e),
        },
{
    let tchars = str_chars(app.exec_template.as_str());
    let resolved_chars = strip_placeholders(&tchars);
    let resolved = chars_to_string(&resolved_chars);
    let based: Result<Vec<String>, LaunchError> = if !app.terminal_required {
        split_nonempty(resolved.as_str())
    } else {
        match &config.term_command {
            Some(t) => {
                let tpl = str_chars(t.as_str());
                let substituted = subst_template(&tpl, &resolved_chars);
                let sub_str = chars_to_string(&substituted);
                split_nonempty(sub_str.as_str())
            },
            None => match env_terminal {
                Some(term) => {
                    match split_nonempty(resolved.as_str()) {
                        Err(e) => Err(e),
                        Ok(base) => {
                            let ghost base_dv = base.deep_view();
                            let mut v: Vec<String> = Vec::new();
                            v.push(term.clone());
                            v.push(String::from_str("-e"));
                            let mut rest = base;
                            v.append(&mut rest);
                            proof {
                                assert(v.deep_view() =~= seq![term@, "-e"@] + base_dv);
                            }
                            Ok(v)
                        },
                    }
                },
                None => Err(LaunchError::NoTerminalAvailable),
            },
        }
    };
    match based {
        Err(e) => Err(e),
        Ok(argv) => {
            if config.cgroups {
                let ghost argv_dv = argv.deep_view();
                let mut v: Vec<String> = Vec::new();
                v.push(String::from_str("systemd-run"));
                v.push(String::from_str("--scope"));
                v.push(String::from_str("--user"));
                v.push(unit_arg(escaped_unit, pid));
                let mut rest = argv;
                v.append(&mut rest);
                proof {
                    assert(v.deep_view() =~= cgroup_wrap_spec(
                        argv_dv,
                        escaped_unit@,
                        pid,
                    ));
                }
                Ok(v)
            } else {
                Ok(argv)
            }
        },
    }
}

/// A launch is refused for want of a terminal exactly when the
/// application requires one, no terminal template is configured, and
/// the environment names none; every other failure of the planner is a
/// parse error.
pub proof fn lemma_no_terminal_exactly(
    app: AppLaunchSpec,
    cfg: Config,
    env_terminal: Option<String>,
    escaped_unit: Seq<char>,
    pid: u64,
)
    ensures
        (app_plan_spec(app, cfg, env_terminal, escaped_unit, pid) == Err::<
            Seq<Seq<char>>,
            LaunchError,
        >(LaunchError::NoTerminalAvailable)) <==> (app.terminal_required
            && cfg.term_command is None && env_terminal is None),
        app_plan_spec(app, cfg, env_terminal, escaped_unit, pid) matches Err(e) ==> (e
            == LaunchError::NoTerminalAvailable || e == LaunchError::ParseError),
{
}

/// What the surrounding program does for one activation: spawn `argv`
/// and, when a history id is carried, record the launch under it.
pub struct ActivationPlan {
    /// The argument vector to spawn, program first.
    pub argv: Vec<String>,
    /// The stable id whose usage counter this launch increments; window
    /// focusing and command mode carry none and leave the history alone.
    pub history_id: Option<String>,
}

} // verus!
