//! Launch planning: which app and bundle a desktop runs under, the argument
//! arrays handed to the helpers, the checks on what the helpers report, and
//! the SSH options a remote target must have.
use vstd::prelude::*;
use vstd::string::StringExecFns;

use crate::parse::{
    Desktop, DesktopConfig, DesktopMode, KeybindingAuthority, desktop_valid, first_desktop_at,
    failure_text, load_from, parse_outcome,
};
use crate::registry::{InstanceRecord, BUNDLE_ID, absolute_path, family_bundle_id, opt_view, record_problem};
use crate::text::{
    chars_of, debug_quoted, decimal, decimal_string, is_ascii_digit, is_space, join2, join3,
    join4, push_char, quoted, same_text, space, string_from, string_of,
};

verus! {

/// The locations the switcher works with.
#[derive(Debug, Clone)]
pub struct RuntimePaths {
    pub home: String,
    pub app: String,
    pub command_shim: String,
    pub config: String,
    pub launcher: String,
    pub real_herdr: String,
    pub ssh: String,
    pub state_dir: String,
    pub switcher_bin: String,
}

/// What the client of a desktop connects to.
#[derive(Debug, Clone, PartialEq, Eq)]
pub enum LaunchPlan {
    Local,
    Remote { target: String, session: String, keybindings: KeybindingAuthority },
}

#[derive(Debug, Clone, Copy, PartialEq, Eq, Structural)]
pub enum LaunchOutcome {
    Launched { pid: i32 },
    Focused { pid: i32 },
}

#[derive(Debug)]
pub struct LaunchError(pub String);

impl LaunchError {
    pub fn message(&self) -> (out: String)
        ensures
            out@ == self.0@,
    {
        self.0.clone()
    }
}

// ---------------------------------------------------------------------------
// Paths and app identities.
// ---------------------------------------------------------------------------
/// `Path::join` on Unix: an absolute `part` replaces `base`, otherwise a `/`
/// separates them unless `base` is empty or already ends with one.
pub open spec fn joined_path(base: Seq<char>, part: Seq<char>) -> Seq<char> {
    if part.len() > 0 && part[0] == '/' {
        part
    } else if base.len() > 0 && base.last() != '/' {
        base + seq!['/'] + part
    } else {
        base + part
    }
}

pub fn join_path(base: &str, part: &str) -> (out: String)
    ensures
        out@ == joined_path(base@, part@),
{
    let b = chars_of(base);
    let p = chars_of(part);
    proof {
        reveal_strlit("/");
    }
    if p.len() > 0 && p[0] == '/' {
        return String::from_str(part);
    }
    if b.len() > 0 && b[b.len() - 1] != '/' {
        join3(base, "/", part)
    } else {
        join2(base, part)
    }
}


/// The locations that the environment may set, each by its own variable.
#[derive(Debug, Clone)]
pub struct PathOverrides {
    pub app: Option<String>,
    pub command_shim: Option<String>,
    pub config: Option<String>,
    pub launcher: Option<String>,
    pub real_herdr: Option<String>,
    pub ssh: Option<String>,
    pub state_dir: Option<String>,
}

pub open spec fn or_default(o: Option<String>, fallback: Seq<char>) -> Seq<char> {
    match o {
        Some(s) => s@,
        None => fallback,
    }
}

fn or_else_join(o: &Option<String>, base: &str, part: &str) -> (r: String)
    ensures
        r@ == or_default(*o, joined_path(base@, part@)),
{
    match o {
        Some(s) => s.clone(),
        None => join_path(base, part),
    }
}

impl RuntimePaths {
    /// The runtime paths: each one the environment sets, or its default under
    /// `home` or the repository `repo`. `home` is `None` when `HOME` is unset
    /// or empty; `switcher_bin` is the running executable, or why it is not
    /// known.
    pub fn from_parts(
        home: Option<String>,
        repo: &str,
        switcher_bin: Result<String, String>,
        overrides: &PathOverrides,
    ) -> (r: Result<RuntimePaths, LaunchError>)
        ensures
            match (home, switcher_bin) {
                (None, _) => r matches Err(e) && e.0@ == "HOME is not set"@,
                (Some(_), Err(why)) => r matches Err(e) && e.0@
                    == "could not determine switcher executable: "@ + why@,
                (Some(h), Ok(bin)) => r matches Ok(p) && {
                    &&& p.home@ == h@
                    &&& p.app@ == or_default(overrides.app, joined_path(h@, "Applications/Herdr.app"@))
                    &&& p.command_shim@ == or_default(
                        overrides.command_shim,
                        joined_path(repo@, "scripts/herdr-desktop-command"@),
                    )
                    &&& p.config@ == or_default(overrides.config, joined_path(repo@, "desktops.toml"@))
                    &&& p.launcher@ == or_default(
                        overrides.launcher,
                        joined_path(h@, ".local/bin/herdr-desktop-launch"@),
                    )
                    &&& p.real_herdr@ == or_default(
                        overrides.real_herdr,
                        joined_path(h@, ".local/bin/herdr"@),
                    )
                    &&& p.ssh@ == or_default(overrides.ssh, "/usr/bin/ssh"@)
                    &&& p.state_dir@ == or_default(
                        overrides.state_dir,
                        joined_path(h@, ".local/state/herdr-desktop-switcher"@),
                    )
                    &&& p.switcher_bin@ == bin@
                },
            },
    {
        let home = match home {
            Some(h) => h,
            None => {
                return Err(LaunchError(String::from_str("HOME is not set")));
            },
        };
        let switcher_bin = match switcher_bin {
            Ok(bin) => bin,
            Err(e) => {
                return Err(LaunchError(join2("could not determine switcher executable: ", e.as_str())));
            },
        };
        let h = home.as_str();
        let app = or_else_join(&overrides.app, h, "Applications/Herdr.app");
        let command_shim = or_else_join(&overrides.command_shim, repo, "scripts/herdr-desktop-command");
        let config = or_else_join(&overrides.config, repo, "desktops.toml");
        let launcher = or_else_join(&overrides.launcher, h, ".local/bin/herdr-desktop-launch");
        let real_herdr = or_else_join(&overrides.real_herdr, h, ".local/bin/herdr");
        let ssh = match &overrides.ssh {
            Some(s) => s.clone(),
            None => String::from_str("/usr/bin/ssh"),
        };
        let state_dir = or_else_join(&overrides.state_dir, h, ".local/state/herdr-desktop-switcher");
        let home_copy = home.clone();
        Ok(RuntimePaths {
            home: home_copy,
            app,
            command_shim,
            config,
            launcher,
            real_herdr,
            ssh,
            state_dir,
            switcher_bin,
        })
    }
}

/// `'_'` replaced by `'-'`.
pub open spec fn hyphenated(s: Seq<char>) -> Seq<char> {
    Seq::new(
        s.len(),
        |i: int|
            if s[i] == '_' {
                '-'
            } else {
                s[i]
            },
    )
}

/// The bundle id a desktop's app must carry.
pub open spec fn bundle_id_of(d: Desktop) -> Seq<char> {
    match d.mode {
        DesktopMode::Local => BUNDLE_ID@,
        DesktopMode::Remote { .. } => BUNDLE_ID@ + "."@ + hyphenated(d.id@),
    }
}

pub fn expected_bundle_id(desktop: &Desktop) -> (out: String)
    ensures
        out@ == bundle_id_of(*desktop),
{
    match &desktop.mode {
        DesktopMode::Local => String::from_str(BUNDLE_ID),
        DesktopMode::Remote { .. } => {
            let id = chars_of(desktop.id.as_str());
            let mut suffix = String::new();
            let mut i: usize = 0;
            while i < id.len()
                invariant
                    i <= id@.len(),
                    id@ == desktop.id@,
                    suffix@ == hyphenated(id@.take(i as int)),
                decreases id.len() - i,
            {
                push_char(
                    &mut suffix,
                    if id[i] == '_' {
                        '-'
                    } else {
                        id[i]
                    },
                );
                i += 1;
                assert(suffix@ =~= hyphenated(id@.take(i as int)));
            }
            assert(id@.take(id@.len() as int) =~= id@);
            join3(BUNDLE_ID, ".", suffix.as_str())
        },
    }
}

/// `$HOME/Applications/<app_name>.app`.
pub open spec fn remote_app_path_of(home: Seq<char>, app_name: Seq<char>) -> Seq<char> {
    joined_path(joined_path(home, "Applications"@), app_name + ".app"@)
}

pub fn remote_app_path(home: &str, app_name: &str) -> (out: String)
    ensures
        out@ == remote_app_path_of(home@, app_name@),
{
    let applications = join_path(home, "Applications");
    let bundle = join2(app_name, ".app");
    join_path(applications.as_str(), bundle.as_str())
}

/// The app a desktop runs under.
pub open spec fn desktop_app_path_of(paths: RuntimePaths, d: Desktop) -> Seq<char> {
    match d.mode {
        DesktopMode::Local => paths.app@,
        DesktopMode::Remote { app_name, .. } => remote_app_path_of(paths.home@, app_name@),
    }
}

pub fn desktop_app_path(paths: &RuntimePaths, desktop: &Desktop) -> (out: String)
    ensures
        out@ == desktop_app_path_of(*paths, *desktop),
{
    match &desktop.mode {
        DesktopMode::Local => paths.app.clone(),
        DesktopMode::Remote { app_name, .. } => remote_app_path(
            paths.home.as_str(),
            app_name.as_str(),
        ),
    }
}

/// `{label} path must be absolute: {path}` unless the path is absolute.
pub fn require_absolute(path: &str, label: &str) -> (r: Result<(), LaunchError>)
    ensures
        match r {
            Ok(()) => absolute_path(path@),
            Err(e) => !absolute_path(path@) && e.0@ == label@ + " path must be absolute: "@
                + path@,
        },
{
    if !crate::registry::is_absolute(path) {
        return Err(LaunchError(join3(label, " path must be absolute: ", path)));
    }
    Ok(())
}


/// The kind of file a path names, as `fs::metadata` reports it.
#[derive(Debug, Clone, Copy, PartialEq, Eq, Structural)]
pub enum FileKind {
    File,
    Directory,
    Other,
}

/// What `fs::metadata` reports of a path: its kind and its permission bits.
#[derive(Debug, Clone, Copy, PartialEq, Eq, Structural)]
pub struct PathFacts {
    pub kind: FileKind,
    pub mode: u32,
}

/// The view of an inspection: the facts, or the text of the error.
pub open spec fn inspection(facts: Result<PathFacts, String>) -> Result<PathFacts, Seq<char>> {
    match facts {
        Ok(f) => Ok(f),
        Err(e) => Err(e@),
    }
}

/// Why the path does not name a `kind` (a file or a directory), if it does
/// not: it is not absolute, it could not be inspected, or it is something
/// else.
pub open spec fn kind_problem(
    path: Seq<char>,
    label: Seq<char>,
    facts: Result<PathFacts, Seq<char>>,
    kind: FileKind,
) -> Option<Seq<char>> {
    if !absolute_path(path) {
        Some(label + " path must be absolute: "@ + path)
    } else {
        match facts {
            Err(e) => Some("could not inspect "@ + label + " "@ + path + ": "@ + e),
            Ok(f) => if f.kind == kind {
                None
            } else if kind == FileKind::File {
                Some(label + " is not a file: "@ + path)
            } else {
                Some(label + " is not a directory: "@ + path)
            },
        }
    }
}

/// Why the path does not name an executable file, if it does not.
pub open spec fn executable_problem(
    path: Seq<char>,
    label: Seq<char>,
    facts: Result<PathFacts, Seq<char>>,
) -> Option<Seq<char>> {
    match kind_problem(path, label, facts, FileKind::File) {
        Some(m) => Some(m),
        None => if facts->Ok_0.mode & 0o111 == 0 {
            Some(label + " is not executable: "@ + path)
        } else {
            None
        },
    }
}

pub open spec fn checked(problem: Option<Seq<char>>, r: Result<(), LaunchError>) -> bool {
    match problem {
        None => r is Ok,
        Some(m) => r matches Err(e) && e.0@ == m,
    }
}

fn require_kind(path: &str, label: &str, facts: &Result<PathFacts, String>, kind: FileKind) -> (r:
    Result<(), LaunchError>)
    ensures
        checked(kind_problem(path@, label@, inspection(*facts), kind), r),
{
    require_absolute(path, label)?;
    match facts {
        Err(e) => Err(LaunchError(join4(join3("could not inspect ", label, " ").as_str(), path, ": ", e.as_str()))),
        Ok(f) => {
            if f.kind == kind {
                Ok(())
            } else if kind == FileKind::File {
                Err(LaunchError(join3(label, " is not a file: ", path)))
            } else {
                Err(LaunchError(join3(label, " is not a directory: ", path)))
            }
        },
    }
}

/// The path must name a file.
pub fn require_file(path: &str, label: &str, facts: &Result<PathFacts, String>) -> (r: Result<
    (),
    LaunchError,
>)
    ensures
        checked(kind_problem(path@, label@, inspection(*facts), FileKind::File), r),
{
    require_kind(path, label, facts, FileKind::File)
}

/// The path must name a directory.
pub fn require_directory(path: &str, label: &str, facts: &Result<PathFacts, String>) -> (r: Result<
    (),
    LaunchError,
>)
    ensures
        checked(kind_problem(path@, label@, inspection(*facts), FileKind::Directory), r),
{
    require_kind(path, label, facts, FileKind::Directory)
}

/// The path must name a file that someone may execute.
pub fn require_executable(path: &str, label: &str, facts: &Result<PathFacts, String>) -> (r:
    Result<(), LaunchError>)
    ensures
        checked(executable_problem(path@, label@, inspection(*facts)), r),
{
    require_file(path, label, facts)?;
    match facts {
        Ok(f) => {
            if f.mode & 0o111 == 0 {
                return Err(LaunchError(join3(label, " is not executable: ", path)));
            }
            Ok(())
        },
        Err(_) => Ok(()),
    }
}

/// What inspecting the paths that a launch needs reported.
#[derive(Debug)]
pub struct LaunchFacts {
    pub config: Result<PathFacts, String>,
    pub command_shim: Result<PathFacts, String>,
    pub launcher: Result<PathFacts, String>,
    pub real_herdr: Result<PathFacts, String>,
    pub switcher_bin: Result<PathFacts, String>,
}

/// The first problem, in order, among `problems`.
pub open spec fn first_problem(problems: Seq<Option<Seq<char>>>) -> Option<Seq<char>>
    decreases problems.len(),
{
    if problems.len() == 0 {
        None
    } else if problems[0] is Some {
        problems[0]
    } else {
        first_problem(problems.drop_first())
    }
}

/// The absolute-path check as a problem.
pub open spec fn absolute_problem(path: Seq<char>, label: Seq<char>) -> Option<Seq<char>> {
    if absolute_path(path) {
        None
    } else {
        Some(label + " path must be absolute: "@ + path)
    }
}

/// The checks a launch makes of the runtime paths, in order.
pub open spec fn launch_problems(paths: RuntimePaths, facts: LaunchFacts) -> Seq<Option<Seq<char>>> {
    seq![
        absolute_problem(paths.home@, "home directory"@),
        kind_problem(paths.config@, "desktop configuration"@, inspection(facts.config), FileKind::File),
        executable_problem(paths.command_shim@, "desktop command shim"@, inspection(facts.command_shim)),
        executable_problem(paths.launcher@, "desktop launch helper"@, inspection(facts.launcher)),
        executable_problem(paths.real_herdr@, "Herdr binary"@, inspection(facts.real_herdr)),
        executable_problem(paths.switcher_bin@, "desktop switcher binary"@, inspection(facts.switcher_bin)),
        absolute_problem(paths.state_dir@, "state directory"@),
    ]
}

/// The checks a client makes of the runtime paths, in order.
pub open spec fn client_problems(
    paths: RuntimePaths,
    config: Result<PathFacts, String>,
    real_herdr: Result<PathFacts, String>,
) -> Seq<Option<Seq<char>>> {
    seq![
        kind_problem(paths.config@, "desktop configuration"@, inspection(config), FileKind::File),
        executable_problem(paths.real_herdr@, "Herdr binary"@, inspection(real_herdr)),
    ]
}

impl RuntimePaths {
    /// The paths a launch needs are in place: `facts` holds what inspecting
    /// each of them reported.
    pub fn validate_for_launch(&self, facts: &LaunchFacts) -> (r: Result<(), LaunchError>)
        ensures
            checked(first_problem(launch_problems(*self, *facts)), r),
    {
        let ghost ps = launch_problems(*self, *facts);
        proof {
            reveal_with_fuel(first_problem, 8);
        }
        require_absolute(self.home.as_str(), "home directory")?;
        require_file(self.config.as_str(), "desktop configuration", &facts.config)?;
        require_executable(self.command_shim.as_str(), "desktop command shim", &facts.command_shim)?;
        require_executable(self.launcher.as_str(), "desktop launch helper", &facts.launcher)?;
        require_executable(self.real_herdr.as_str(), "Herdr binary", &facts.real_herdr)?;
        require_executable(self.switcher_bin.as_str(), "desktop switcher binary", &facts.switcher_bin)?;
        require_absolute(self.state_dir.as_str(), "state directory")
    }

    /// The paths a client needs are in place.
    pub fn validate_for_client(
        &self,
        config: &Result<PathFacts, String>,
        real_herdr: &Result<PathFacts, String>,
    ) -> (r: Result<(), LaunchError>)
        ensures
            checked(first_problem(client_problems(*self, *config, *real_herdr)), r),
    {
        proof {
            reveal_with_fuel(first_problem, 3);
        }
        require_file(self.config.as_str(), "desktop configuration", config)?;
        require_executable(self.real_herdr.as_str(), "Herdr binary", real_herdr)
    }
}

/// The desktop's app must be a directory; a per-desktop app that is missing
/// is reported with how to create it.
pub fn require_desktop_app(id: &str, mode: &DesktopMode, app: &str, facts: &Result<PathFacts, String>) -> (r:
    Result<(), LaunchError>)
    ensures
        match mode {
            DesktopMode::Local => checked(
                kind_problem(app@, "Herdr app"@, inspection(*facts), FileKind::Directory),
                r,
            ),
            DesktopMode::Remote { .. } => checked(
                match kind_problem(app@, "desktop app"@, inspection(*facts), FileKind::Directory) {
                    None => None,
                    Some(_) => Some(
                        "desktop "@ + debug_quoted(id@) + " app is missing at "@ + app@
                            + "; create it with ~/.config/herd/scripts/sync-desktop-apps.sh"@,
                    ),
                },
                r,
            ),
        },
{
    match mode {
        DesktopMode::Local => require_directory(app, "Herdr app", facts),
        DesktopMode::Remote { .. } => match require_directory(app, "desktop app", facts) {
            Ok(()) => Ok(()),
            Err(_) => {
                let q = quoted(id);
                let head = join4("desktop ", q.as_str(), " app is missing at ", app);
                Err(LaunchError(join2(head.as_str(), "; create it with ~/.config/herd/scripts/sync-desktop-apps.sh")))
            },
        },
    }
}

// ---------------------------------------------------------------------------
// Plans.
// ---------------------------------------------------------------------------
pub open spec fn authority_text(a: KeybindingAuthority) -> Seq<char> {
    match a {
        KeybindingAuthority::Local => "local"@,
        KeybindingAuthority::Server => "server"@,
    }
}

pub fn authority_name(authority: KeybindingAuthority) -> (out: &'static str)
    ensures
        out@ == authority_text(authority),
{
    match authority {
        KeybindingAuthority::Local => "local",
        KeybindingAuthority::Server => "server",
    }
}

/// The plan of a desktop: local, or the remote endpoint it names.
pub open spec fn plan_of(d: Desktop) -> LaunchPlan {
    match d.mode {
        DesktopMode::Local => LaunchPlan::Local,
        DesktopMode::Remote { target, session, keybindings, .. } => LaunchPlan::Remote {
            target,
            session,
            keybindings,
        },
    }
}

pub(crate) fn plan_for(desktop: &Desktop) -> (plan: LaunchPlan)
    ensures
        plan == plan_of(*desktop),
{
    match &desktop.mode {
        DesktopMode::Local => LaunchPlan::Local,
        DesktopMode::Remote { target, session, keybindings, .. } => LaunchPlan::Remote {
            target: target.clone(),
            session: session.clone(),
            keybindings: *keybindings,
        },
    }
}

pub open spec fn undefined_desktop(id: Seq<char>) -> Seq<char> {
    "desktop "@ + debug_quoted(id) + " is not defined"@
}

/// The plan of desktop `id` of `config`.
pub fn plan_desktop(config: &DesktopConfig, id: &str) -> (r: Result<LaunchPlan, LaunchError>)
    ensures
        match r {
            Ok(plan) => exists|i: int|
                first_desktop_at(config.desktops@, id@, i) && plan == plan_of(
                    config.desktops@[i],
                ),
            Err(e) => (forall|i: int|
                0 <= i < config.desktops@.len() ==> (#[trigger] config.desktops@[i]).id@ != id@)
                && e.0@ == undefined_desktop(id@),
        },
{
    match config.desktop(id) {
        Some(desktop) => Ok(plan_for(desktop)),
        None => {
            let q = quoted(id);
            Err(LaunchError(join3("desktop ", q.as_str(), " is not defined")))
        },
    }
}

/// Two plans name the same endpoint.
pub open spec fn same_plan(a: LaunchPlan, b: LaunchPlan) -> bool {
    match (a, b) {
        (LaunchPlan::Local, LaunchPlan::Local) => true,
        (
            LaunchPlan::Remote { target: t1, session: s1, keybindings: k1 },
            LaunchPlan::Remote { target: t2, session: s2, keybindings: k2 },
        ) => t1@ == t2@ && s1@ == s2@ && k1 == k2,
        _ => false,
    }
}

pub fn plans_equal(a: &LaunchPlan, b: &LaunchPlan) -> (r: bool)
    ensures
        r == same_plan(*a, *b),
{
    match (a, b) {
        (LaunchPlan::Local, LaunchPlan::Local) => true,
        (
            LaunchPlan::Remote { target: t1, session: s1, keybindings: k1 },
            LaunchPlan::Remote { target: t2, session: s2, keybindings: k2 },
        ) => same_text(t1.as_str(), t2.as_str()) && same_text(s1.as_str(), s2.as_str()) && (
        match (k1, k2) {
            (KeybindingAuthority::Local, KeybindingAuthority::Local) => true,
            (KeybindingAuthority::Server, KeybindingAuthority::Server) => true,
            _ => false,
        }),
        _ => false,
    }
}


/// The plan of desktop `id` from the configuration file: `facts` is what
/// inspecting `paths.config` reported and `read` what reading it gave.
pub fn load_and_plan(
    paths: &RuntimePaths,
    facts: &Result<PathFacts, String>,
    read: Result<String, String>,
    id: &str,
) -> (r: Result<LaunchPlan, LaunchError>)
    ensures
        match kind_problem(
            paths.config@,
            "desktop configuration"@,
            inspection(*facts),
            FileKind::File,
        ) {
            Some(m) => r matches Err(e) && e.0@ == m,
            None => match read {
                Err(message) => r matches Err(e) && e.0@ == "could not read "@ + paths.config@
                    + ": "@ + message@,
                Ok(source) => match parse_outcome(source@, paths.config@) {
                    Err(f) => r matches Err(e) && e.0@ == failure_text(f),
                    Ok((version, default, ds)) => match r {
                        Ok(plan) => exists|i: int|
                            first_desktop_at(ds, id@, i) && plan == plan_of(ds[i]),
                        Err(e) => (forall|i: int| 0 <= i < ds.len() ==> (#[trigger] ds[i]).id@ != id@)
                            && e.0@ == undefined_desktop(id@),
                    },
                },
            },
        },
{
    require_file(paths.config.as_str(), "desktop configuration", facts)?;
    let config = match load_from(paths.config.as_str(), read) {
        Ok(config) => config,
        Err(error) => {
            return Err(LaunchError(error.message()));
        },
    };
    plan_desktop(&config, id)
}

/// The client connects only to the plan that the launch was asked for.
pub fn require_expected_plan(id: &str, expected: &LaunchPlan, plan: &LaunchPlan) -> (r: Result<
    (),
    LaunchError,
>)
    ensures
        same_plan(*expected, *plan) ==> r is Ok,
        !same_plan(*expected, *plan) ==> (r matches Err(e) && e.0@ == "desktop "@ + debug_quoted(
            id@,
        ) + " changed after launch was requested; refusing to connect to an unverified endpoint"@),
{
    if plans_equal(expected, plan) {
        return Ok(());
    }
    let q = quoted(id);
    Err(
        LaunchError(
            join3(
                "desktop ",
                q.as_str(),
                " changed after launch was requested; refusing to connect to an unverified endpoint",
            ),
        ),
    )
}

/// A lowercase hexadecimal digit.
pub open spec fn hex_digit(d: u32) -> char {
    "0123456789abcdef"@[d as int]
}

/// How serde_json writes one character inside a JSON string: `"` and `\`
/// and the control characters below U+0020 escaped (the five with a short
/// form by it, the others as `\u00XX` in lowercase hex), everything else as
/// it is.
pub open spec fn json_char(c: char) -> Seq<char> {
    let u = c as u32;
    if c == '"' {
        seq!['\\', '"']
    } else if c == '\\' {
        seq!['\\', '\\']
    } else if u == 0x08 {
        seq!['\\', 'b']
    } else if u == 0x09 {
        seq!['\\', 't']
    } else if u == 0x0a {
        seq!['\\', 'n']
    } else if u == 0x0c {
        seq!['\\', 'f']
    } else if u == 0x0d {
        seq!['\\', 'r']
    } else if u < 0x20 {
        seq!['\\', 'u', '0', '0', hex_digit(u / 16), hex_digit(u % 16)]
    } else {
        seq![c]
    }
}

/// The characters of `s`, each written as `json_char` writes it.
pub open spec fn json_escaped(s: Seq<char>) -> Seq<char>
    decreases s.len(),
{
    if s.len() == 0 {
        Seq::empty()
    } else {
        json_escaped(s.drop_last()) + json_char(s.last())
    }
}

/// What `serde_json::to_string` gives for a string: a JSON string literal.
pub open spec fn json_string(s: Seq<char>) -> Seq<char> {
    seq!['"'] + json_escaped(s) + seq!['"']
}

/// A string as a JSON string literal, through `serde_json::to_string`.
///
/// Trusted: the result is `json_string(s)`, serde_json's escaping.
/// Serialising a `&str` cannot fail (serde_json only fails on maps with
/// non-string keys and on failing `Serialize` impls), so the `expect` never
/// fires.
#[verifier::external_body]
fn json_literal(s: &str) -> (out: String)
    ensures
        out@ == json_string(s@),
{
    serde_json::to_string(s).expect("a string always serialises")
}

/// The JSON form of a plan, tagged by `mode`, fields in declaration order.
pub open spec fn plan_json_text(plan: LaunchPlan) -> Seq<char> {
    match plan {
        LaunchPlan::Local => "{\"mode\":\"local\"}"@,
        LaunchPlan::Remote { target, session, keybindings } => "{\"mode\":\"remote\",\"target\":"@
            + json_string(target@) + ",\"session\":"@ + json_string(session@)
            + ",\"keybindings\":\""@ + authority_text(keybindings) + "\"}"@,
    }
}

/// The plan as the JSON text handed to the launch helper and checked by the
/// client before it connects.
pub fn plan_json(plan: &LaunchPlan) -> (out: String)
    ensures
        out@ == plan_json_text(*plan),
{
    match plan {
        LaunchPlan::Local => String::from_str("{\"mode\":\"local\"}"),
        LaunchPlan::Remote { target, session, keybindings } => {
            let t = json_literal(target.as_str());
            let s = json_literal(session.as_str());
            let head = join4("{\"mode\":\"remote\",\"target\":", t.as_str(), ",\"session\":", s.as_str());
            let tail = join3(",\"keybindings\":\"", authority_name(*keybindings), "\"}");
            let out = join2(head.as_str(), tail.as_str());
            assert(out@ =~= plan_json_text(*plan));
            out
        },
    }
}

/// The arguments of the Herdr client for a plan.
pub open spec fn client_argument_list(plan: LaunchPlan) -> Seq<Seq<char>> {
    match plan {
        LaunchPlan::Local => Seq::empty(),
        LaunchPlan::Remote { target, session, keybindings } => seq![
            "--remote"@,
            target@,
            "--session"@,
            session@,
            "--remote-keybindings"@,
            authority_text(keybindings),
        ],
    }
}

pub open spec fn views(v: Seq<String>) -> Seq<Seq<char>> {
    v.map_values(|s: String| s@)
}

pub fn client_arguments(plan: &LaunchPlan) -> (out: Vec<String>)
    ensures
        views(out@) == client_argument_list(*plan),
{
    let mut out: Vec<String> = Vec::new();
    if let LaunchPlan::Remote { target, session, keybindings } = plan {
        out.push(String::from_str("--remote"));
        out.push(target.clone());
        out.push(String::from_str("--session"));
        out.push(session.clone());
        out.push(String::from_str("--remote-keybindings"));
        out.push(String::from_str(authority_name(*keybindings)));
    }
    assert(views(out@) =~= client_argument_list(*plan));
    out
}

// ---------------------------------------------------------------------------
// Argument arrays.
// ---------------------------------------------------------------------------
pub open spec fn ssh_preflight_argument_list(target: Seq<char>) -> Seq<Seq<char>> {
    seq![
        "-o"@,
        "BatchMode=yes"@,
        "-o"@,
        "StrictHostKeyChecking=yes"@,
        "-o"@,
        "ConnectTimeout=5"@,
        "-o"@,
        "ConnectionAttempts=1"@,
        "-o"@,
        "ServerAliveInterval=3"@,
        "-o"@,
        "ServerAliveCountMax=1"@,
        target,
        "true"@,
    ]
}

/// The bounded, non-interactive SSH command that checks a remote target.
pub fn ssh_preflight_arguments(target: &str) -> (out: Vec<String>)
    ensures
        views(out@) == ssh_preflight_argument_list(target@),
{
    let mut out: Vec<String> = Vec::new();
    out.push(String::from_str("-o"));
    out.push(String::from_str("BatchMode=yes"));
    out.push(String::from_str("-o"));
    out.push(String::from_str("StrictHostKeyChecking=yes"));
    out.push(String::from_str("-o"));
    out.push(String::from_str("ConnectTimeout=5"));
    out.push(String::from_str("-o"));
    out.push(String::from_str("ConnectionAttempts=1"));
    out.push(String::from_str("-o"));
    out.push(String::from_str("ServerAliveInterval=3"));
    out.push(String::from_str("-o"));
    out.push(String::from_str("ServerAliveCountMax=1"));
    out.push(String::from_str(target));
    out.push(String::from_str("true"));
    assert(views(out@) =~= ssh_preflight_argument_list(target@));
    out
}

pub open spec fn launch_argument_list(
    paths: RuntimePaths,
    id: Seq<char>,
    expected_plan: Seq<char>,
    app: Seq<char>,
    bundle_id: Seq<char>,
) -> Seq<Seq<char>> {
    seq![
        "launch"@,
        "--app"@,
        app,
        "--bundle-id"@,
        bundle_id,
        "--command"@,
        paths.command_shim@,
        "--switcher-bin"@,
        paths.switcher_bin@,
        "--config"@,
        paths.config@,
        "--desktop-id"@,
        id,
        "--real-herdr"@,
        paths.real_herdr@,
        "--expected-plan"@,
        expected_plan,
    ]
}

/// The launch helper's arguments for one desktop.
pub fn launch_arguments(
    paths: &RuntimePaths,
    id: &str,
    expected_plan: &str,
    app: &str,
    bundle_id: &str,
) -> (out: Vec<String>)
    ensures
        views(out@) == launch_argument_list(*paths, id@, expected_plan@, app@, bundle_id@),
{
    let mut out: Vec<String> = Vec::new();
    out.push(String::from_str("launch"));
    out.push(String::from_str("--app"));
    out.push(String::from_str(app));
    out.push(String::from_str("--bundle-id"));
    out.push(String::from_str(bundle_id));
    out.push(String::from_str("--command"));
    out.push(paths.command_shim.clone());
    out.push(String::from_str("--switcher-bin"));
    out.push(paths.switcher_bin.clone());
    out.push(String::from_str("--config"));
    out.push(paths.config.clone());
    out.push(String::from_str("--desktop-id"));
    out.push(String::from_str(id));
    out.push(String::from_str("--real-herdr"));
    out.push(paths.real_herdr.clone());
    out.push(String::from_str("--expected-plan"));
    out.push(String::from_str(expected_plan));
    assert(views(out@) =~= launch_argument_list(*paths, id@, expected_plan@, app@, bundle_id@));
    out
}

pub open spec fn identity_argument_list(action: Seq<char>, r: InstanceRecord) -> Seq<Seq<char>> {
    seq![
        action,
        "--pid"@,
        decimal(r.pid as int),
        "--app"@,
        r.bundle_path@,
        "--bundle-id"@,
        r.bundle_id@,
        "--launch-date-unix-ms"@,
        decimal(r.launch_date_unix_ms as int),
    ]
}

/// The identity helper's arguments to act on a recorded client.
pub fn identity_arguments(action: &str, record: &InstanceRecord) -> (out: Vec<String>)
    ensures
        views(out@) == identity_argument_list(action@, *record),
{
    let mut out: Vec<String> = Vec::new();
    out.push(String::from_str(action));
    out.push(String::from_str("--pid"));
    out.push(decimal_string(record.pid as i64));
    out.push(String::from_str("--app"));
    out.push(record.bundle_path.clone());
    out.push(String::from_str("--bundle-id"));
    out.push(record.bundle_id.clone());
    out.push(String::from_str("--launch-date-unix-ms"));
    out.push(decimal_string(record.launch_date_unix_ms));
    assert(views(out@) =~= identity_argument_list(action@, *record));
    out
}

// ---------------------------------------------------------------------------
// Identities and records.
// ---------------------------------------------------------------------------
/// What the launch helper reports about the client it started.
#[derive(Debug, Clone)]
pub struct LaunchIdentity {
    pub pid: i32,
    pub launch_date_unix_ms: i64,
    pub bundle_id: String,
    pub bundle_path: String,
}

/// `s` split at every `/`, empty pieces included.
pub open spec fn slash_pieces(s: Seq<char>) -> Seq<Seq<char>>
    decreases s.len(),
{
    if s.len() == 0 {
        seq![Seq::empty()]
    } else {
        let before = slash_pieces(s.drop_last());
        if s.last() == '/' {
            before.push(Seq::empty())
        } else {
            before.update(before.len() - 1, before.last().push(s.last()))
        }
    }
}

/// The pieces that are components of their own: neither empty nor `.`.
pub open spec fn named_pieces(pieces: Seq<Seq<char>>) -> Seq<Seq<char>> {
    pieces.filter(|p: Seq<char>| p.len() > 0 && p != seq!['.'])
}

/// The components of the Unix path written `s`, as `Path::components` yields
/// them, each by its text: `/` for the root, `.` for a current directory
/// that begins a relative path, then every other piece between slashes that
/// is neither empty nor `.` (so repeated and trailing slashes and inner `.`
/// pieces are normalised away).
pub open spec fn path_components(s: Seq<char>) -> Seq<Seq<char>> {
    let lead = if s.len() > 0 && s[0] == '/' {
        seq![seq!['/']]
    } else if s.len() > 0 && s[0] == '.' && (s.len() == 1 || s[1] == '/') {
        seq![seq!['.']]
    } else {
        Seq::empty()
    };
    lead + named_pieces(slash_pieces(s))
}

/// Whether two strings name the same path: `Path` equality, which compares
/// the paths' components.
pub open spec fn same_path(a: Seq<char>, b: Seq<char>) -> bool {
    path_components(a) == path_components(b)
}

/// `Path::new(a) == Path::new(b)`.
///
/// Trusted: `Path` equality holds exactly when the two paths have the same
/// components (`same_path`).
#[verifier::external_body]
fn paths_equal(a: &str, b: &str) -> (r: bool)
    ensures
        r == same_path(a@, b@),
{
    std::path::Path::new(a) == std::path::Path::new(b)
}

/// The identity is acceptable for a client of `expected_app` and
/// `expected_bundle_id`.
pub open spec fn identity_problem(
    expected_app: Seq<char>,
    expected_bundle_id: Seq<char>,
    identity: LaunchIdentity,
) -> Option<Seq<char>> {
    if identity.pid <= 0 || identity.launch_date_unix_ms <= 0 || identity.bundle_id@
        != expected_bundle_id {
        Some("helper returned invalid app identity fields"@)
    } else if !same_path(identity.bundle_path@, expected_app) {
        Some(
            "helper returned bundle path "@ + debug_quoted(identity.bundle_path@) + ", expected "@
                + expected_app,
        )
    } else {
        None
    }
}

/// Checks the identity that the launch helper reported.
pub fn check_launch_identity(
    expected_app: &str,
    expected_bundle_id: &str,
    identity: LaunchIdentity,
) -> (r: Result<LaunchIdentity, LaunchError>)
    ensures
        match r {
            Ok(i) => identity_problem(expected_app@, expected_bundle_id@, identity) is None && i
                == identity,
            Err(e) => identity_problem(expected_app@, expected_bundle_id@, identity) == Some(e.0@),
        },
{
    if identity.pid <= 0 || identity.launch_date_unix_ms <= 0 || !same_text(
        identity.bundle_id.as_str(),
        expected_bundle_id,
    ) {
        return Err(LaunchError(String::from_str("helper returned invalid app identity fields")));
    }
    if !paths_equal(identity.bundle_path.as_str(), expected_app) {
        let q = quoted(identity.bundle_path.as_str());
        return Err(
            LaunchError(join4("helper returned bundle path ", q.as_str(), ", expected ", expected_app)),
        );
    }
    Ok(identity)
}

/// The fields of the record of a client launched for `d` with identity
/// `identity`.
pub open spec fn record_fields_of(d: Desktop, identity: LaunchIdentity, r: InstanceRecord) -> bool {
    &&& r.desktop_id == d.id
    &&& r.pid == identity.pid
    &&& r.launch_date_unix_ms == identity.launch_date_unix_ms
    &&& r.bundle_id == identity.bundle_id
    &&& r.bundle_path == identity.bundle_path
    &&& match d.mode {
        DesktopMode::Local => r.mode@ == "local"@ && r.target is None && r.session is None
            && r.keybindings is None,
        DesktopMode::Remote { target, session, keybindings, .. } => {
            &&& r.mode@ == "remote"@
            &&& r.target == Some(target)
            &&& r.session == Some(session)
            &&& opt_view(r.keybindings) == Some(authority_text(keybindings))
        },
    }
}

/// The record of a client launched for `desktop`.
pub fn record_from_desktop(desktop: &Desktop, identity: LaunchIdentity) -> (r: InstanceRecord)
    ensures
        record_fields_of(*desktop, identity, r),
{
    let (mode, target, session, keybindings) = match &desktop.mode {
        DesktopMode::Local => (String::from_str("local"), None, None, None),
        DesktopMode::Remote { target, session, keybindings, .. } => (
            String::from_str("remote"),
            Some(target.clone()),
            Some(session.clone()),
            Some(String::from_str(authority_name(*keybindings))),
        ),
    };
    InstanceRecord {
        desktop_id: desktop.id.clone(),
        pid: identity.pid,
        launch_date_unix_ms: identity.launch_date_unix_ms,
        bundle_id: identity.bundle_id,
        bundle_path: identity.bundle_path,
        mode,
        target,
        session,
        keybindings,
    }
}

/// The recorded client is the one the desktop's current configuration would
/// launch: same bundle, same app path, same endpoint.
pub open spec fn record_matches(
    r: InstanceRecord,
    d: Desktop,
    expected_app: Seq<char>,
    expected_bundle_id: Seq<char>,
) -> bool {
    &&& r.bundle_id@ == expected_bundle_id
    &&& same_path(r.bundle_path@, expected_app)
    &&& match d.mode {
        DesktopMode::Local => r.mode@ == "local"@ && r.target is None && r.session is None
            && r.keybindings is None,
        DesktopMode::Remote { target, session, keybindings, .. } => {
            &&& r.mode@ == "remote"@
            &&& opt_view(r.target) == Some(target@)
            &&& opt_view(r.session) == Some(session@)
            &&& opt_view(r.keybindings) == Some(authority_text(keybindings))
        },
    }
}


/// A record made from an identity matches its desktop at the identity's own
/// app path and bundle id: every field is copied, and a path always names
/// itself.
pub proof fn law_record_matches_its_own_identity(d: Desktop, identity: LaunchIdentity, r: InstanceRecord)
    requires
        record_fields_of(d, identity, r),
    ensures
        record_matches(r, d, identity.bundle_path@, identity.bundle_id@),
{
}

/// A client recorded from the identity that the helper reported for a
/// desktop matches that desktop: the next launch focuses it instead of
/// reporting drift.
pub proof fn law_recorded_launch_matches_its_desktop(
    d: Desktop,
    identity: LaunchIdentity,
    app: Seq<char>,
    r: InstanceRecord,
)
    requires
        identity_problem(app, bundle_id_of(d), identity) is None,
        record_fields_of(d, identity, r),
    ensures
        record_matches(r, d, app, bundle_id_of(d)),
{
}

/// A client recorded for a valid desktop from a checked identity whose app
/// path is absolute is a record that the registry accepts.
pub proof fn law_recorded_launch_is_valid(
    d: Desktop,
    identity: LaunchIdentity,
    app: Seq<char>,
    r: InstanceRecord,
)
    requires
        desktop_valid(d),
        identity_problem(app, bundle_id_of(d), identity) is None,
        absolute_path(identity.bundle_path@),
        record_fields_of(d, identity, r),
    ensures
        record_problem(r) is None,
{
    let b = bundle_id_of(d);
    if b != BUNDLE_ID@ {
        assert(b.take(BUNDLE_ID@.len() as int + 1) =~= BUNDLE_ID@ + seq!['.']) by {
            reveal_strlit(".");
        }
    }
    assert(family_bundle_id(r.bundle_id@));
}


/// In a valid configuration, two different remote desktops run under two
/// different apps.
pub proof fn law_remote_desktops_have_their_own_app(
    config: DesktopConfig,
    paths: RuntimePaths,
    i: int,
    j: int,
)
    requires
        config.is_valid(),
        0 <= i < config.desktops@.len(),
        0 <= j < config.desktops@.len(),
        i != j,
        config.desktops@[i].mode is Remote,
        config.desktops@[j].mode is Remote,
    ensures
        desktop_app_path_of(paths, config.desktops@[i]) != desktop_app_path_of(
            paths,
            config.desktops@[j],
        ),
{
    let ds = config.desktops@;
    let a = crate::parse::app_name_of(ds[i]).unwrap();
    let b = crate::parse::app_name_of(ds[j]).unwrap();
    assert(desktop_valid(ds[i]));
    assert(desktop_valid(ds[j]));
    assert(a != b);
    let base = joined_path(paths.home@, "Applications"@);
    let suffix = ".app"@;
    reveal_strlit("Applications");
    reveal_strlit(".app");
    assert(base.len() > 0 && base.last() != '/');
    assert(a.len() > 0 && a[0] != '/');
    assert(b.len() > 0 && b[0] != '/');
    assert((a + suffix)[0] == a[0]);
    assert((b + suffix)[0] == b[0]);
    let pa = base + seq!['/'] + (a + suffix);
    let pb = base + seq!['/'] + (b + suffix);
    assert(desktop_app_path_of(paths, ds[i]) == pa);
    assert(desktop_app_path_of(paths, ds[j]) == pb);
    if pa == pb {
        let n: int = base.len() as int + 1;
        assert(pa.skip(n) =~= a + suffix);
        assert(pb.skip(n) =~= b + suffix);
        assert((a + suffix).len() == (b + suffix).len());
        assert((a + suffix).take(a.len() as int) =~= a);
        assert((b + suffix).take(b.len() as int) =~= b);
    }
}

fn opt_text_is(o: &Option<String>, text: &str) -> (r: bool)
    ensures
        r == (opt_view(*o) == Some(text@)),
{
    match o {
        Some(s) => same_text(s.as_str(), text),
        None => false,
    }
}

pub fn record_matches_desktop(
    record: &InstanceRecord,
    desktop: &Desktop,
    expected_app: &str,
    expected_bundle_id: &str,
) -> (r: bool)
    ensures
        r == record_matches(*record, *desktop, expected_app@, expected_bundle_id@),
{
    if !same_text(record.bundle_id.as_str(), expected_bundle_id) || !paths_equal(
        record.bundle_path.as_str(),
        expected_app,
    ) {
        return false;
    }
    match &desktop.mode {
        DesktopMode::Local => same_text(record.mode.as_str(), "local") && record.target.is_none()
            && record.session.is_none() && record.keybindings.is_none(),
        DesktopMode::Remote { target, session, keybindings, .. } => same_text(
            record.mode.as_str(),
            "remote",
        ) && opt_text_is(&record.target, target.as_str()) && opt_text_is(
            &record.session,
            session.as_str(),
        ) && opt_text_is(&record.keybindings, authority_name(*keybindings)),
    }
}


// ---------------------------------------------------------------------------
// Helper commands.
// ---------------------------------------------------------------------------
/// How running a helper command failed.
#[derive(Debug)]
pub enum CommandFailure {
    Start(String),
    Wait(String),
    Timeout,
    Exit { code: Option<i32>, stderr: String },
}

impl CommandFailure {
    pub fn code(&self) -> (r: Option<i32>)
        ensures
            r == match self {
                CommandFailure::Exit { code, .. } => *code,
                _ => None,
            },
    {
        match self {
            CommandFailure::Exit { code, .. } => *code,
            _ => None,
        }
    }

    /// Whether the helper may have launched a client anyway: it could not be
    /// waited for, timed out, died by a signal, or exited with code 75.
    pub open spec fn launch_state_unknown(&self) -> bool {
        match self {
            CommandFailure::Start(_) => false,
            CommandFailure::Wait(_) | CommandFailure::Timeout => true,
            CommandFailure::Exit { code, .. } => code is None || *code == Some(75i32),
        }
    }

    pub fn unknown_launch_state(&self) -> (r: bool)
        ensures
            r == self.launch_state_unknown(),
    {
        match self {
            CommandFailure::Start(_) => false,
            CommandFailure::Wait(_) | CommandFailure::Timeout => true,
            CommandFailure::Exit { code, .. } => match code {
                None => true,
                Some(c) => *c == 75,
            },
        }
    }

    pub open spec fn text(&self) -> Seq<char> {
        match self {
            CommandFailure::Start(m) => m@,
            CommandFailure::Wait(m) => m@,
            CommandFailure::Timeout => "command timed out"@,
            CommandFailure::Exit { code, stderr } => "command exited with "@ + match code {
                Some(c) => decimal(*c as int),
                None => "signal"@,
            } + if stderr@.len() == 0 {
                Seq::<char>::empty()
            } else {
                ": "@ + stderr@
            },
        }
    }

    /// The failure as it is shown in error messages.
    pub fn message(&self) -> (out: String)
        ensures
            out@ == self.text(),
    {
        match self {
            CommandFailure::Start(m) => m.clone(),
            CommandFailure::Wait(m) => m.clone(),
            CommandFailure::Timeout => String::from_str("command timed out"),
            CommandFailure::Exit { code, stderr } => {
                let status = match code {
                    Some(c) => decimal_string(*c as i64),
                    None => String::from_str("signal"),
                };
                let out = join2("command exited with ", status.as_str());
                if stderr.as_str().is_empty() {
                    assert(out@ =~= self.text());
                    out
                } else {
                    let out = join3(out.as_str(), ": ", stderr.as_str());
                    assert(out@ =~= self.text());
                    out
                }
            },
        }
    }
}


/// `ssh -G` on the target failed.
pub fn ssh_config_inspection_error(target: &str, failure: &CommandFailure) -> (e: LaunchError)
    ensures
        e.0@ == "could not inspect effective SSH configuration for "@ + debug_quoted(target@) + ": "@
            + failure.text(),
{
    let q = quoted(target);
    let text = failure.message();
    let head = join2("could not inspect effective SSH configuration for ", q.as_str());
    LaunchError(join3(head.as_str(), ": ", text.as_str()))
}

/// The bounded SSH preflight against the target failed.
pub fn preflight_error(target: &str, failure: &CommandFailure) -> (e: LaunchError)
    ensures
        e.0@ == "remote desktop target "@ + debug_quoted(target@)
            + " failed bounded non-interactive SSH preflight: "@ + failure.text(),
{
    let q = quoted(target);
    let text = failure.message();
    let head = join3("remote desktop target ", q.as_str(), " failed bounded non-interactive SSH preflight: ");
    LaunchError(join2(head.as_str(), text.as_str()))
}

/// What `String::from_utf8_lossy` gives for bytes that are not valid UTF-8:
/// invalid sequences replaced by U+FFFD.
pub uninterp spec fn lossy_text(bytes: Seq<u8>) -> Seq<char>;

/// What `String::from_utf8_lossy` gives for bytes: valid UTF-8 decoded as it
/// is, anything else as the named text.
pub open spec fn lossy(bytes: Seq<u8>) -> Seq<char> {
    if vstd::utf8::valid_utf8(bytes) {
        vstd::utf8::decode_utf8(bytes)
    } else {
        lossy_text(bytes)
    }
}

/// `String::from_utf8_lossy(bytes)`.
///
/// Trusted: valid UTF-8 comes out unchanged, as the characters it encodes;
/// for other bytes the result is the named text `lossy_text(bytes)` (only the
/// invalid sequences are replaced).
#[verifier::external_body]
pub(crate) fn from_utf8_lossy(bytes: &[u8]) -> (out: String)
    ensures
        vstd::utf8::valid_utf8(bytes@) ==> out@ == vstd::utf8::decode_utf8(bytes@),
        !vstd::utf8::valid_utf8(bytes@) ==> out@ == lossy_text(bytes@),
{
    String::from_utf8_lossy(bytes).into_owned()
}

/// At most the first 1000 characters of a command's output, trimmed.
pub open spec fn bounded_text_of(bytes: Seq<u8>) -> Seq<char> {
    let t = lossy(bytes);
    crate::text::trimmed(
        if t.len() > 1000 {
            t.take(1000)
        } else {
            t
        },
    )
}

pub fn bounded_text(bytes: &[u8]) -> (out: String)
    ensures
        out@ == bounded_text_of(bytes@),
{
    let text = from_utf8_lossy(bytes);
    let chars = chars_of(text.as_str());
    let end: usize = if chars.len() > 1000 {
        1000
    } else {
        chars.len()
    };
    let head = string_from(chars.as_slice(), 0, end);
    let head_chars = chars_of(head.as_str());
    let trimmed = crate::text::trim(head_chars.as_slice());
    proof {
        if chars@.len() > 1000 {
            assert(chars@.subrange(0, 1000) =~= chars@.take(1000));
        } else {
            assert(chars@.subrange(0, chars@.len() as int) =~= chars@);
        }
    }
    string_of(trimmed.as_slice())
}

// ---------------------------------------------------------------------------
// The effective SSH configuration of a remote target.
// ---------------------------------------------------------------------------
/// The line sets `key`: its text up to the first space is `key`.
pub open spec fn sets_key(l: Seq<char>, key: Seq<char>) -> bool {
    match crate::text::split_at_space(l) {
        Some((name, _)) => name == key,
        None => false,
    }
}

pub open spec fn first_setting_at(ls: Seq<Seq<char>>, key: Seq<char>, i: int) -> bool {
    0 <= i < ls.len() && sets_key(ls[i], key) && forall|j: int|
        0 <= j < i ==> !sets_key(#[trigger] ls[j], key)
}

/// The trimmed value of the first line that sets `key`.
pub open spec fn setting(ls: Seq<Seq<char>>, key: Seq<char>) -> Option<Seq<char>> {
    if exists|i: int| first_setting_at(ls, key, i) {
        let i = choose|i: int| first_setting_at(ls, key, i);
        Some(crate::text::trimmed(crate::text::split_at_space(ls[i]).unwrap().1))
    } else {
        None
    }
}

/// The setting is a positive number no greater than `maximum`.
pub open spec fn positive_at_most(ls: Seq<Seq<char>>, key: Seq<char>, maximum: u32) -> bool {
    match setting(ls, key) {
        Some(v) => match crate::text::parsed_u32(v) {
            Some(n) => 0 < n <= maximum,
            None => false,
        },
        None => false,
    }
}

/// What `ssh -G` printed bounds the connection: batch mode, strict host key
/// checking, a bounded connect timeout, one attempt, and bounded keepalives.
pub open spec fn ssh_options_bounded(text: Seq<char>) -> bool {
    let ls = crate::text::text_lines(text);
    &&& setting(ls, "batchmode"@) == Some("yes"@)
    &&& (setting(ls, "stricthostkeychecking"@) == Some("yes"@) || setting(
        ls,
        "stricthostkeychecking"@,
    ) == Some("true"@))
    &&& positive_at_most(ls, "connecttimeout"@, 10)
    &&& setting(ls, "connectionattempts"@) == Some("1"@)
    &&& positive_at_most(ls, "serveraliveinterval"@, 10)
    &&& positive_at_most(ls, "serveralivecountmax"@, 3)
}

pub open spec fn ssh_config_problem(target: Seq<char>, output: Seq<u8>) -> Option<Seq<char>> {
    if !vstd::utf8::valid_utf8(output) {
        Some("ssh -G returned non-UTF-8 configuration for "@ + debug_quoted(target))
    } else if !ssh_options_bounded(vstd::utf8::decode_utf8(output)) {
        Some(
            "SSH target "@ + debug_quoted(target)
                + " must have bounded non-interactive options in ~/.ssh/config before Herdr can use it: BatchMode yes, StrictHostKeyChecking yes, ConnectTimeout 5, ConnectionAttempts 1, ServerAliveInterval 3, ServerAliveCountMax 1"@,
        )
    } else {
        None
    }
}

/// A target is accepted only when its effective options bound every
/// connection: batch mode on, strict host key checking on, exactly one
/// connection attempt, a connect timeout of 1 to 10 seconds, a keepalive
/// interval of 1 to 10 seconds, and 1 to 3 unanswered keepalives. An output
/// with any of those numbers at 0 (ssh's default keepalive interval) or above
/// its bound is refused.
pub proof fn law_accepted_ssh_options_bound_the_connection(target: Seq<char>, output: Seq<u8>)
    requires
        ssh_config_problem(target, output) is None,
    ensures
        vstd::utf8::valid_utf8(output),
        ({
            let ls = crate::text::text_lines(vstd::utf8::decode_utf8(output));
            &&& setting(ls, "batchmode"@) == Some("yes"@)
            &&& (setting(ls, "stricthostkeychecking"@) == Some("yes"@) || setting(
                ls,
                "stricthostkeychecking"@,
            ) == Some("true"@))
            &&& setting(ls, "connectionattempts"@) == Some("1"@)
            &&& setting(ls, "connecttimeout"@) is Some
            &&& (crate::text::parsed_u32(setting(ls, "connecttimeout"@)->Some_0) matches Some(n) && 1 <= n
                && n <= 10)
            &&& setting(ls, "serveraliveinterval"@) is Some
            &&& (crate::text::parsed_u32(setting(ls, "serveraliveinterval"@)->Some_0) matches Some(n) && 1 <= n
                && n <= 10)
            &&& setting(ls, "serveralivecountmax"@) is Some
            &&& (crate::text::parsed_u32(setting(ls, "serveralivecountmax"@)->Some_0) matches Some(n) && 1 <= n
                && n <= 3)
        }),
{
}

/// `std::str::from_utf8(bytes)`, as an owned string.
///
/// Trusted: it succeeds exactly on valid UTF-8 and then holds the decoded
/// characters.
#[verifier::external_body]
fn utf8_text(bytes: &[u8]) -> (r: Option<String>)
    ensures
        r is Some <==> vstd::utf8::valid_utf8(bytes@),
        r matches Some(s) ==> s@ == vstd::utf8::decode_utf8(bytes@),
{
    std::str::from_utf8(bytes).ok().map(|text| text.to_owned())
}

fn setting_of(ls: &Vec<Vec<char>>, key: &str) -> (r: Option<Vec<char>>)
    ensures
        match r {
            Some(v) => setting(ls@.map_values(|l: Vec<char>| l@), key@) == Some(v@),
            None => setting(ls@.map_values(|l: Vec<char>| l@), key@) is None,
        },
{
    let ghost all = ls@.map_values(|l: Vec<char>| l@);
    let k = chars_of(key);
    let mut i: usize = 0;
    while i < ls.len()
        invariant
            i <= ls@.len(),
            all == ls@.map_values(|l: Vec<char>| l@),
            k@ == key@,
            forall|j: int| 0 <= j < i ==> !sets_key(#[trigger] all[j], key@),
        decreases ls.len() - i,
    {
        assert(all[i as int] == ls@[i as int]@);
        if let Some((name, value)) = crate::text::split_once_space(ls[i].as_slice()) {
            if crate::text::same_chars(name.as_slice(), k.as_slice()) {
                proof {
                    assert(first_setting_at(all, key@, i as int));
                    let c = choose|c: int| first_setting_at(all, key@, c);
                    assert(c == i as int) by {
                        if c < i {
                        } else if c > i {
                        }
                    }
                }
                return Some(crate::text::trim(value.as_slice()));
            }
        }
        i += 1;
    }
    assert(!exists|c: int| first_setting_at(all, key@, c));
    None
}

fn setting_is(ls: &Vec<Vec<char>>, key: &str, expected: &str) -> (r: bool)
    ensures
        r == (setting(ls@.map_values(|l: Vec<char>| l@), key@) == Some(expected@)),
{
    match setting_of(ls, key) {
        Some(v) => {
            let e = chars_of(expected);
            crate::text::same_chars(v.as_slice(), e.as_slice())
        },
        None => false,
    }
}

fn setting_positive_at_most(ls: &Vec<Vec<char>>, key: &str, maximum: u32) -> (r: bool)
    ensures
        r == positive_at_most(ls@.map_values(|l: Vec<char>| l@), key@, maximum),
{
    match setting_of(ls, key) {
        Some(v) => match crate::text::parse_u32(v.as_slice()) {
            Some(n) => 0 < n && n <= maximum,
            None => false,
        },
        None => false,
    }
}

/// Checks what `ssh -G <target>` printed.
pub fn validate_effective_ssh_config(target: &str, output: &[u8]) -> (r: Result<(), LaunchError>)
    ensures
        match r {
            Ok(()) => ssh_config_problem(target@, output@) is None,
            Err(e) => ssh_config_problem(target@, output@) == Some(e.0@),
        },
{
    let text = match utf8_text(output) {
        Some(text) => text,
        None => {
            let q = quoted(target);
            return Err(LaunchError(join2("ssh -G returned non-UTF-8 configuration for ", q.as_str())));
        },
    };
    let chars = chars_of(text.as_str());
    let ls = crate::text::lines_of(chars.as_slice());
    let valid = setting_is(&ls, "batchmode", "yes") && (setting_is(
        &ls,
        "stricthostkeychecking",
        "yes",
    ) || setting_is(&ls, "stricthostkeychecking", "true")) && setting_positive_at_most(
        &ls,
        "connecttimeout",
        10,
    ) && setting_is(&ls, "connectionattempts", "1") && setting_positive_at_most(
        &ls,
        "serveraliveinterval",
        10,
    ) && setting_positive_at_most(&ls, "serveralivecountmax", 3);
    if !valid {
        let q = quoted(target);
        return Err(
            LaunchError(
                join3(
                    "SSH target ",
                    q.as_str(),
                    " must have bounded non-interactive options in ~/.ssh/config before Herdr can use it: BatchMode yes, StrictHostKeyChecking yes, ConnectTimeout 5, ConnectionAttempts 1, ServerAliveInterval 3, ServerAliveCountMax 1",
                ),
            ),
        );
    }
    Ok(())
}

} // verus!
