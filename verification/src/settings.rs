//! Where the application keeps its configuration and its backups.
use std::path::PathBuf;
use vstd::prelude::*;

verus! {

#[verifier::external_type_specification]
#[verifier::external_body]
pub struct ExPathBuf(std::path::PathBuf);

/// The name of the application, which names its directories.
pub const APPLICATION_NAME: &'static str = "graffophone";

/// The application's name as a hidden file name: a dot before it.
pub open spec fn hidden_name() -> Seq<char> {
    seq!['.'] + APPLICATION_NAME@
}

/// A directory of the application: `name` within `base`, or `name` alone (relative to
/// the working directory) when there is no base.
pub struct AppDir {
    pub base: Option<PathBuf>,
    pub name: String,
}

/// `dirs::config_local_dir`: the user's local configuration directory, when the
/// platform has one. What it holds depends on the environment; nothing is stated.
#[verifier::external_body]
fn config_local_dir() -> Option<PathBuf> {
    dirs::config_local_dir()
}

/// `dirs::home_dir`: the user's home directory, when one is found. What it holds
/// depends on the environment; nothing is stated.
#[verifier::external_body]
fn home_dir() -> Option<PathBuf> {
    dirs::home_dir()
}

/// `dirs::state_dir`: the user's state directory, when the platform has one. What it
/// holds depends on the environment; nothing is stated.
#[verifier::external_body]
fn state_dir() -> Option<PathBuf> {
    dirs::state_dir()
}

/// What `PathBuf::join` gives for a base path and a name: `name` within `base`.
pub uninterp spec fn joined_path(base: PathBuf, name: Seq<char>) -> PathBuf;

/// What `PathBuf::from` gives for a text: the path that the text writes.
pub uninterp spec fn text_path(name: Seq<char>) -> PathBuf;

/// `PathBuf::join`: `name` within `base`. Its result depends on its arguments alone and
/// is named [`joined_path`]; a path is opaque here, so nothing more is stated of it.
#[verifier::external_body]
fn path_join(base: &PathBuf, name: &str) -> (r: PathBuf)
    ensures
        r == joined_path(*base, name@),
{
    base.join(name)
}

/// `PathBuf::from`: the relative path `name`. Its result depends on `name` alone and is
/// named [`text_path`]; nothing more is stated of it.
#[verifier::external_body]
fn path_from(name: &str) -> (r: PathBuf)
    ensures
        r == text_path(name@),
{
    PathBuf::from(name)
}

/// The path of a directory of the application: its name within its base, or its name
/// alone when it has no base.
pub open spec fn dir_path(base: Option<PathBuf>, name: Seq<char>) -> PathBuf {
    match base {
        Some(b) => joined_path(b, name),
        None => text_path(name),
    }
}

/// The configuration directory's path given the local configuration directory and the
/// home directory that were found (see [`configuration_dir`]).
pub open spec fn configuration_path_of(local: Option<PathBuf>, home: Option<PathBuf>) -> PathBuf {
    match local {
        Some(p) => joined_path(p, APPLICATION_NAME@),
        None => dir_path(home, hidden_name()),
    }
}

/// The backup directory's path given the state directory and, when there is none, the
/// local configuration and home directories that were found (see [`backup_dir`]).
pub open spec fn backup_path_of(
    state: Option<PathBuf>,
    local: Option<PathBuf>,
    home: Option<PathBuf>,
) -> PathBuf {
    match state {
        Some(p) => joined_path(p, APPLICATION_NAME@),
        None => configuration_path_of(local, home),
    }
}

/// The configuration directory given the local configuration directory and the home
/// directory that were found: the application's name within the first; else its hidden
/// name within the home directory; else its hidden name alone.
pub fn configuration_dir(local: Option<PathBuf>, home: Option<PathBuf>) -> (r: AppDir)
    ensures
        match local {
            Some(p) => r.base == Some(p) && r.name@ == APPLICATION_NAME@,
            None => r.base == home && r.name@ == hidden_name(),
        },
{
    match local {
        Some(path) => AppDir { base: Some(path), name: APPLICATION_NAME.to_owned() },
        None => {
            let mut hidden = ".".to_owned();
            hidden.append(APPLICATION_NAME);
            proof {
                reveal_strlit(".");
                assert(hidden@ =~= hidden_name());
            }
            AppDir { base: home, name: hidden }
        },
    }
}

/// The backup directory given the state directory that was found: the application's
/// name within it; `None` when there is none, in which case the configuration directory
/// serves.
pub fn backup_dir(state: Option<PathBuf>) -> (r: Option<AppDir>)
    ensures
        match state {
            Some(p) => r matches Some(d) && d.base == Some(p) && d.name@ == APPLICATION_NAME@,
            None => r is None,
        },
{
    match state {
        Some(path) => Some(AppDir { base: Some(path), name: APPLICATION_NAME.to_owned() }),
        None => None,
    }
}

/// The path of a directory of the application (see [`dir_path`]).
fn app_dir_path(dir: &AppDir) -> (r: PathBuf)
    ensures
        r == dir_path(dir.base, dir.name@),
{
    match &dir.base {
        Some(base) => path_join(base, dir.name.as_str()),
        None => path_from(dir.name.as_str()),
    }
}

/// The directory where the application keeps its configuration (see
/// [`configuration_dir`]): the path that [`configuration_path_of`] gives for the local
/// configuration directory and the home directory found in the environment.
pub fn configuration_path() -> (r: PathBuf)
    ensures
        exists|local: Option<PathBuf>, home: Option<PathBuf>| r == configuration_path_of(
            local,
            home,
        ),
{
    let local = config_local_dir();
    let home = home_dir();
    let ghost gl = local;
    let ghost gh = home;
    let dir = configuration_dir(local, home);
    let r = app_dir_path(&dir);
    assert(r == configuration_path_of(gl, gh));
    r
}

/// The directory where the application keeps its backups (see [`backup_dir`]); which it
/// is depends on the environment: the path that [`backup_path_of`] gives for the
/// directories found there.
pub fn backup_path() -> (r: PathBuf)
    ensures
        exists|state: Option<PathBuf>, local: Option<PathBuf>, home: Option<PathBuf>|
            r == backup_path_of(state, local, home),
{
    let state = state_dir();
    let ghost gs = state;
    match backup_dir(state) {
        Some(dir) => {
            let r = app_dir_path(&dir);
            assert(r == backup_path_of(gs, None, None));
            r
        },
        None => {
            let r = configuration_path();
            let ghost (gl, gh) = choose|local: Option<PathBuf>, home: Option<PathBuf>|
                r == configuration_path_of(local, home);
            assert(r == backup_path_of(gs, gl, gh));
            r
        },
    }
}

/// The directory of the application's settings: its configuration directory.
pub fn get_directory() -> (r: PathBuf)
    ensures
        exists|local: Option<PathBuf>, home: Option<PathBuf>| r == configuration_path_of(
            local,
            home,
        ),
{
    configuration_path()
}

} // verus!
