//! Where things are: the user's home directory and the files the state is
//! kept in.

use vstd::prelude::*;
use crate::path::{expand_home_from, expanded_home, home_expansion, join_path, joined};
use crate::platform::Platform;
use crate::resolver::Environment;
use crate::text::chars_of;

verus! {

/// Asks `dirs::home_dir` for the user's home directory and hands it on as
/// text; a home directory that is no valid Unicode counts as unknown. The
/// answer depends on the environment, so nothing is claimed of it.
#[verifier::external_body]
pub(crate) fn home_directory() -> (home: Option<String>) {
    match dirs::home_dir() {
        Some(path) => path.into_os_string().into_string().ok(),
        None => None,
    }
}

/// The directory the state files are kept in: `.config/j` under the home
/// directory, or under `.` where the home directory is unknown.
pub open spec fn config_dir(home: Option<Seq<char>>, platform: Platform) -> Seq<char> {
    let base = match home {
        Some(dir) => dir,
        None => "."@,
    };
    joined(joined(base, ".config"@, platform), "j"@, platform)
}

/// The file the history and the navigation stacks are kept in.
pub open spec fn state_path(home: Option<Seq<char>>, platform: Platform) -> Seq<char> {
    joined(config_dir(home, platform), "state.json"@, platform)
}

/// The file the aliases are kept in.
pub open spec fn aliases_path(home: Option<Seq<char>>, platform: Platform) -> Seq<char> {
    joined(config_dir(home, platform), "aliases.json"@, platform)
}

/// The directory the state files are kept in, for a given home directory.
pub fn config_dir_in(home: Option<&str>, platform: Platform) -> (r: String)
    ensures
        r@ == config_dir(home.deep_view(), platform),
{
    let base = match home {
        Some(dir) => dir,
        None => ".",
    };
    let inner = join_path(base, ".config", platform);
    join_path(inner.as_str(), "j", platform)
}

/// The state file, for a given home directory.
pub fn state_path_in(home: Option<&str>, platform: Platform) -> (r: String)
    ensures
        r@ == state_path(home.deep_view(), platform),
{
    let dir = config_dir_in(home, platform);
    join_path(dir.as_str(), "state.json", platform)
}

/// The alias file, for a given home directory.
pub fn aliases_path_in(home: Option<&str>, platform: Platform) -> (r: String)
    ensures
        r@ == aliases_path(home.deep_view(), platform),
{
    let dir = config_dir_in(home, platform);
    join_path(dir.as_str(), "aliases.json", platform)
}

/// The directory the state files are kept in, under the home directory of
/// the user who runs the program.
pub fn get_config_dir(platform: Platform) -> (r: String)
    ensures
        exists|home: Option<Seq<char>>| r@ == config_dir(home, platform),
{
    let home = home_directory();
    let r = match &home {
        Some(dir) => config_dir_in(Some(dir.as_str()), platform),
        None => config_dir_in(None, platform),
    };
    assert(r@ == config_dir(home.deep_view(), platform));
    r
}

/// The state file of the user who runs the program.
pub fn get_state_path(platform: Platform) -> (r: String)
    ensures
        exists|home: Option<Seq<char>>| r@ == state_path(home, platform),
{
    let home = home_directory();
    let r = match &home {
        Some(dir) => state_path_in(Some(dir.as_str()), platform),
        None => state_path_in(None, platform),
    };
    assert(r@ == state_path(home.deep_view(), platform));
    r
}

/// The alias file of the user who runs the program.
pub fn get_aliases_path(platform: Platform) -> (r: String)
    ensures
        exists|home: Option<Seq<char>>| r@ == aliases_path(home, platform),
{
    let home = home_directory();
    let r = match &home {
        Some(dir) => aliases_path_in(Some(dir.as_str()), platform),
        None => aliases_path_in(None, platform),
    };
    assert(r@ == aliases_path(home.deep_view(), platform));
    r
}

/// Expands a keyword that starts with `~` against the home directory of
/// the user who runs the program. Other keywords, and an unknown home
/// directory, yield nothing.
pub fn expand_home(path: &str, platform: Platform) -> (r: Option<String>)
    ensures
        !(path@.len() > 0 && path@[0] == '~') ==> r is None,
        r matches Some(target) ==> exists|home: Seq<char>|
            target@ == expanded_home(path@, home, platform),
{
    let chars = chars_of(path);
    if chars.len() > 0 && chars[0] == '~' {
        let home = home_directory();
        let known = match &home {
            Some(dir) => Some(dir.as_str()),
            None => None,
        };
        let r = expand_home_from(path, known, platform);
        assert(r.deep_view() == home_expansion(path@, home.deep_view(), platform));
        r
    } else {
        None
    }
}

impl Environment {
    /// The surroundings of the running program: the given conventions and
    /// current directory, and the home directory as the system reports it.
    pub fn detect(platform: Platform, drives: bool, current_dir: Option<String>) -> (env: Self)
        ensures
            env.platform == platform,
            env.drives == drives,
            env.current_dir == current_dir,
    {
        Environment { platform, drives, home: home_directory(), current_dir }
    }
}

} // verus!
