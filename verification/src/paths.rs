//! Where the engine keeps its files. Paths are texts whose steps are parted by
//! slashes, or by backslashes on Windows.
use vstd::prelude::*;

use crate::assoc;
use crate::text;

verus! {

/// The directories of the engine.
#[derive(Clone, Debug, Eq, PartialEq)]
pub struct AppPaths {
    pub config: String,
    pub data: String,
    pub cache: String,
}

/// Why the directories cannot be told.
#[derive(Clone, Copy, Debug, Eq, PartialEq, Structural)]
pub enum PathError {
    MissingHome,
}

/// `part` taken from the directory `base`: `part` itself where it is rooted.
pub open spec fn joined(base: Seq<char>, part: Seq<char>) -> Seq<char> {
    if text::begins_with(part, "/"@) {
        part
    } else if base.len() == 0 || base.last() == '/' {
        base + part
    } else {
        base + "/"@ + part
    }
}

/// `part` taken from the directory `base`.
pub fn join(base: &str, part: &str) -> (path: String)
    ensures
        path@ == joined(base@, part@),
{
    if text::starts_with(part, "/") {
        return part.to_owned();
    }
    let chars = text::to_chars(base);
    let mut path = base.to_owned();
    if chars.len() != 0 && chars[chars.len() - 1] != '/' {
        path.push_str("/");
    }
    path.push_str(part);
    path
}

/// The directories that an environment calls for: all below `STCLI_HOME` where
/// it is set, else the XDG directories, which stand below `HOME` where they are
/// not set themselves.
pub open spec fn resolved(environment: Seq<(String, String)>) -> Option<
    (Seq<char>, Seq<char>, Seq<char>),
> {
    match assoc::lookup(environment, "STCLI_HOME"@) {
        Some(root) => Some(
            (joined(root@, "config"@), joined(root@, "data"@), joined(root@, "cache"@)),
        ),
        None => match assoc::lookup(environment, "HOME"@) {
            Some(home) => Some(
                (
                    joined(
                        variable_or(environment, "XDG_CONFIG_HOME"@, joined(home@, ".config"@)),
                        "stcli"@,
                    ),
                    joined(
                        variable_or(
                            environment,
                            "XDG_DATA_HOME"@,
                            joined(joined(home@, ".local"@), "share"@),
                        ),
                        "stcli"@,
                    ),
                    joined(
                        variable_or(environment, "XDG_CACHE_HOME"@, joined(home@, ".cache"@)),
                        "stcli"@,
                    ),
                ),
            ),
            None => None,
        },
    }
}

/// The value of a variable, or `fallback` where it is not set.
pub open spec fn variable_or(
    environment: Seq<(String, String)>,
    name: Seq<char>,
    fallback: Seq<char>,
) -> Seq<char> {
    match assoc::lookup(environment, name) {
        Some(value) => value@,
        None => fallback,
    }
}

fn read_or(environment: &Vec<(String, String)>, name: &str, fallback: String) -> (value: String)
    ensures
        value@ == variable_or(environment@, name@, fallback@),
{
    match assoc::find(environment, name) {
        Some(value) => value.clone(),
        None => fallback,
    }
}

/// The directories that an environment calls for.
pub fn resolve_with(environment: &Vec<(String, String)>) -> (paths: Result<AppPaths, PathError>)
    ensures
        match paths {
            Ok(p) => resolved(environment@) == Some((p.config@, p.data@, p.cache@)),
            Err(PathError::MissingHome) => resolved(environment@) is None,
        },
{
    match assoc::find(environment, "STCLI_HOME") {
        Some(root) => {
            return Ok(
                AppPaths {
                    config: join(root.as_str(), "config"),
                    data: join(root.as_str(), "data"),
                    cache: join(root.as_str(), "cache"),
                },
            );
        },
        None => {},
    }
    match assoc::find(environment, "HOME") {
        Some(home) => {
            let config = read_or(environment, "XDG_CONFIG_HOME", join(home.as_str(), ".config"));
            let local = join(home.as_str(), ".local");
            let data = read_or(environment, "XDG_DATA_HOME", join(local.as_str(), "share"));
            let cache = read_or(environment, "XDG_CACHE_HOME", join(home.as_str(), ".cache"));
            Ok(
                AppPaths {
                    config: join(config.as_str(), "stcli"),
                    data: join(data.as_str(), "stcli"),
                    cache: join(cache.as_str(), "stcli"),
                },
            )
        },
        None => Err(PathError::MissingHome),
    }
}

/// A drive without a path on it.
pub open spec fn is_bare_drive(base: Seq<char>) -> bool {
    base.len() == 2 && base[1] == ':' && ('a' as u32 <= base[0] as u32 <= 'z' as u32 || 'A' as u32
        <= base[0] as u32 <= 'Z' as u32)
}

/// A name below the directory `base`, on Windows: a slash parts steps there too,
/// and a bare drive stands for the directory that is current on it.
pub open spec fn below_on_windows(base: Seq<char>, name: Seq<char>) -> Seq<char> {
    if base.len() == 0 || base.last() == '/' || base.last() == '\\' || is_bare_drive(base) {
        base + name
    } else {
        base + "\\"@ + name
    }
}

fn step_on_windows(base: &str, name: &str) -> (path: String)
    ensures
        path@ == below_on_windows(base@, name@),
{
    let chars = text::to_chars(base);
    let total: usize = chars.len();
    let first: u32 = if total == 0 {
        0
    } else {
        chars[0] as u32
    };
    let bare = total == 2 && chars[1] == ':' && (('a' as u32 <= first && first <= 'z' as u32) || (
    'A' as u32 <= first && first <= 'Z' as u32));
    let mut path = base.to_owned();
    if total != 0 && chars[total - 1] != '/' && chars[total - 1] != '\\' && !bare {
        path.push_str("\\");
    }
    path.push_str(name);
    path
}

/// The directories that an environment calls for on Windows: all below
/// `STCLI_HOME` where it is set, else below `APPDATA` and `LOCALAPPDATA`, the
/// first standing for the second where that is not set.
pub open spec fn resolved_on_windows(environment: Seq<(String, String)>) -> Option<
    (Seq<char>, Seq<char>, Seq<char>),
> {
    match assoc::lookup(environment, "STCLI_HOME"@) {
        Some(root) => Some(
            (
                below_on_windows(root@, "config"@),
                below_on_windows(root@, "data"@),
                below_on_windows(root@, "cache"@),
            ),
        ),
        None => match assoc::lookup(environment, "APPDATA"@) {
            Some(roaming) => {
                let local = below_on_windows(
                    variable_or(environment, "LOCALAPPDATA"@, roaming@),
                    "STcli"@,
                );
                Some(
                    (
                        below_on_windows(roaming@, "STcli"@),
                        below_on_windows(local, "data"@),
                        below_on_windows(local, "cache"@),
                    ),
                )
            },
            None => None,
        },
    }
}

/// The directories that an environment calls for on Windows.
pub fn resolve_on_windows(environment: &Vec<(String, String)>) -> (paths: Result<
    AppPaths,
    PathError,
>)
    ensures
        match paths {
            Ok(p) => resolved_on_windows(environment@) == Some((p.config@, p.data@, p.cache@)),
            Err(PathError::MissingHome) => resolved_on_windows(environment@) is None,
        },
{
    match assoc::find(environment, "STCLI_HOME") {
        Some(root) => {
            return Ok(
                AppPaths {
                    config: step_on_windows(root.as_str(), "config"),
                    data: step_on_windows(root.as_str(), "data"),
                    cache: step_on_windows(root.as_str(), "cache"),
                },
            );
        },
        None => {},
    }
    match assoc::find(environment, "APPDATA") {
        Some(roaming) => {
            let base = read_or(environment, "LOCALAPPDATA", roaming.clone());
            let local = step_on_windows(base.as_str(), "STcli");
            Ok(
                AppPaths {
                    config: step_on_windows(roaming.as_str(), "STcli"),
                    data: step_on_windows(local.as_str(), "data"),
                    cache: step_on_windows(local.as_str(), "cache"),
                },
            )
        },
        None => Err(PathError::MissingHome),
    }
}

impl AppPaths {
    pub fn database(&self) -> (path: String)
        ensures
            path@ == joined(self.data@, "stcli.sqlite3"@),
    {
        join(self.data.as_str(), "stcli.sqlite3")
    }

    pub fn plugins(&self) -> (path: String)
        ensures
            path@ == joined(self.data@, "plugins"@),
    {
        join(self.data.as_str(), "plugins")
    }
}

/// A part stands behind one slash below its directory, unless it is rooted itself.
pub proof fn law_parts_stand_below_their_directory(base: Seq<char>, part: Seq<char>)
    requires
        base.len() > 0,
        part.len() > 0,
    ensures
        part[0] == '/' ==> joined(base, part) == part,
        part[0] != '/' && base.last() != '/' ==> joined(base, part) == base + seq!['/'] + part,
        part[0] != '/' && base.last() == '/' ==> joined(base, part) == base + part,
{
    reveal_strlit("/");
    assert("/"@ =~= seq!['/']);
    if part[0] == '/' {
        assert(part.take(1) =~= "/"@);
    } else if text::begins_with(part, "/"@) {
        assert(part.take(1)[0] == part[0]);
    }
}

/// Where the home of the engine is set all directories stand below it, whatever else
/// is set. Without it and without a home of the user there are none.
pub proof fn law_the_engines_home_counts_first(
    environment: Seq<(String, String)>,
    other: Seq<(String, String)>,
)
    requires
        assoc::lookup(environment, "STCLI_HOME"@) is Some,
        assoc::lookup(other, "STCLI_HOME"@) == assoc::lookup(environment, "STCLI_HOME"@),
    ensures
        resolved(environment) == resolved(other),
        resolved_on_windows(environment) == resolved_on_windows(other),
        resolved(environment) is Some,
        resolved_on_windows(environment) is Some,
{
}

/// A directory that is set for its purpose counts over the one below the home of the
/// user.
pub proof fn law_directories_for_a_purpose_count(
    environment: Seq<(String, String)>,
    home: String,
    config: String,
    data: String,
    cache: String,
)
    requires
        assoc::lookup(environment, "STCLI_HOME"@) is None,
        assoc::lookup(environment, "HOME"@) == Some(home),
        assoc::lookup(environment, "XDG_CONFIG_HOME"@) == Some(config),
        assoc::lookup(environment, "XDG_DATA_HOME"@) == Some(data),
        assoc::lookup(environment, "XDG_CACHE_HOME"@) == Some(cache),
    ensures
        resolved(environment) == Some(
            (joined(config@, "stcli"@), joined(data@, "stcli"@), joined(cache@, "stcli"@)),
        ),
{
}

} // verus!
