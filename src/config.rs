use vstd::prelude::*;
use vstd::string::*;
use crate::document::DocTable;

verus! {

/// The `[remote]` table: where the configuration can be fetched from.
pub struct Remote {
    pub url: String,
    pub autosync: Option<bool>,
}

/// One `[command.<name>]` table: an external command.
pub struct Command {
    pub run: String,
    pub ensure_first: Option<bool>,
    pub required: Option<Vec<String>>,
    pub flag: Option<bool>,
    pub sudo: Option<bool>,
}

/// The `[brew]` table: the Homebrew packages the configuration wants.
pub struct Brew {
    pub formulae: Option<Vec<String>>,
    pub casks: Option<Vec<String>>,
    pub taps: Option<Vec<String>>,
    pub no_deps: Option<bool>,
}

/// A configuration document as read: its lock flag, its managed-settings
/// table, its variables, its external commands, and its Homebrew and remote
/// tables.
pub struct LoadedConfig {
    pub lock: Option<bool>,
    pub set: Option<DocTable>,
    pub vars: Option<Vec<(String, String)>>,
    pub command: Option<Vec<(String, Command)>>,
    pub brew: Option<Brew>,
    pub remote: Option<Remote>,
    pub path: String,
}

/// Why a configuration cannot be used.
#[derive(Debug, Clone, Copy, PartialEq, Eq, Structural)]
pub enum ConfigError {
    /// No configuration file exists at the path, or the path is empty.
    NotFound,
    /// The configuration is locked and the command would change something.
    Locked,
}

impl LoadedConfig {
    /// Whether the lock flag is set.
    pub open spec fn locked(&self) -> bool {
        self.lock == Some(true)
    }

    /// Refuses a locked configuration to a command that respects the lock.
    pub fn check_lock(&self, not_if_locked: bool) -> (r: Result<(), ConfigError>)
        ensures
            r == if self.locked() && not_if_locked {
                Err::<(), ConfigError>(ConfigError::Locked)
            } else {
                Ok(())
            },
    {
        let locked = match self.lock {
            Some(b) => b,
            None => false,
        };
        if locked && not_if_locked {
            Err(ConfigError::Locked)
        } else {
            Ok(())
        }
    }
}

/// The configuration file, not yet loaded.
pub struct Config {
    path: String,
}

impl Config {
    pub fn new(path: String) -> (r: Config)
        ensures
            r.path_view() == path@,
    {
        Config { path }
    }

    pub closed spec fn path_view(&self) -> Seq<char> {
        self.path@
    }

    /// Where the configuration is kept.
    pub fn path(&self) -> (r: &str)
        ensures
            r@ == self.path_view(),
    {
        self.path.as_str()
    }

    /// Whether the configuration can be loaded: the path is not empty and a
    /// file exists there (`exists`, as the file system reports it).
    pub fn is_loadable(&self, exists: bool) -> (r: bool)
        ensures
            r == (self.path_view().len() > 0 && exists),
    {
        self.path.as_str().unicode_len() > 0 && exists
    }

    /// Decides whether a configuration read from this path can be used:
    /// it must exist (`exists`), and a command that respects the lock
    /// (`not_if_locked`) is refused a locked one.
    pub fn check_load(&self, exists: bool, loaded: &LoadedConfig, not_if_locked: bool) -> (r: Result<(), ConfigError>)
        ensures
            !(self.path_view().len() > 0 && exists) ==> r == Err::<(), ConfigError>(ConfigError::NotFound),
            self.path_view().len() > 0 && exists ==> r == if loaded.locked() && not_if_locked {
                Err::<(), ConfigError>(ConfigError::Locked)
            } else {
                Ok(())
            },
    {
        if !self.is_loadable(exists) {
            return Err(ConfigError::NotFound);
        }
        loaded.check_lock(not_if_locked)
    }
}

/// The position of the last `c` in `s`, or -1.
pub open spec fn last_index_of(s: Seq<char>, c: char) -> int
    decreases s.len(),
{
    if s.len() == 0 {
        -1
    } else if s.last() == c {
        s.len() - 1
    } else {
        last_index_of(s.drop_last(), c)
    }
}

/// The name of the snapshot file.
pub open spec fn snapshot_file_name() -> Seq<char> {
    seq!['s', 'n', 'a', 'p', 's', 'h', 'o', 't', '.', 'j', 's', 'o', 'n']
}

/// The snapshot file beside a configuration file: the configuration's
/// directory part (everything up to its last `/`) followed by the snapshot
/// file's name; none for an empty path or one that ends in `/`.
pub open spec fn snapshot_path_spec(config_path: Seq<char>) -> Option<Seq<char>> {
    if config_path.len() == 0 || config_path.last() == '/' {
        None
    } else {
        Some(config_path.subrange(0, last_index_of(config_path, '/') + 1) + snapshot_file_name())
    }
}

/// Why a path could not be worked out.
#[derive(Debug, Clone, Copy, PartialEq, Eq, Structural)]
pub enum PathError {
    /// The configuration path names no file inside a directory.
    NoParent,
}

fn last_slash(s: &str) -> (r: usize)
    ensures
        r as int == last_index_of(s@, '/') + 1,
        r <= s@.len(),
{
    let n = s.unicode_len();
    let mut i: usize = n;
    assert(s@.subrange(0, n as int) =~= s@);
    while i > 0
        invariant
            0 <= i <= n == s@.len(),
            last_index_of(s@, '/') == last_index_of(s@.subrange(0, i as int), '/'),
        decreases i,
    {
        assert(s@.subrange(0, i as int).drop_last() =~= s@.subrange(0, i - 1));
        if s.get_char(i - 1) == '/' {
            return i;
        }
        i -= 1;
    }
    i
}

/// The snapshot file kept beside the configuration file at `config_path`.
pub fn get_snapshot_path(config_path: &str) -> (r: Result<String, PathError>)
    ensures
        match snapshot_path_spec(config_path@) {
            Some(p) => r matches Ok(s) && s@ == p,
            None => r == Err::<String, PathError>(PathError::NoParent),
        },
{
    let n = config_path.unicode_len();
    if n == 0 || config_path.get_char(n - 1) == '/' {
        return Err(PathError::NoParent);
    }
    assert(config_path@.subrange(0, n as int) =~= config_path@);
    let cut = last_slash(config_path);
    proof {
        reveal_strlit("snapshot.json");
    }
    let dir = String::from_str(config_path.substring_char(0, cut));
    let p = dir.concat("snapshot.json");
    assert(p@ =~= config_path@.subrange(0, last_index_of(config_path@, '/') + 1) + snapshot_file_name());
    Ok(p)
}

} // verus!
