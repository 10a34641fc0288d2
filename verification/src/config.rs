//! The server's configuration, from its environment.

use vstd::prelude::*;

verus! {

/// Where the database lives and which directory the policies describe.
#[derive(Clone, Debug)]
pub struct Config {
    pub db_path: String,
    pub base_dir: String,
}

/// Why no configuration can be made.
#[derive(Clone, Copy, Debug, PartialEq, Eq, Structural)]
pub enum ConfigError {
    /// `BASE_DIR` is not set (or not valid Unicode).
    MissingBaseDir,
}

/// The database file used when `DB_PATH` is not set.
pub open spec fn default_db_path() -> Seq<char> {
    seq!['b', 'a', 'c', 'k', 'u', 'p', '-', 'b', 'u', 'd', 'd', 'y', '.', 'd', 'b']
}

impl ConfigError {
    /// The error's text.
    pub fn message(&self) -> (r: &'static str)
        ensures
            r@ == seq![
                'B', 'A', 'S', 'E', '_', 'D', 'I', 'R', ' ', 'e', 'n', 'v', 'i', 'r', 'o', 'n', 'm',
                'e', 'n', 't', ' ', 'v', 'a', 'r', 'i', 'a', 'b', 'l', 'e', ' ', 'n', 'o', 't', ' ',
                's', 'e', 't'
            ],
    {
        proof { reveal_strlit("BASE_DIR environment variable not set"); }
        let r = "BASE_DIR environment variable not set";
        assert(r@ =~= seq![
            'B', 'A', 'S', 'E', '_', 'D', 'I', 'R', ' ', 'e', 'n', 'v', 'i', 'r', 'o', 'n', 'm',
            'e', 'n', 't', ' ', 'v', 'a', 'r', 'i', 'a', 'b', 'l', 'e', ' ', 'n', 'o', 't', ' ',
            's', 'e', 't'
        ]);
        r
    }
}

impl Config {
    /// The configuration from the values of `BASE_DIR` and `DB_PATH` (`None` when a
    /// variable is not set): the base directory is required, and the database path
    /// defaults to `backup-buddy.db`.
    pub fn from_env_vars(base_dir: Option<String>, db_path: Option<String>) -> (r: Result<
        Config,
        ConfigError,
    >)
        ensures
            base_dir is None ==> r == Err::<Config, ConfigError>(ConfigError::MissingBaseDir),
            base_dir matches Some(b) ==> r matches Ok(c) && c.base_dir@ == b@ && c.db_path@ == match db_path {
                Some(d) => d@,
                None => default_db_path(),
            },
    {
        let base_dir = match base_dir {
            Some(b) => b,
            None => return Err(ConfigError::MissingBaseDir),
        };
        let db_path = match db_path {
            Some(d) => d,
            None => {
                proof { reveal_strlit("backup-buddy.db"); }
                assert("backup-buddy.db"@ =~= default_db_path());
                String::from_str("backup-buddy.db")
            },
        };
        Ok(Config { db_path, base_dir })
    }
}

} // verus!
