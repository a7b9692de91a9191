use vstd::prelude::*;
use crate::config::{get_snapshot_path, snapshot_path_spec, Config, PathError};
use crate::snapshot::Snapshot;

verus! {

/// What every command works on: the configuration file and its snapshot.
pub struct AppContext {
    pub config: Config,
    pub snapshot: Snapshot,
}

/// Builds the context of a run.
pub struct AppContextManager;

impl AppContextManager {
    /// The context for the configuration file at `config_path`, with the
    /// snapshot file beside it.
    pub fn sync(config_path: String) -> (r: Result<AppContext, PathError>)
        ensures
            match snapshot_path_spec(config_path@) {
                Some(p) => r matches Ok(c) && c.config.path_view() == config_path@ && c.snapshot.path_view() == p,
                None => r == Err::<AppContext, PathError>(PathError::NoParent),
            },
    {
        let snapshot_path = match get_snapshot_path(config_path.as_str()) {
            Ok(p) => p,
            Err(e) => {
                return Err(e);
            },
        };
        let config = Config::new(config_path);
        let snapshot = Snapshot::new(snapshot_path);
        Ok(AppContext { config, snapshot })
    }
}

} // verus!
