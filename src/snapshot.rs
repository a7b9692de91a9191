use vstd::prelude::*;
use vstd::string::*;
use crate::value::{PrefModel, SerializablePrefValue};

verus! {

/// A store address: (domain, key).
pub type Key = (Seq<char>, Seq<char>);

/// One record of the snapshot: a key this tool manages and the value it had
/// before management began (`None`: the key did not exist).
#[derive(Debug)]
pub struct SettingState {
    pub domain: String,
    pub key: String,
    pub original_value: Option<SerializablePrefValue>,
}

pub open spec fn opt_model(o: Option<SerializablePrefValue>) -> Option<PrefModel> {
    match o {
        Some(v) => Some(v.model()),
        None => None,
    }
}

impl SettingState {
    pub open spec fn view(self) -> (Key, Option<PrefModel>) {
        ((self.domain@, self.key@), opt_model(self.original_value))
    }

    /// A deep copy of the record.
    pub fn copy_state(&self) -> (r: SettingState)
        ensures
            r.view() == self.view(),
    {
        SettingState {
            domain: self.domain.clone(),
            key: self.key.clone(),
            original_value: match &self.original_value {
                Some(v) => Some(v.copy_value()),
                None => None,
            },
        }
    }
}

pub open spec fn settings_view(s: Seq<SettingState>) -> Seq<(Key, Option<PrefModel>)> {
    Seq::new(s.len(), |i: int| s[i].view())
}

/// The keys of a list of records, in order.
pub open spec fn record_keys<T>(s: Seq<(Key, T)>) -> Seq<Key> {
    Seq::new(s.len(), |i: int| s[i].0)
}

/// No two records share a key.
pub open spec fn unique_records<T>(s: Seq<(Key, T)>) -> bool {
    forall|i: int, j: int| 0 <= i < j < s.len() ==> s[i].0 != s[j].0
}

/// A snapshot as loaded: the records, oldest first, and the run metadata.
#[derive(Debug)]
pub struct LoadedSnapshot {
    pub settings: Vec<SettingState>,
    /// How many external commands earlier runs executed; carried along only.
    pub exec_run_count: i32,
    /// The version of the tool that wrote the snapshot.
    pub version: String,
    /// The digest of the configuration document at the last apply.
    pub digest: String,
    /// Where the snapshot is kept.
    pub path: String,
}

impl LoadedSnapshot {
    pub open spec fn path_view(&self) -> Seq<char> {
        self.path@
    }

    /// Where the snapshot is kept.
    pub fn path(&self) -> (r: &str)
        ensures
            r@ == self.path_view(),
    {
        self.path.as_str()
    }
}

/// Why a snapshot could not be loaded.
#[derive(Debug, Clone, Copy, PartialEq, Eq, Structural)]
pub enum SnapshotError {
    /// No snapshot file exists at the path, or the path is empty.
    InvalidPath,
    /// The file holds neither a full snapshot nor a list of records.
    Corrupt,
}

/// The snapshot file of a configuration, not yet loaded.
pub struct Snapshot {
    path: String,
}

/// The contents of a snapshot file read in full.
pub struct SnapshotParts {
    pub settings: Vec<SettingState>,
    pub exec_run_count: i32,
    pub version: String,
    pub digest: String,
}

impl Snapshot {
    pub fn new(path: String) -> (r: Snapshot)
        ensures
            r.path_view() == path@,
    {
        Snapshot { path }
    }

    pub closed spec fn path_view(&self) -> Seq<char> {
        self.path@
    }

    /// Where the snapshot is kept.
    pub fn path(&self) -> (r: &str)
        ensures
            r@ == self.path_view(),
    {
        self.path.as_str()
    }

    /// Whether a snapshot can be loaded: the path is not empty and a file
    /// exists there (`exists`, as the file system reports it).
    pub fn is_loadable(&self, exists: bool) -> (r: bool)
        ensures
            r == (self.path_view().len() > 0 && exists),
    {
        self.path.as_str().unicode_len() > 0 && exists
    }

    /// An empty snapshot at this path, written by the tool version `version`.
    pub fn new_empty(&self, version: &str) -> (r: LoadedSnapshot)
        ensures
            r.settings@.len() == 0,
            r.exec_run_count == 0,
            r.version@ == version@,
            r.digest@.len() == 0,
            r.path_view() == self.path_view(),
    {
        LoadedSnapshot {
            settings: Vec::new(),
            exec_run_count: 0,
            version: version.to_owned(),
            digest: String::new(),
            path: self.path.clone(),
        }
    }

    /// Loads the snapshot from what its file yielded: `full` when it reads
    /// as a whole snapshot, else `records_only` when it reads as a list of
    /// records alone (an older, partial form). The second gets the metadata
    /// of an empty snapshot written by `version`.
    pub fn load(
        &self,
        exists: bool,
        full: Option<SnapshotParts>,
        records_only: Option<Vec<SettingState>>,
        version: &str,
    ) -> (r: Result<LoadedSnapshot, SnapshotError>)
        ensures
            !(self.path_view().len() > 0 && exists) ==> r == Err::<LoadedSnapshot, SnapshotError>(SnapshotError::InvalidPath),
            self.path_view().len() > 0 && exists ==> match full {
                Some(p) => r matches Ok(s) && s.settings == p.settings && s.exec_run_count == p.exec_run_count
                    && s.version == p.version && s.digest == p.digest && s.path_view() == self.path_view(),
                None => match records_only {
                    Some(rs) => r matches Ok(s) && s.settings == rs && s.exec_run_count == 0
                        && s.version@ == version@ && s.digest@.len() == 0 && s.path_view() == self.path_view(),
                    None => r == Err::<LoadedSnapshot, SnapshotError>(SnapshotError::Corrupt),
                },
            },
    {
        if !self.is_loadable(exists) {
            return Err(SnapshotError::InvalidPath);
        }
        match full {
            Some(p) => Ok(LoadedSnapshot {
                settings: p.settings,
                exec_run_count: p.exec_run_count,
                version: p.version,
                digest: p.digest,
                path: self.path.clone(),
            }),
            None => match records_only {
                Some(rs) => {
                    let mut snap = self.new_empty(version);
                    snap.settings = rs;
                    Ok(snap)
                },
                None => Err(SnapshotError::Corrupt),
            },
        }
    }
}

} // verus!
