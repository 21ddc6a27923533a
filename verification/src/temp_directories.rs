//! Where the storage node keeps its temporary files.
//!
//! The directory layout is as follows:
//!
//! ```text
//! ./snapshots
//!           └── tmp
//!               └── (tempdirs)
//! ./optional_temp_path (if specified)
//!           └── tmp
//!               └── upload
//!               └── (tempdirs)
//! ./storage
//!           └── tmp
//!               └── (tempdirs)
//! ```
//!
//! `optional_temp_path` can be used instead of `snapshots/tmp` or
//! `storage/tmp` to speed up processing. All temporary directories are
//! assumed to lie on different filesystems, so the choice between them is
//! made for performance. Subdirectories make cleanup at start-up simple:
//! only the `tmp` directories are removed, never what lies beside them.
//!
//! This module computes the paths; creating and removing the directories is
//! left to the caller, in the order given here.

use vstd::prelude::*;

use crate::paths::{join_path, join_spec};

verus! {

/// Name of the temporary subdirectory under each root.
pub const TEMP_SUBDIR_NAME: &'static str = "tmp";

/// Name of the upload directory inside the temporary directory.
pub const FILE_UPLOAD_SUBDIR_NAME: &'static str = "upload";

/// The part of the storage configuration that places files on disk.
#[derive(Debug)]
pub struct StorageConfig {
    /// Root of the snapshots.
    pub snapshots_path: String,
    /// Root of the collections' data.
    pub storage_path: String,
    /// Optional root for temporary files, used in place of the temporary
    /// directories under the snapshots and storage roots.
    pub temp_path: Option<String>,
}

/// The temporary directory under `root`.
pub open spec fn temp_dir_of(root: Seq<char>) -> Seq<char> {
    join_spec(root, TEMP_SUBDIR_NAME@)
}

/// The temporary directory under the optional root, if there is one.
pub open spec fn optional_temp_dir_of(config: StorageConfig) -> Option<Seq<char>> {
    match config.temp_path {
        Some(root) => Some(temp_dir_of(root@)),
        None => None,
    }
}

/// Which of the temporary directories a path is.
#[derive(Debug, Clone, Copy, PartialEq, Eq, Structural)]
pub enum TempDirKind {
    /// `tmp` under the snapshots root.
    Snapshots,
    /// `tmp` under the storage root.
    Storage,
    /// `tmp` under the optional temporary root.
    Optional,
    /// The upload directory inside a temporary directory.
    Upload,
}

/// A temporary directory to be created where it is missing.
#[derive(Debug)]
pub struct TempDir {
    pub kind: TempDirKind,
    pub path: String,
}

/// The temporary directory used for work that may go to the optional root
/// or to `fallback_root`: the optional root's, when one is configured.
pub open spec fn preferred_temp_dir(
    config: StorageConfig,
    fallback: TempDirKind,
    fallback_root: Seq<char>,
) -> (TempDirKind, Seq<char>) {
    match config.temp_path {
        Some(root) => (TempDirKind::Optional, temp_dir_of(root@)),
        None => (fallback, temp_dir_of(fallback_root)),
    }
}

/// The directories that start-up cleanup removes, in order: the temporary
/// directories under the snapshots root, the storage root and, when
/// configured, the optional root.
pub fn tmp_directories(storage_config: &StorageConfig) -> (dirs: Vec<String>)
    ensures
        dirs.deep_view() == tmp_dirs_to_clear_spec(
            temp_dir_of(storage_config.snapshots_path@),
            temp_dir_of(storage_config.storage_path@),
            optional_temp_dir_of(*storage_config),
        ),
{
    let snapshots_temp = join_path(storage_config.snapshots_path.as_str(), TEMP_SUBDIR_NAME);
    let storage_temp = join_path(storage_config.storage_path.as_str(), TEMP_SUBDIR_NAME);
    match &storage_config.temp_path {
        Some(root) => {
            let optional_temp = join_path(root.as_str(), TEMP_SUBDIR_NAME);
            tmp_dirs_to_clear(snapshots_temp.as_str(), storage_temp.as_str(), Some(optional_temp.as_str()))
        },
        None => tmp_dirs_to_clear(snapshots_temp.as_str(), storage_temp.as_str(), None),
    }
}

/// The directories that cleanup removes, given the three candidates.
pub open spec fn tmp_dirs_to_clear_spec(
    snapshots_tmp: Seq<char>,
    storage_tmp: Seq<char>,
    optional_tmp: Option<Seq<char>>,
) -> Seq<Seq<char>> {
    match optional_tmp {
        Some(optional) => seq![snapshots_tmp, storage_tmp, optional],
        None => seq![snapshots_tmp, storage_tmp],
    }
}

/// The candidates that cleanup removes, in order, the optional one only
/// when it is given.
pub fn tmp_dirs_to_clear(snapshots_tmp: &str, storage_tmp: &str, optional_tmp: Option<&str>) -> (dirs:
    Vec<String>)
    ensures
        dirs.deep_view() == tmp_dirs_to_clear_spec(
            snapshots_tmp@,
            storage_tmp@,
            match optional_tmp {
                Some(p) => Some(p@),
                None => None,
            },
        ),
{
    let mut dirs: Vec<String> = Vec::new();
    dirs.push(snapshots_tmp.to_owned());
    dirs.push(storage_tmp.to_owned());
    match optional_tmp {
        Some(p) => {
            dirs.push(p.to_owned());
        },
        None => {},
    }
    proof {
        let expected = tmp_dirs_to_clear_spec(
            snapshots_tmp@,
            storage_tmp@,
            match optional_tmp {
                Some(p) => Some(p@),
                None => None,
            },
        );
        assert(dirs.deep_view() =~= expected);
    }
    dirs
}

/// The storage node's view of where its files live.
#[derive(Debug)]
pub struct TableOfContent {
    pub storage_config: StorageConfig,
}

impl TableOfContent {
    /// A table of contents over `storage_config`.
    pub fn new(storage_config: StorageConfig) -> (toc: TableOfContent)
        ensures
            toc.storage_config == storage_config,
    {
        TableOfContent { storage_config }
    }

    /// Root of the snapshots.
    pub fn snapshots_path(&self) -> (path: &str)
        ensures
            path@ == self.storage_config.snapshots_path@,
    {
        self.storage_config.snapshots_path.as_str()
    }

    /// Root of the collections' data.
    pub fn storage_path(&self) -> (path: &str)
        ensures
            path@ == self.storage_config.storage_path@,
    {
        self.storage_config.storage_path.as_str()
    }

    /// The optional root for temporary files.
    pub fn temp_path(&self) -> (path: Option<&str>)
        ensures
            match path {
                Some(p) => self.storage_config.temp_path matches Some(root) && p@ == root@,
                None => self.storage_config.temp_path is None,
            },
    {
        match &self.storage_config.temp_path {
            Some(root) => Some(root.as_str()),
            None => None,
        }
    }

    /// The temporary directory under the snapshots root.
    pub fn get_snapshots_temp_path(&self) -> (path: String)
        ensures
            path@ == temp_dir_of(self.storage_config.snapshots_path@),
    {
        join_path(self.snapshots_path(), TEMP_SUBDIR_NAME)
    }

    /// The temporary directory under the storage root.
    pub fn get_storage_temp_path(&self) -> (path: String)
        ensures
            path@ == temp_dir_of(self.storage_config.storage_path@),
    {
        join_path(self.storage_path(), TEMP_SUBDIR_NAME)
    }

    /// The temporary directory under the optional root, if there is one.
    pub fn get_optional_temp_path(&self) -> (path: Option<String>)
        ensures
            path.deep_view() == optional_temp_dir_of(self.storage_config),
    {
        match self.temp_path() {
            Some(root) => Some(join_path(root, TEMP_SUBDIR_NAME)),
            None => None,
        }
    }
    /// The directory for snapshot-related temporary files: the optional
    /// one if configured, else the one under the snapshots root.
    pub fn optional_temp_or_snapshot_temp_dir(&self) -> (dir: TempDir)
        ensures
            (dir.kind, dir.path@) == preferred_temp_dir(
                self.storage_config,
                TempDirKind::Snapshots,
                self.storage_config.snapshots_path@,
            ),
    {
        match self.get_optional_temp_path() {
            Some(path) => TempDir { kind: TempDirKind::Optional, path },
            None => TempDir { kind: TempDirKind::Snapshots, path: self.get_snapshots_temp_path() },
        }
    }

    /// The directory for storage-related temporary files: the optional
    /// one if configured, else the one under the storage root.
    pub fn optional_temp_or_storage_temp_dir(&self) -> (dir: TempDir)
        ensures
            (dir.kind, dir.path@) == preferred_temp_dir(
                self.storage_config,
                TempDirKind::Storage,
                self.storage_config.storage_path@,
            ),
    {
        match self.get_optional_temp_path() {
            Some(path) => TempDir { kind: TempDirKind::Optional, path },
            None => TempDir { kind: TempDirKind::Storage, path: self.get_storage_temp_path() },
        }
    }

    /// The directories to create, in order, for file uploads: the
    /// snapshot-related temporary directory, then the upload directory in
    /// it, which is the one uploads go to.
    pub fn upload_dirs(&self) -> (dirs: (TempDir, TempDir))
        ensures
            (dirs.0.kind, dirs.0.path@) == preferred_temp_dir(
                self.storage_config,
                TempDirKind::Snapshots,
                self.storage_config.snapshots_path@,
            ),
            dirs.1.kind == TempDirKind::Upload,
            dirs.1.path@ == join_spec(dirs.0.path@, FILE_UPLOAD_SUBDIR_NAME@),
    {
        let tmp_storage_dir = self.optional_temp_or_snapshot_temp_dir();
        let upload_dir = join_path(tmp_storage_dir.path.as_str(), FILE_UPLOAD_SUBDIR_NAME);
        (tmp_storage_dir, TempDir { kind: TempDirKind::Upload, path: upload_dir })
    }
}

} // verus!
