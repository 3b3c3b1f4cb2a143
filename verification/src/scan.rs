//! Flat scan data consumed by the tree builder: scanned files and registry
//! keys, the backup outcome, the duplicate oracle and the ignore
//! configuration.

use vstd::prelude::*;

use crate::order::str_eqx;

verus! {

/// How a scanned leaf differs from a prior state.
#[derive(Clone, Copy, Debug, PartialEq, Eq, Structural)]
pub enum ScanChange {
    Same,
    Different,
    New,
    Unknown,
}

/// A filesystem path in display form.
#[derive(Debug)]
pub struct StrictPath {
    pub raw: String,
}

impl StrictPath {
    pub fn new(raw: String) -> (r: Self)
        ensures
            r.raw@ == raw@,
    {
        StrictPath { raw }
    }
}

impl Clone for StrictPath {
    fn clone(&self) -> (r: Self)
        ensures
            r.raw@ == self.raw@,
    {
        StrictPath { raw: self.raw.clone() }
    }
}

/// A registry key path in display form.
#[derive(Debug)]
pub struct RegistryItem {
    pub raw: String,
}

impl RegistryItem {
    pub fn new(raw: String) -> (r: Self)
        ensures
            r.raw@ == raw@,
    {
        RegistryItem { raw }
    }
}

impl Clone for RegistryItem {
    fn clone(&self) -> (r: Self)
        ensures
            r.raw@ == self.raw@,
    {
        RegistryItem { raw: self.raw.clone() }
    }
}

/// The purely mathematical content of a scanned file entry.
pub struct FileModel {
    pub path: Seq<char>,
    pub redirected: Option<Seq<char>>,
    pub change: ScanChange,
}

/// One scanned file: its path, an optional redirected path (when the entry
/// was mapped elsewhere for backup or restore), and its change class.
#[derive(Debug)]
pub struct ScannedFile {
    pub path: StrictPath,
    pub redirected: Option<StrictPath>,
    pub change: ScanChange,
}

impl Clone for ScannedFile {
    fn clone(&self) -> (r: Self)
        ensures
            r.model() == self.model(),
    {
        ScannedFile {
            path: self.path.clone(),
            redirected: match &self.redirected {
                Some(p) => Some(p.clone()),
                None => None,
            },
            change: self.change,
        }
    }
}

impl ScannedFile {
    pub open spec fn model(self) -> FileModel {
        FileModel {
            path: self.path.raw@,
            redirected: match self.redirected {
                Some(p) => Some(p.raw@),
                None => None,
            },
            change: self.change,
        }
    }

    /// The display form of the entry for the given direction: the redirected
    /// path when restoring from a redirected location, the scanned path
    /// otherwise.
    pub open spec fn spec_readable(self, restoring: bool) -> Seq<char> {
        if restoring && self.redirected is Some {
            self.redirected->Some_0.raw@
        } else {
            self.path.raw@
        }
    }

    pub fn readable(&self, restoring: bool) -> (r: String)
        ensures
            r@ == self.spec_readable(restoring),
    {
        if restoring {
            match &self.redirected {
                Some(p) => p.raw.clone(),
                None => self.path.raw.clone(),
            }
        } else {
            self.path.raw.clone()
        }
    }

    /// The other rendering of the entry, shown as a redirection badge.
    pub fn alt(&self, restoring: bool) -> (r: Option<&StrictPath>)
        ensures
            match r {
                Some(p) => self.redirected is Some && (if restoring {
                    p.raw@ == self.path.raw@
                } else {
                    p.raw@ == self.redirected->Some_0.raw@
                }),
                None => self.redirected is None,
            },
    {
        match &self.redirected {
            Some(p) => if restoring {
                Some(&self.path)
            } else {
                Some(p)
            },
            None => None,
        }
    }
}

/// One scanned registry key: its path and its change class.
#[derive(Clone, Debug)]
pub struct ScannedRegistry {
    pub path: RegistryItem,
    pub change: ScanChange,
}

/// A whole scan: the game it belongs to, the entries found, and whether the
/// scan describes a restore rather than a backup.
#[derive(Clone, Debug)]
pub struct ScanInfo {
    pub game_name: String,
    pub found_files: Vec<ScannedFile>,
    pub found_registry_keys: Vec<ScannedRegistry>,
    pub restoring: bool,
}

impl ScanInfo {
    pub fn restoring(&self) -> (r: bool)
        ensures
            r == self.restoring,
    {
        self.restoring
    }
}

/// The outcome of the latest backup or restore: which paths failed.
#[derive(Clone, Debug)]
pub struct BackupInfo {
    pub failed_files: Vec<StrictPath>,
    pub failed_registry: Vec<RegistryItem>,
}

impl BackupInfo {
    pub open spec fn spec_file_failed(self, path: Seq<char>) -> bool {
        exists|i: int|
            0 <= i < self.failed_files@.len() && self.failed_files@[i].raw@ == path
    }

    pub open spec fn spec_registry_failed(self, path: Seq<char>) -> bool {
        exists|i: int|
            0 <= i < self.failed_registry@.len() && self.failed_registry@[i].raw@ == path
    }

    pub fn file_failed(&self, path: &StrictPath) -> (r: bool)
        ensures
            r == self.spec_file_failed(path.raw@),
    {
        let mut i: usize = 0;
        while i < self.failed_files.len()
            invariant
                i <= self.failed_files@.len(),
                forall|j: int| 0 <= j < i ==> self.failed_files@[j].raw@ != path.raw@,
            decreases self.failed_files@.len() - i,
        {
            if str_eqx(self.failed_files[i].raw.as_str(), path.raw.as_str()) {
                return true;
            }
            i = i + 1;
        }
        false
    }

    pub fn registry_failed(&self, path: &RegistryItem) -> (r: bool)
        ensures
            r == self.spec_registry_failed(path.raw@),
    {
        let mut i: usize = 0;
        while i < self.failed_registry.len()
            invariant
                i <= self.failed_registry@.len(),
                forall|j: int| 0 <= j < i ==> self.failed_registry@[j].raw@ != path.raw@,
            decreases self.failed_registry@.len() - i,
        {
            if str_eqx(self.failed_registry[i].raw.as_str(), path.raw.as_str()) {
                return true;
            }
            i = i + 1;
        }
        false
    }
}

/// Answers whether a path's content is shared with another game's backup.
#[derive(Clone, Debug)]
pub struct DuplicateDetector {
    pub file_paths: Vec<StrictPath>,
    pub registry_paths: Vec<RegistryItem>,
}

impl DuplicateDetector {
    pub open spec fn spec_file_duplicated(self, path: Seq<char>) -> bool {
        exists|i: int|
            0 <= i < self.file_paths@.len() && self.file_paths@[i].raw@ == path
    }

    pub open spec fn spec_registry_duplicated(self, path: Seq<char>) -> bool {
        exists|i: int|
            0 <= i < self.registry_paths@.len() && self.registry_paths@[i].raw@ == path
    }

    pub fn is_file_duplicated(&self, file: &ScannedFile) -> (r: bool)
        ensures
            r == self.spec_file_duplicated(file.path.raw@),
    {
        let mut i: usize = 0;
        while i < self.file_paths.len()
            invariant
                i <= self.file_paths@.len(),
                forall|j: int| 0 <= j < i ==> self.file_paths@[j].raw@ != file.path.raw@,
            decreases self.file_paths@.len() - i,
        {
            if str_eqx(self.file_paths[i].raw.as_str(), file.path.raw.as_str()) {
                return true;
            }
            i = i + 1;
        }
        false
    }

    pub fn is_registry_duplicated(&self, path: &RegistryItem) -> (r: bool)
        ensures
            r == self.spec_registry_duplicated(path.raw@),
    {
        let mut i: usize = 0;
        while i < self.registry_paths.len()
            invariant
                i <= self.registry_paths@.len(),
                forall|j: int| 0 <= j < i ==> self.registry_paths@[j].raw@ != path.raw@,
            decreases self.registry_paths@.len() - i,
        {
            if str_eqx(self.registry_paths[i].raw.as_str(), path.raw.as_str()) {
                return true;
            }
            i = i + 1;
        }
        false
    }
}

/// Per-game ignored file paths.
#[derive(Clone, Debug)]
pub struct ToggledPaths {
    pub entries: Vec<(String, StrictPath)>,
}

impl ToggledPaths {
    pub open spec fn spec_is_ignored(self, game: Seq<char>, path: Seq<char>) -> bool {
        exists|i: int|
            0 <= i < self.entries@.len() && self.entries@[i].0@ == game
                && self.entries@[i].1.raw@ == path
    }

    pub fn is_ignored(&self, game: &str, path: &StrictPath) -> (r: bool)
        ensures
            r == self.spec_is_ignored(game@, path.raw@),
    {
        let mut i: usize = 0;
        while i < self.entries.len()
            invariant
                i <= self.entries@.len(),
                forall|j: int|
                    0 <= j < i ==> !(self.entries@[j].0@ == game@
                        && self.entries@[j].1.raw@ == path.raw@),
            decreases self.entries@.len() - i,
        {
            if str_eqx(self.entries[i].0.as_str(), game)
                && str_eqx(self.entries[i].1.raw.as_str(), path.raw.as_str()) {
                return true;
            }
            i = i + 1;
        }
        false
    }
}

/// Per-game ignored registry paths.
#[derive(Clone, Debug)]
pub struct ToggledRegistry {
    pub entries: Vec<(String, RegistryItem)>,
}

impl ToggledRegistry {
    pub open spec fn spec_is_ignored(self, game: Seq<char>, path: Seq<char>) -> bool {
        exists|i: int|
            0 <= i < self.entries@.len() && self.entries@[i].0@ == game
                && self.entries@[i].1.raw@ == path
    }

    pub fn is_ignored(&self, game: &str, path: &RegistryItem) -> (r: bool)
        ensures
            r == self.spec_is_ignored(game@, path.raw@),
    {
        let mut i: usize = 0;
        while i < self.entries.len()
            invariant
                i <= self.entries@.len(),
                forall|j: int|
                    0 <= j < i ==> !(self.entries@[j].0@ == game@
                        && self.entries@[j].1.raw@ == path.raw@),
            decreases self.entries@.len() - i,
        {
            if str_eqx(self.entries[i].0.as_str(), game)
                && str_eqx(self.entries[i].1.raw.as_str(), path.raw.as_str()) {
                return true;
            }
            i = i + 1;
        }
        false
    }
}

/// The slice of the configuration that the tree consults.
#[derive(Clone, Debug)]
pub struct BackupFilter {
    pub toggled_paths: ToggledPaths,
    pub toggled_registry: ToggledRegistry,
}

/// The configuration as the tree sees it.
#[derive(Clone, Debug)]
pub struct Config {
    pub backup: BackupFilter,
}

} // verus!
