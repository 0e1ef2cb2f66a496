//! Strict manifests: the owned files of a snapshot with their modes and object ids.
use vstd::prelude::*;

use crate::domain::repopath::RepoPath;
use crate::order::{byte_key, SortKey};

verus! {

/// One owned file: its path, Git mode, content digest and Git blob id.
#[derive(Debug, Clone)]
pub struct StrictEntry {
    pub path: RepoPath,
    pub mode: u32,
    pub observed_digest: String,
    pub git_oid: String,
}

/// The mathematical content of a [`StrictEntry`].
pub struct EntryView {
    pub path: Seq<u8>,
    pub mode: u32,
    pub observed_digest: Seq<char>,
    pub git_oid: Seq<char>,
}

impl View for StrictEntry {
    type V = EntryView;

    open spec fn view(&self) -> EntryView {
        EntryView {
            path: self.path@,
            mode: self.mode,
            observed_digest: self.observed_digest@,
            git_oid: self.git_oid@,
        }
    }
}

impl SortKey for StrictEntry {
    open spec fn key(&self) -> Seq<int> {
        byte_key(self.path@)
    }

    fn compare_key(&self, other: &Self) -> (r: i8) {
        self.path.compare_key(&other.path)
    }
}

impl StrictEntry {
    /// A copy of this entry.
    pub fn duplicate(&self) -> (e: Self)
        ensures
            e@ == self@,
    {
        StrictEntry {
            path: self.path.duplicate(),
            mode: self.mode,
            observed_digest: self.observed_digest.clone(),
            git_oid: self.git_oid.clone(),
        }
    }
}

/// A captured snapshot: its fingerprints, manifest id and sorted entries.
#[derive(Debug, Clone)]
pub struct StrictSnapshot {
    pub materialized_fingerprint: String,
    pub observed_fingerprint: Option<String>,
    pub manifest_id: String,
    pub entries: Vec<StrictEntry>,
}

/// The views of a sequence of entries.
pub open spec fn entry_views(s: Seq<StrictEntry>) -> Seq<EntryView> {
    s.map_values(|e: StrictEntry| e@)
}

} // verus!
