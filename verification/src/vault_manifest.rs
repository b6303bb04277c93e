//! CRDT-backed manifest of every file in a collaborative vault.
//!
//! The manifest is a CRDT map from vault-relative path to a flag: `true`
//! for a live file, `false` for a deleted one. Deletions leave this
//! tombstone rather than removing the entry, so a lagging peer's `add_file`
//! cannot resurrect a file another peer already deleted. A rename is a
//! deletion of the old path and a creation of the new one, committed in a
//! single transaction.

use vstd::prelude::*;

use crate::crdt::{yrs_flags, yrs_full_state};
use crate::error::Error;

verus! {

/// The well-known document identifier of the vault manifest.
pub const MANIFEST_DOC_ID: &'static str = "__vault_manifest__";

/// CRDT-backed file registry for a collaborative vault.
pub struct VaultManifest {
    doc: yrs::Doc,
}

/// Whether `entries` records `path` as a live file.
pub open spec fn is_alive(entries: Map<Seq<char>, Option<bool>>, path: Seq<char>) -> bool {
    entries.get(path) == Some(Some(true))
}

/// Whether `entries` records `path` as deleted.
pub open spec fn is_tombstone(entries: Map<Seq<char>, Option<bool>>, path: Seq<char>) -> bool {
    entries.get(path) == Some(Some(false))
}

impl VaultManifest {
    /// The entries once `update` is merged into the manifest.
    pub closed spec fn merged_entries(&self, update: Seq<u8>) -> Map<Seq<char>, Option<bool>> {
        yrs_flags(crate::crdt::yrs_apply_update(self.doc, update), "files"@)
    }

    /// The manifest's entries: path to flag (`Some(true)` alive,
    /// `Some(false)` deleted, `None` for a value that is not a flag).
    pub closed spec fn entries(&self) -> Map<Seq<char>, Option<bool>> {
        yrs_flags(self.doc, "files"@)
    }

    /// Whether merging `update` into the manifest succeeds.
    pub closed spec fn applies(&self, update: Seq<u8>) -> bool {
        crate::crdt::yrs_update_applies(self.doc, update)
    }

    /// The manifest's full state as one update.
    pub closed spec fn full_state(&self) -> Seq<u8> {
        yrs_full_state(self.doc)
    }

    /// An empty manifest.
    pub fn new() -> (m: VaultManifest)
        ensures
            m.entries().dom().len() == 0,
            m.entries() == Map::<Seq<char>, Option<bool>>::empty(),
    {
        let m = VaultManifest { doc: crate::crdt::new_doc("text", "files") };
        assert(m.entries() =~= Map::<Seq<char>, Option<bool>>::empty());
        m
    }

    /// Mark `path` alive, overwriting a tombstone.
    pub fn add_file(&mut self, path: &str)
        ensures
            final(self).entries() == old(self).entries().insert(path@, Some(true)),
    {
        crate::crdt::map_set_flag(&mut self.doc, "files", path, true);
    }

    /// Mark `path` deleted (a tombstone), adding it if unknown.
    pub fn delete_file(&mut self, path: &str)
        ensures
            final(self).entries() == old(self).entries().insert(path@, Some(false)),
    {
        crate::crdt::map_set_flag(&mut self.doc, "files", path, false);
    }

    /// Rename `old_path` to `new_path` atomically: the old path becomes a
    /// tombstone and the new one alive, in one transaction.
    pub fn rename_file(&mut self, old_path: &str, new_path: &str)
        ensures
            final(self).entries() == old(self).entries().insert(old_path@, Some(false)).insert(new_path@, Some(true)),
    {
        crate::crdt::map_set_two_flags(&mut self.doc, "files", old_path, false, new_path, true);
    }

    /// The paths of all live files, each once.
    pub fn list_files(&self) -> (v: Vec<String>)
        ensures
            forall|i: int, j: int| 0 <= i < j < v@.len() ==> v@[i]@ != v@[j]@,
            forall|p: Seq<char>| is_alive(self.entries(), p) <==> exists|i: int| 0 <= i < v@.len() && #[trigger] v@[i]@ == p,
    {
        let entries = crate::crdt::map_entries(&self.doc, "files");
        let mut out: Vec<String> = Vec::new();
        let mut i: usize = 0;
        while i < entries.len()
            invariant
                i <= entries@.len(),
                forall|a: int, b: int| 0 <= a < b < entries@.len() ==> entries@[a].0@ != entries@[b].0@,
                forall|a: int| 0 <= a < entries@.len() ==> #[trigger] self.entries().get(entries@[a].0@) == Some(entries@[a].1),
                forall|a: int, b: int| 0 <= a < b < out@.len() ==> out@[a]@ != out@[b]@,
                forall|a: int| 0 <= a < out@.len() ==> exists|k: int| 0 <= k < i && entries@[k].0@ == #[trigger] out@[a]@ && entries@[k].1 == Some(true),
                forall|k: int| 0 <= k < i && entries@[k].1 == Some(true) ==> exists|a: int| 0 <= a < out@.len() && #[trigger] out@[a]@ == entries@[k].0@,
            decreases entries@.len() - i,
        {
            if entries[i].1 == Some(true) {
                let ghost before = out@;
                proof {
                    assert forall|a: int| 0 <= a < before.len() implies before[a]@ != entries@[i as int].0@ by {
                        let k = choose|k: int| 0 <= k < i && entries@[k].0@ == before[a]@ && entries@[k].1 == Some(true);
                    }
                }
                out.push(entries[i].0.clone());
                proof {
                    assert forall|a: int| 0 <= a < out@.len() implies exists|k: int| 0 <= k < i + 1 && entries@[k].0@ == #[trigger] out@[a]@ && entries@[k].1 == Some(true) by {
                        if a < before.len() {
                            let k = choose|k: int| 0 <= k < i && entries@[k].0@ == before[a]@ && entries@[k].1 == Some(true);
                            assert(out@[a] == before[a]);
                        } else {
                            assert(entries@[i as int].0@ == out@[a]@);
                        }
                    }
                    assert forall|k: int| 0 <= k < i + 1 && entries@[k].1 == Some(true) implies exists|a: int| 0 <= a < out@.len() && #[trigger] out@[a]@ == entries@[k].0@ by {
                        if k < i {
                            let a = choose|a: int| 0 <= a < before.len() && before[a]@ == entries@[k].0@;
                            assert(out@[a] == before[a]);
                        } else {
                            assert(out@[before.len() as int]@ == entries@[k].0@);
                        }
                    }
                }
            }
            i = i + 1;
        }
        proof {
            assert forall|p: Seq<char>| is_alive(self.entries(), p) <==> exists|a: int| 0 <= a < out@.len() && #[trigger] out@[a]@ == p by {
                if is_alive(self.entries(), p) {
                    assert(self.entries().dom().contains(p));
                    let k = choose|k: int| 0 <= k < entries@.len() && entries@[k].0@ == p;
                    assert(self.entries().get(entries@[k].0@) == Some(entries@[k].1));
                }
                if exists|a: int| 0 <= a < out@.len() && #[trigger] out@[a]@ == p {
                    let a = choose|a: int| 0 <= a < out@.len() && #[trigger] out@[a]@ == p;
                    let k = choose|k: int| 0 <= k < entries@.len() && entries@[k].0@ == out@[a]@ && entries@[k].1 == Some(true);
                    assert(self.entries().get(entries@[k].0@) == Some(entries@[k].1));
                }
            }
        }
        out
    }

    /// Whether `path` is alive.
    pub fn contains(&self, path: &str) -> (r: bool)
        ensures
            r == is_alive(self.entries(), path@),
    {
        crate::crdt::map_get_flag(&self.doc, "files", path) == Some(true)
    }

    /// Whether `path` has a deletion tombstone.
    pub fn is_deleted(&self, path: &str) -> (r: bool)
        ensures
            r == is_tombstone(self.entries(), path@),
    {
        crate::crdt::map_get_flag(&self.doc, "files", path) == Some(false)
    }

    /// The full state as one update, for a peer with no prior knowledge.
    pub fn encode_full_state(&self) -> (u: Vec<u8>)
        ensures
            u@ == self.full_state(),
    {
        crate::crdt::encode_full_state(&self.doc)
    }

    /// The changes since `state_vector` (a peer's [`Self::state_vector`]);
    /// an empty vector means everything.
    pub fn encode_update_since(&self, state_vector: &[u8]) -> (r: Result<Vec<u8>, Error>)
        ensures
            state_vector@.len() == 0 ==> (r matches Ok(u) && u@ == self.full_state()),
            r matches Err(e) ==> e is Yrs,
    {
        if state_vector.len() == 0 {
            return Ok(crate::crdt::encode_full_state(&self.doc));
        }
        match crate::crdt::encode_update_since(&self.doc, state_vector) {
            Ok(u) => Ok(u),
            Err(m) => Err(Error::Yrs(m)),
        }
    }

    /// The current state vector, for incremental sync.
    pub fn state_vector(&self) -> Vec<u8> {
        crate::crdt::state_vector(&self.doc)
    }

    /// Merge an update received from a remote peer.
    /// The merge itself is `yrs`'s: an update that decodes but is malformed may
    /// make `yrs` panic while integrating it, which this library does not rule
    /// out.
    pub fn apply_update(&mut self, update: &[u8]) -> (r: Result<(), Error>)
        ensures
            r matches Err(e) ==> e is Yrs,
            !crate::crdt::yrs_update_decodes(update@) ==> r is Err && *final(self) == *old(self),
            (r is Ok) == old(self).applies(update@),
            r is Ok ==> final(self).entries() == old(self).merged_entries(update@),
    {
        match crate::crdt::apply_update(&mut self.doc, update) {
            Ok(()) => Ok(()),
            Err(m) => Err(Error::Yrs(m)),
        }
    }
}

impl Default for VaultManifest {
    /// An empty manifest.
    fn default() -> (m: VaultManifest)
        ensures
            m.entries().dom().len() == 0,
    {
        VaultManifest::new()
    }
}

/// A rename leaves a tombstone at the old path and a live file at the new
/// one (a rename onto itself leaves the file live), and touches no other
/// path.
pub proof fn lemma_rename_moves_the_file(entries: Map<Seq<char>, Option<bool>>, old_path: Seq<char>, new_path: Seq<char>, other: Seq<char>)
    requires
        other != old_path && other != new_path,
    ensures
        ({
            let after = entries.insert(old_path, Some(false)).insert(new_path, Some(true));
            &&& is_alive(after, new_path)
            &&& old_path != new_path ==> is_tombstone(after, old_path)
            &&& after.get(other) == entries.get(other)
        }),
{
}

} // verus!
