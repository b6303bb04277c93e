//! Which files of a vault take part in a collaborative session.
//!
//! [`VaultSyncConfig`] decides whether a vault-relative path is synced: by its
//! extension, by an optional folder allowlist, and by exclusion prefixes.

use vstd::prelude::*;

use crate::registry::{DocumentRegistry, RegistryError};
use crate::text::{chars_of, chars_start_with, is_prefix};
use crate::vault_manifest::{is_alive, is_tombstone, VaultManifest};

verus! {

/// The characters after the last `/` of `s` (all of `s` when it has none).
pub open spec fn trailing_segment(s: Seq<char>) -> Seq<char>
    decreases s.len(),
{
    if s.len() == 0 || s.last() == '/' {
        Seq::empty()
    } else {
        trailing_segment(s.drop_last()).push(s.last())
    }
}

/// The last component of a path: trailing `/` are ignored and so are `.`
/// components (as path normalization does); empty for a path with no
/// component left.
pub open spec fn last_component(s: Seq<char>) -> Seq<char>
    decreases s.len(),
{
    if s.len() == 0 {
        Seq::empty()
    } else if s.last() == '/' {
        last_component(s.drop_last())
    } else if trailing_segment(s) == seq!['.'] {
        last_component(s.drop_last())
    } else {
        trailing_segment(s)
    }
}

/// The index of the last `.` of `s`, or -1.
pub open spec fn last_dot(s: Seq<char>) -> int
    decreases s.len(),
{
    if s.len() == 0 {
        -1
    } else if s.last() == '.' {
        s.len() - 1
    } else {
        last_dot(s.drop_last())
    }
}

/// The extension of a path's file name, without the dot; empty when the
/// path has no file name (no component, or `..`), when the name has no dot,
/// or when its only dot is its first character (a hidden file such as
/// `.md`).
pub open spec fn path_extension(path: Seq<char>) -> Seq<char> {
    let name = last_component(path);
    if name.len() == 0 || name == seq!['.', '.'] {
        Seq::empty()
    } else if last_dot(name) <= 0 {
        Seq::empty()
    } else {
        name.subrange(last_dot(name) + 1, name.len() as int)
    }
}

/// `p` with every trailing `/*` removed.
pub open spec fn strip_dir_glob(p: Seq<char>) -> Seq<char>
    decreases p.len(),
{
    if p.len() >= 2 && p.last() == '*' && p[p.len() - 2] == '/' {
        strip_dir_glob(p.subrange(0, p.len() - 2))
    } else {
        p
    }
}

/// `path` is a listed folder itself or lies inside one (`folder/...`), or
/// no folder is listed.
pub open spec fn folder_allowed(folders: Seq<Seq<char>>, path: Seq<char>) -> bool {
    folders.len() == 0 || exists|i: int| 0 <= i < folders.len() && (path == folders[i] || is_prefix(folders[i].push('/'), path))
}

/// Some exclusion pattern, with its trailing `/*` removed, is a prefix of
/// `path`.
pub open spec fn excluded(patterns: Seq<Seq<char>>, path: Seq<char>) -> bool {
    exists|i: int| 0 <= i < patterns.len() && is_prefix(strip_dir_glob(patterns[i]), path)
}

/// The values of a list of strings.
pub open spec fn strs(v: Seq<String>) -> Seq<Seq<char>> {
    v.map_values(|s: String| s@)
}

/// Settings that control vault-wide synchronization.
#[derive(Debug, Clone)]
pub struct VaultSyncConfig {
    /// Restrict sync to these vault-relative folder paths; when empty all
    /// folders are synced (subject to `exclude_patterns`).
    pub sync_folders: Vec<String>,
    /// Patterns for paths that are not synced, matched as prefixes of the
    /// vault-relative path once a trailing `/*` is removed.
    pub exclude_patterns: Vec<String>,
    /// File extensions eligible for sync, without the leading dot.
    pub extensions: Vec<String>,
    /// Whether to propagate file deletions to remote peers.
    pub sync_deletions: bool,
    /// Whether to propagate file renames to remote peers.
    pub sync_renames: bool,
}

/// Whether `cfg` syncs the vault-relative `path`: its extension is listed,
/// it is inside an allowed folder, and no exclusion pattern matches it.
pub open spec fn syncs(cfg: VaultSyncConfig, path: Seq<char>) -> bool {
    &&& strs(cfg.extensions@).contains(path_extension(path))
    &&& folder_allowed(strs(cfg.sync_folders@), path)
    &&& !excluded(strs(cfg.exclude_patterns@), path)
}

impl Default for VaultSyncConfig {
    /// Sync every folder, exclude nothing, sync `md` files, deletions and
    /// renames.
    fn default() -> (c: VaultSyncConfig)
        ensures
            c.sync_folders@.len() == 0,
            c.exclude_patterns@.len() == 0,
            strs(c.extensions@) == seq![seq!['m', 'd']],
            c.sync_deletions,
            c.sync_renames,
    {
        let mut extensions: Vec<String> = Vec::new();
        let md = "md".to_owned();
        proof { reveal_strlit("md"); }
        assert(md@ =~= seq!['m', 'd']);
        extensions.push(md);
        assert(strs(extensions@) =~= seq![seq!['m', 'd']]);
        VaultSyncConfig {
            sync_folders: Vec::new(),
            exclude_patterns: Vec::new(),
            extensions,
            sync_deletions: true,
            sync_renames: true,
        }
    }
}

/// The trailing segment of `s` is what follows the last `/`.
pub proof fn lemma_trailing_segment(s: Seq<char>, start: int)
    requires
        0 <= start <= s.len(),
        start == 0 || s[start - 1] == '/',
        forall|k: int| start <= k < s.len() ==> s[k] != '/',
    ensures
        trailing_segment(s) == s.subrange(start, s.len() as int),
    decreases s.len(),
{
    if s.len() > start {
        lemma_trailing_segment(s.drop_last(), start);
        assert(s.drop_last().subrange(start, s.len() - 1).push(s.last()) =~= s.subrange(start, s.len() as int));
    } else if s.len() > 0 {
        assert(s.last() == '/');
    }
}

/// The last dot of `s` is at `d` when none follows it.
pub proof fn lemma_last_dot(s: Seq<char>, d: int)
    requires
        -1 <= d < s.len(),
        d >= 0 ==> s[d] == '.',
        forall|k: int| d < k < s.len() ==> s[k] != '.',
    ensures
        last_dot(s) == d,
    decreases s.len(),
{
    if s.len() > 0 && s.len() - 1 != d {
        lemma_last_dot(s.drop_last(), d);
    }
}

/// `v[start..end]` equals `w`.
pub fn range_equals(v: &Vec<char>, start: usize, end: usize, w: &Vec<char>) -> (r: bool)
    requires
        start <= end <= v@.len(),
    ensures
        r == (v@.subrange(start as int, end as int) == w@),
{
    if end - start != w.len() {
        assert(v@.subrange(start as int, end as int).len() != w@.len());
        return false;
    }
    let mut i: usize = 0;
    while i < w.len()
        invariant
            start <= end <= v@.len(),
            end - start == w@.len(),
            i <= w@.len(),
            forall|j: int| 0 <= j < i ==> v@[start + j] == w@[j],
        decreases w@.len() - i,
    {
        if v[start + i] != w[i] {
            assert(v@.subrange(start as int, end as int)[i as int] != w@[i as int]);
            return false;
        }
        i = i + 1;
    }
    assert(v@.subrange(start as int, end as int) =~= w@);
    true
}

/// The bounds of the last component of the path `v`.
fn last_component_range(v: &Vec<char>) -> (r: (usize, usize))
    ensures
        r.0 <= r.1 <= v@.len(),
        v@.subrange(r.0 as int, r.1 as int) == last_component(v@),
{
    let mut end: usize = v.len();
    assert(v@.subrange(0, end as int) =~= v@);
    loop
        invariant
            end <= v@.len(),
            last_component(v@) == last_component(v@.subrange(0, end as int)),
        decreases end,
    {
        let ghost end0 = end;
        while end > 0 && v[end - 1] == '/'
            invariant
                end <= end0,
                end <= v@.len(),
                last_component(v@) == last_component(v@.subrange(0, end as int)),
            decreases end,
        {
            assert(v@.subrange(0, end as int).drop_last() =~= v@.subrange(0, end - 1));
            end = end - 1;
        }
        if end == 0 {
            assert(v@.subrange(0, 0) =~= Seq::<char>::empty());
            return (0, 0);
        }
        let mut start: usize = end;
        while start > 0 && v[start - 1] != '/'
            invariant
                start <= end <= v@.len(),
                forall|k: int| start <= k < end ==> v@[k] != '/',
            decreases start,
        {
            start = start - 1;
        }
        let ghost s = v@.subrange(0, end as int);
        proof {
            assert forall|k: int| start <= k < s.len() implies s[k] != '/' by {}
            lemma_trailing_segment(s, start as int);
            assert(s.subrange(start as int, end as int) =~= v@.subrange(start as int, end as int));
            assert(s.last() != '/');
        }
        if end - start == 1 && v[start] == '.' {
            proof {
                assert(v@.subrange(start as int, end as int) =~= seq!['.']);
                assert(s.drop_last() =~= v@.subrange(0, start as int));
            }
            end = start;
        } else {
            proof {
                if trailing_segment(s) == seq!['.'] {
                    assert(v@.subrange(start as int, end as int).len() == 1);
                    assert(v@.subrange(start as int, end as int)[0] == v@[start as int]);
                }
            }
            return (start, end);
        }
    }
}

/// The bounds of the extension of the path `v` (equal bounds for none).
pub fn extension_range(v: &Vec<char>) -> (r: (usize, usize))
    ensures
        r.0 <= r.1 <= v@.len(),
        v@.subrange(r.0 as int, r.1 as int) == path_extension(v@),
{
    let (start, end) = last_component_range(v);
    let ghost name = v@.subrange(start as int, end as int);
    if end == start {
        return (0, 0);
    }
    if end - start == 2 && v[start] == '.' && v[start + 1] == '.' {
        assert(name =~= seq!['.', '.']);
        return (0, 0);
    }
    let mut d: usize = end;
    while d > start && v[d - 1] != '.'
        invariant
            start <= d <= end <= v@.len(),
            forall|k: int| d <= k < end ==> v@[k] != '.',
        decreases d,
    {
        d = d - 1;
    }
    proof {
        let dd: int = if d > start { d - 1 - start } else { -1 };
        assert forall|k: int| dd < k < name.len() implies name[k] != '.' by {
            assert(name[k] == v@[start + k]);
        }
        lemma_last_dot(name, dd);
    }
    if d <= start + 1 {
        return (0, 0);
    }
    assert(name.subrange(d - start, name.len() as int) =~= v@.subrange(d as int, end as int));
    (d, end)
}

impl VaultSyncConfig {
    /// Whether the vault-relative `path` is synced: its extension is listed
    /// in `extensions`; when `sync_folders` is non-empty, the path is a
    /// listed folder's child (`"<folder>/..."`) or a listed entry itself; and
    /// no exclusion pattern is a prefix of it.
    pub fn should_sync(&self, path: &str) -> (r: bool)
        ensures
            r == syncs(*self, path@),
    {
        let v = chars_of(path);
        let (es, ee) = extension_range(&v);
        let mut listed = false;
        let mut i: usize = 0;
        while i < self.extensions.len()
            invariant
                es <= ee <= v@.len(),
                v@ == path@,
                v@.subrange(es as int, ee as int) == path_extension(path@),
                i <= self.extensions@.len(),
                listed == exists|j: int| 0 <= j < i && strs(self.extensions@)[j] == path_extension(path@),
            decreases self.extensions@.len() - i,
        {
            let w = chars_of(self.extensions[i].as_str());
            assert(strs(self.extensions@)[i as int] == w@);
            if range_equals(&v, es, ee, &w) {
                listed = true;
            }
            i = i + 1;
        }
        if !listed {
            return false;
        }
        let mut allowed = self.sync_folders.len() == 0;
        let mut i: usize = 0;
        while i < self.sync_folders.len()
            invariant
                v@ == path@,
                i <= self.sync_folders@.len(),
                allowed == (self.sync_folders@.len() == 0 || exists|j: int| 0 <= j < i
                    && (path@ == strs(self.sync_folders@)[j] || is_prefix(strs(self.sync_folders@)[j].push('/'), path@))),
            decreases self.sync_folders@.len() - i,
        {
            let mut f = chars_of(self.sync_folders[i].as_str());
            assert(strs(self.sync_folders@)[i as int] == f@);
            let same = range_equals(&v, 0, v.len(), &f);
            assert(v@.subrange(0, v@.len() as int) =~= v@);
            f.push('/');
            if same || chars_start_with(&v, &f) {
                allowed = true;
            }
            i = i + 1;
        }
        if !allowed {
            return false;
        }
        let mut i: usize = 0;
        while i < self.exclude_patterns.len()
            invariant
                v@ == path@,
                i <= self.exclude_patterns@.len(),
                forall|j: int| 0 <= j < i ==> !is_prefix(strip_dir_glob(#[trigger] strs(self.exclude_patterns@)[j]), path@),
            decreases self.exclude_patterns@.len() - i,
        {
            let p = chars_of(self.exclude_patterns[i].as_str());
            assert(strs(self.exclude_patterns@)[i as int] == p@);
            let stripped = strip_dir_glob_exec(p);
            if chars_start_with(&v, &stripped) {
                assert(is_prefix(strip_dir_glob(strs(self.exclude_patterns@)[i as int]), path@));
                return false;
            }
            i = i + 1;
        }
        true
    }

    /// The document id of a vault-relative file path: the full path,
    /// extension included, so distinct files never share a document.
    pub fn doc_id_for_path(path: &str) -> (id: String)
        ensures
            id@ == path@,
    {
        path.to_owned()
    }
}

/// `p` with every trailing `/*` removed.
fn strip_dir_glob_exec(p0: Vec<char>) -> (r: Vec<char>)
    ensures
        r@ == strip_dir_glob(p0@),
{
    let mut p = p0;
    while p.len() >= 2 && p[p.len() - 1] == '*' && p[p.len() - 2] == '/'
        invariant
            strip_dir_glob(p@) == strip_dir_glob(p0@),
        decreases p@.len(),
    {
        let ghost before = p@;
        p.pop();
        p.pop();
        assert(p@ =~= before.subrange(0, before.len() - 2));
    }
    p
}

/// Law: distinct paths get distinct document ids.
pub proof fn lemma_doc_id_injective(a: Seq<char>, b: Seq<char>, ida: Seq<char>, idb: Seq<char>)
    requires
        ida == a,
        idb == b,
        a != b,
    ensures
        ida != idb,
{
}

/// The type of sync action performed.
#[derive(Debug, Clone, PartialEq, Eq)]
pub enum SyncActionKind {
    /// A new document was registered (file created).
    FileCreated,
    /// An existing document was closed (file deleted).
    FileDeleted,
    /// A document was renamed (old closed, new opened).
    FileRenamed {
        /// The new vault-relative path.
        new_path: String,
    },
    /// The file was ignored (outside sync scope).
    Ignored,
}

/// The outcome of handling a vault event.
#[derive(Debug, Clone)]
pub struct SyncAction {
    /// The vault-relative path that was affected.
    pub path: String,
    /// The kind of action taken.
    pub kind: SyncActionKind,
    /// Encoded manifest update to broadcast to remote peers; empty when no
    /// manifest update was necessary.
    pub manifest_update: Vec<u8>,
}

/// An ignored event on `path`.
fn ignored(path: &str) -> (a: SyncAction)
    ensures
        a.path@ == path@,
        a.kind is Ignored,
        a.manifest_update@.len() == 0,
{
    SyncAction { path: path.to_owned(), kind: SyncActionKind::Ignored, manifest_update: Vec::new() }
}

/// The largest manifest update accepted, in bytes: the relay's largest
/// frame, which no legitimate update exceeds.
pub const MAX_MANIFEST_UPDATE_BYTES: usize = 1048576usize;

/// The most new documents one manifest update may open. Chosen so that the
/// full state of a vault of ten thousand synced files still applies in one
/// update, while one frame cannot open an unbounded number of documents.
pub const MAX_NEW_PATHS_PER_APPLY: usize = 10000usize;

/// Coordinates the vault manifest, the document registry and local file
/// events. It performs no I/O: callers read files and send the manifest
/// updates.
pub struct VaultSyncManager {
    manifest: VaultManifest,
    registry: DocumentRegistry,
    config: VaultSyncConfig,
}

impl VaultSyncManager {
    /// The manifest.
    pub closed spec fn spec_manifest(&self) -> VaultManifest {
        self.manifest
    }

    /// The registry.
    pub closed spec fn spec_registry(&self) -> DocumentRegistry {
        self.registry
    }

    /// The configuration.
    pub closed spec fn spec_config(&self) -> VaultSyncConfig {
        self.config
    }

    /// The registry is well formed.
    pub closed spec fn wf(&self) -> bool {
        self.registry.wf()
    }

    /// A manager with an empty manifest and registry.
    pub fn new(config: VaultSyncConfig) -> (m: VaultSyncManager)
        ensures
            m.wf(),
            m.spec_config() == config,
            m.spec_manifest().entries().dom().len() == 0,
            m.spec_registry().docs().dom().len() == 0,
            m.spec_manifest().entries() == Map::<Seq<char>, Option<bool>>::empty(),
            m.spec_registry().docs() == Map::<Seq<char>, crate::document::CollabDocument>::empty(),
    {
        VaultSyncManager { manifest: VaultManifest::new(), registry: DocumentRegistry::new(), config }
    }

    /// The vault manifest.
    pub fn manifest(&self) -> (m: &VaultManifest)
        ensures
            *m == self.spec_manifest(),
    {
        &self.manifest
    }

    /// The document registry.
    pub fn registry(&self) -> (r: &DocumentRegistry)
        ensures
            *r == self.spec_registry(),
    {
        &self.registry
    }

    /// The sync configuration.
    pub fn config(&self) -> (c: &VaultSyncConfig)
        ensures
            *c == self.spec_config(),
    {
        &self.config
    }

    /// Handle a local file creation: a synced path gets a document (if it
    /// has none yet) and is marked alive in the manifest.
    pub fn handle_created(&mut self, path: &str) -> (r: Result<SyncAction, RegistryError>)
        requires
            old(self).wf(),
        ensures
            final(self).wf(),
            final(self).spec_config() == old(self).spec_config(),
            r is Ok,
            !syncs(old(self).spec_config(), path@) ==> {
                &&& r matches Ok(a) && a.path@ == path@ && a.kind is Ignored && a.manifest_update@.len() == 0
                &&& final(self).spec_manifest() == old(self).spec_manifest()
                &&& final(self).spec_registry() == old(self).spec_registry()
            },
            syncs(old(self).spec_config(), path@) ==> {
                &&& r matches Ok(a) && a.path@ == path@ && a.kind is FileCreated
                    && a.manifest_update@ == final(self).spec_manifest().full_state()
                &&& final(self).spec_manifest().entries() == old(self).spec_manifest().entries().insert(path@, Some(true))
                &&& final(self).spec_registry().docs().dom() == old(self).spec_registry().docs().dom().insert(path@)
            },
    {
        if !self.config.should_sync(path) {
            return Ok(ignored(path));
        }
        let doc_id = VaultSyncConfig::doc_id_for_path(path);
        if self.registry.get(doc_id.as_str()).is_none() {
            let _ = self.registry.create(doc_id.as_str());
        } else {
            proof { assert(old(self).registry.docs().dom().insert(path@) =~= old(self).registry.docs().dom()); }
        }
        self.manifest.add_file(path);
        let manifest_update = self.manifest.encode_full_state();
        Ok(SyncAction { path: path.to_owned(), kind: SyncActionKind::FileCreated, manifest_update })
    }

    /// Handle a local file deletion: when deletions are synced, a synced
    /// path's document is closed and a tombstone recorded.
    pub fn handle_deleted(&mut self, path: &str) -> (a: SyncAction)
        requires
            old(self).wf(),
        ensures
            final(self).wf(),
            final(self).spec_config() == old(self).spec_config(),
            !(syncs(old(self).spec_config(), path@) && old(self).spec_config().sync_deletions) ==> {
                &&& a.path@ == path@ && a.kind is Ignored && a.manifest_update@.len() == 0
                &&& final(self).spec_manifest() == old(self).spec_manifest()
                &&& final(self).spec_registry() == old(self).spec_registry()
            },
            syncs(old(self).spec_config(), path@) && old(self).spec_config().sync_deletions ==> {
                &&& a.path@ == path@ && a.kind is FileDeleted
                &&& a.manifest_update@ == final(self).spec_manifest().full_state()
                &&& final(self).spec_manifest().entries() == old(self).spec_manifest().entries().insert(path@, Some(false))
                &&& final(self).spec_registry().docs() == old(self).spec_registry().docs().remove(path@)
            },
    {
        if !self.config.should_sync(path) || !self.config.sync_deletions {
            return ignored(path);
        }
        let doc_id = VaultSyncConfig::doc_id_for_path(path);
        let _ = self.registry.close(doc_id.as_str());
        self.manifest.delete_file(path);
        let manifest_update = self.manifest.encode_full_state();
        SyncAction { path: path.to_owned(), kind: SyncActionKind::FileDeleted, manifest_update }
    }

    /// Handle a local file rename: when renames are synced and both paths
    /// are synced, the old document is closed, the new one opened (if it has
    /// none yet) and the manifest renames atomically.
    pub fn handle_renamed(&mut self, old_path: &str, new_path: &str) -> (r: Result<SyncAction, RegistryError>)
        requires
            old(self).wf(),
        ensures
            final(self).wf(),
            final(self).spec_config() == old(self).spec_config(),
            r is Ok,
            !(old(self).spec_config().sync_renames && syncs(old(self).spec_config(), old_path@) && syncs(old(self).spec_config(), new_path@)) ==> {
                &&& r matches Ok(a) && a.path@ == old_path@ && a.kind is Ignored && a.manifest_update@.len() == 0
                &&& final(self).spec_manifest() == old(self).spec_manifest()
                &&& final(self).spec_registry() == old(self).spec_registry()
            },
            old(self).spec_config().sync_renames && syncs(old(self).spec_config(), old_path@) && syncs(old(self).spec_config(), new_path@) ==> {
                &&& r matches Ok(a) && a.path@ == old_path@ && (a.kind matches SyncActionKind::FileRenamed { new_path: n } && n@ == new_path@)
                    && a.manifest_update@ == final(self).spec_manifest().full_state()
                &&& final(self).spec_manifest().entries() == old(self).spec_manifest().entries().insert(old_path@, Some(false)).insert(new_path@, Some(true))
                &&& final(self).spec_registry().docs().dom() == old(self).spec_registry().docs().dom().remove(old_path@).insert(new_path@)
            },
    {
        if !self.config.sync_renames || !self.config.should_sync(old_path) || !self.config.should_sync(new_path) {
            return Ok(ignored(old_path));
        }
        let old_doc_id = VaultSyncConfig::doc_id_for_path(old_path);
        let new_doc_id = VaultSyncConfig::doc_id_for_path(new_path);
        let _ = self.registry.close(old_doc_id.as_str());
        let ghost mid = self.registry.docs().dom();
        if self.registry.get(new_doc_id.as_str()).is_none() {
            let _ = self.registry.create(new_doc_id.as_str());
        } else {
            proof { assert(mid.insert(new_path@) =~= mid); }
        }
        self.manifest.rename_file(old_path, new_path);
        let manifest_update = self.manifest.encode_full_state();
        Ok(SyncAction {
            path: old_path.to_owned(),
            kind: SyncActionKind::FileRenamed { new_path: new_path.to_owned() },
            manifest_update,
        })
    }

    /// How many of `files` are synced paths not open yet.
    fn count_new_paths(&self, files: &Vec<String>) -> (n: usize)
        requires
            self.wf(),
        ensures
            n <= files@.len(),
    {
        let mut n: usize = 0;
        let mut i: usize = 0;
        while i < files.len()
            invariant
                self.wf(),
                i <= files@.len(),
                n <= i,
            decreases files@.len() - i,
        {
            if self.config.should_sync(files[i].as_str()) && self.registry.get(files[i].as_str()).is_none() {
                n = n + 1;
            }
            i = i + 1;
        }
        n
    }

    /// Merge a manifest update from a remote peer, then open a document for
    /// every live, synced path not open yet and close every open document
    /// whose path the merged manifest records as deleted. Returns the paths
    /// newly opened, each once. Two bounds are checked first, and a refused
    /// update changes nothing: an update over [`MAX_MANIFEST_UPDATE_BYTES`]
    /// is refused before any decoding, and one that, merged into a scratch
    /// copy of the manifest (a fresh manifest that merged this one's full
    /// state), would open more than [`MAX_NEW_PATHS_PER_APPLY`] new
    /// documents is refused as a whole.
    /// The merge itself is `yrs`'s: an update that decodes but is malformed may
    /// make `yrs` panic while integrating it, which this library does not rule
    /// out.
    pub fn apply_remote_manifest(&mut self, update: &[u8]) -> (r: Result<Vec<String>, RegistryError>)
        requires
            old(self).wf(),
        ensures
            final(self).wf(),
            final(self).spec_config() == old(self).spec_config(),
            r matches Err(e) ==> e is InvalidState && final(self).spec_registry() == old(self).spec_registry(),
            update@.len() > MAX_MANIFEST_UPDATE_BYTES ==> *final(self) == *old(self)
                && (r matches Err(RegistryError::InvalidState(m)) && m@ == "manifest update exceeds the byte cap"@),
            r is Err ==> *final(self) == *old(self) || !old(self).spec_manifest().applies(update@),
            r matches Ok(v) ==> {
                let entries = final(self).spec_manifest().entries();
                let cfg = old(self).spec_config();
                let before = old(self).spec_registry().docs().dom();
                &&& forall|i: int, j: int| 0 <= i < j < v@.len() ==> v@[i]@ != v@[j]@
                &&& forall|p: Seq<char>| #[trigger] listed(v@, v@.len() as int, p)
                    <==> (is_alive(entries, p) && syncs(cfg, p) && !before.contains(p))
                &&& forall|p: Seq<char>| #[trigger] final(self).spec_registry().docs().dom().contains(p)
                    <==> ((before.contains(p) || (is_alive(entries, p) && syncs(cfg, p))) && !is_tombstone(entries, p))
            },
    {
        if update.len() > MAX_MANIFEST_UPDATE_BYTES {
            return Err(RegistryError::InvalidState("manifest update exceeds the byte cap".to_owned()));
        }
        let mut scratch = VaultManifest::new();
        let own = self.manifest.encode_full_state();
        if let Err(e) = scratch.apply_update(own.as_slice()) {
            return Err(RegistryError::InvalidState(e.message()));
        }
        if let Err(e) = scratch.apply_update(update) {
            return Err(RegistryError::InvalidState(e.message()));
        }
        let candidates = scratch.list_files();
        if self.count_new_paths(&candidates) > MAX_NEW_PATHS_PER_APPLY {
            return Err(RegistryError::InvalidState("manifest update announces too many new paths".to_owned()));
        }
        if let Err(e) = self.manifest.apply_update(update) {
            return Err(RegistryError::InvalidState(e.message()));
        }
        let ghost before = self.registry.docs().dom();
        let files = self.manifest.list_files();
        proof {
            assert forall|p: Seq<char>| is_alive(self.manifest.entries(), p) <==> #[trigger] listed(files@, files@.len() as int, p) by {}
        }
        let ghost m0 = self.manifest;
        let ghost c0 = self.config;
        let mut newly: Vec<String> = Vec::new();
        let mut i: usize = 0;
        while i < files.len()
            invariant
                self.registry.wf(),
                self.manifest == m0,
                self.config == c0,
                forall|p: Seq<char>| is_alive(m0.entries(), p) <==> #[trigger] listed(files@, files@.len() as int, p),
                i <= files@.len(),
                forall|a: int, b: int| 0 <= a < b < files@.len() ==> files@[a]@ != files@[b]@,
                forall|a: int, b: int| 0 <= a < b < newly@.len() ==> newly@[a]@ != newly@[b]@,
                forall|p: Seq<char>| #[trigger] listed(newly@, newly@.len() as int, p)
                    <==> (listed(files@, i as int, p) && syncs(self.config, p) && !before.contains(p)),
                forall|p: Seq<char>| #[trigger] self.registry.docs().dom().contains(p)
                    <==> (before.contains(p) || (listed(files@, i as int, p) && syncs(self.config, p))),
            decreases files@.len() - i,
        {
            let path = files[i].as_str();
            let ghost p = files@[i as int]@;
            let ghost nb = newly@;
            let ghost reg_before = self.registry.docs().dom();
            proof { lemma_listed_extend(files@, i as int); }
            if self.config.should_sync(path) && self.registry.get(path).is_none() {
                let _ = self.registry.create(path);
                newly.push(files[i].clone());
                proof {
                    assert(!before.contains(p));
                    assert(!listed(nb, nb.len() as int, p)) by {
                        if listed(nb, nb.len() as int, p) {
                            assert(listed(files@, i as int, p));
                            let b = choose|b: int| 0 <= b < i && files@[b]@ == p;
                        }
                    }
                    lemma_listed_push(nb, files@[i as int]);
                    assert(newly@ == nb.push(files@[i as int]));
                    assert forall|a: int| 0 <= a < nb.len() implies nb[a]@ != p by {
                        if nb[a]@ == p { assert(listed(nb, nb.len() as int, p)); }
                    }
                }
            } else {
                proof {
                    assert forall|q: Seq<char>| #[trigger] self.registry.docs().dom().contains(q)
                        <==> (before.contains(q) || (listed(files@, i + 1, q) && syncs(self.config, q))) by {
                        if q == p && syncs(self.config, p) {
                            assert(reg_before.contains(p));
                        }
                    }
                }
            }
            i = i + 1;
        }
        let ids = self.registry.list();
        let mut k: usize = 0;
        let ghost opened = self.registry.docs().dom();
        while k < ids.len()
            invariant
                self.registry.wf(),
                self.manifest == m0,
                self.config == c0,
                forall|p: Seq<char>| is_alive(m0.entries(), p) <==> #[trigger] listed(files@, files@.len() as int, p),
                forall|p: Seq<char>| #[trigger] listed(newly@, newly@.len() as int, p)
                    <==> (listed(files@, files@.len() as int, p) && syncs(self.config, p) && !before.contains(p)),
                forall|a: int, b: int| 0 <= a < b < newly@.len() ==> newly@[a]@ != newly@[b]@,
                forall|q: Seq<char>| #[trigger] opened.contains(q)
                    <==> (before.contains(q) || (listed(files@, files@.len() as int, q) && syncs(self.config, q))),
                k <= ids@.len(),
                forall|a: int, b: int| 0 <= a < b < ids@.len() ==> ids@[a]@ != ids@[b]@,
                forall|q: Seq<char>| opened.contains(q) <==> #[trigger] listed(ids@, ids@.len() as int, q),
                forall|q: Seq<char>| #[trigger] self.registry.docs().dom().contains(q)
                    <==> (opened.contains(q) && !(listed(ids@, k as int, q) && is_tombstone(self.manifest.entries(), q))),
            decreases ids@.len() - k,
        {
            let id = ids[k].as_str();
            proof { lemma_listed_extend(ids@, k as int); }
            if self.manifest.is_deleted(id) {
                let _ = self.registry.close(id);
            }
            proof {
                assert forall|q: Seq<char>| #[trigger] self.registry.docs().dom().contains(q)
                    <==> (opened.contains(q) && !(listed(ids@, k + 1, q) && is_tombstone(self.manifest.entries(), q))) by {
                    if q != ids@[k as int]@ && listed(ids@, k + 1, q) && !listed(ids@, k as int, q) {
                        assert(false);
                    }
                }
            }
            k = k + 1;
        }
        proof {
            assert forall|p: Seq<char>| #[trigger] self.registry.docs().dom().contains(p)
                <==> ((before.contains(p) || (is_alive(self.manifest.entries(), p) && syncs(self.config, p))) && !is_tombstone(self.manifest.entries(), p)) by {
                assert(listed(files@, files@.len() as int, p) == is_alive(self.manifest.entries(), p));
                if is_tombstone(self.manifest.entries(), p) && opened.contains(p) {
                    assert(listed(ids@, ids@.len() as int, p));
                }
                if is_tombstone(self.manifest.entries(), p) {
                    assert(!is_alive(self.manifest.entries(), p));
                }
            }
        }
        Ok(newly)
    }
}

/// Some string among the first `n` of `v` has the value `p`.
pub open spec fn listed(v: Seq<String>, n: int, p: Seq<char>) -> bool {
    exists|a: int| 0 <= a < n && a < v.len() && #[trigger] v[a]@ == p
}

/// Widening the prefix by one element.
pub proof fn lemma_listed_extend(v: Seq<String>, n: int)
    requires
        0 <= n < v.len(),
    ensures
        forall|p: Seq<char>| #[trigger] listed(v, n + 1, p) <==> (listed(v, n, p) || v[n]@ == p),
{
    assert forall|p: Seq<char>| #[trigger] listed(v, n + 1, p) <==> (listed(v, n, p) || v[n]@ == p) by {
        if listed(v, n + 1, p) {
            let a = choose|a: int| 0 <= a < n + 1 && a < v.len() && #[trigger] v[a]@ == p;
        }
        if v[n]@ == p {
            assert(0 <= n < n + 1 && v[n]@ == p);
        }
    }
}

/// Pushing onto a list.
pub proof fn lemma_listed_push(v: Seq<String>, s: String)
    ensures
        forall|p: Seq<char>| #[trigger] listed(v.push(s), v.len() as int + 1, p) <==> (listed(v, v.len() as int, p) || s@ == p),
{
    let w = v.push(s);
    assert forall|p: Seq<char>| #[trigger] listed(w, v.len() as int + 1, p) <==> (listed(v, v.len() as int, p) || s@ == p) by {
        if listed(w, v.len() as int + 1, p) {
            let a = choose|a: int| 0 <= a < v.len() + 1 && a < w.len() && #[trigger] w[a]@ == p;
            if a < v.len() { assert(v[a]@ == p); }
        }
        if listed(v, v.len() as int, p) {
            let a = choose|a: int| 0 <= a < v.len() && a < v.len() && #[trigger] v[a]@ == p;
            assert(w[a]@ == p);
        }
        if s@ == p {
            assert(w[v.len() as int]@ == p);
        }
    }
}

} // verus!
