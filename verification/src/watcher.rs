//! Turning file-system notifications of a vault into structured events.
//!
//! The watcher filters notifications by extension, makes each path relative
//! to the vault root, and tells creations from modifications by remembering
//! which files it has seen. Watching the directory and checking whether a
//! file exists are the caller's I/O; it hands each notified path, with
//! whether the file exists, to [`process_single_event`].

use vstd::prelude::*;

use crate::text::chars_of;
use crate::vault_sync::path_extension;

verus! {

/// Configuration for the vault watcher.
#[derive(Debug, Clone)]
pub struct WatcherConfig {
    /// File extensions to watch (without the dot).
    pub extensions: Vec<String>,
    /// Debounce window for coalescing rapid events, in milliseconds.
    pub debounce_millis: u64,
}

impl Default for WatcherConfig {
    /// Watch `md` files with a 200 ms debounce window.
    fn default() -> (c: WatcherConfig)
        ensures
            crate::vault_sync::strs(c.extensions@) == seq![seq!['m', 'd']],
            c.debounce_millis == 200,
    {
        let mut extensions: Vec<String> = Vec::new();
        let md = "md".to_owned();
        proof { reveal_strlit("md"); }
        assert(md@ =~= seq!['m', 'd']);
        extensions.push(md);
        assert(crate::vault_sync::strs(extensions@) =~= seq![seq!['m', 'd']]);
        WatcherConfig { extensions, debounce_millis: 200 }
    }
}

/// The kind of vault event that occurred.
#[derive(Debug, Clone, Copy, PartialEq, Eq, Structural)]
pub enum VaultEventKind {
    /// A new file was created.
    Created,
    /// An existing file was modified.
    Modified,
    /// A file was deleted.
    Deleted,
}

/// A structured event from the vault watcher.
#[derive(Debug, Clone)]
pub struct VaultEvent {
    /// The kind of event.
    pub kind: VaultEventKind,
    /// The path of the affected file, relative to the vault root.
    pub path: String,
}

/// `b` without trailing `/` bytes.
pub open spec fn trim_trailing_slashes(b: Seq<u8>) -> Seq<u8>
    decreases b.len(),
{
    if b.len() > 0 && b.last() == 47u8 {
        trim_trailing_slashes(b.drop_last())
    } else {
        b
    }
}

/// The first index at or after `i` that does not hold a `/` byte.
pub open spec fn skip_slashes(b: Seq<u8>, i: int) -> int
    decreases b.len() - i,
{
    if i < b.len() && b[i] == 47u8 {
        skip_slashes(b, i + 1)
    } else {
        i
    }
}

/// Where the part of `path` below `root` begins (both as UTF-8 bytes):
/// `path` is `root` itself (trailing `/` aside), or continues it with `/`,
/// after which further `/` are skipped; `None` when `path` is not under
/// `root`.
pub open spec fn below_root(path: Seq<u8>, root: Seq<u8>) -> Option<int> {
    let r = trim_trailing_slashes(root);
    if path == r {
        Some(path.len() as int)
    } else if r.len() < path.len() && path.subrange(0, r.len() as int) == r && path[r.len() as int] == 47u8 {
        Some(skip_slashes(path, r.len() as int + 1))
    } else {
        None
    }
}

/// The part of `path` below `root`, if `path` lies under it.
pub open spec fn relative_path(path: Seq<char>, root: Seq<char>) -> Option<Seq<char>> {
    let b = vstd::utf8::encode_utf8(path);
    match below_root(b, vstd::utf8::encode_utf8(root)) {
        Some(mid) => if vstd::utf8::is_char_boundary(b, mid) {
            Some(vstd::utf8::decode_utf8(b.subrange(mid, b.len() as int)))
        } else {
            None
        },
        None => None,
    }
}

/// The part of `path` below the vault root, or `None` when it is not under
/// the root.
pub fn strip_vault_prefix(path: &str, vault_root: &str) -> (r: Option<String>)
    ensures
        match relative_path(path@, vault_root@) {
            Some(rel) => r matches Some(s) && s@ == rel,
            None => r is None,
        },
{
    let pb = path.as_bytes();
    let rb = vault_root.as_bytes();
    let mut rlen: usize = rb.len();
    assert(rb@.subrange(0, rb@.len() as int) =~= rb@);
    while rlen > 0 && rb[rlen - 1] == 47u8
        invariant
            rlen <= rb@.len(),
            trim_trailing_slashes(rb@) == trim_trailing_slashes(rb@.subrange(0, rlen as int)),
        decreases rlen,
    {
        assert(rb@.subrange(0, rlen as int).drop_last() =~= rb@.subrange(0, rlen - 1));
        rlen = rlen - 1;
    }
    let ghost r = rb@.subrange(0, rlen as int);
    assert(trim_trailing_slashes(r) == r);
    if rlen > pb.len() {
        assert(pb@ != r);
        return None;
    }
    let mut i: usize = 0;
    while i < rlen
        invariant
            rlen <= pb@.len(),
            rlen <= rb@.len(),
            r == rb@.subrange(0, rlen as int),
            trim_trailing_slashes(rb@) == r,
            pb@ == vstd::utf8::encode_utf8(path@),
            rb@ == vstd::utf8::encode_utf8(vault_root@),
            i <= rlen,
            forall|k: int| 0 <= k < i ==> pb@[k] == rb@[k],
        decreases rlen - i,
    {
        if pb[i] != rb[i] {
            assert(pb@.subrange(0, rlen as int)[i as int] != r[i as int]);
            assert(pb@ != r);
            return None;
        }
        i = i + 1;
    }
    assert(pb@.subrange(0, rlen as int) =~= r);
    let mid: usize = if rlen == pb.len() {
        assert(pb@ =~= r);
        rlen
    } else {
        if pb[rlen] != 47u8 {
            assert(pb@ != r);
            return None;
        }
        let mut m: usize = rlen + 1;
        while m < pb.len() && pb[m] == 47u8
            invariant
                rlen < m <= pb@.len(),
                skip_slashes(pb@, rlen + 1) == skip_slashes(pb@, m as int),
            decreases pb@.len() - m,
        {
            m = m + 1;
        }
        assert(pb@ != r);
        m
    };
    proof {
        assert(below_root(pb@, rb@) == Some(mid as int));
    }
    if !path.is_char_boundary(mid) {
        return None;
    }
    let (_, rest) = path.split_at(mid);
    proof {
        vstd::utf8::encode_utf8_decode_utf8(rest@);
    }
    Some(rest.to_owned())
}

/// The files the watcher has seen, each once.
pub struct KnownFiles {
    files: Vec<String>,
}

impl KnownFiles {
    /// The set of known paths.
    pub closed spec fn set(&self) -> Set<Seq<char>> {
        crate::vault_sync::strs(self.files@).to_set()
    }

    /// No path is listed twice.
    pub closed spec fn wf(&self) -> bool {
        forall|i: int, j: int| 0 <= i < j < self.files@.len() ==> self.files@[i]@ != self.files@[j]@
    }

    /// No known files.
    pub fn new() -> (k: KnownFiles)
        ensures
            k.wf(),
            k.set() == Set::<Seq<char>>::empty(),
    {
        let k = KnownFiles { files: Vec::new() };
        assert(k.set() =~= Set::<Seq<char>>::empty());
        k
    }

    fn index(&self, path: &str) -> (r: Option<usize>)
        ensures
            r matches Some(i) ==> i < self.files@.len() && self.files@[i as int]@ == path@,
            r is None ==> !self.set().contains(path@),
    {
        let mut i: usize = 0;
        while i < self.files.len()
            invariant
                i <= self.files@.len(),
                forall|j: int| 0 <= j < i ==> self.files@[j]@ != path@,
            decreases self.files@.len() - i,
        {
            if crate::text::str_eq(self.files[i].as_str(), path) {
                return Some(i);
            }
            i = i + 1;
        }
        proof {
            if self.set().contains(path@) {
                let j = choose|j: int| 0 <= j < self.files@.len() && crate::vault_sync::strs(self.files@)[j] == path@;
                assert(self.files@[j]@ == path@);
            }
        }
        None
    }

    /// Whether `path` is known.
    pub fn contains(&self, path: &str) -> (r: bool)
        ensures
            r == self.set().contains(path@),
    {
        match self.index(path) {
            Some(i) => {
                assert(crate::vault_sync::strs(self.files@)[i as int] == path@);
                true
            },
            None => false,
        }
    }

    /// Remember `path`.
    pub fn insert(&mut self, path: &str)
        requires
            old(self).wf(),
        ensures
            final(self).wf(),
            final(self).set() == old(self).set().insert(path@),
    {
        let found = self.index(path);
        if found.is_none() {
            let ghost before = self.files@;
            self.files.push(path.to_owned());
            proof {
                assert forall|a: int, b: int| 0 <= a < b < self.files@.len() implies self.files@[a]@ != self.files@[b]@ by {
                    if b == before.len() {
                        assert(crate::vault_sync::strs(before)[a] == before[a]@);
                        assert(crate::vault_sync::strs(before).contains(before[a]@));
                    }
                }
                assert(crate::vault_sync::strs(self.files@) =~= crate::vault_sync::strs(before).push(path@));
                assert(self.set() =~= crate::vault_sync::strs(before).to_set().insert(path@)) by {
                    vstd::seq_lib::lemma_seq_contains_after_push(crate::vault_sync::strs(before), path@, path@);
                    assert forall|x: Seq<char>| self.set().contains(x) <==> crate::vault_sync::strs(before).to_set().insert(path@).contains(x) by {
                        if crate::vault_sync::strs(before).contains(x) {
                            let j = choose|j: int| 0 <= j < before.len() && crate::vault_sync::strs(before)[j] == x;
                            assert(crate::vault_sync::strs(self.files@)[j] == x);
                        }
                        if crate::vault_sync::strs(self.files@).contains(x) && x != path@ {
                            let j = choose|j: int| 0 <= j < self.files@.len() && crate::vault_sync::strs(self.files@)[j] == x;
                            assert(j < before.len());
                            assert(crate::vault_sync::strs(before)[j] == x);
                        }
                    }
                }
            }
        } else {
            proof {
                let i = found->0;
                assert(crate::vault_sync::strs(self.files@)[i as int] == path@);
                assert(old(self).set().contains(path@));
                assert(old(self).set().insert(path@) =~= old(self).set());
            }
        }
    }

    /// Forget `path`.
    pub fn remove(&mut self, path: &str)
        requires
            old(self).wf(),
        ensures
            final(self).wf(),
            final(self).set() == old(self).set().remove(path@),
    {
        match self.index(path) {
            Some(i) => {
                let ghost before = self.files@;
                self.files.remove(i);
                proof {
                    let sb = crate::vault_sync::strs(before);
                    let sa = crate::vault_sync::strs(self.files@);
                    assert forall|j: int| 0 <= j < self.files@.len() implies #[trigger] self.files@[j] == (if j < i { before[j] } else { before[j + 1] }) by {}
                    assert forall|x: Seq<char>| sa.contains(x) <==> sb.to_set().remove(path@).contains(x) by {
                        if sa.contains(x) {
                            let j = choose|j: int| 0 <= j < sa.len() && sa[j] == x;
                            let jj = if j < i { j } else { j + 1 };
                            assert(sb[jj] == x);
                            assert(jj != i);
                        }
                        if sb.contains(x) && x != path@ {
                            let j = choose|j: int| 0 <= j < sb.len() && sb[j] == x;
                            assert(j != i);
                            if j < i { assert(sa[j] == x); } else { assert(sa[j - 1] == x); }
                        }
                    }
                    assert(self.set() =~= old(self).set().remove(path@));
                }
            },
            None => {
                proof {
                    assert(old(self).set().remove(path@) =~= old(self).set());
                }
            },
        }
    }
}

/// Turn one notification about `path` into a vault event: `None` when its
/// extension is not watched or it is not under the vault root; otherwise
/// `Deleted` when the file no longer exists (it is forgotten), `Modified`
/// when it exists and was known, and `Created` when it exists and was not
/// (it is remembered). The event's path is relative to the root.
pub fn process_single_event(
    path: &str,
    exists: bool,
    extensions: &Vec<String>,
    vault_root: &str,
    known: &mut KnownFiles,
) -> (r: Option<VaultEvent>)
    requires
        old(known).wf(),
    ensures
        final(known).wf(),
        !crate::vault_sync::strs(extensions@).contains(path_extension(path@)) || relative_path(path@, vault_root@) is None ==> {
            &&& r is None
            &&& final(known).set() == old(known).set()
        },
        crate::vault_sync::strs(extensions@).contains(path_extension(path@)) && relative_path(path@, vault_root@) is Some ==> {
            &&& r matches Some(e) && e.path@ == relative_path(path@, vault_root@)->0
                && e.kind == (if !exists {
                    VaultEventKind::Deleted
                } else if old(known).set().contains(path@) {
                    VaultEventKind::Modified
                } else {
                    VaultEventKind::Created
                })
            &&& final(known).set() == (if exists { old(known).set().insert(path@) } else { old(known).set().remove(path@) })
        },
{
    let v = chars_of(path);
    let (es, ee) = crate::vault_sync::extension_range(&v);
    let mut listed = false;
    let mut i: usize = 0;
    while i < extensions.len()
        invariant
            es <= ee <= v@.len(),
            v@ == path@,
            v@.subrange(es as int, ee as int) == path_extension(path@),
            i <= extensions@.len(),
            listed == exists|j: int| 0 <= j < i && crate::vault_sync::strs(extensions@)[j] == path_extension(path@),
        decreases extensions@.len() - i,
    {
        let w = chars_of(extensions[i].as_str());
        assert(crate::vault_sync::strs(extensions@)[i as int] == w@);
        if crate::vault_sync::range_equals(&v, es, ee, &w) {
            listed = true;
        }
        i = i + 1;
    }
    if !listed {
        return None;
    }
    let relative = match strip_vault_prefix(path, vault_root) {
        Some(rel) => rel,
        None => return None,
    };
    let kind = if exists {
        if known.contains(path) {
            proof { assert(old(known).set().insert(path@) =~= old(known).set()); }
            VaultEventKind::Modified
        } else {
            known.insert(path);
            VaultEventKind::Created
        }
    } else {
        known.remove(path);
        VaultEventKind::Deleted
    };
    Some(VaultEvent { kind, path: relative })
}

} // verus!
