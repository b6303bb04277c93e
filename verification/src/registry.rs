//! A registry of open collaborative documents with their metadata.

use vstd::prelude::*;

use crate::assoc::{distinct_keys, lemma_distinct_push, lemma_to_map_dom, lemma_to_map_index, lemma_to_map_push, lemma_to_map_remove, lemma_to_map_update, to_map};
use crate::document::CollabDocument;
use crate::text::str_eq;

verus! {

/// Errors of registry operations.
#[derive(Debug, Clone, PartialEq, Eq)]
pub enum RegistryError {
    /// A document with this id already exists.
    AlreadyExists(String),
    /// Failed to restore document state.
    InvalidState(String),
    /// No document with this id.
    NotFound(String),
}

impl RegistryError {
    /// Human-readable description of the error.
    pub fn message(&self) -> (s: String)
        ensures
            match self {
                RegistryError::AlreadyExists(id) => s@ == "Document already exists: "@ + id@,
                RegistryError::InvalidState(m) => s@ == "Failed to restore document state: "@ + m@,
                RegistryError::NotFound(id) => s@ == "Document not found: "@ + id@,
            },
    {
        match self {
            RegistryError::AlreadyExists(id) => crate::error::prefixed("Document already exists: ", id.as_str()),
            RegistryError::InvalidState(m) => crate::error::prefixed("Failed to restore document state: ", m.as_str()),
            RegistryError::NotFound(id) => crate::error::prefixed("Document not found: ", id.as_str()),
        }
    }
}

/// The system clock as nanoseconds since the Unix epoch, or `None` before
/// the epoch or past `u64` nanoseconds.
fn unix_clock_nanos() -> Option<u64> {
    let now = crate::clock::system_now();
    match crate::clock::since_unix_epoch(&now) {
        Some(d) => {
            let n = crate::clock::duration_nanos(&d);
            if n <= 18446744073709551615u128 {
                Some(n as u64)
            } else {
                None
            }
        },
        None => None,
    }
}

/// The current time in nanoseconds since the Unix epoch (0 for a clock that
/// cannot be read that way).
pub fn now_nanos() -> u64 {
    match unix_clock_nanos() {
        Some(t) => t,
        None => 0,
    }
}

/// Custom key/value metadata, each key once.
#[derive(Debug, Clone)]
pub struct CustomMetadata {
    entries: Vec<(String, String)>,
}

/// The (key, value) pairs of a custom metadata list.
pub closed spec fn custom_pairs(v: Seq<(String, String)>) -> Seq<(Seq<char>, Seq<char>)> {
    v.map_values(|p: (String, String)| (p.0@, p.1@))
}

impl CustomMetadata {
    /// The metadata as a map.
    pub closed spec fn map(&self) -> Map<Seq<char>, Seq<char>> {
        to_map(custom_pairs(self.entries@))
    }

    /// Keys are not repeated.
    pub closed spec fn wf(&self) -> bool {
        distinct_keys(custom_pairs(self.entries@))
    }

    fn empty() -> (c: CustomMetadata)
        ensures
            c.wf(),
            c.map() == Map::<Seq<char>, Seq<char>>::empty(),
    {
        let c = CustomMetadata { entries: Vec::new() };
        assert(custom_pairs(c.entries@) =~= Seq::<(Seq<char>, Seq<char>)>::empty());
        c
    }

    fn find(&self, key: &str) -> (r: Option<usize>)
        requires
            self.wf(),
        ensures
            r matches Some(i) ==> i < self.entries@.len() && self.entries@[i as int].0@ == key@
                && self.map().dom().contains(key@) && self.map()[key@] == self.entries@[i as int].1@,
            r is None ==> !self.map().dom().contains(key@),
    {
        let ghost pairs = custom_pairs(self.entries@);
        proof { lemma_to_map_dom(pairs); }
        let mut i: usize = 0;
        while i < self.entries.len()
            invariant
                pairs == custom_pairs(self.entries@),
                distinct_keys(pairs),
                i <= self.entries@.len(),
                forall|j: int| 0 <= j < i ==> pairs[j].0 != key@,
            decreases self.entries@.len() - i,
        {
            if str_eq(self.entries[i].0.as_str(), key) {
                proof { lemma_to_map_index(pairs, i as int); }
                return Some(i);
            }
            i = i + 1;
        }
        None
    }

    /// The value of `key`, if set.
    pub fn get(&self, key: &str) -> (r: Option<&String>)
        requires
            self.wf(),
        ensures
            r matches Some(v) ==> self.map().dom().contains(key@) && v@ == self.map()[key@],
            r is None ==> !self.map().dom().contains(key@),
    {
        match self.find(key) {
            Some(i) => Some(&self.entries[i].1),
            None => None,
        }
    }

    /// The number of keys.
    pub fn len(&self) -> (n: usize)
        requires
            self.wf(),
        ensures
            n == self.map().len(),
    {
        proof { crate::assoc::lemma_to_map_len(custom_pairs(self.entries@)); }
        self.entries.len()
    }

    /// Set `key` to `value`.
    fn insert(&mut self, key: &str, value: &str)
        requires
            old(self).wf(),
        ensures
            final(self).wf(),
            final(self).map() == old(self).map().insert(key@, value@),
    {
        let ghost pairs = custom_pairs(self.entries@);
        match self.find(key) {
            Some(i) => {
                self.entries.set(i, (key.to_owned(), value.to_owned()));
                proof {
                    lemma_to_map_update(pairs, i as int, value@);
                    assert(custom_pairs(self.entries@) =~= pairs.update(i as int, (pairs[i as int].0, value@)));
                }
            },
            None => {
                proof {
                    lemma_to_map_dom(pairs);
                    assert forall|j: int| 0 <= j < pairs.len() implies pairs[j].0 != key@ by {
                        if pairs[j].0 == key@ {
                            assert(self.map().dom().contains(key@));
                        }
                    }
                    lemma_distinct_push(pairs, key@, value@);
                    lemma_to_map_push(pairs, key@, value@);
                }
                self.entries.push((key.to_owned(), value.to_owned()));
                proof { assert(custom_pairs(self.entries@) =~= pairs.push((key@, value@))); }
            },
        }
    }
}

/// Metadata associated with a document: creation and last-modification
/// times (nanoseconds since the Unix epoch) and custom key/value pairs.
#[derive(Debug, Clone)]
pub struct DocumentMetadata {
    created_at: u64,
    last_modified: u64,
    custom: CustomMetadata,
}

impl DocumentMetadata {
    /// When the document was created.
    pub closed spec fn spec_created_at(&self) -> u64 {
        self.created_at
    }

    /// When the document was last modified.
    pub closed spec fn spec_last_modified(&self) -> u64 {
        self.last_modified
    }

    /// The custom metadata.
    pub closed spec fn spec_custom(&self) -> Map<Seq<char>, Seq<char>> {
        self.custom.map()
    }

    /// The custom metadata is well formed.
    pub closed spec fn wf(&self) -> bool {
        self.custom.wf()
    }

    /// Metadata created at the time `now`, modified then, with no custom
    /// entries.
    pub fn at(now: u64) -> (m: DocumentMetadata)
        ensures
            m.wf(),
            m.spec_created_at() == now,
            m.spec_last_modified() == now,
            m.spec_custom() == Map::<Seq<char>, Seq<char>>::empty(),
    {
        DocumentMetadata { created_at: now, last_modified: now, custom: CustomMetadata::empty() }
    }

    /// Metadata created now: creation and modification time are the same
    /// clock reading.
    pub fn new() -> (m: DocumentMetadata)
        ensures
            m.wf(),
            m.spec_created_at() == m.spec_last_modified(),
            m.spec_custom() == Map::<Seq<char>, Seq<char>>::empty(),
    {
        Self::at(now_nanos())
    }

    /// When the document was created.
    pub fn created_at(&self) -> (t: u64)
        ensures
            t == self.spec_created_at(),
    {
        self.created_at
    }

    /// When the document was last modified.
    pub fn last_modified(&self) -> (t: u64)
        ensures
            t == self.spec_last_modified(),
    {
        self.last_modified
    }

    /// Custom key/value metadata.
    pub fn custom(&self) -> (c: &CustomMetadata)
        ensures
            c.map() == self.spec_custom(),
            self.wf() ==> c.wf(),
    {
        &self.custom
    }

    /// Record a modification at the time `now`; nothing else changes.
    pub fn touch_at(&mut self, now: u64)
        ensures
            final(self).spec_last_modified() == now,
            final(self).spec_created_at() == old(self).spec_created_at(),
            final(self).spec_custom() == old(self).spec_custom(),
            final(self).wf() == old(self).wf(),
    {
        self.last_modified = now;
    }

    /// Record a modification now.
    pub fn touch(&mut self)
        ensures
            final(self).spec_created_at() == old(self).spec_created_at(),
            final(self).spec_custom() == old(self).spec_custom(),
            final(self).wf() == old(self).wf(),
    {
        self.touch_at(now_nanos());
    }
}

/// A document in the registry with its metadata.
pub struct DocumentEntry {
    id: String,
    document: CollabDocument,
    metadata: DocumentMetadata,
}

impl DocumentEntry {
    /// The entry's document.
    pub closed spec fn spec_document(&self) -> CollabDocument {
        self.document
    }

    /// The entry's metadata.
    pub closed spec fn spec_metadata(&self) -> DocumentMetadata {
        self.metadata
    }

    /// The collaborative document.
    pub fn document(&self) -> (d: &CollabDocument)
        ensures
            *d == self.spec_document(),
    {
        &self.document
    }

    /// The document's metadata.
    pub fn metadata(&self) -> (m: &DocumentMetadata)
        ensures
            *m == self.spec_metadata(),
    {
        &self.metadata
    }
}

/// The (id, document) pairs of the registry.
pub closed spec fn doc_pairs(v: Seq<DocumentEntry>) -> Seq<(Seq<char>, CollabDocument)> {
    v.map_values(|e: DocumentEntry| (e.id@, e.document))
}

/// The (id, metadata) pairs of the registry.
pub closed spec fn meta_pairs(v: Seq<DocumentEntry>) -> Seq<(Seq<char>, DocumentMetadata)> {
    v.map_values(|e: DocumentEntry| (e.id@, e.metadata))
}

/// A registry of open collaborative documents.
pub struct DocumentRegistry {
    documents: Vec<DocumentEntry>,
}

impl DocumentRegistry {
    /// The open documents by id.
    pub closed spec fn docs(&self) -> Map<Seq<char>, CollabDocument> {
        to_map(doc_pairs(self.documents@))
    }

    /// The metadata of the open documents by id.
    pub closed spec fn metas(&self) -> Map<Seq<char>, DocumentMetadata> {
        to_map(meta_pairs(self.documents@))
    }

    /// Ids are not repeated, and all metadata is well formed.
    pub closed spec fn wf(&self) -> bool {
        &&& distinct_keys(doc_pairs(self.documents@))
        &&& forall|i: int| 0 <= i < self.documents@.len() ==> (#[trigger] self.documents@[i]).metadata.wf()
    }

    proof fn lemma_pairs(&self)
        requires
            self.wf(),
        ensures
            distinct_keys(meta_pairs(self.documents@)),
            self.docs().dom() == self.metas().dom(),
    {
        let dp = doc_pairs(self.documents@);
        let mp = meta_pairs(self.documents@);
        assert forall|a: int, b: int| 0 <= a < b < mp.len() implies mp[a].0 != mp[b].0 by {
            assert(mp[a].0 == dp[a].0 && mp[b].0 == dp[b].0);
        }
        lemma_to_map_dom(dp);
        lemma_to_map_dom(mp);
        assert forall|k: Seq<char>| self.docs().dom().contains(k) <==> self.metas().dom().contains(k) by {
            if self.docs().dom().contains(k) {
                let i = choose|i: int| 0 <= i < dp.len() && dp[i].0 == k;
                assert(mp[i].0 == k);
            }
            if self.metas().dom().contains(k) {
                let i = choose|i: int| 0 <= i < mp.len() && mp[i].0 == k;
                assert(dp[i].0 == k);
            }
        }
        assert(self.docs().dom() =~= self.metas().dom());
    }

    /// An empty registry.
    pub fn new() -> (r: DocumentRegistry)
        ensures
            r.wf(),
            r.docs().dom().len() == 0,
            r.docs() == Map::<Seq<char>, CollabDocument>::empty(),
            r.metas() == Map::<Seq<char>, DocumentMetadata>::empty(),
    {
        let r = DocumentRegistry { documents: Vec::new() };
        assert(doc_pairs(r.documents@) =~= Seq::<(Seq<char>, CollabDocument)>::empty());
        assert(meta_pairs(r.documents@) =~= Seq::<(Seq<char>, DocumentMetadata)>::empty());
        r
    }

    fn find(&self, id: &str) -> (r: Option<usize>)
        requires
            self.wf(),
        ensures
            r matches Some(i) ==> i < self.documents@.len() && self.documents@[i as int].id@ == id@
                && self.docs().dom().contains(id@) && self.docs()[id@] == self.documents@[i as int].document
                && self.metas().dom().contains(id@) && self.metas()[id@] == self.documents@[i as int].metadata,
            r is None ==> !self.docs().dom().contains(id@) && !self.metas().dom().contains(id@),
    {
        let ghost pairs = doc_pairs(self.documents@);
        proof { lemma_to_map_dom(pairs); self.lemma_pairs(); }
        let mut i: usize = 0;
        while i < self.documents.len()
            invariant
                self.wf(),
                pairs == doc_pairs(self.documents@),
                distinct_keys(pairs),
                i <= self.documents@.len(),
                forall|j: int| 0 <= j < i ==> pairs[j].0 != id@,
            decreases self.documents@.len() - i,
        {
            if str_eq(self.documents[i].id.as_str(), id) {
                proof {
                    lemma_to_map_index(pairs, i as int);
                    self.lemma_pairs();
                    lemma_to_map_index(meta_pairs(self.documents@), i as int);
                }
                return Some(i);
            }
            i = i + 1;
        }
        None
    }

    /// Add `document` under `id`, which is not open yet.
    fn add(&mut self, id: &str, document: CollabDocument)
        requires
            old(self).wf(),
            !old(self).docs().dom().contains(id@),
            document.spec_id() == id@,
        ensures
            final(self).wf(),
            final(self).docs() == old(self).docs().insert(id@, document),
            final(self).metas().dom() == old(self).metas().dom().insert(id@),
            final(self).metas()[id@].spec_created_at() == final(self).metas()[id@].spec_last_modified(),
            final(self).metas()[id@].spec_custom() == Map::<Seq<char>, Seq<char>>::empty(),
            forall|k: Seq<char>| k != id@ && #[trigger] old(self).metas().dom().contains(k) ==> final(self).metas()[k] == old(self).metas()[k],
    {
        let ghost dp = doc_pairs(self.documents@);
        let ghost mp = meta_pairs(self.documents@);
        let metadata = DocumentMetadata::new();
        proof {
            self.lemma_pairs();
            lemma_to_map_dom(dp);
            assert forall|j: int| 0 <= j < dp.len() implies dp[j].0 != id@ by {
                if dp[j].0 == id@ { assert(self.docs().dom().contains(id@)); }
            }
            lemma_distinct_push(dp, id@, document);
            lemma_to_map_push(dp, id@, document);
            lemma_to_map_push(mp, id@, metadata);
        }
        self.documents.push(DocumentEntry { id: id.to_owned(), document, metadata });
        proof {
            assert(doc_pairs(self.documents@) =~= dp.push((id@, document)));
            assert(meta_pairs(self.documents@) =~= mp.push((id@, metadata)));
        }
    }

    /// Create an empty document `id`, or fail when it is already open; the
    /// new document is handed back for editing.
    pub fn create(&mut self, id: &str) -> (r: Result<&mut CollabDocument, RegistryError>)
        requires
            old(self).wf(),
        ensures
            old(self).docs().dom().contains(id@) ==> {
                &&& r matches Err(RegistryError::AlreadyExists(i)) && i@ == id@
                &&& *final(self) == *old(self)
            },
            !old(self).docs().dom().contains(id@) ==> r is Ok,
            r matches Ok(d) ==> {
                &&& d.spec_id() == id@
                &&& d.text() == Seq::<u8>::empty()
                &&& final(self).wf()
                &&& final(self).docs() == old(self).docs().insert(id@, *final(d))
                &&& final(self).metas().dom() == old(self).metas().dom().insert(id@)
                &&& final(self).metas()[id@].spec_custom() == Map::<Seq<char>, Seq<char>>::empty()
                &&& final(self).metas()[id@].spec_created_at() == final(self).metas()[id@].spec_last_modified()
                &&& forall|k: Seq<char>| k != id@ && #[trigger] old(self).metas().dom().contains(k) ==> final(self).metas()[k] == old(self).metas()[k]
            },
    {
        if self.find(id).is_some() {
            return Err(RegistryError::AlreadyExists(id.to_owned()));
        }
        let doc = CollabDocument::new(id.to_owned());
        self.add(id, doc);
        match self.get_mut(id) {
            Some(d) => Ok(d),
            None => {
                proof { assert(false); }
                Err(RegistryError::AlreadyExists(id.to_owned()))
            },
        }
    }

    /// Open document `id` with saved `state`, or fail when it is already
    /// open or the state cannot be applied; the document is handed back for
    /// editing. Applying the state is `yrs`'s merge: a state that decodes but
    /// is malformed may make `yrs` panic while integrating it, which this
    /// library does not rule out.
    pub fn open(&mut self, id: &str, state: &[u8]) -> (r: Result<&mut CollabDocument, RegistryError>)
        requires
            old(self).wf(),
        ensures
            old(self).docs().dom().contains(id@) ==> {
                &&& r matches Err(RegistryError::AlreadyExists(i)) && i@ == id@
                &&& *final(self) == *old(self)
            },
            r matches Ok(d) ==> {
                &&& !old(self).docs().dom().contains(id@)
                &&& d.spec_id() == id@
                &&& final(self).wf()
                &&& final(self).docs() == old(self).docs().insert(id@, *final(d))
                &&& final(self).metas().dom() == old(self).metas().dom().insert(id@)
                &&& forall|k: Seq<char>| k != id@ && #[trigger] old(self).metas().dom().contains(k) ==> final(self).metas()[k] == old(self).metas()[k]
            },
            r matches Err(RegistryError::InvalidState(_)) ==> *final(self) == *old(self),
            r matches Err(e) ==> e is AlreadyExists || e is InvalidState,
    {
        if self.find(id).is_some() {
            return Err(RegistryError::AlreadyExists(id.to_owned()));
        }
        let mut doc = CollabDocument::new(id.to_owned());
        match doc.apply_update(state) {
            Ok(()) => {},
            Err(e) => {
                let m = match e {
                    crate::error::Error::Yrs(m) => m,
                    _ => "".to_owned(),
                };
                return Err(RegistryError::InvalidState(crate::error::prefixed("Yrs error: ", m.as_str())));
            },
        }
        self.add(id, doc);
        match self.get_mut(id) {
            Some(d) => Ok(d),
            None => {
                proof { assert(false); }
                Err(RegistryError::AlreadyExists(id.to_owned()))
            },
        }
    }

    /// The document `id`, if open.
    pub fn get(&self, id: &str) -> (r: Option<&CollabDocument>)
        requires
            self.wf(),
        ensures
            r matches Some(d) ==> self.docs().dom().contains(id@) && *d == self.docs()[id@],
            r is None ==> !self.docs().dom().contains(id@),
    {
        match self.find(id) {
            Some(i) => Some(&self.documents[i].document),
            None => None,
        }
    }

    /// The document `id`, if open, for editing in place. Editing it changes
    /// only that document.
    pub fn get_mut(&mut self, id: &str) -> (r: Option<&mut CollabDocument>)
        requires
            old(self).wf(),
        ensures
            r is None ==> !old(self).docs().dom().contains(id@) && *final(self) == *old(self),
            r matches Some(d) ==> {
                &&& old(self).docs().dom().contains(id@)
                &&& *d == old(self).docs()[id@]
                &&& final(self).docs() == old(self).docs().insert(id@, *final(d))
                &&& final(self).metas() == old(self).metas()
                &&& final(self).wf()
            },
    {
        match self.find(id) {
            Some(i) => {
                let ghost dp = doc_pairs(self.documents@);
                let ghost mp = meta_pairs(self.documents@);
                let ghost es = self.documents@;
                proof {
                    self.lemma_pairs();
                    assert forall|nd: CollabDocument| #[trigger] to_map(dp.update(i as int, (dp[i as int].0, nd))) == to_map(dp).insert(dp[i as int].0, nd) by {
                        lemma_to_map_update(dp, i as int, nd);
                    }
                    assert forall|nd: CollabDocument| #[trigger] doc_pairs(es.update(i as int, DocumentEntry { id: es[i as int].id, document: nd, metadata: es[i as int].metadata }))
                        == dp.update(i as int, (dp[i as int].0, nd)) by {
                        assert(doc_pairs(es.update(i as int, DocumentEntry { id: es[i as int].id, document: nd, metadata: es[i as int].metadata })) =~= dp.update(i as int, (dp[i as int].0, nd)));
                    }
                    assert forall|nd: CollabDocument| #[trigger] meta_pairs(es.update(i as int, DocumentEntry { id: es[i as int].id, document: nd, metadata: es[i as int].metadata }))
                        == mp by {
                        assert(meta_pairs(es.update(i as int, DocumentEntry { id: es[i as int].id, document: nd, metadata: es[i as int].metadata })) =~= mp);
                    }
                }
                let d = &mut self.documents[i].document;
                Some(d)
            },
            None => None,
        }
    }

    /// The ids of all open documents, each once.
    pub fn list(&self) -> (v: Vec<String>)
        requires
            self.wf(),
        ensures
            forall|i: int, j: int| 0 <= i < j < v@.len() ==> v@[i]@ != v@[j]@,
            forall|k: Seq<char>| self.docs().dom().contains(k) <==> exists|i: int| 0 <= i < v@.len() && #[trigger] v@[i]@ == k,
    {
        let ghost pairs = doc_pairs(self.documents@);
        proof { lemma_to_map_dom(pairs); }
        let mut v: Vec<String> = Vec::new();
        let mut i: usize = 0;
        while i < self.documents.len()
            invariant
                pairs == doc_pairs(self.documents@),
                distinct_keys(pairs),
                i <= self.documents@.len(),
                v@.len() == i,
                forall|j: int| 0 <= j < i ==> #[trigger] v@[j]@ == pairs[j].0,
            decreases self.documents@.len() - i,
        {
            v.push(self.documents[i].id.clone());
            i = i + 1;
        }
        proof {
            assert forall|k: Seq<char>| self.docs().dom().contains(k) <==> exists|i: int| 0 <= i < v@.len() && #[trigger] v@[i]@ == k by {
                if self.docs().dom().contains(k) {
                    let j = choose|j: int| 0 <= j < pairs.len() && pairs[j].0 == k;
                    assert(v@[j]@ == k);
                }
            }
        }
        v
    }

    /// Close and remove document `id`, returning it.
    pub fn close(&mut self, id: &str) -> (r: Option<CollabDocument>)
        requires
            old(self).wf(),
        ensures
            final(self).wf(),
            final(self).docs() == old(self).docs().remove(id@),
            r matches Some(d) ==> old(self).docs().dom().contains(id@) && d == old(self).docs()[id@],
            r is None ==> !old(self).docs().dom().contains(id@),
    {
        match self.find(id) {
            Some(i) => {
                let ghost dp = doc_pairs(self.documents@);
                proof { lemma_to_map_remove(dp, i as int); }
                let e = self.documents.remove(i);
                proof {
                    assert(doc_pairs(self.documents@) =~= dp.remove(i as int));
                    assert forall|j: int| 0 <= j < self.documents@.len() implies #[trigger] self.documents@[j] == (if j < i { old(self).documents@[j] } else { old(self).documents@[j + 1] }) by {}
                }
                Some(e.document)
            },
            None => {
                proof { assert(old(self).docs().remove(id@) =~= old(self).docs()); }
                None
            },
        }
    }

    /// The metadata of document `id`, if open.
    pub fn get_metadata(&self, id: &str) -> (r: Option<&DocumentMetadata>)
        requires
            self.wf(),
        ensures
            r matches Some(m) ==> self.metas().dom().contains(id@) && *m == self.metas()[id@] && m.wf(),
            r is None ==> !self.metas().dom().contains(id@),
    {
        match self.find(id) {
            Some(i) => Some(&self.documents[i].metadata),
            None => None,
        }
    }

    /// Set custom metadata `key` to `value` on document `id`.
    pub fn set_custom_metadata(&mut self, id: &str, key: &str, value: &str) -> (r: Result<(), RegistryError>)
        requires
            old(self).wf(),
        ensures
            final(self).wf(),
            final(self).docs() == old(self).docs(),
            !old(self).docs().dom().contains(id@) ==> (r matches Err(RegistryError::NotFound(i)) && i@ == id@),
            !old(self).docs().dom().contains(id@) ==> *final(self) == *old(self),
            old(self).docs().dom().contains(id@) ==> {
                &&& r is Ok
                &&& final(self).metas()[id@].spec_custom() == old(self).metas()[id@].spec_custom().insert(key@, value@)
                &&& final(self).metas()[id@].spec_created_at() == old(self).metas()[id@].spec_created_at()
                &&& final(self).metas()[id@].spec_last_modified() == old(self).metas()[id@].spec_last_modified()
            },
    {
        let i = match self.find(id) {
            Some(i) => i,
            None => return Err(RegistryError::NotFound(id.to_owned())),
        };
        let ghost dp = doc_pairs(self.documents@);
        let ghost mp = meta_pairs(self.documents@);
        proof { self.lemma_pairs(); }
        self.documents[i].metadata.custom.insert(key, value);
        proof {
            assert(doc_pairs(self.documents@) =~= dp);
            let nm = self.documents@[i as int].metadata;
            lemma_to_map_update(mp, i as int, nm);
            assert(meta_pairs(self.documents@) =~= mp.update(i as int, (mp[i as int].0, nm)));
            assert forall|j: int| 0 <= j < self.documents@.len() && j != i implies #[trigger] self.documents@[j] == old(self).documents@[j] by {}
        }
        Ok(())
    }

    /// Update the modification time of document `id` to now.
    pub fn touch(&mut self, id: &str) -> (r: Result<(), RegistryError>)
        requires
            old(self).wf(),
        ensures
            final(self).wf(),
            final(self).docs() == old(self).docs(),
            !old(self).docs().dom().contains(id@) ==> (r matches Err(RegistryError::NotFound(i)) && i@ == id@),
            !old(self).docs().dom().contains(id@) ==> *final(self) == *old(self),
            old(self).docs().dom().contains(id@) ==> {
                &&& r is Ok
                &&& final(self).metas()[id@].spec_custom() == old(self).metas()[id@].spec_custom()
                &&& final(self).metas()[id@].spec_created_at() == old(self).metas()[id@].spec_created_at()
            },
    {
        let i = match self.find(id) {
            Some(i) => i,
            None => return Err(RegistryError::NotFound(id.to_owned())),
        };
        let ghost dp = doc_pairs(self.documents@);
        let ghost mp = meta_pairs(self.documents@);
        proof { self.lemma_pairs(); }
        self.documents[i].metadata.touch();
        proof {
            assert(doc_pairs(self.documents@) =~= dp);
            let nm = self.documents@[i as int].metadata;
            lemma_to_map_update(mp, i as int, nm);
            assert(meta_pairs(self.documents@) =~= mp.update(i as int, (mp[i as int].0, nm)));
            assert forall|j: int| 0 <= j < self.documents@.len() && j != i implies #[trigger] self.documents@[j] == old(self).documents@[j] by {}
        }
        Ok(())
    }
}

impl Default for DocumentRegistry {
    /// An empty registry.
    fn default() -> (r: DocumentRegistry)
        ensures
            r.wf(),
            r.docs().dom().len() == 0,
    {
        DocumentRegistry::new()
    }
}

} // verus!
