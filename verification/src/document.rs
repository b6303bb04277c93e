//! A collaborative text document backed by a CRDT.

use vstd::prelude::*;

use crate::crdt::{yrs_full_state, yrs_text};
use crate::error::Error;

verus! {

/// A collaborative text document: the text root `content` of a `yrs`
/// document.
pub struct CollabDocument {
    id: String,
    doc: yrs::Doc,
    state_vector: Vec<u8>,
}

impl CollabDocument {
    /// The document's identifier.
    pub closed spec fn spec_id(&self) -> Seq<char> {
        self.id@
    }

    /// The UTF-8 bytes of the document's text.
    pub closed spec fn text(&self) -> Seq<u8> {
        yrs_text(self.doc, "content"@)
    }

    /// The text once `update` is merged into this document.
    pub closed spec fn merged_text(&self, update: Seq<u8>) -> Seq<u8> {
        yrs_text(crate::crdt::yrs_apply_update(self.doc, update), "content"@)
    }

    /// Whether merging `update` into this document succeeds.
    pub closed spec fn applies(&self, update: Seq<u8>) -> bool {
        crate::crdt::yrs_update_applies(self.doc, update)
    }

    /// The document's full state as one update.
    pub closed spec fn full_state(&self) -> Seq<u8> {
        yrs_full_state(self.doc)
    }

    /// A new, empty document.
    pub fn new(id: String) -> (d: CollabDocument)
        ensures
            d.spec_id() == id@,
            d.text() == Seq::<u8>::empty(),
    {
        let doc = crate::crdt::new_doc("content", "meta");
        let state_vector = crate::crdt::state_vector(&doc);
        CollabDocument { id, doc, state_vector }
    }

    /// The document's identifier.
    pub fn id(&self) -> (r: &str)
        ensures
            r@ == self.spec_id(),
    {
        self.id.as_str()
    }

    /// Insert `text` at byte offset `index`.
    pub fn insert(&mut self, index: u32, text: &str)
        requires
            index <= old(self).text().len(),
            vstd::utf8::is_char_boundary(old(self).text(), index as int),
        ensures
            final(self).spec_id() == old(self).spec_id(),
            final(self).text() == old(self).text().subrange(0, index as int) + vstd::utf8::encode_utf8(text@)
                + old(self).text().subrange(index as int, old(self).text().len() as int),
    {
        crate::crdt::text_insert(&mut self.doc, "content", index, text);
        self.state_vector = crate::crdt::state_vector(&self.doc);
    }

    /// Delete `len` bytes of text at byte offset `index`.
    pub fn delete(&mut self, index: u32, len: u32)
        requires
            index + len <= old(self).text().len(),
            vstd::utf8::is_char_boundary(old(self).text(), index as int),
            vstd::utf8::is_char_boundary(old(self).text(), index + len),
        ensures
            final(self).spec_id() == old(self).spec_id(),
            final(self).text() == old(self).text().subrange(0, index as int)
                + old(self).text().subrange(index + len, old(self).text().len() as int),
    {
        crate::crdt::text_remove(&mut self.doc, "content", index, len);
        self.state_vector = crate::crdt::state_vector(&self.doc);
    }

    /// Insert `text` at byte offset `index`, or refuse, changing nothing,
    /// when `index` is past the end or inside a character.
    pub fn try_insert(&mut self, index: u32, text: &str) -> (r: Result<(), Error>)
        ensures
            final(self).spec_id() == old(self).spec_id(),
            r is Err <==> !(index <= old(self).text().len() && vstd::utf8::is_char_boundary(old(self).text(), index as int)),
            r is Ok ==> final(self).text() == old(self).text().subrange(0, index as int) + vstd::utf8::encode_utf8(text@)
                + old(self).text().subrange(index as int, old(self).text().len() as int),
            r matches Err(e) ==> e is InvalidState && *final(self) == *old(self),
    {
        let content = self.get_content();
        let s = content.as_str();
        let fits = (index as usize) <= s.as_bytes().len();
        let boundary = fits && s.is_char_boundary(index as usize);
        if boundary {
            self.insert(index, text);
            Ok(())
        } else {
            Err(Error::InvalidState("insertion point is not a character boundary of the text".to_owned()))
        }
    }

    /// Delete `len` bytes at byte offset `index`, or refuse, changing
    /// nothing, when the range runs past the end or either end is inside a
    /// character.
    pub fn try_delete(&mut self, index: u32, len: u32) -> (r: Result<(), Error>)
        ensures
            final(self).spec_id() == old(self).spec_id(),
            r is Err <==> !(index + len <= old(self).text().len() && vstd::utf8::is_char_boundary(old(self).text(), index as int)
                && vstd::utf8::is_char_boundary(old(self).text(), index + len)),
            r is Ok ==> final(self).text() == old(self).text().subrange(0, index as int)
                + old(self).text().subrange(index + len, old(self).text().len() as int),
            r matches Err(e) ==> e is InvalidState && *final(self) == *old(self),
    {
        let content = self.get_content();
        let s = content.as_str();
        let end = (index as u64) + (len as u64);
        let n = s.as_bytes().len();
        let fits = end <= n as u64;
        let ok = fits && s.is_char_boundary(index as usize) && s.is_char_boundary(end as usize);
        if ok {
            self.delete(index, len);
            Ok(())
        } else {
            Err(Error::InvalidState("deletion range is not within the text on character boundaries".to_owned()))
        }
    }

    /// The current text.
    pub fn get_content(&self) -> (s: String)
        ensures
            vstd::utf8::encode_utf8(s@) == self.text(),
    {
        crate::crdt::text_string(&self.doc, "content")
    }

    /// The full document state as one update.
    pub fn encode_state(&self) -> (u: Vec<u8>)
        ensures
            u@ == self.full_state(),
    {
        crate::crdt::encode_full_state(&self.doc)
    }

    /// The update to send to collaborators: the full state, which heals any
    /// update a peer missed.
    pub fn encode_update(&self) -> (u: Vec<u8>)
        ensures
            u@ == self.full_state(),
    {
        self.encode_state()
    }

    /// Merge an update from another copy of the document.
    /// The merge itself is `yrs`'s: an update that decodes but is malformed may
    /// make `yrs` panic while integrating it, which this library does not rule
    /// out.
    pub fn apply_update(&mut self, update: &[u8]) -> (r: Result<(), Error>)
        ensures
            final(self).spec_id() == old(self).spec_id(),
            r matches Err(e) ==> e is Yrs,
            !crate::crdt::yrs_update_decodes(update@) ==> r is Err && *final(self) == *old(self),
            (r is Ok) == old(self).applies(update@),
            r is Ok ==> final(self).text() == old(self).merged_text(update@),
    {
        match crate::crdt::apply_update(&mut self.doc, update) {
            Ok(()) => {
                self.state_vector = crate::crdt::state_vector(&self.doc);
                Ok(())
            },
            Err(m) => Err(Error::Yrs(m)),
        }
    }
}

} // verus!
