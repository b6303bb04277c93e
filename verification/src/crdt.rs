//! The CRDT documents this library is built on: `yrs` documents holding
//! named text and map roots.
//!
//! Each item here calls into `yrs`. A document's contents are named by
//! [`yrs_text`] (the UTF-8 bytes of a text root) and [`yrs_flags`] (the
//! boolean entries of a map root); the contracts say what each operation does
//! to them. Merging a remote update is the CRDT's own algorithm: nothing is
//! claimed of the contents afterwards.

use vstd::prelude::*;

use yrs::updates::decoder::Decode;
use yrs::updates::encoder::Encode;
use yrs::{GetString, ReadTxn, Text, Transact};

verus! {

/// A `yrs` document.
#[verifier::external_type_specification]
#[verifier::external_body]
pub struct ExDoc(yrs::Doc);

/// The UTF-8 bytes of the text root `field` of `d` (empty until written).
pub uninterp spec fn yrs_text(d: yrs::Doc, field: Seq<char>) -> Seq<u8>;

/// The entries of the map root `field` of `d`: a key's value is `Some(b)`
/// when it holds the boolean `b`, `None` when it holds another value.
pub uninterp spec fn yrs_flags(d: yrs::Doc, field: Seq<char>) -> Map<Seq<char>, Option<bool>>;

/// The full state of `d` encoded as a v1 update against an empty state
/// vector.
pub uninterp spec fn yrs_full_state(d: yrs::Doc) -> Seq<u8>;

/// A new document (`yrs::Doc::new`) with the text root `text_field` and the
/// map root `map_field` created: both are empty.
#[verifier::external_body]
pub fn new_doc(text_field: &str, map_field: &str) -> (doc: yrs::Doc)
    ensures
        yrs_text(doc, text_field@) == Seq::<u8>::empty(),
        yrs_flags(doc, map_field@).dom() == Set::<Seq<char>>::empty(),
{
    let doc = yrs::Doc::new();
    let _ = doc.get_or_insert_text(text_field);
    let _ = doc.get_or_insert_map(map_field);
    doc
}

/// `Text::insert` of `chunk` at byte offset `index` of the text root
/// `field` (documents count offsets in UTF-8 bytes by default); `yrs`
/// panics on an offset past the end.
#[verifier::external_body]
pub fn text_insert(d: &mut yrs::Doc, field: &str, index: u32, chunk: &str)
    requires
        index <= yrs_text(*old(d), field@).len(),
        vstd::utf8::is_char_boundary(yrs_text(*old(d), field@), index as int),
    ensures
        yrs_text(*final(d), field@) == yrs_text(*old(d), field@).subrange(0, index as int) + vstd::utf8::encode_utf8(chunk@)
            + yrs_text(*old(d), field@).subrange(index as int, yrs_text(*old(d), field@).len() as int),
{
    let text = d.get_or_insert_text(field);
    let mut txn = d.transact_mut();
    text.insert(&mut txn, index, chunk);
}

/// `Text::remove_range` of `len` bytes at byte offset `index` of the text
/// root `field`; `yrs` panics when fewer remain.
#[verifier::external_body]
pub fn text_remove(d: &mut yrs::Doc, field: &str, index: u32, len: u32)
    requires
        index + len <= yrs_text(*old(d), field@).len(),
        vstd::utf8::is_char_boundary(yrs_text(*old(d), field@), index as int),
        vstd::utf8::is_char_boundary(yrs_text(*old(d), field@), index + len),
    ensures
        yrs_text(*final(d), field@) == yrs_text(*old(d), field@).subrange(0, index as int)
            + yrs_text(*old(d), field@).subrange(index + len, yrs_text(*old(d), field@).len() as int),
{
    let text = d.get_or_insert_text(field);
    let mut txn = d.transact_mut();
    text.remove_range(&mut txn, index, len);
}

/// `GetString::get_string` of the text root `field`.
#[verifier::external_body]
pub fn text_string(d: &yrs::Doc, field: &str) -> (s: String)
    ensures
        vstd::utf8::encode_utf8(s@) == yrs_text(*d, field@),
{
    let text = d.get_or_insert_text(field);
    let txn = d.transact();
    text.get_string(&txn)
}

/// `Map::insert` of the boolean `value` under `key` in the map root `field`.
#[verifier::external_body]
pub fn map_set_flag(d: &mut yrs::Doc, field: &str, key: &str, value: bool)
    ensures
        yrs_flags(*final(d), field@) == yrs_flags(*old(d), field@).insert(key@, Some(value)),
{
    let map = d.get_or_insert_map(field);
    let mut txn = d.transact_mut();
    yrs::Map::insert(&map, &mut txn, key, value);
}

/// Two `Map::insert`s of booleans in one transaction in the map root
/// `field`: `first_key` set to `first`, then `second_key` to `second`.
#[verifier::external_body]
pub fn map_set_two_flags(d: &mut yrs::Doc, field: &str, first_key: &str, first: bool, second_key: &str, second: bool)
    ensures
        yrs_flags(*final(d), field@) == yrs_flags(*old(d), field@).insert(first_key@, Some(first)).insert(second_key@, Some(second)),
{
    let map = d.get_or_insert_map(field);
    let mut txn = d.transact_mut();
    yrs::Map::insert(&map, &mut txn, first_key, first);
    yrs::Map::insert(&map, &mut txn, second_key, second);
}

/// `Map::get` of `key` in the map root `field`, as its boolean value:
/// `None` when the key is absent or holds another value.
#[verifier::external_body]
pub fn map_get_flag(d: &yrs::Doc, field: &str, key: &str) -> (r: Option<bool>)
    ensures
        r == match yrs_flags(*d, field@).get(key@) {
            Some(v) => v,
            None => None,
        },
{
    let map = d.get_or_insert_map(field);
    let txn = d.transact();
    match yrs::Map::get(&map, &txn, key) {
        Some(yrs::Out::Any(yrs::Any::Bool(b))) => Some(b),
        _ => None,
    }
}

/// The entries of the map root `field` (`Map::iter`), each key once, in the
/// map's own order, with its boolean value if it holds one.
#[verifier::external_body]
pub fn map_entries(d: &yrs::Doc, field: &str) -> (r: Vec<(String, Option<bool>)>)
    ensures
        forall|i: int, j: int| 0 <= i < j < r@.len() ==> r@[i].0@ != r@[j].0@,
        forall|i: int| 0 <= i < r@.len() ==> #[trigger] yrs_flags(*d, field@).get(r@[i].0@) == Some(r@[i].1),
        forall|k: Seq<char>| #[trigger] yrs_flags(*d, field@).dom().contains(k) ==> exists|i: int| 0 <= i < r@.len() && r@[i].0@ == k,
{
    let map = d.get_or_insert_map(field);
    let txn = d.transact();
    yrs::Map::iter(&map, &txn)
        .map(|(k, v)| {
            let flag = match v {
                yrs::Out::Any(yrs::Any::Bool(b)) => Some(b),
                _ => None,
            };
            (k.to_string(), flag)
        })
        .collect()
}

/// `encode_state_as_update_v1` against the empty state vector: the whole
/// document as one update.
#[verifier::external_body]
pub fn encode_full_state(d: &yrs::Doc) -> (r: Vec<u8>)
    ensures
        r@ == yrs_full_state(*d),
{
    let txn = d.transact();
    txn.encode_state_as_update_v1(&yrs::StateVector::default())
}

/// `encode_state_as_update_v1` against the state vector decoded from
/// `state_vector` (`StateVector::decode_v1`), or the decoding error's text.
/// Nothing is claimed of the bytes: they depend on the document's history.
#[verifier::external_body]
pub fn encode_update_since(d: &yrs::Doc, state_vector: &[u8]) -> (r: Result<Vec<u8>, String>) {
    let txn = d.transact();
    match yrs::StateVector::decode_v1(state_vector) {
        Ok(sv) => Ok(txn.encode_state_as_update_v1(&sv)),
        Err(e) => Err(e.to_string()),
    }
}

/// The document's state vector, v1-encoded. Nothing is claimed of it.
#[verifier::external_body]
pub fn state_vector(d: &yrs::Doc) -> (r: Vec<u8>) {
    let txn = d.transact();
    txn.state_vector().encode_v1()
}

/// The document `d` once `update` is decoded and applied to it: the merge
/// that `TransactionMut::apply_update` performs, a function of the
/// document's state and the update's bytes.
pub uninterp spec fn yrs_apply_update(d: yrs::Doc, update: Seq<u8>) -> yrs::Doc;

/// Whether `Update::decode_v1` accepts `update` as a v1-encoded update.
pub uninterp spec fn yrs_update_decodes(update: Seq<u8>) -> bool;

/// Whether decoding `update` and applying it to the document `d`
/// succeeds: a function of the document's state and the update's bytes.
pub uninterp spec fn yrs_update_applies(d: yrs::Doc, update: Seq<u8>) -> bool;

/// Decode `update` (`Update::decode_v1`) and apply it
/// (`TransactionMut::apply_update`), or the error's text. Claims what the
/// body shows: bytes that do not decode fail before the document is
/// touched; whether it succeeds is the named outcome for the document and
/// the update; on success the document is the named merge of the update
/// into it. Nothing is claimed of what the merge holds; a
/// hostile update that decodes may also panic inside `yrs`'s integration,
/// which nothing here rules out.
#[verifier::external_body]
pub fn apply_update(d: &mut yrs::Doc, update: &[u8]) -> (r: Result<(), String>)
    ensures
        !yrs_update_decodes(update@) ==> r is Err && *final(d) == *old(d),
        (r is Ok) == yrs_update_applies(*old(d), update@),
        r is Ok ==> *final(d) == yrs_apply_update(*old(d), update@),
{
    let decoded = match yrs::Update::decode_v1(update) {
        Ok(u) => u,
        Err(e) => return Err(e.to_string()),
    };
    let mut txn = d.transact_mut();
    txn.apply_update(decoded).map_err(|e| e.to_string())
}

} // verus!
