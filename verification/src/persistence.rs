//! Encrypted-at-rest snapshots of a member's MLS state.
//!
//! A snapshot is `nonce(12) || AES-256-GCM(key, nonce, plaintext)`, where
//! the plaintext is a header (format version, group id, member identity,
//! signature scheme, signature public key, epoch) followed by the entries of
//! the MLS provider's storage, each length-prefixed. Restoring it rebuilds
//! the member without a re-join; a snapshot older than a known epoch is
//! reported as stale. An all-zeros key is refused both ways.
//!
//! The plaintext format is this library's own: its encoder and decoder are
//! verified, and a snapshot's plaintext decodes back to what was encoded.

use vstd::prelude::*;

use crate::assoc::to_map;
use crate::aead::{aes256gcm_open, open, random_nonce, seal, utf8_string};
use crate::bytes::{append_bytes, append_le_u32, append_le_u64, le_u32, le_u64};
use crate::decimal::{decimal, decimal_string};
use crate::error::{mls_error, mls_failure, prefixed, Error};
use crate::mls::MlsDocumentGroup;
use crate::mls_ops::{known_signature_scheme, mls_group_load, mls_keypair_stored};
use vstd::utf8::{decode_utf8, encode_utf8, valid_utf8};

verus! {

broadcast use vstd::string::group_string_axioms;

/// Snapshot format version; a snapshot of another version is refused.
pub const SNAPSHOT_VERSION: u8 = 1u8;

/// The most storage entries a snapshot may declare.
pub const MAX_STORAGE_ENTRIES: u64 = 100000u64;

// ---- the plaintext format ----

/// The little-endian encoding of a `u16`.
#[verifier::opaque]
pub open spec fn le16(x: u16) -> Seq<u8> {
    seq![(x % 256) as u8, (x / 256) as u8]
}

/// The little-endian encoding of a `u32`.
#[verifier::opaque]
pub open spec fn le32(x: u32) -> Seq<u8> {
    le_u32(x)
}

/// The little-endian encoding of a `u64`.
#[verifier::opaque]
pub open spec fn le64(x: u64) -> Seq<u8> {
    le_u64(x)
}

/// The length written before a field of `n` bytes: `n`, or `u32::MAX` where
/// `n` does not fit.
pub open spec fn prefix_len(n: nat) -> u32 {
    if n <= u32::MAX { n as u32 } else { u32::MAX }
}

/// A field preceded by its `u32` length.
pub open spec fn len_prefixed(b: Seq<u8>) -> Seq<u8> {
    le32(prefix_len(b.len())) + b
}

/// The header's front: version, group id, member identity, scheme.
pub open spec fn front_bytes(group_id: Seq<u8>, user_id: Seq<char>, scheme: u16) -> Seq<u8> {
    seq![SNAPSHOT_VERSION] + len_prefixed(group_id) + len_prefixed(encode_utf8(user_id)) + le16(scheme)
}

/// The header's back: signature public key and epoch.
pub open spec fn back_bytes(public_key: Seq<u8>, epoch: u64) -> Seq<u8> {
    len_prefixed(public_key) + le64(epoch)
}

/// One storage entry: key and value, each preceded by its `u64` length.
pub open spec fn entry_bytes(e: (Seq<u8>, Seq<u8>)) -> Seq<u8> {
    le64(e.0.len() as u64) + e.0 + le64(e.1.len() as u64) + e.1
}

/// Storage entries, one after the other.
pub open spec fn entries_bytes(es: Seq<(Seq<u8>, Seq<u8>)>) -> Seq<u8>
    decreases es.len(),
{
    if es.len() == 0 {
        Seq::empty()
    } else {
        entry_bytes(es[0]) + entries_bytes(es.drop_first())
    }
}

/// The storage map: its entry count, then its entries.
pub open spec fn storage_bytes(es: Seq<(Seq<u8>, Seq<u8>)>) -> Seq<u8> {
    le64(es.len() as u64) + entries_bytes(es)
}

/// A snapshot's plaintext.
pub open spec fn snapshot_plaintext(
    group_id: Seq<u8>,
    user_id: Seq<char>,
    scheme: u16,
    public_key: Seq<u8>,
    epoch: u64,
    entries: Seq<(Seq<u8>, Seq<u8>)>,
) -> Seq<u8> {
    front_bytes(group_id, user_id, scheme) + back_bytes(public_key, epoch) + storage_bytes(entries)
}

/// The storage entries a vector holds.
pub open spec fn entries_view(v: Seq<(Vec<u8>, Vec<u8>)>) -> Seq<(Seq<u8>, Seq<u8>)> {
    v.map_values(|e: (Vec<u8>, Vec<u8>)| (e.0@, e.1@))
}

// ---- decoding ----

/// The `u16` whose little-endian encoding is `b`.
pub open spec fn dec_u16(b: Seq<u8>) -> u16 {
    (b[0] + 256 * b[1]) as u16
}

/// The `u32` whose little-endian encoding is `b`.
pub open spec fn dec_u32(b: Seq<u8>) -> u32 {
    (b[0] + 256 * b[1] + 65536 * b[2] + 16777216 * b[3]) as u32
}

/// The `u64` whose little-endian encoding is `b`.
pub open spec fn dec_u64(b: Seq<u8>) -> u64 {
    (dec_u32(b.subrange(0, 4)) + 0x1_0000_0000 * dec_u32(b.subrange(4, 8))) as u64
}

/// The `u32`-length-prefixed field at `pos`, and where it ends.
pub open spec fn field_at(buf: Seq<u8>, pos: int) -> Option<(Seq<u8>, int)> {
    if 0 <= pos && pos + 4 <= buf.len() {
        let n = dec_u32(buf.subrange(pos, pos + 4));
        if pos + 4 + n <= buf.len() {
            Some((buf.subrange(pos + 4, pos + 4 + n), pos + 4 + n))
        } else {
            None
        }
    } else {
        None
    }
}

/// Why a header's front does not decode.
pub enum FrontError {
    /// The bytes end too early.
    Truncated,
    /// The format version is not [`SNAPSHOT_VERSION`].
    Version(u8),
    /// The member identity is not UTF-8.
    UserIdNotUtf8,
}

/// A header's front: group id, member identity, scheme number, and where
/// it ends.
pub open spec fn decode_front(buf: Seq<u8>) -> Result<(Seq<u8>, Seq<char>, u16, int), FrontError> {
    if buf.len() < 1 {
        Err(FrontError::Truncated)
    } else if buf[0] != SNAPSHOT_VERSION {
        Err(FrontError::Version(buf[0]))
    } else {
        match field_at(buf, 1) {
            None => Err(FrontError::Truncated),
            Some((gid, p1)) => match field_at(buf, p1) {
                None => Err(FrontError::Truncated),
                Some((ub, p2)) => if !valid_utf8(ub) {
                    Err(FrontError::UserIdNotUtf8)
                } else if p2 + 2 > buf.len() {
                    Err(FrontError::Truncated)
                } else {
                    Ok((gid, decode_utf8(ub), dec_u16(buf.subrange(p2, p2 + 2)), p2 + 2))
                },
            },
        }
    }
}

/// A header's back at `pos`: public key, epoch, and where it ends.
pub open spec fn decode_back(buf: Seq<u8>, pos: int) -> Option<(Seq<u8>, u64, int)> {
    match field_at(buf, pos) {
        None => None,
        Some((pk, p)) => if p + 8 <= buf.len() {
            Some((pk, dec_u64(buf.subrange(p, p + 8)), p + 8))
        } else {
            None
        },
    }
}

/// Where reading `n` bytes at `pos` of a `len`-byte buffer fails: an end
/// offset past `usize::MAX` overflows, one past `len` is truncated.
pub open spec fn take_error(len: int, pos: int, n: int) -> Option<StorageError> {
    if pos + n > usize::MAX {
        Some(StorageError::LengthOverflow)
    } else if pos + n > len {
        Some(StorageError::Truncated)
    } else {
        None
    }
}

/// The storage entry at `pos`, and where it ends: a `u64` key length, the
/// key, a `u64` value length, the value.
pub open spec fn entry_at(buf: Seq<u8>, pos: int) -> Result<((Seq<u8>, Seq<u8>), int), StorageError> {
    if pos < 0 {
        Err(StorageError::Truncated)
    } else if let Some(e) = take_error(buf.len() as int, pos, 8) {
        Err(e)
    } else {
        let kl = dec_u64(buf.subrange(pos, pos + 8));
        let p0 = pos + 8;
        if kl > usize::MAX {
            Err(StorageError::KeyTooLarge)
        } else if let Some(e) = take_error(buf.len() as int, p0, kl as int) {
            Err(e)
        } else {
            let p1 = p0 + kl;
            if let Some(e) = take_error(buf.len() as int, p1, 8) {
                Err(e)
            } else {
                let vl = dec_u64(buf.subrange(p1, p1 + 8));
                let q0 = p1 + 8;
                if vl > usize::MAX {
                    Err(StorageError::ValueTooLarge)
                } else if let Some(e) = take_error(buf.len() as int, q0, vl as int) {
                    Err(e)
                } else {
                    Ok(((buf.subrange(p0, p1), buf.subrange(q0, q0 + vl)), q0 + vl))
                }
            }
        }
    }
}

/// `n` storage entries one after the other from `pos`.
pub open spec fn entries_at(buf: Seq<u8>, pos: int, n: nat) -> Result<Seq<(Seq<u8>, Seq<u8>)>, StorageError>
    decreases n,
{
    if n == 0 {
        Ok(Seq::empty())
    } else {
        match entry_at(buf, pos) {
            Err(e) => Err(e),
            Ok((e, p)) => match entries_at(buf, p, (n - 1) as nat) {
                Err(x) => Err(x),
                Ok(rest) => Ok(seq![e] + rest),
            },
        }
    }
}

/// Why the storage map does not decode.
pub enum StorageError {
    /// The bytes end too early.
    Truncated,
    /// The declared entry count exceeds [`MAX_STORAGE_ENTRIES`].
    TooManyEntries(u64),
    /// A declared length would carry the read offset past `usize::MAX`.
    LengthOverflow,
    /// A key's declared length does not fit a `usize`.
    KeyTooLarge,
    /// A value's declared length does not fit a `usize`.
    ValueTooLarge,
}

/// The storage map at `pos`. Bytes after its last entry are ignored.
pub open spec fn decode_storage(buf: Seq<u8>, pos: int) -> Result<Seq<(Seq<u8>, Seq<u8>)>, StorageError> {
    if pos < 0 {
        Err(StorageError::Truncated)
    } else if let Some(e) = take_error(buf.len() as int, pos, 8) {
        Err(e)
    } else {
        let count = dec_u64(buf.subrange(pos, pos + 8));
        if count > MAX_STORAGE_ENTRIES {
            Err(StorageError::TooManyEntries(count))
        } else {
            entries_at(buf, pos + 8, count as nat)
        }
    }
}

/// The text of the corruption error a storage decoding error reports.
pub open spec fn storage_error_text(e: StorageError) -> Seq<char> {
    match e {
        StorageError::Truncated => "corrupt snapshot: unexpected end"@,
        StorageError::TooManyEntries(c) => "corrupt snapshot: storage entry count "@ + decimal(c as nat) + " exceeds cap 100000"@,
        StorageError::LengthOverflow => "corrupt snapshot: length overflow"@,
        StorageError::KeyTooLarge => "corrupt snapshot: key too large"@,
        StorageError::ValueTooLarge => "corrupt snapshot: value too large"@,
    }
}

/// `r` failed with an at-rest encryption error whose text is `text`.
pub open spec fn fails_encryption<T>(r: Result<T, Error>, text: Seq<char>) -> bool {
    r matches Err(Error::Encryption(m)) && m@ == text
}

/// The error for a corrupt snapshot, described by `msg`.
fn corrupt(msg: &str) -> (e: Error)
    ensures
        e matches Error::Encryption(m) && m@ == "corrupt snapshot: "@ + msg@,
{
    Error::Encryption(prefixed("corrupt snapshot: ", msg))
}

// ---- exec encoding ----

fn append_le16(out: &mut Vec<u8>, x: u16)
    ensures
        final(out)@ == old(out)@ + le16(x),
{
    out.push((x % 256) as u8);
    out.push((x / 256) as u8);
    reveal(le16);
    assert(out@ =~= old(out)@ + le16(x));
}

fn append_le32(out: &mut Vec<u8>, x: u32)
    ensures
        final(out)@ == old(out)@ + le32(x),
{
    append_le_u32(out, x);
    reveal(le32);
}

fn append_le64(out: &mut Vec<u8>, x: u64)
    ensures
        final(out)@ == old(out)@ + le64(x),
{
    append_le_u64(out, x);
    reveal(le64);
}

/// Append a field preceded by its `u32` length.
fn put_bytes(out: &mut Vec<u8>, bytes: &[u8])
    ensures
        final(out)@ == old(out)@ + len_prefixed(bytes@),
{
    let len: u32 = if bytes.len() <= 0xffff_ffff { bytes.len() as u32 } else { 0xffff_ffffu32 };
    append_le32(out, len);
    append_bytes(out, bytes);
    assert(out@ =~= old(out)@ + len_prefixed(bytes@));
}

proof fn lemma_entries_bytes_push(es: Seq<(Seq<u8>, Seq<u8>)>, e: (Seq<u8>, Seq<u8>))
    ensures
        entries_bytes(es.push(e)) == entries_bytes(es) + entry_bytes(e),
    decreases es.len(),
{
    if es.len() == 0 {
        reveal_with_fuel(entries_bytes, 2);
        assert(es.push(e).drop_first() =~= Seq::<(Seq<u8>, Seq<u8>)>::empty());
        assert(entries_bytes(es.push(e)) =~= entry_bytes(e));
        assert(entries_bytes(es) + entry_bytes(e) =~= entry_bytes(e));
    } else {
        assert(es.push(e).drop_first() =~= es.drop_first().push(e));
        lemma_entries_bytes_push(es.drop_first(), e);
        assert(es.push(e)[0] == es[0]);
        assert(entries_bytes(es.push(e)) =~= entries_bytes(es) + entry_bytes(e));
    }
}

/// Append the storage entries, preceded by their count.
fn encode_storage(out: &mut Vec<u8>, entries: &Vec<(Vec<u8>, Vec<u8>)>)
    ensures
        final(out)@ == old(out)@ + storage_bytes(entries_view(entries@)),
{
    append_le64(out, entries.len() as u64);
    let ghost start = out@;
    let mut i: usize = 0;
    while i < entries.len()
        invariant
            i <= entries@.len(),
            out@ == start + entries_bytes(entries_view(entries@.subrange(0, i as int))),
        decreases entries@.len() - i,
    {
        let ghost before = out@;
        let (k, v) = (&entries[i].0, &entries[i].1);
        append_le64(out, k.len() as u64);
        append_bytes(out, k.as_slice());
        append_le64(out, v.len() as u64);
        append_bytes(out, v.as_slice());
        proof {
            let done = entries_view(entries@.subrange(0, i as int));
            let e = (k@, v@);
            assert(entries_view(entries@.subrange(0, i + 1)) =~= done.push(e));
            lemma_entries_bytes_push(done, e);
            assert(out@ =~= before + entry_bytes(e));
        }
        i = i + 1;
    }
    assert(entries@.subrange(0, entries@.len() as int) =~= entries@);
    assert(out@ =~= old(out)@ + storage_bytes(entries_view(entries@)));
}

/// A snapshot's plaintext for the given header fields and storage entries.
pub fn encode_snapshot_plaintext(
    group_id: &[u8],
    user_id: &str,
    scheme: u16,
    public_key: &[u8],
    epoch: u64,
    entries: &Vec<(Vec<u8>, Vec<u8>)>,
) -> (out: Vec<u8>)
    ensures
        out@ == snapshot_plaintext(group_id@, user_id@, scheme, public_key@, epoch, entries_view(entries@)),
{
    let mut out: Vec<u8> = Vec::new();
    out.push(SNAPSHOT_VERSION);
    put_bytes(&mut out, group_id);
    put_bytes(&mut out, user_id.as_bytes());
    append_le16(&mut out, scheme);
    put_bytes(&mut out, public_key);
    append_le64(&mut out, epoch);
    encode_storage(&mut out, entries);
    assert(out@ =~= snapshot_plaintext(group_id@, user_id@, scheme, public_key@, epoch, entries_view(entries@)));
    out
}

// ---- exec decoding ----

fn copy_range(buf: &[u8], start: usize, end: usize) -> (v: Vec<u8>)
    requires
        start <= end <= buf@.len(),
    ensures
        v@ == buf@.subrange(start as int, end as int),
{
    let mut v: Vec<u8> = Vec::new();
    let mut i: usize = start;
    while i < end
        invariant
            start <= i <= end <= buf@.len(),
            v@ == buf@.subrange(start as int, i as int),
        decreases end - i,
    {
        v.push(buf[i]);
        i = i + 1;
        assert(v@ =~= buf@.subrange(start as int, i as int));
    }
    v
}

fn read_u32_at(buf: &[u8], pos: usize) -> (r: Option<u32>)
    ensures
        pos + 4 <= buf@.len() ==> r == Some(dec_u32(buf@.subrange(pos as int, pos + 4))),
        pos + 4 > buf@.len() ==> r is None,
{
    if pos > buf.len() || buf.len() - pos < 4 {
        return None;
    }
    let v: u32 = buf[pos] as u32 + (buf[pos + 1] as u32) * 256 + (buf[pos + 2] as u32) * 65536 + (buf[pos + 3] as u32)
        * 16777216;
    let ghost b = buf@.subrange(pos as int, pos + 4);
    assert(b[0] == buf@[pos as int] && b[1] == buf@[pos + 1] && b[2] == buf@[pos + 2] && b[3] == buf@[pos + 3]);
    Some(v)
}

fn read_u64_at(buf: &[u8], pos: usize) -> (r: Option<u64>)
    ensures
        pos + 8 <= buf@.len() ==> r == Some(dec_u64(buf@.subrange(pos as int, pos + 8))),
        pos + 8 > buf@.len() ==> r is None,
{
    if pos > buf.len() || buf.len() - pos < 8 {
        return None;
    }
    let lo = read_u32_at(buf, pos).unwrap();
    let hi = read_u32_at(buf, pos + 4).unwrap();
    let ghost b = buf@.subrange(pos as int, pos + 8);
    assert(b.subrange(0, 4) =~= buf@.subrange(pos as int, pos + 4));
    assert(b.subrange(4, 8) =~= buf@.subrange(pos + 4, pos + 8));
    Some(lo as u64 + (hi as u64) * 0x1_0000_0000)
}

fn read_field(buf: &[u8], pos: usize) -> (r: Option<(Vec<u8>, usize)>)
    ensures
        match field_at(buf@, pos as int) {
            Some((f, p)) => r matches Some((v, q)) && v@ == f && q == p,
            None => r is None,
        },
{
    if pos > buf.len() || buf.len() - pos < 4 {
        return None;
    }
    let n = match read_u32_at(buf, pos) {
        Some(n) => n,
        None => return None,
    };
    let p = pos + 4;
    let n = n as usize;
    if buf.len() - p < n {
        return None;
    }
    let v = copy_range(buf, p, p + n);
    Some((v, p + n))
}

/// Decode a header's front.
fn parse_front(buf: &[u8]) -> (r: Result<(Vec<u8>, String, u16, usize), Error>)
    ensures
        match decode_front(buf@) {
            Ok((g, u, s, p)) => r matches Ok((g2, u2, s2, p2)) && g2@ == g && u2@ == u && s2 == s && p2 == p,
            Err(FrontError::Truncated) => fails_encryption(r, "corrupt snapshot: unexpected end"@),
            Err(FrontError::Version(v)) => fails_encryption(r, "corrupt snapshot: unsupported version "@ + decimal(v as nat)),
            Err(FrontError::UserIdNotUtf8) => fails_encryption(r, "corrupt snapshot: user_id not utf-8"@),
        },
{
    if buf.len() < 1 {
        return Err(Error::Encryption("corrupt snapshot: unexpected end".to_owned()));
    }
    let version = buf[0];
    if version != SNAPSHOT_VERSION {
        let m = prefixed("unsupported version ", decimal_string(version as u64).as_str());
        let e = corrupt(m.as_str());
        assert("corrupt snapshot: "@ + m@ =~= "corrupt snapshot: unsupported version "@ + decimal(version as nat)) by {
            reveal_strlit("corrupt snapshot: ");
            reveal_strlit("unsupported version ");
            reveal_strlit("corrupt snapshot: unsupported version ");
        }
        return Err(e);
    }
    let (group_id, p1) = match read_field(buf, 1) {
        Some(x) => x,
        None => return Err(Error::Encryption("corrupt snapshot: unexpected end".to_owned())),
    };
    let (user_bytes, p2) = match read_field(buf, p1) {
        Some(x) => x,
        None => return Err(Error::Encryption("corrupt snapshot: unexpected end".to_owned())),
    };
    let ghost ub = user_bytes@;
    let user_id = match utf8_string(user_bytes) {
        Some(s) => s,
        None => return Err(Error::Encryption("corrupt snapshot: user_id not utf-8".to_owned())),
    };
    proof {
        vstd::utf8::encode_utf8_decode_utf8(user_id@);
    }
    if buf.len() - p2 < 2 {
        return Err(Error::Encryption("corrupt snapshot: unexpected end".to_owned()));
    }
    let scheme: u16 = buf[p2] as u16 + (buf[p2 + 1] as u16) * 256;
    let ghost sb = buf@.subrange(p2 as int, p2 + 2);
    assert(sb[0] == buf@[p2 as int] && sb[1] == buf@[p2 + 1]);
    Ok((group_id, user_id, scheme, p2 + 2))
}

/// Decode a header's back at `pos`.
fn parse_back(buf: &[u8], pos: usize) -> (r: Result<(Vec<u8>, u64, usize), Error>)
    ensures
        match decode_back(buf@, pos as int) {
            Some((pk, ep, p)) => r matches Ok((pk2, ep2, p2)) && pk2@ == pk && ep2 == ep && p2 == p,
            None => fails_encryption(r, "corrupt snapshot: unexpected end"@),
        },
{
    let (public_key, p) = match read_field(buf, pos) {
        Some(x) => x,
        None => return Err(Error::Encryption("corrupt snapshot: unexpected end".to_owned())),
    };
    if p > buf.len() || buf.len() - p < 8 {
        return Err(Error::Encryption("corrupt snapshot: unexpected end".to_owned()));
    }
    match read_u64_at(buf, p) {
        Some(epoch) => Ok((public_key, epoch, p + 8)),
        None => Err(Error::Encryption("corrupt snapshot: unexpected end".to_owned())),
    }
}

/// Why reading `n` bytes at `pos` fails, as [`take_error`] says.
fn take_check(len: usize, pos: usize, n: usize) -> (r: Option<StorageError>)
    ensures
        r == take_error(len as int, pos as int, n as int),
{
    if n > usize::MAX - pos {
        Some(StorageError::LengthOverflow)
    } else if pos + n > len {
        Some(StorageError::Truncated)
    } else {
        None
    }
}

fn read_entry(buf: &[u8], pos: usize) -> (r: Result<(Vec<u8>, Vec<u8>, usize), StorageError>)
    ensures
        match entry_at(buf@, pos as int) {
            Ok((e, p)) => r matches Ok((k, v, q)) && k@ == e.0 && v@ == e.1 && q == p,
            Err(x) => r == Err::<(Vec<u8>, Vec<u8>, usize), StorageError>(x),
        },
{
    if let Some(e) = take_check(buf.len(), pos, 8) {
        return Err(e);
    }
    let kl = match read_u64_at(buf, pos) {
        Some(n) => n,
        None => return Err(StorageError::Truncated),
    };
    let p0 = pos + 8;
    if kl > usize::MAX as u64 {
        return Err(StorageError::KeyTooLarge);
    }
    let klu = kl as usize;
    if let Some(e) = take_check(buf.len(), p0, klu) {
        return Err(e);
    }
    let p1 = p0 + klu;
    if let Some(e) = take_check(buf.len(), p1, 8) {
        return Err(e);
    }
    let vl = match read_u64_at(buf, p1) {
        Some(n) => n,
        None => return Err(StorageError::Truncated),
    };
    let q0 = p1 + 8;
    if vl > usize::MAX as u64 {
        return Err(StorageError::ValueTooLarge);
    }
    let vlu = vl as usize;
    if let Some(e) = take_check(buf.len(), q0, vlu) {
        return Err(e);
    }
    let p2 = q0 + vlu;
    let k = copy_range(buf, p0, p1);
    let v = copy_range(buf, q0, p2);
    Ok((k, v, p2))
}

/// The corruption error a storage decoding error reports.
fn storage_error(e: StorageError) -> (r: Error)
    ensures
        r matches Error::Encryption(m) && m@ == storage_error_text(e),
{
    match e {
        StorageError::Truncated => Error::Encryption("corrupt snapshot: unexpected end".to_owned()),
        StorageError::TooManyEntries(count) => {
            let m = prefixed("storage entry count ", decimal_string(count).as_str());
            let m = prefixed(m.as_str(), " exceeds cap 100000");
            let e = corrupt(m.as_str());
            assert("corrupt snapshot: "@ + m@ =~= "corrupt snapshot: storage entry count "@ + decimal(count as nat)
                + " exceeds cap 100000"@) by {
                reveal_strlit("corrupt snapshot: ");
                reveal_strlit("storage entry count ");
                reveal_strlit("corrupt snapshot: storage entry count ");
            }
            e
        },
        StorageError::LengthOverflow => Error::Encryption("corrupt snapshot: length overflow".to_owned()),
        StorageError::KeyTooLarge => Error::Encryption("corrupt snapshot: key too large".to_owned()),
        StorageError::ValueTooLarge => Error::Encryption("corrupt snapshot: value too large".to_owned()),
    }
}

/// Decode the storage map at `pos`.
fn parse_storage(buf: &[u8], pos: usize) -> (r: Result<Vec<(Vec<u8>, Vec<u8>)>, Error>)
    ensures
        match decode_storage(buf@, pos as int) {
            Ok(es) => r matches Ok(v) && entries_view(v@) == es,
            Err(e) => fails_encryption(r, storage_error_text(e)),
        },
{
    if let Some(e) = take_check(buf.len(), pos, 8) {
        return Err(storage_error(e));
    }
    let count = match read_u64_at(buf, pos) {
        Some(n) => n,
        None => return Err(storage_error(StorageError::Truncated)),
    };
    if count > MAX_STORAGE_ENTRIES {
        return Err(storage_error(StorageError::TooManyEntries(count)));
    }
    let mut out: Vec<(Vec<u8>, Vec<u8>)> = Vec::new();
    let mut p: usize = pos + 8;
    let mut i: u64 = 0;
    while i < count
        invariant
            i <= count <= MAX_STORAGE_ENTRIES,
            pos + 8 <= buf@.len(),
            count == dec_u64(buf@.subrange(pos as int, pos + 8)),
            entries_at(buf@, pos + 8, count as nat) == (match entries_at(buf@, p as int, (count - i) as nat) {
                Ok(rest) => Ok(entries_view(out@) + rest),
                Err(x) => Err::<Seq<(Seq<u8>, Seq<u8>)>, StorageError>(x),
            }),
        decreases count - i,
    {
        let ghost m = (count - i) as nat;
        match read_entry(buf, p) {
            Err(x) => {
                assert(entries_at(buf@, p as int, m) == Err::<Seq<(Seq<u8>, Seq<u8>)>, StorageError>(x));
                return Err(storage_error(x));
            },
            Ok((k, v, q)) => {
                let ghost old_out = entries_view(out@);
                let ghost e = (k@, v@);
                out.push((k, v));
                proof {
                    assert(entries_view(out@) =~= old_out.push(e));
                    match entries_at(buf@, q as int, (m - 1) as nat) {
                        Ok(rest) => {
                            assert(old_out + (seq![e] + rest) =~= old_out.push(e) + rest);
                        },
                        Err(_) => {},
                    }
                }
                p = q;
                i = i + 1;
            },
        }
    }
    assert(entries_view(out@) + Seq::<(Seq<u8>, Seq<u8>)>::empty() =~= entries_view(out@));
    Ok(out)
}

// ---- the round-trip law ----

proof fn lemma_le32(x: u32)
    ensures
        le32(x).len() == 4,
        dec_u32(le32(x)) == x,
{
    reveal(le32);
    assert(x == (x % 256) + 256 * ((x / 256) % 256) + 65536 * ((x / 65536) % 256) + 16777216 * ((x / 16777216) % 256)) by (nonlinear_arith);
}

proof fn lemma_le16(x: u16)
    ensures
        le16(x).len() == 2,
        dec_u16(le16(x)) == x,
{
    reveal(le16);
    assert(x == (x % 256) + 256 * (x / 256)) by (nonlinear_arith);
    assert((x / 256) < 256) by (nonlinear_arith);
}

proof fn lemma_le64(x: u64)
    ensures
        le64(x).len() == 8,
        dec_u64(le64(x)) == x,
{
    reveal(le64);
    reveal(le32);
    let lo = (x % 0x1_0000_0000) as u32;
    let hi = (x / 0x1_0000_0000) as u32;
    assert(le_u64(x).subrange(0, 4) =~= le_u32(lo));
    assert(le_u64(x).subrange(4, 8) =~= le_u32(hi));
    lemma_le32(lo);
    lemma_le32(hi);
    assert(x == (x % 0x1_0000_0000) + 0x1_0000_0000 * (x / 0x1_0000_0000)) by (nonlinear_arith);
}

/// A window of a concatenation that lies within its middle part.
proof fn lemma_window(p: Seq<u8>, x: Seq<u8>, r: Seq<u8>, a: int, b: int)
    requires
        0 <= a <= b <= x.len(),
    ensures
        (p + x + r).subrange(p.len() + a, p.len() + b) == x.subrange(a, b),
{
    assert((p + x + r).subrange(p.len() + a, p.len() + b) =~= x.subrange(a, b));
}

proof fn lemma_field_at(p: Seq<u8>, b: Seq<u8>, r: Seq<u8>)
    requires
        b.len() <= u32::MAX,
    ensures
        field_at(p + len_prefixed(b) + r, p.len() as int) == Some((b, (p.len() + 4 + b.len()) as int)),
{
    let x = len_prefixed(b);
    lemma_le32(b.len() as u32);
    lemma_window(p, x, r, 0, 4);
    assert(x.subrange(0, 4) =~= le32(b.len() as u32));
    lemma_window(p, x, r, 4, 4 + b.len() as int);
    assert(x.subrange(4, 4 + b.len() as int) =~= b);
}

proof fn lemma_entry_at(p: Seq<u8>, e: (Seq<u8>, Seq<u8>), r: Seq<u8>)
    requires
        e.0.len() <= u64::MAX,
        e.1.len() <= u64::MAX,
        (p + entry_bytes(e) + r).len() <= usize::MAX,
    ensures
        entry_at(p + entry_bytes(e) + r, p.len() as int) == Ok::<((Seq<u8>, Seq<u8>), int), StorageError>((e, (p.len() + entry_bytes(e).len()) as int)),
{
    let x = entry_bytes(e);
    let kl = e.0.len() as int;
    let vl = e.1.len() as int;
    lemma_le64(e.0.len() as u64);
    lemma_le64(e.1.len() as u64);
    assert(x.len() == 16 + kl + vl);
    lemma_window(p, x, r, 0, 8);
    assert(x.subrange(0, 8) =~= le64(e.0.len() as u64));
    lemma_window(p, x, r, 8 + kl, 16 + kl);
    assert(x.subrange(8 + kl, 16 + kl) =~= le64(e.1.len() as u64));
    lemma_window(p, x, r, 8, 8 + kl);
    assert(x.subrange(8, 8 + kl) =~= e.0);
    lemma_window(p, x, r, 16 + kl, 16 + kl + vl);
    assert(x.subrange(16 + kl, 16 + kl + vl) =~= e.1);
}

#[verifier::spinoff_prover]
#[verifier::rlimit(40)]
proof fn lemma_entries_at(p: Seq<u8>, es: Seq<(Seq<u8>, Seq<u8>)>, r: Seq<u8>)
    requires
        forall|i: int| 0 <= i < es.len() ==> #[trigger] es[i].0.len() <= u64::MAX && es[i].1.len() <= u64::MAX,
        (p + entries_bytes(es) + r).len() <= usize::MAX,
    ensures
        entries_at(p + entries_bytes(es) + r, p.len() as int, es.len()) == Ok::<Seq<(Seq<u8>, Seq<u8>)>, StorageError>(es),
    decreases es.len(),
{
    if es.len() == 0 {
        assert(es =~= Seq::<(Seq<u8>, Seq<u8>)>::empty());
    } else {
        let e = es[0];
        let rest = es.drop_first();
        let tail = entries_bytes(rest) + r;
        assert(p + entries_bytes(es) + r =~= p + entry_bytes(e) + tail);
        lemma_entry_at(p, e, tail);
        assert forall|i: int| 0 <= i < rest.len() implies #[trigger] rest[i].0.len() <= u64::MAX && rest[i].1.len() <= u64::MAX by {
            assert(rest[i] == es[i + 1]);
        }
        lemma_entries_at(p + entry_bytes(e), rest, r);
        assert(p + entry_bytes(e) + entries_bytes(rest) + r =~= p + entry_bytes(e) + tail);
        assert(seq![e] + rest =~= es);
    }
}

#[verifier::rlimit(60)]
proof fn lemma_front_decodes(group_id: Seq<u8>, user_id: Seq<char>, scheme: u16, rest: Seq<u8>)
    requires
        group_id.len() <= u32::MAX,
        encode_utf8(user_id).len() <= u32::MAX,
    ensures
        decode_front(front_bytes(group_id, user_id, scheme) + rest) == Ok::<(Seq<u8>, Seq<char>, u16, int), FrontError>(
            (group_id, user_id, scheme, front_bytes(group_id, user_id, scheme).len() as int),
        ),
{
    let pt = front_bytes(group_id, user_id, scheme) + rest;
    let ub = encode_utf8(user_id);
    let one = seq![SNAPSHOT_VERSION];
    let g = len_prefixed(group_id);
    let u = len_prefixed(ub);
    let s = le16(scheme);
    lemma_le16(scheme);
    lemma_le32(prefix_len(group_id.len()));
    lemma_le32(prefix_len(ub.len()));
    assert(pt =~= one + g + (u + s + rest));
    lemma_field_at(one, group_id, u + s + rest);
    assert(pt =~= (one + g) + u + (s + rest));
    lemma_field_at(one + g, ub, s + rest);
    vstd::utf8::encode_utf8_valid_utf8(user_id);
    vstd::utf8::encode_utf8_decode_utf8(user_id);
    assert(pt =~= (one + g + u) + s + rest);
    lemma_window(one + g + u, s, rest, 0, 2);
    assert(s.subrange(0, 2) =~= s);
    assert(pt[0] == SNAPSHOT_VERSION);
}

proof fn lemma_back_decodes(front: Seq<u8>, public_key: Seq<u8>, epoch: u64, rest: Seq<u8>)
    requires
        public_key.len() <= u32::MAX,
    ensures
        decode_back(front + back_bytes(public_key, epoch) + rest, front.len() as int) == Some(
            (public_key, epoch, (front.len() + back_bytes(public_key, epoch).len()) as int),
        ),
{
    let e = le64(epoch);
    lemma_le64(epoch);
    lemma_le32(prefix_len(public_key.len()));
    let pt = front + back_bytes(public_key, epoch) + rest;
    assert(pt =~= front + len_prefixed(public_key) + (e + rest));
    lemma_field_at(front, public_key, e + rest);
    assert(pt =~= (front + len_prefixed(public_key)) + e + rest);
    lemma_window(front + len_prefixed(public_key), e, rest, 0, 8);
    assert(e.subrange(0, 8) =~= e);
}

proof fn lemma_storage_decodes(front: Seq<u8>, entries: Seq<(Seq<u8>, Seq<u8>)>)
    requires
        entries.len() <= MAX_STORAGE_ENTRIES,
        (front + storage_bytes(entries)).len() <= usize::MAX,
        forall|i: int| 0 <= i < entries.len() ==> #[trigger] entries[i].0.len() <= u64::MAX && entries[i].1.len() <= u64::MAX,
    ensures
        decode_storage(front + storage_bytes(entries), front.len() as int) == Ok::<Seq<(Seq<u8>, Seq<u8>)>, StorageError>(entries),
{
    let c = le64(entries.len() as u64);
    lemma_le64(entries.len() as u64);
    let eb = entries_bytes(entries);
    let pt = front + storage_bytes(entries);
    assert(pt =~= front + c + eb);
    lemma_window(front, c, eb, 0, 8);
    assert(c.subrange(0, 8) =~= c);
    assert(pt =~= (front + c) + eb + Seq::<u8>::empty());
    lemma_entries_at(front + c, entries, Seq::<u8>::empty());
}

/// A snapshot's plaintext decodes back to the header fields and storage
/// entries it was encoded from, provided each length fits its prefix, the
/// entry count is within [`MAX_STORAGE_ENTRIES`] and the plaintext fits in
/// memory (its length is a `usize`).
pub proof fn lemma_snapshot_round_trip(
    group_id: Seq<u8>,
    user_id: Seq<char>,
    scheme: u16,
    public_key: Seq<u8>,
    epoch: u64,
    entries: Seq<(Seq<u8>, Seq<u8>)>,
)
    requires
        group_id.len() <= u32::MAX,
        encode_utf8(user_id).len() <= u32::MAX,
        public_key.len() <= u32::MAX,
        entries.len() <= MAX_STORAGE_ENTRIES,
        forall|i: int| 0 <= i < entries.len() ==> #[trigger] entries[i].0.len() <= u64::MAX && entries[i].1.len() <= u64::MAX,
        snapshot_plaintext(group_id, user_id, scheme, public_key, epoch, entries).len() <= usize::MAX,
    ensures
        ({
            let pt = snapshot_plaintext(group_id, user_id, scheme, public_key, epoch, entries);
            let f = front_bytes(group_id, user_id, scheme).len() as int;
            let b = back_bytes(public_key, epoch).len() as int;
            &&& decode_front(pt) == Ok::<(Seq<u8>, Seq<char>, u16, int), FrontError>((group_id, user_id, scheme, f))
            &&& decode_back(pt, f) == Some((public_key, epoch, f + b))
            &&& decode_storage(pt, f + b) == Ok::<Seq<(Seq<u8>, Seq<u8>)>, StorageError>(entries)
        }),
{
    let front = front_bytes(group_id, user_id, scheme);
    let back = back_bytes(public_key, epoch);
    let st = storage_bytes(entries);
    let pt = snapshot_plaintext(group_id, user_id, scheme, public_key, epoch, entries);
    assert(pt =~= front + (back + st));
    lemma_front_decodes(group_id, user_id, scheme, back + st);
    lemma_back_decodes(front, public_key, epoch, st);
    lemma_storage_decodes(front + back, entries);
}

// ---- sealing and restoring ----

/// All 32 bytes of `key` are zero.
pub open spec fn all_zeros(key: Seq<u8>) -> bool {
    forall|i: int| 0 <= i < key.len() ==> key[i] == 0
}

fn is_all_zeros(key: &[u8; 32]) -> (r: bool)
    ensures
        r == all_zeros(key@),
{
    let mut i: usize = 0;
    while i < 32
        invariant
            i <= 32,
            key@.len() == 32,
            forall|j: int| 0 <= j < i ==> key@[j] == 0,
        decreases 32 - i,
    {
        if key[i] != 0 {
            return false;
        }
        i = i + 1;
    }
    true
}

/// The nonce and sealed part of a snapshot at least 12 bytes long.
pub open spec fn nonce_of(snapshot: Seq<u8>) -> Seq<u8> {
    snapshot.subrange(0, 12)
}

/// The sealed part of a snapshot.
pub open spec fn sealed_of(snapshot: Seq<u8>) -> Seq<u8> {
    snapshot.subrange(12, snapshot.len() as int)
}

/// `snapshot` opens under `key` and the associated data `aad` to the
/// plaintext of a snapshot of the member `user_id`.
pub open spec fn seals_member(key: Seq<u8>, aad: Seq<u8>, snapshot: Seq<u8>, user_id: Seq<char>) -> bool {
    &&& snapshot.len() >= 12
    &&& exists|group_id: Seq<u8>, scheme: u16, public_key: Seq<u8>, epoch: u64, entries: Seq<(Seq<u8>, Seq<u8>)>|
        aes256gcm_open(key, nonce_of(snapshot), aad, sealed_of(snapshot)) == Some(
            #[trigger] snapshot_plaintext(group_id, user_id, scheme, public_key, epoch, entries),
        )
}

/// `snapshot` opens under `key` and the associated data `aad` to the
/// plaintext of a snapshot of the member `g`: its group's id, its identity,
/// its signature key pair's public key (of a known scheme), its current
/// epoch, and the whole key store of its provider, each key once.
pub open spec fn seals_group(key: Seq<u8>, aad: Seq<u8>, snapshot: Seq<u8>, g: MlsDocumentGroup) -> bool {
    &&& snapshot.len() >= 12
    &&& exists|scheme: u16, entries: Seq<(Seq<u8>, Seq<u8>)>| {
        &&& aes256gcm_open(key, nonce_of(snapshot), aad, sealed_of(snapshot)) == Some(
            #[trigger] snapshot_plaintext(g.spec_group_id(), g.spec_user_id(), scheme, g.spec_public_key(), g.spec_epoch(), entries),
        )
        &&& crate::assoc::distinct_keys(entries)
        &&& to_map(entries) == crate::mls_ops::provider_storage(g.spec_crypto())
        &&& known_signature_scheme(scheme)
    }
}

/// What restoring gives once the storage map `storage` was decoded from a
/// snapshot of the member `user_id` in the group `group_id` at `epoch`, with
/// the signature key pair `public_key` of the scheme `scheme`: a storage
/// error, `Ok(None)` when the group's state is not all there, the missing
/// key pair, an MLS error when the loaded group is at another epoch or has
/// no owner whose identity reads, and otherwise the member itself: that
/// user, in the loaded group, at that epoch, over that key store.
pub open spec fn restore_loaded(
    storage: Map<Seq<u8>, Seq<u8>>,
    group_id: Seq<u8>,
    user_id: Seq<char>,
    scheme: u16,
    public_key: Seq<u8>,
    epoch: u64,
    r: Result<Option<MlsDocumentGroup>, Error>,
) -> bool {
    match mls_group_load(storage, group_id) {
        None => r matches Err(e) && mls_failure(e, "Failed to load group: "@),
        Some(false) => r == Ok::<Option<MlsDocumentGroup>, Error>(None),
        Some(true) => if !mls_keypair_stored(storage, public_key, scheme) {
            fails_encryption(r, "corrupt snapshot: signature keypair missing from storage"@)
        } else {
            let loaded = crate::mls_ops::mls_loaded_group(storage, group_id);
            if crate::mls_ops::mls_group_epoch(loaded) != epoch
                || crate::mls::owner_of(crate::mls_ops::mls_group_members(loaded), 0) is None {
                r matches Err(e) && e is Mls
            } else {
                &&& r matches Ok(Some(g))
                &&& g.spec_user_id() == user_id
                &&& g.spec_epoch() == epoch
                &&& g.spec_group() == loaded
                &&& crate::mls_ops::provider_storage(g.spec_crypto()) == storage
            }
        },
    }
}

/// What restoring from `plaintext`, once opened, gives: the decoding
/// errors, the stale case, and, past both, the member identity of a
/// restored group.
pub open spec fn restore_outcome(plaintext: Seq<u8>, min_epoch: u64, r: Result<Option<MlsDocumentGroup>, Error>) -> bool {
    match decode_front(plaintext) {
        Err(FrontError::Truncated) => fails_encryption(r, "corrupt snapshot: unexpected end"@),
        Err(FrontError::Version(v)) => fails_encryption(r, "corrupt snapshot: unsupported version "@ + decimal(v as nat)),
        Err(FrontError::UserIdNotUtf8) => fails_encryption(r, "corrupt snapshot: user_id not utf-8"@),
        Ok((group_id, user_id, scheme, front_end)) => if !known_signature_scheme(scheme) {
            fails_encryption(r, "corrupt snapshot: Unsupported SignatureScheme: "@ + decimal(scheme as nat))
        } else {
            match decode_back(plaintext, front_end) {
                None => fails_encryption(r, "corrupt snapshot: unexpected end"@),
                Some((public_key, epoch, back_end)) => if epoch < min_epoch {
                    r == Ok::<Option<MlsDocumentGroup>, Error>(None)
                } else {
                    match decode_storage(plaintext, back_end) {
                        Err(e) => fails_encryption(r, storage_error_text(e)),
                        Ok(entries) => restore_loaded(to_map(entries), group_id, user_id, scheme, public_key, epoch, r),
                    }
                }
            }
        },
    }
}

/// What restoring `snapshot` under `key` with the associated data `aad`
/// gives, as [`MlsDocumentGroup::restore_sealed`] states it.
pub open spec fn restore_result(
    snapshot: Seq<u8>,
    key: Seq<u8>,
    aad: Seq<u8>,
    min_epoch: u64,
    r: Result<Option<MlsDocumentGroup>, Error>,
) -> bool {
    &&& all_zeros(key) ==> fails_encryption(r, "refusing all-zeros key"@)
    &&& !all_zeros(key) && snapshot.len() < 12 ==> fails_encryption(r, "corrupt snapshot: no nonce"@)
    &&& !all_zeros(key) && snapshot.len() >= 12 ==> match aes256gcm_open(key, nonce_of(snapshot), aad, sealed_of(snapshot)) {
        None => fails_encryption(r, "AEAD open failed (wrong key or corrupt)"@),
        Some(pt) => restore_outcome(pt, min_epoch, r),
    }
}

/// Law (a restore gives back what was sealed): restoring, under a nonzero
/// key and the same associated data, a snapshot that opens to the plaintext
/// of member `user_id` at `epoch` with the storage `entries` gives
/// `Ok(None)` when `epoch < min_epoch`. Otherwise, when the group loads
/// from those entries and the signature key pair is among them, the result
/// is never `Ok(None)`: it is that same member at that same epoch, or an
/// MLS error; when, besides, the loaded group is at that epoch and its
/// owner's identity reads, it is that member, in the loaded group, over
/// exactly those entries. Whatever the entries hold, the only corruption it
/// can report is a missing signature key pair. This holds for every plaintext
/// [`MlsDocumentGroup::snapshot_sealed`] writes whose lengths fit their
/// prefixes, whose entry count is within [`MAX_STORAGE_ENTRIES`], whose
/// signature scheme is known and which fits in memory.
pub proof fn lemma_restore_gives_back_the_member(
    snapshot: Seq<u8>,
    key: Seq<u8>,
    aad: Seq<u8>,
    group_id: Seq<u8>,
    user_id: Seq<char>,
    scheme: u16,
    public_key: Seq<u8>,
    epoch: u64,
    entries: Seq<(Seq<u8>, Seq<u8>)>,
    min_epoch: u64,
    r: Result<Option<MlsDocumentGroup>, Error>,
)
    requires
        !all_zeros(key),
        snapshot.len() >= 12,
        aes256gcm_open(key, nonce_of(snapshot), aad, sealed_of(snapshot)) == Some(
            snapshot_plaintext(group_id, user_id, scheme, public_key, epoch, entries),
        ),
        group_id.len() <= u32::MAX,
        encode_utf8(user_id).len() <= u32::MAX,
        public_key.len() <= u32::MAX,
        entries.len() <= MAX_STORAGE_ENTRIES,
        forall|i: int| 0 <= i < entries.len() ==> #[trigger] entries[i].0.len() <= u64::MAX && entries[i].1.len() <= u64::MAX,
        known_signature_scheme(scheme),
        snapshot_plaintext(group_id, user_id, scheme, public_key, epoch, entries).len() <= usize::MAX,
        restore_result(snapshot, key, aad, min_epoch, r),
    ensures
        epoch < min_epoch ==> r == Ok::<Option<MlsDocumentGroup>, Error>(None),
        epoch >= min_epoch ==> (r matches Ok(Some(g)) ==> g.spec_user_id() == user_id && g.spec_epoch() == epoch),
        epoch >= min_epoch ==> (r is Ok || r matches Err(Error::Mls(_))
            || fails_encryption(r, "corrupt snapshot: signature keypair missing from storage"@)),
        epoch >= min_epoch && mls_group_load(to_map(entries), group_id) == Some(true)
            && mls_keypair_stored(to_map(entries), public_key, scheme) ==> (r is Err ==> r matches Err(Error::Mls(_)))
            && r != Ok::<Option<MlsDocumentGroup>, Error>(None),
        epoch >= min_epoch && mls_group_load(to_map(entries), group_id) == Some(true)
            && mls_keypair_stored(to_map(entries), public_key, scheme)
            && crate::mls_ops::mls_group_epoch(crate::mls_ops::mls_loaded_group(to_map(entries), group_id)) == epoch
            && crate::mls::owner_of(crate::mls_ops::mls_group_members(crate::mls_ops::mls_loaded_group(to_map(entries), group_id)), 0) is Some
            ==> (r matches Ok(Some(g)) && g.spec_user_id() == user_id && g.spec_epoch() == epoch
                && g.spec_group() == crate::mls_ops::mls_loaded_group(to_map(entries), group_id)
                && crate::mls_ops::provider_storage(g.spec_crypto()) == to_map(entries)),
{
    lemma_snapshot_round_trip(group_id, user_id, scheme, public_key, epoch, entries);
}

/// Law (a stale snapshot is a re-join signal): a snapshot that
/// [`MlsDocumentGroup::snapshot_sealed`] made of the member `g`, restored
/// under the same nonzero key and associated data with a `min_epoch` past
/// `g`'s epoch, gives `Ok(None)`, not an error. This holds whenever `g`'s
/// group id, identity and public key fit their `u32` length prefixes, as
/// the snapshot writes them.
pub proof fn lemma_stale_snapshot_restores_to_none(
    snapshot: Seq<u8>,
    key: Seq<u8>,
    aad: Seq<u8>,
    g: MlsDocumentGroup,
    min_epoch: u64,
    r: Result<Option<MlsDocumentGroup>, Error>,
)
    requires
        !all_zeros(key),
        seals_group(key, aad, snapshot, g),
        g.spec_epoch() < min_epoch,
        g.spec_group_id().len() <= u32::MAX,
        encode_utf8(g.spec_user_id()).len() <= u32::MAX,
        g.spec_public_key().len() <= u32::MAX,
        restore_result(snapshot, key, aad, min_epoch, r),
    ensures
        r == Ok::<Option<MlsDocumentGroup>, Error>(None),
{
    let (scheme, entries) = choose|scheme: u16, entries: Seq<(Seq<u8>, Seq<u8>)>| {
        &&& aes256gcm_open(key, nonce_of(snapshot), aad, sealed_of(snapshot)) == Some(
            #[trigger] snapshot_plaintext(g.spec_group_id(), g.spec_user_id(), scheme, g.spec_public_key(), g.spec_epoch(), entries),
        )
        &&& crate::assoc::distinct_keys(entries)
        &&& to_map(entries) == crate::mls_ops::provider_storage(g.spec_crypto())
        &&& known_signature_scheme(scheme)
    };
    let front = front_bytes(g.spec_group_id(), g.spec_user_id(), scheme);
    let back = back_bytes(g.spec_public_key(), g.spec_epoch());
    let st = storage_bytes(entries);
    let pt = snapshot_plaintext(g.spec_group_id(), g.spec_user_id(), scheme, g.spec_public_key(), g.spec_epoch(), entries);
    assert(pt =~= front + (back + st));
    lemma_front_decodes(g.spec_group_id(), g.spec_user_id(), scheme, back + st);
    assert(pt =~= front + back + st);
    lemma_back_decodes(front, g.spec_public_key(), g.spec_epoch(), st);
}

impl MlsDocumentGroup {
    /// Snapshot this member's MLS state (group and signature keys) and seal
    /// it under the 32-byte AES-256-GCM `key`, with a fresh random nonce.
    /// An all-zeros key is refused.
    pub fn snapshot_encrypted(&self, key: &[u8; 32]) -> (r: Result<Vec<u8>, Error>)
        ensures
            all_zeros(key@) ==> fails_encryption(r, "refusing all-zeros key"@),
            !all_zeros(key@) ==> r is Ok || fails_encryption(r, "AEAD seal failed"@)
                || (r matches Err(e) && mls_failure(e, "nonce RNG failed: "@)),
            r matches Ok(out) ==> seals_member(key@, Seq::empty(), out@, self.spec_user_id())
                && seals_group(key@, Seq::empty(), out@, *self),
            r matches Err(e) ==> e is Mls || e is Encryption,
    {
        let no_aad: [u8; 0] = [];
        assert(no_aad@ =~= Seq::<u8>::empty());
        self.snapshot_sealed(key, no_aad.as_slice())
    }

    /// Restore a member from a snapshot sealed under `key`. `Ok(None)` when
    /// the snapshot's epoch is older than `min_epoch` (the caller re-joins)
    /// or its storage holds no group.
    pub fn restore_encrypted(snapshot: &[u8], key: &[u8; 32], min_epoch: u64) -> (r: Result<Option<MlsDocumentGroup>, Error>)
        ensures
            restore_result(snapshot@, key@, Seq::empty(), min_epoch, r),
    {
        let no_aad: [u8; 0] = [];
        assert(no_aad@ =~= Seq::<u8>::empty());
        MlsDocumentGroup::restore_sealed(snapshot, key, no_aad.as_slice(), min_epoch)
    }

    /// [`Self::snapshot_encrypted`], authenticating the associated data
    /// `aad` as well.
    pub fn snapshot_sealed(&self, key: &[u8; 32], aad: &[u8]) -> (r: Result<Vec<u8>, Error>)
        ensures
            all_zeros(key@) ==> fails_encryption(r, "refusing all-zeros key"@),
            !all_zeros(key@) ==> r is Ok || fails_encryption(r, "AEAD seal failed"@)
                || (r matches Err(e) && mls_failure(e, "nonce RNG failed: "@)),
            r matches Ok(out) ==> seals_member(key@, aad@, out@, self.spec_user_id())
                && seals_group(key@, aad@, out@, *self),
            r matches Err(e) ==> e is Mls || e is Encryption,
    {
        if is_all_zeros(key) {
            return Err(Error::Encryption("refusing all-zeros key".to_owned()));
        }
        let group_id = self.group_id_bytes();
        let scheme = self.signature_scheme();
        let public_key = self.signature_public_key();
        let epoch = self.epoch();
        let entries = crate::mls_ops::storage_entries(self.crypto_provider());
        let plaintext = encode_snapshot_plaintext(
            group_id.as_slice(),
            self.user_id(),
            scheme,
            public_key.as_slice(),
            epoch,
            &entries,
        );
        let nonce = match random_nonce() {
            Ok(n) => n,
            Err(t) => return Err(mls_error("nonce RNG failed: ", t.as_str())),
        };
        let sealed = match seal(key, &nonce, aad, plaintext.as_slice()) {
            Some(c) => c,
            None => return Err(Error::Encryption("AEAD seal failed".to_owned())),
        };
        let mut out: Vec<u8> = Vec::new();
        append_bytes(&mut out, nonce.as_slice());
        append_bytes(&mut out, sealed.as_slice());
        proof {
            assert(nonce_of(out@) =~= nonce@);
            assert(sealed_of(out@) =~= sealed@);
            assert(aes256gcm_open(key@, nonce_of(out@), aad@, sealed_of(out@)) == Some(
                snapshot_plaintext(group_id@, self.spec_user_id(), scheme, public_key@, epoch, entries_view(entries@)),
            ));
        }
        Ok(out)
    }

    /// [`Self::restore_encrypted`] of a snapshot sealed with the associated
    /// data `aad`.
    pub fn restore_sealed(snapshot: &[u8], key: &[u8; 32], aad: &[u8], min_epoch: u64) -> (r: Result<Option<MlsDocumentGroup>, Error>)
        ensures
            restore_result(snapshot@, key@, aad@, min_epoch, r),
    {
        if is_all_zeros(key) {
            return Err(Error::Encryption("refusing all-zeros key".to_owned()));
        }
        if snapshot.len() < 12 {
            return Err(Error::Encryption("corrupt snapshot: no nonce".to_owned()));
        }
        let nonce_bytes = copy_range(snapshot, 0, 12);
        let mut nonce: [u8; 12] = [0u8; 12];
        let mut i: usize = 0;
        while i < 12
            invariant
                i <= 12,
                nonce_bytes@.len() == 12,
                forall|j: int| 0 <= j < i ==> nonce@[j] == nonce_bytes@[j],
            decreases 12 - i,
        {
            nonce[i] = nonce_bytes[i];
            i = i + 1;
        }
        assert(nonce@ =~= nonce_of(snapshot@));
        let sealed = copy_range(snapshot, 12, snapshot.len());
        let plaintext = match open(key, &nonce, aad, sealed.as_slice()) {
            Some(p) => p,
            None => return Err(Error::Encryption("AEAD open failed (wrong key or corrupt)".to_owned())),
        };
        let (group_id, user_id, scheme, p) = parse_front(plaintext.as_slice())?;
        if let Err(t) = crate::mls_ops::signature_scheme_known(scheme) {
            let e = corrupt(t.as_str());
            assert("corrupt snapshot: "@ + t@ =~= "corrupt snapshot: Unsupported SignatureScheme: "@ + decimal(scheme as nat)) by {
                reveal_strlit("corrupt snapshot: ");
                reveal_strlit("Unsupported SignatureScheme: ");
                reveal_strlit("corrupt snapshot: Unsupported SignatureScheme: ");
            }
            return Err(e);
        }
        let (public_key, header_epoch, p) = parse_back(plaintext.as_slice(), p)?;
        if header_epoch < min_epoch {
            return Ok(None);
        }
        let entries = parse_storage(plaintext.as_slice(), p)?;
        let mut crypto = crate::mls_ops::provider_new();
        crate::mls_ops::storage_replace(&mut crypto, entries);
        let group = match crate::mls_ops::group_load(&crypto, group_id.as_slice()) {
            Ok(Some(g)) => g,
            Ok(None) => return Ok(None),
            Err(t) => return Err(mls_error("Failed to load group: ", t.as_str())),
        };
        let signature_keys = match crate::mls_ops::signature_keys_read(&crypto, public_key.as_slice(), scheme) {
            Some(k) => k,
            None => return Err(Error::Encryption("corrupt snapshot: signature keypair missing from storage".to_owned())),
        };
        let credential_with_key = crate::mls_ops::credential_with_key(user_id.as_str(), &signature_keys);
        let loaded = crate::mls_ops::group_epoch(&group);
        if loaded != header_epoch {
            let m = prefixed("epoch mismatch: header ", decimal_string(header_epoch).as_str());
            let m = prefixed(m.as_str(), ", loaded ");
            let m = prefixed(m.as_str(), decimal_string(loaded).as_str());
            return Err(Error::Mls(m));
        }
        match MlsDocumentGroup::from_parts(user_id, group, crypto, signature_keys, credential_with_key) {
            Ok(g) => Ok(Some(g)),
            Err(e) => Err(e),
        }
    }
}

} // verus!
