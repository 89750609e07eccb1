//! Content-addressed entry ids.

use vstd::prelude::*;
use vstd::string::*;
use vstd::utf8::encode_utf8;

use crate::text::{decimal, decimal_text};

verus! {

/// Live entry ids start above this base, and content ids stay below it, so that
/// the two never collide.
pub const LIVE_ID_BASE: u64 = 0x4000_0000_0000_0000;

/// FNV-1a offset basis.
pub const FNV_BASIS: u64 = 0xcbf2_9ce4_8422_2325;

/// FNV-1a prime.
pub const FNV_PRIME: u64 = 0x0100_0000_01b3;

/// The 64-bit FNV-1a hash.
pub open spec fn fnv_hash(bytes: Seq<u8>) -> u64
    decreases bytes.len(),
{
    if bytes.len() == 0 {
        FNV_BASIS
    } else {
        vstd::wrapping::u64_specs::wrapping_mul(
            fnv_hash(bytes.drop_last()) ^ (bytes.last() as u64),
            FNV_PRIME,
        )
    }
}

/// FNV-1a of a text's UTF-8 bytes.
pub fn fnv1a(data: &str) -> (h: u64)
    ensures
        h == fnv_hash(encode_utf8(data@)),
{
    let bytes = data.as_bytes();
    let ghost all = bytes@;
    let mut h: u64 = FNV_BASIS;
    let mut i: usize = 0;
    assert(all.take(0) =~= Seq::empty());
    while i < bytes.len()
        invariant
            i <= bytes@.len(),
            all == bytes@,
            h == fnv_hash(all.take(i as int)),
        decreases bytes@.len() - i,
    {
        assert(all.take(i + 1).drop_last() =~= all.take(i as int));
        h = (h ^ (bytes[i] as u64)).wrapping_mul(FNV_PRIME);
        i += 1;
    }
    assert(all.take(i as int) =~= all);
    h
}

/// What is hashed for an id: a kind tag, a content key and an occurrence index,
/// kept apart by a control character.
pub open spec fn id_text(tag: Seq<char>, key: Seq<char>, occurrence: nat) -> Seq<char> {
    tag + seq!['\u{1}'] + key + seq!['\u{1}'] + decimal(occurrence)
}

/// The id of an entry with this content, below [`LIVE_ID_BASE`].
pub open spec fn content_id(tag: Seq<char>, key: Seq<char>, occurrence: nat) -> u64 {
    fnv_hash(encode_utf8(id_text(tag, key, occurrence))) % LIVE_ID_BASE
}

/// A deterministic id, so that a reconnect's backfill produces the ids that the
/// live session used.
pub fn stable_id(tag: &str, key: &str, occurrence: usize) -> (id: u64)
    ensures
        id == content_id(tag@, key@, occurrence as nat),
        id < LIVE_ID_BASE,
{
    let mut text = tag.to_owned();
    text.push('\u{1}');
    text.append(key);
    text.push('\u{1}');
    text.append(decimal_text(occurrence as u64).as_str());
    assert(text@ =~= id_text(tag@, key@, occurrence as nat));
    fnv1a(text.as_str()) % LIVE_ID_BASE
}

// ── Laws ────────────────────────────────────────────────────────────────────

/// The hash takes in one byte after the other: none gives the basis, and each is mixed
/// into what came before it.
pub proof fn law_hash_mixes_every_byte(bytes: Seq<u8>, b: u8)
    ensures
        fnv_hash(Seq::empty()) == 0xcbf2_9ce4_8422_2325,
        fnv_hash(bytes.push(b)) == vstd::wrapping::u64_specs::wrapping_mul(
            fnv_hash(bytes) ^ (b as u64),
            0x0100_0000_01b3,
        ),
{
    assert(bytes.push(b).drop_last() =~= bytes);
}

/// An id is the hash of its tag, its key and its count, kept apart, and lies below the ids
/// of live entries.
pub proof fn law_ids_come_from_content(tag: Seq<char>, key: Seq<char>, occurrence: nat)
    ensures
        content_id(tag, key, occurrence) == fnv_hash(
            encode_utf8(tag + seq!['\u{1}'] + key + seq!['\u{1}'] + decimal(occurrence)),
        ) % 0x4000_0000_0000_0000,
        content_id(tag, key, occurrence) < 0x4000_0000_0000_0000,
{
}

} // verus!
