//! Identifier codec: plain component ids, encoded (relationship, target)
//! pair ids, flag bits, and wildcard-aware id matching.
//!
//! An id is a `u64`. The top four bits are reserved for flags; the bit
//! `PAIR_FLAG` marks an id as an encoded pair, whose relationship occupies
//! bits 32..60 and whose target occupies the low 32 bits. `OVERRIDE_FLAG`
//! marks an id for auto-overriding on inheritance. Ids are well-formed by
//! construction; the codec has no failure modes.

use vstd::prelude::*;

verus! {

/// Flag bit marking an id as an encoded (relationship, target) pair.
pub const PAIR_FLAG: u64 = 0x8000_0000_0000_0000;

/// Flag bit marking an id for auto-overriding on inheritance.
pub const OVERRIDE_FLAG: u64 = 0x4000_0000_0000_0000;

/// Mask selecting the id payload below the four flag bits.
pub const COMPONENT_MASK: u64 = 0x0FFF_FFFF_FFFF_FFFF;

/// Mask selecting the low 32 bits (the target of a pair).
pub const LOW_MASK: u64 = 0x0000_0000_FFFF_FFFF;

/// Builtin entity standing for "any target" in patterns.
pub const WILDCARD: u64 = 10;

/// Builtin entity standing for "at least one target" in patterns.
pub const ANY: u64 = 11;

/// Builtin relationship: inheritance.
pub const IS_A: u64 = 20;

/// Builtin relationship: hierarchy.
pub const CHILD_OF: u64 = 21;

/// Builtin relationship: execution dependency.
pub const DEPENDS_ON: u64 = 22;

/// Builtin relationship: prefab slot.
pub const SLOT_OF: u64 = 23;

/// Builtin trait tag: a relationship with this tag permits only one live
/// target per entity.
pub const EXCLUSIVE: u64 = 24;

/// Builtin tag marking an entity as disabled.
pub const DISABLED: u64 = 25;

/// A component id valid as the relationship part of a pair: nonzero and
/// small enough that shifting it into bits 32..60 touches no flag bit.
pub open spec fn valid_component(id: u64) -> bool {
    0 < id < 0x1000_0000
}

/// A target id valid as the second element of a pair: nonzero and
/// representable in the low 32 bits.
pub open spec fn valid_target(id: u64) -> bool {
    0 < id < 0x1_0000_0000
}

pub open spec fn spec_is_pair(id: u64) -> bool {
    id & PAIR_FLAG != 0
}

pub open spec fn spec_strip_flags(id: u64) -> u64 {
    id & COMPONENT_MASK
}

pub open spec fn spec_pair_first(id: u64) -> u64 {
    (id & COMPONENT_MASK) >> 32
}

pub open spec fn spec_pair_second(id: u64) -> u64 {
    id & LOW_MASK
}

pub open spec fn spec_encode(first: u64, second: u64) -> u64 {
    PAIR_FLAG | ((first & LOW_MASK) << 32) | (second & LOW_MASK)
}

/// What `decode` yields: the two elements of a pair, or the flag-stripped
/// id with a zero second element when the id is not a pair.
pub open spec fn spec_decode(id: u64) -> (u64, u64) {
    if spec_is_pair(id) {
        (spec_pair_first(id), spec_pair_second(id))
    } else {
        (spec_strip_flags(id), 0)
    }
}

pub open spec fn spec_with_override(id: u64) -> u64 {
    id | OVERRIDE_FLAG
}

/// Wildcard-aware matching of a stored id against a pattern. A pair
/// pattern matches a stored pair elementwise, where `WILDCARD` in either
/// position matches anything; a plain pattern matches a plain stored id
/// exactly, or any plain stored id when the pattern is `WILDCARD`.
pub open spec fn spec_id_matches(stored: u64, pattern: u64) -> bool {
    if spec_is_pair(pattern) && spec_is_pair(stored) {
        &&& (spec_pair_first(pattern) == WILDCARD || spec_pair_first(pattern)
            == spec_pair_first(stored))
        &&& (spec_pair_second(pattern) == WILDCARD || spec_pair_second(pattern)
            == spec_pair_second(stored))
    } else if !spec_is_pair(pattern) && !spec_is_pair(stored) {
        pattern == stored || pattern == WILDCARD
    } else {
        false
    }
}

/// True when the id has the pair flag set.
pub fn is_pair(id: u64) -> (r: bool)
    ensures
        r == spec_is_pair(id),
{
    id & PAIR_FLAG != 0
}

/// Encode a (relationship, target) pair id from its two elements.
pub fn encode(first: u64, second: u64) -> (r: u64)
    ensures
        r == spec_encode(first, second),
{
    PAIR_FLAG | ((first & LOW_MASK) << 32u64) | (second & LOW_MASK)
}

/// Decode an id into (first, second); second is 0 when the id is not a
/// pair.
pub fn decode(id: u64) -> (r: (u64, u64))
    ensures
        r == spec_decode(id),
{
    if id & PAIR_FLAG != 0 {
        ((id & COMPONENT_MASK) >> 32u64, id & LOW_MASK)
    } else {
        (id & COMPONENT_MASK, 0)
    }
}

/// Clear all flag bits of an id.
pub fn strip_flags(id: u64) -> (r: u64)
    ensures
        r == spec_strip_flags(id),
{
    id & COMPONENT_MASK
}

/// The relationship element of a pair id.
pub fn pair_first(id: u64) -> (r: u64)
    ensures
        r == spec_pair_first(id),
{
    (id & COMPONENT_MASK) >> 32u64
}

/// The target element of a pair id.
pub fn pair_second(id: u64) -> (r: u64)
    ensures
        r == spec_pair_second(id),
{
    id & LOW_MASK
}

/// Mark an id for auto-overriding.
pub fn with_override(id: u64) -> (r: u64)
    ensures
        r == spec_with_override(id),
{
    id | OVERRIDE_FLAG
}

/// Wildcard-aware matching of a stored id against a pattern.
pub fn id_matches(stored: u64, pattern: u64) -> (r: bool)
    ensures
        r == spec_id_matches(stored, pattern),
{
    let stored_pair = stored & PAIR_FLAG != 0;
    let pattern_pair = pattern & PAIR_FLAG != 0;
    if pattern_pair && stored_pair {
        let pf = pair_first(pattern);
        let ps = pair_second(pattern);
        let sf = pair_first(stored);
        let ss = pair_second(stored);
        (pf == WILDCARD || pf == sf) && (ps == WILDCARD || ps == ss)
    } else if !pattern_pair && !stored_pair {
        pattern == stored || pattern == WILDCARD
    } else {
        false
    }
}

/// Law: the codec is lossless. Encoding any valid (relationship, target)
/// pair and decoding the result yields the pair back, and the encoded id
/// carries the pair flag.
pub proof fn lemma_codec_roundtrip(r: u64, t: u64)
    requires
        valid_component(r),
        valid_target(t),
    ensures
        spec_decode(spec_encode(r, t)) == (r, t),
        spec_is_pair(spec_encode(r, t)),
{
    assert((0x8000_0000_0000_0000u64 | ((r & 0x0000_0000_FFFF_FFFFu64) << 32u64) | (t
        & 0x0000_0000_FFFF_FFFFu64)) & 0x8000_0000_0000_0000u64 != 0) by (bit_vector);
    let e = spec_encode(r, t);
    assert((((0x8000_0000_0000_0000u64 | ((r & 0x0000_0000_FFFF_FFFFu64) << 32u64) | (t
        & 0x0000_0000_FFFF_FFFFu64)) & 0x0FFF_FFFF_FFFF_FFFFu64) >> 32u64) == r) by (bit_vector)
        requires
            r < 0x1000_0000u64,
            t < 0x1_0000_0000u64,
    ;
    assert(((0x8000_0000_0000_0000u64 | ((r & 0x0000_0000_FFFF_FFFFu64) << 32u64) | (t
        & 0x0000_0000_FFFF_FFFFu64)) & 0x0000_0000_FFFF_FFFFu64) == t) by (bit_vector)
        requires
            r < 0x1000_0000u64,
            t < 0x1_0000_0000u64,
    ;
}

/// Law: a valid plain component id is never a pair, and carries no flag
/// bits at all.
pub proof fn lemma_plain_id_not_pair(id: u64)
    requires
        valid_component(id),
    ensures
        !spec_is_pair(id),
        spec_strip_flags(id) == id,
        spec_decode(id) == (id, 0u64),
{
    assert(id & 0x8000_0000_0000_0000u64 == 0) by (bit_vector)
        requires
            id < 0x1000_0000u64,
    ;
    assert(id & 0x0FFF_FFFF_FFFF_FFFFu64 == id) by (bit_vector)
        requires
            id < 0x1000_0000u64,
    ;
}

/// Law: marking an id for auto-overriding does not disturb its payload:
/// the flag-stripped id, the pair flag and both pair elements are kept.
pub proof fn lemma_override_keeps_payload(id: u64)
    ensures
        spec_strip_flags(spec_with_override(id)) == spec_strip_flags(id),
        spec_is_pair(spec_with_override(id)) == spec_is_pair(id),
        spec_pair_first(spec_with_override(id)) == spec_pair_first(id),
        spec_pair_second(spec_with_override(id)) == spec_pair_second(id),
{
    assert((id | 0x4000_0000_0000_0000u64) & 0x0FFF_FFFF_FFFF_FFFFu64 == id
        & 0x0FFF_FFFF_FFFF_FFFFu64) by (bit_vector);
    assert(((id | 0x4000_0000_0000_0000u64) & 0x8000_0000_0000_0000u64 != 0) == (id
        & 0x8000_0000_0000_0000u64 != 0)) by (bit_vector);
    assert((id | 0x4000_0000_0000_0000u64) & 0x0000_0000_FFFF_FFFFu64 == id
        & 0x0000_0000_FFFF_FFFFu64) by (bit_vector);
}

/// Law: an encoded pair made of valid elements matches the pattern that
/// encodes the same relationship with a wildcard target, whatever the
/// target is.
pub proof fn lemma_wildcard_target_matches(r: u64, t: u64)
    requires
        valid_component(r),
        valid_target(t),
    ensures
        spec_id_matches(spec_encode(r, t), spec_encode(r, WILDCARD)),
{
    lemma_codec_roundtrip(r, t);
    lemma_codec_roundtrip(r, WILDCARD);
}

/// Law: marking a valid plain component id for auto-overriding yields a
/// different id (the marker never collides with the component itself),
/// and the marker is still not a pair.
pub proof fn lemma_override_differs(id: u64)
    requires
        valid_component(id),
    ensures
        spec_with_override(id) != id,
        !spec_is_pair(spec_with_override(id)),
{
    assert((id | 0x4000_0000_0000_0000u64) != id) by (bit_vector)
        requires
            id < 0x1000_0000u64,
    ;
    assert((id | 0x4000_0000_0000_0000u64) & 0x8000_0000_0000_0000u64 == 0) by (bit_vector)
        requires
            id < 0x1000_0000u64,
    ;
}

/// Law: marking an encoded pair for auto-overriding yields a different
/// id, provided the relationship leaves the flag bits untouched.
pub proof fn lemma_override_differs_pair(f: u64, s: u64)
    requires
        f < 0x4000_0000,
    ensures
        spec_with_override(spec_encode(f, s)) != spec_encode(f, s),
{
    assert(((0x8000_0000_0000_0000u64 | ((f & 0x0000_0000_FFFF_FFFFu64) << 32u64) | (s
        & 0x0000_0000_FFFF_FFFFu64)) | 0x4000_0000_0000_0000u64) != (0x8000_0000_0000_0000u64 | ((f
        & 0x0000_0000_FFFF_FFFFu64) << 32u64) | (s & 0x0000_0000_FFFF_FFFFu64))) by (bit_vector)
        requires
            f < 0x4000_0000u64,
    ;
}

} // verus!
