//! Byte layout of a candy machine account and the flags kept in it.
//!
//! After the serialized `CandyMachine` (padded to `CONFIG_ARRAY_START` bytes) the
//! account holds, in order: a little-endian `u32` count of the config lines that
//! were added, `items_available` config lines of `CONFIG_LINE_SIZE` bytes each, a
//! little-endian `u32` holding `items_available / 8`, the bitmask of added lines,
//! and the bitmask of lines already minted. Both bitmasks keep the flag of line `i`
//! in byte `i / 8`, most significant bit first.
use vstd::prelude::*;

verus! {

/// Longest name of a token, in bytes (as in the token metadata program).
pub const MAX_NAME_LENGTH: usize = 32;

/// Longest symbol of a token, in bytes (as in the token metadata program).
pub const MAX_SYMBOL_LENGTH: usize = 10;

/// Longest URI of a token, in bytes (as in the token metadata program).
pub const MAX_URI_LENGTH: usize = 200;

/// Largest royalty, in basis points: all of the sale.
pub const MAX_BASIS_POINTS: u16 = 10000;

/// Most creators a token may list (as in the token metadata program).
pub const MAX_CREATOR_LIMIT: usize = 5;

/// Serialized size of one creator: an address, a flag and a share.
pub const MAX_CREATOR_LEN: usize = 32 + 1 + 1;

/// Offset of the config line count: the largest serialized candy machine, with its
/// discriminator, fits below it.
pub const CONFIG_ARRAY_START: usize = 8 + // key
32 + // authority
32 + // wallet
33 + // token mint
4 + 6 + // uuid
8 + // price
8 + // items available
9 + // go live
10 + // end settings
4 + MAX_SYMBOL_LENGTH + // u32 len + symbol
2 + // seller fee basis points
4 + MAX_CREATOR_LIMIT * MAX_CREATOR_LEN + // optional + u32 len + actual vec
8 + // max supply
1 + // is mutable
1 + // retain authority
1 + // option for hidden setting
4 + MAX_NAME_LENGTH + // name length
4 + MAX_URI_LENGTH + // uri length
32 + // hash
4 + // max number of lines
8 + // items redeemed
1 + // whitelist option
1 + // whitelist mint mode
1 + // allow presale
9 + // discount price
32 + // mint key for whitelist
1 + 32 + 1; // gatekeeper

/// Size of one stored config line: a `u32` length and the padded name, then a
/// `u32` length and the padded URI.
pub const CONFIG_LINE_SIZE: usize = 4 + MAX_NAME_LENGTH + 4 + MAX_URI_LENGTH;

/// Offset of config line `i`.
pub open spec fn line_offset(i: int) -> int {
    CONFIG_ARRAY_START + 4 + i * CONFIG_LINE_SIZE
}

/// Offset of the `u32` that follows the config lines of an account with `items` lines.
pub open spec fn added_mask_len_offset(items: int) -> int {
    CONFIG_ARRAY_START + 4 + items * CONFIG_LINE_SIZE
}

/// Offset of the bitmask of added config lines.
pub open spec fn added_mask_start(items: int) -> int {
    added_mask_len_offset(items) + 4
}

/// Offset of the bitmask of config lines already minted.
pub open spec fn minted_mask_start(items: int) -> int {
    added_mask_len_offset(items) + 4 + items / 8 + 4
}

/// The flag of line `i` inside its byte.
pub open spec fn line_mask(i: int) -> u8 {
    1u8 << ((7 - i % 8) as u8)
}

/// Whether the bitmask starting at `start` has the flag of line `i` set.
pub open spec fn is_flagged(s: Seq<u8>, start: int, i: int) -> bool {
    s[start + i / 8] & line_mask(i) != 0
}

/// The bitmask with the flag of line `i` set.
pub open spec fn with_flag(s: Seq<u8>, start: int, i: int) -> Seq<u8> {
    s.update(start + i / 8, s[start + i / 8] | line_mask(i))
}

/// Little-endian value of the `u32` at `off`.
pub open spec fn le_u32_at(s: Seq<u8>, off: int) -> int {
    s[off] + 256 * s[off + 1] + 65536 * s[off + 2] + 16777216 * s[off + 3]
}

/// Little-endian value of the `u64` at `off`.
pub open spec fn le_u64_at(s: Seq<u8>, off: int) -> int {
    le_u32_at(s, off) + 4294967296 * le_u32_at(s, off + 4)
}

/// Little-endian bytes of `v`, which is below 2^32.
pub open spec fn le_u32_bytes(v: int) -> Seq<u8> {
    seq![(v % 256) as u8, ((v / 256) % 256) as u8, ((v / 65536) % 256) as u8, ((v / 16777216) % 256) as u8]
}

/// Config line `i` of an account with `items` lines ends before the bitmasks.
pub proof fn lemma_line_within(i: int, items: int)
    requires
        0 <= i < items,
    ensures
        line_offset(i) + CONFIG_LINE_SIZE <= added_mask_len_offset(items),
        0 <= line_offset(i),
{
    assert(i * CONFIG_LINE_SIZE + CONFIG_LINE_SIZE <= items * CONFIG_LINE_SIZE) by (nonlinear_arith)
        requires
            0 <= i < items,
            CONFIG_LINE_SIZE == 240,
    ;
    assert(i * CONFIG_LINE_SIZE >= 0) by (nonlinear_arith)
        requires
            0 <= i,
            CONFIG_LINE_SIZE == 240,
    ;
}

/// A full byte has every flag set.
pub proof fn lemma_full_byte_flags(b: u8, k: u8)
    by (bit_vector)
    requires
        b == 255u8,
        k < 8u8,
    ensures
        b & (1u8 << k) != 0u8,
{
}

/// Setting one flag of a byte sets it and keeps the others.
pub proof fn lemma_set_flag(b: u8, k: u8, j: u8)
    by (bit_vector)
    requires
        k < 8u8,
        j < 8u8,
    ensures
        ((b | (1u8 << k)) & (1u8 << j) != 0u8) == (j == k || b & (1u8 << j) != 0u8),
        (b & (1u8 << k) != 0u8) == ((b | (1u8 << k)) == b),
{
}

/// Flags of lines in other bytes, or at other positions of the same byte, are kept
/// when one flag is set.
pub proof fn lemma_with_flag(s: Seq<u8>, start: int, i: int, j: int)
    requires
        0 <= i,
        0 <= j,
        0 <= start,
        start + i / 8 < s.len(),
        start + j / 8 < s.len(),
    ensures
        is_flagged(with_flag(s, start, i), start, j) == (j == i || is_flagged(s, start, j)),
        with_flag(s, start, i).len() == s.len(),
{
    let k = (7 - i % 8) as u8;
    let m = (7 - j % 8) as u8;
    if i / 8 == j / 8 {
        lemma_set_flag(s[start + i / 8], k, m);
        if i % 8 == j % 8 {
            assert(i == j);
        } else {
            assert(i != j);
        }
    } else {
        assert(i != j);
    }
}

/// Setting a flag that is already set changes nothing.
pub proof fn lemma_with_flag_idempotent(s: Seq<u8>, start: int, i: int)
    requires
        0 <= i,
        0 <= start,
        start + i / 8 < s.len(),
        is_flagged(s, start, i),
    ensures
        with_flag(s, start, i) == s,
{
    lemma_set_flag(s[start + i / 8], (7 - i % 8) as u8, (7 - i % 8) as u8);
    assert(with_flag(s, start, i) =~= s);
}

/// The little-endian `u64` at `off` of `bytes`.
pub fn read_le_u64(bytes: &[u8], off: usize) -> (v: u64)
    requires
        off + 8 <= bytes@.len(),
    ensures
        v == le_u64_at(bytes@, off as int),
{
    let lo: u64 = bytes[off] as u64 + 256 * (bytes[off + 1] as u64) + 65536 * (bytes[off + 2] as u64)
        + 16777216 * (bytes[off + 3] as u64);
    let hi: u64 = bytes[off + 4] as u64 + 256 * (bytes[off + 5] as u64) + 65536 * (bytes[off
        + 6] as u64) + 16777216 * (bytes[off + 7] as u64);
    assert(hi * 4294967296 + lo <= u64::MAX) by (nonlinear_arith)
        requires
            hi <= 4294967295,
            lo <= 4294967295,
    ;
    lo + hi * 4294967296
}

} // verus!
