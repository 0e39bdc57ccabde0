//! The geometry of the operational note edits that undo replays: moving notes
//! by a tick and key offset, and mirroring them inside a selection box.

use vstd::prelude::*;

verus! {

/// The highest key.
pub const MAX_KEY: u8 = 127;

/// `v` clamped to `lo..=hi`.
pub open spec fn clamp(v: int, lo: int, hi: int) -> int {
    if v < lo {
        lo
    } else if v > hi {
        hi
    } else {
        v
    }
}

/// The low 32 bits of a non-negative value (what `as u32` keeps).
pub open spec fn low32(v: int) -> int {
    v % 0x1_0000_0000
}

/// A note moved by `delta_ticks` and `delta_keys`: the start stops at 0 (and
/// keeps its low 32 bits), the length is kept, the key is clamped to the key
/// range.
pub open spec fn spec_shifted(start: u32, end: u32, key: u8, delta_ticks: i64, delta_keys: i32) -> (int, int, int) {
    let s = low32(clamp(start + delta_ticks, 0, start + delta_ticks));
    (s, s + (end - start), clamp(key + delta_keys, 0, MAX_KEY as int))
}

/// Moves one note: `(start, end, key)` by `(delta_ticks, delta_keys)`.
pub fn shifted_note(start: u32, end: u32, key: u8, delta_ticks: i64, delta_keys: i32) -> (r: (u32, u32, u8))
    requires
        start <= end,
        i32::MIN <= key + delta_keys <= i32::MAX,
        i64::MIN <= start + delta_ticks <= i64::MAX,
        spec_shifted(start, end, key, delta_ticks, delta_keys).1 <= u32::MAX,
    ensures
        (r.0 as int, r.1 as int, r.2 as int) == spec_shifted(start, end, key, delta_ticks, delta_keys),
{
    let k: i32 = key as i32 + delta_keys;
    let new_key: u8 = if k < 0 {
        0
    } else if k > MAX_KEY as i32 {
        MAX_KEY
    } else {
        k as u8
    };
    let t: i64 = start as i64 + delta_ticks;
    let t0: i64 = if t < 0 { 0 } else { t };
    let new_start: u32 = t0 as u32;
    proof {
        assert(t0 >= 0);
        assert(t0 as u32 == t0 % 0x1_0000_0000) by (bit_vector)
            requires t0 >= 0;
    }
    let length: u32 = end - start;
    (new_start, new_start + length, new_key)
}

/// The mirror of tick `v` in the box `t0..t1` (stopping at 0), the bounds
/// taken as signed 64-bit values.
pub open spec fn spec_mirror_tick(t0: u64, t1: u64, v: u32) -> int {
    let m = (t0 as i64) + ((t1 as i64) - v);
    low32(clamp(m, 0, m))
}

/// The signed 64-bit arithmetic of mirroring tick `v` does not overflow.
pub open spec fn mirror_fits(t0: u64, t1: u64, v: u32) -> bool {
    &&& i64::MIN <= (t1 as i64) - v <= i64::MAX
    &&& i64::MIN <= (t0 as i64) + ((t1 as i64) - v) <= i64::MAX
}

/// A note mirrored in time inside the box `t0..t1`: the new start is the
/// mirror of the end; the new end is the mirror of the start, at least one
/// tick after the new start.
pub open spec fn spec_mirrored(start: u32, end: u32, t0: u64, t1: u64) -> (int, int) {
    let s = spec_mirror_tick(t0, t1, end);
    let e = spec_mirror_tick(t0, t1, start);
    (s, if e > s + 1 { e } else { s + 1 })
}

/// Mirrors one note in time inside the box `t0..t1`.
pub fn mirrored_note(start: u32, end: u32, t0: u64, t1: u64) -> (r: (u32, u32))
    requires
        mirror_fits(t0, t1, start),
        mirror_fits(t0, t1, end),
        spec_mirror_tick(t0, t1, end) < u32::MAX,
    ensures
        (r.0 as int, r.1 as int) == spec_mirrored(start, end, t0, t1),
{
    let new_start = mirror_tick(t0, t1, end);
    let e = mirror_tick(t0, t1, start);
    let new_end: u32 = if e > new_start + 1 { e } else { new_start + 1 };
    (new_start, new_end)
}

fn mirror_tick(t0: u64, t1: u64, v: u32) -> (r: u32)
    requires
        mirror_fits(t0, t1, v),
    ensures
        r as int == spec_mirror_tick(t0, t1, v),
{
    let d: i64 = t1 as i64 - v as i64;
    let m: i64 = t0 as i64 + d;
    let m0: i64 = if m < 0 { 0 } else { m };
    proof {
        assert(m0 as u32 == m0 % 0x1_0000_0000) by (bit_vector)
            requires m0 >= 0;
    }
    m0 as u32
}

/// The mirror of a key inside the key range `kl..=kh`, clamped to the key range.
pub open spec fn spec_mirrored_key(key: u8, kl: u8, kh: u8) -> int {
    clamp(kl + kh - key, 0, MAX_KEY as int)
}

/// Mirrors one note's key inside `kl..=kh`.
pub fn mirrored_key(key: u8, kl: u8, kh: u8) -> (r: u8)
    ensures
        r as int == spec_mirrored_key(key, kl, kh),
{
    let k: i32 = kl as i32 + kh as i32 - key as i32;
    if k < 0 {
        0
    } else if k > MAX_KEY as i32 {
        MAX_KEY
    } else {
        k as u8
    }
}

/// Mirroring twice gives the note back, for a note inside the box (the case
/// that undo replays; notes crossing the box are undone from a copy).
pub proof fn lemma_mirror_twice(start: u32, end: u32, t0: u64, t1: u64)
    requires
        t0 <= start,
        start < end,
        end <= t1,
        t1 <= u32::MAX,
    ensures
        ({
            let (s, e) = spec_mirrored(start, end, t0, t1);
            0 <= s < e <= u32::MAX && spec_mirrored(s as u32, e as u32, t0, t1) == (start as int, end as int)
        }),
{
    let s = t0 + t1 - end;
    let e = t0 + t1 - start;
    assert(0 <= s < 0x1_0000_0000);
    assert(0 <= e < 0x1_0000_0000);
    assert(low32(s) == s);
    assert(low32(e) == e);
    assert(spec_mirror_tick(t0, t1, end) == s);
    assert(spec_mirror_tick(t0, t1, start) == e);
    assert(spec_mirrored(start, end, t0, t1) == (s, e));
    let su = s as u32;
    let eu = e as u32;
    assert(low32(t0 + t1 - eu) == start);
    assert(low32(t0 + t1 - su) == end);
}

/// Mirroring a key twice gives it back, for a key inside `kl..=kh` within
/// the key range.
pub proof fn lemma_mirror_key_twice(key: u8, kl: u8, kh: u8)
    requires
        kl <= key <= kh,
        kh <= MAX_KEY,
    ensures
        spec_mirrored_key(spec_mirrored_key(key, kl, kh) as u8, kl, kh) == key,
{
}

/// Moving notes back by the opposite offsets gives them back, when the move
/// neither clamped the start at 0 nor the key to the key range (moves that
/// clamp are undone from a copy).
pub proof fn lemma_shift_back(start: u32, end: u32, key: u8, delta_ticks: i64, delta_keys: i32)
    requires
        start <= end,
        0 <= start + delta_ticks,
        end + delta_ticks <= u32::MAX,
        key <= MAX_KEY,
        0 <= key + delta_keys <= MAX_KEY,
        delta_ticks > i64::MIN,
        delta_keys > i32::MIN,
    ensures
        ({
            let (s, e, k) = spec_shifted(start, end, key, delta_ticks, delta_keys);
            &&& 0 <= s <= e <= u32::MAX && 0 <= k <= MAX_KEY
            &&& spec_shifted(s as u32, e as u32, k as u8, -delta_ticks as i64, -delta_keys as i32) == (
                start as int,
                end as int,
                key as int,
            )
        }),
{
    let s = start + delta_ticks;
    assert(low32(s) == s);
    let e = s + (end - start);
    let k = key + delta_keys;
    assert(spec_shifted(start, end, key, delta_ticks, delta_keys) == (s, e, k));
    let su = s as u32;
    let eu = e as u32;
    let ku = k as u8;
    assert(su as int == s && eu as int == e && ku as int == k);
    let nd = (-delta_ticks) as i64;
    let nk = (-delta_keys) as i32;
    assert(nd as int == -delta_ticks && nk as int == -delta_keys);
    assert(su + nd == start as int);
    assert(low32(start as int) == start);
    assert(ku + nk == key as int);
    assert(spec_shifted(su, eu, ku, nd, nk) == (start as int, end as int, key as int));
}

} // verus!
