//! The weekly availability mask: seven words, one per day, whose low 24
//! bits mark the available hours of that day, always kept in UTC.
use vstd::prelude::*;

verus! {

/// The bits a day's word may use: one per hour.
pub const HOURS_MASK: u32 = 0x00FF_FFFF;

/// A mask of seven days, each using only its low 24 bits.
pub open spec fn mask_wf(m: Seq<u32>) -> bool {
    &&& m.len() == 7
    &&& forall|d: int| 0 <= d < 7 ==> #[trigger] m[d] <= HOURS_MASK
}

/// Hour `h` is marked in the day word `w`.
pub open spec fn has_hour(w: u32, h: u32) -> bool {
    (w >> h) & 1u32 == 1u32
}

/// A time zone offset in hours, strictly between -24 and 24.
pub open spec fn tz_ok(tz: int) -> bool {
    -24 < tz < 24
}

/// The UTC day of local hour `h` of day `d` under offset `tz`.
pub open spec fn utc_day(d: int, h: int, tz: int) -> int {
    if h - tz < 0 {
        (d + 6) % 7
    } else if h - tz >= 24 {
        (d + 1) % 7
    } else {
        d
    }
}

/// The UTC hour of local hour `h` under offset `tz`.
pub open spec fn utc_hour(h: int, tz: int) -> int {
    if h - tz < 0 {
        h - tz + 24
    } else if h - tz >= 24 {
        h - tz - 24
    } else {
        h - tz
    }
}

/// The UTC mask `m` marks local hour `h` of day `d` under offset `tz`.
pub open spec fn available_in(m: Seq<u32>, d: int, h: int, tz: int) -> bool {
    has_hour(m[utc_day(d, h, tz)], utc_hour(h, tz) as u32)
}

/// Day `d` lies in the inclusive range from day `s` to day `e`, wrapping
/// past Saturday when `e` comes before `s`.
pub open spec fn in_day_range(s: int, e: int, d: int) -> bool {
    if s <= e {
        s <= d <= e
    } else {
        d >= s || d <= e
    }
}

/// A day word seen `t` hours east of UTC: its own hours move `t` later, and
/// the last `t` hours of the day before fill its first hours.
pub open spec fn shl_word(cur: u32, prev: u32, t: u32) -> u32 {
    ((cur << t) & HOURS_MASK) | (prev >> ((24 - t) as u32))
}

/// A day word seen `s` hours west of UTC: its own hours move `s` earlier,
/// and the first `s` hours of the next day fill its last hours.
pub open spec fn shr_word(cur: u32, next: u32, s: u32) -> u32 {
    (cur >> s) | ((next << ((24 - s) as u32)) & HOURS_MASK)
}

/// The mask `m`, stored in UTC, as it reads at offset `tz`.
pub open spec fn rotated(m: Seq<u32>, tz: int) -> Seq<u32> {
    if tz > 0 {
        Seq::new(7, |d: int| shl_word(m[d], m[(d + 6) % 7], tz as u32))
    } else if tz < 0 {
        Seq::new(7, |d: int| shr_word(m[d], m[(d + 1) % 7], (-tz) as u32))
    } else {
        m
    }
}

/// The word `w` with hour `h` marked when `available`, cleared otherwise.
pub open spec fn with_hour(w: u32, h: u32, available: bool) -> u32 {
    if available {
        w | (1u32 << h)
    } else {
        w & !(1u32 << h)
    }
}

proof fn lemma_shl_word(cur: u32, prev: u32, t: u32, h: u32)
    by (bit_vector)
    requires
        cur <= 0x00FF_FFFF,
        prev <= 0x00FF_FFFF,
        0 < t < 24,
        h < 24,
    ensures
        shl_word(cur, prev, t) <= 0x00FF_FFFF,
        h >= t ==> (has_hour(shl_word(cur, prev, t), h) == has_hour(cur, (h - t) as u32)),
        h < t ==> (has_hour(shl_word(cur, prev, t), h) == has_hour(prev, (h + 24 - t) as u32)),
{
}

proof fn lemma_shr_word(cur: u32, next: u32, s: u32, h: u32)
    by (bit_vector)
    requires
        cur <= 0x00FF_FFFF,
        next <= 0x00FF_FFFF,
        0 < s < 24,
        h < 24,
    ensures
        shr_word(cur, next, s) <= 0x00FF_FFFF,
        h + s < 24 ==> (has_hour(shr_word(cur, next, s), h) == has_hour(cur, (h + s) as u32)),
        h + s >= 24 ==> (has_hour(shr_word(cur, next, s), h) == has_hour(next, (h + s - 24) as u32)),
{
}

proof fn lemma_shl_then_shr(a: u32, b: u32, c: u32, t: u32)
    by (bit_vector)
    requires
        a <= 0x00FF_FFFF,
        b <= 0x00FF_FFFF,
        c <= 0x00FF_FFFF,
        0 < t < 24,
    ensures
        shr_word(shl_word(b, a, t), shl_word(c, b, t), t) == b,
{
}

proof fn lemma_shr_then_shl(a: u32, b: u32, c: u32, s: u32)
    by (bit_vector)
    requires
        a <= 0x00FF_FFFF,
        b <= 0x00FF_FFFF,
        c <= 0x00FF_FFFF,
        0 < s < 24,
    ensures
        shl_word(shr_word(b, c, s), shr_word(a, b, s), s) == b,
{
}

proof fn lemma_with_hour_word(w: u32, h: u32, k: u32, available: bool)
    by (bit_vector)
    requires
        w <= 0x00FF_FFFF,
        h < 24,
        k < 24,
    ensures
        with_hour(w, h, available) <= 0x00FF_FFFF,
        has_hour(with_hour(w, h, available), k) == (if k == h {
            available
        } else {
            has_hour(w, k)
        }),
{
}

/// Marking or clearing one UTC hour keeps the mask well formed and changes
/// that hour alone.
pub proof fn lemma_with_hour(m: Seq<u32>, d: int, h: int, available: bool)
    requires
        mask_wf(m),
        0 <= d < 7,
        0 <= h < 24,
    ensures
        mask_wf(m.update(d, with_hour(m[d], h as u32, available))),
        forall|d2: int, h2: int|
            0 <= d2 < 7 && 0 <= h2 < 24 ==> #[trigger] has_hour(
                m.update(d, with_hour(m[d], h as u32, available))[d2],
                h2 as u32,
            ) == if d2 == d && h2 == h {
                available
            } else {
                has_hour(m[d2], h2 as u32)
            },
{
    lemma_with_hour_word(m[d], h as u32, 0, available);
    assert forall|d2: int, h2: int| 0 <= d2 < 7 && 0 <= h2 < 24 implies #[trigger] has_hour(
        m.update(d, with_hour(m[d], h as u32, available))[d2],
        h2 as u32,
    ) == if d2 == d && h2 == h {
        available
    } else {
        has_hour(m[d2], h2 as u32)
    } by {
        lemma_with_hour_word(m[d], h as u32, h2 as u32, available);
    }
}

/// Local hours map one to one onto UTC hours: two distinct local slots
/// never share a UTC slot.
pub proof fn lemma_utc_injective(d1: int, h1: int, d2: int, h2: int, tz: int)
    requires
        0 <= d1 < 7,
        0 <= d2 < 7,
        0 <= h1 < 24,
        0 <= h2 < 24,
        tz_ok(tz),
    ensures
        0 <= utc_day(d1, h1, tz) < 7,
        0 <= utc_hour(h1, tz) < 24,
        utc_day(d1, h1, tz) == utc_day(d2, h2, tz) && utc_hour(h1, tz) == utc_hour(h2, tz)
            ==> d1 == d2 && h1 == h2,
{
}

/// Rotation keeps a mask well formed, and hour `h` of day `d` in the rotated
/// mask is exactly the availability of that local slot in the UTC mask.
pub proof fn lemma_rotated_reads_local(m: Seq<u32>, tz: int, d: int, h: int)
    requires
        mask_wf(m),
        tz_ok(tz),
        0 <= d < 7,
        0 <= h < 24,
    ensures
        mask_wf(rotated(m, tz)),
        has_hour(rotated(m, tz)[d], h as u32) == available_in(m, d, h, tz),
{
    if tz > 0 {
        assert forall|e: int| 0 <= e < 7 implies #[trigger] rotated(m, tz)[e] <= HOURS_MASK by {
            lemma_shl_word(m[e], m[(e + 6) % 7], tz as u32, 0);
        }
        lemma_shl_word(m[d], m[(d + 6) % 7], tz as u32, h as u32);
    } else if tz < 0 {
        assert forall|e: int| 0 <= e < 7 implies #[trigger] rotated(m, tz)[e] <= HOURS_MASK by {
            lemma_shr_word(m[e], m[(e + 1) % 7], (-tz) as u32, 0);
        }
        lemma_shr_word(m[d], m[(d + 1) % 7], (-tz) as u32, h as u32);
    }
}

/// Reading a UTC mask at offset `tz` and taking the result back to UTC
/// gives the mask unchanged.
pub proof fn lemma_rotation_round_trip(m: Seq<u32>, tz: int)
    requires
        mask_wf(m),
        tz_ok(tz),
    ensures
        rotated(rotated(m, tz), -tz) == m,
{
    let r = rotated(m, tz);
    if tz > 0 {
        assert forall|d: int| 0 <= d < 7 implies #[trigger] rotated(r, -tz)[d] == m[d] by {
            let a = m[(d + 6) % 7];
            let c = m[(d + 1) % 7];
            assert(((d + 1) % 7 + 6) % 7 == d);
            lemma_shl_then_shr(a, m[d], c, tz as u32);
        }
    } else if tz < 0 {
        assert forall|d: int| 0 <= d < 7 implies #[trigger] rotated(r, -tz)[d] == m[d] by {
            let a = m[(d + 6) % 7];
            let c = m[(d + 1) % 7];
            assert(((d + 6) % 7 + 1) % 7 == d);
            lemma_shr_then_shl(a, m[d], c, (-tz) as u32);
        }
    }
    assert(rotated(r, -tz) =~= m);
}

proof fn lemma_word_ext(a: u32, b: u32)
    by (bit_vector)
    requires
        a <= 0x00FF_FFFF,
        b <= 0x00FF_FFFF,
        has_hour(a, 0u32) == has_hour(b, 0u32),
        has_hour(a, 1u32) == has_hour(b, 1u32),
        has_hour(a, 2u32) == has_hour(b, 2u32),
        has_hour(a, 3u32) == has_hour(b, 3u32),
        has_hour(a, 4u32) == has_hour(b, 4u32),
        has_hour(a, 5u32) == has_hour(b, 5u32),
        has_hour(a, 6u32) == has_hour(b, 6u32),
        has_hour(a, 7u32) == has_hour(b, 7u32),
        has_hour(a, 8u32) == has_hour(b, 8u32),
        has_hour(a, 9u32) == has_hour(b, 9u32),
        has_hour(a, 10u32) == has_hour(b, 10u32),
        has_hour(a, 11u32) == has_hour(b, 11u32),
        has_hour(a, 12u32) == has_hour(b, 12u32),
        has_hour(a, 13u32) == has_hour(b, 13u32),
        has_hour(a, 14u32) == has_hour(b, 14u32),
        has_hour(a, 15u32) == has_hour(b, 15u32),
        has_hour(a, 16u32) == has_hour(b, 16u32),
        has_hour(a, 17u32) == has_hour(b, 17u32),
        has_hour(a, 18u32) == has_hour(b, 18u32),
        has_hour(a, 19u32) == has_hour(b, 19u32),
        has_hour(a, 20u32) == has_hour(b, 20u32),
        has_hour(a, 21u32) == has_hour(b, 21u32),
        has_hour(a, 22u32) == has_hour(b, 22u32),
        has_hour(a, 23u32) == has_hour(b, 23u32),
    ensures
        a == b,
{
}

/// A well-formed mask is determined by how it reads at any one offset: two
/// masks that agree on every local slot are equal.
pub proof fn lemma_local_view_determines_mask(m1: Seq<u32>, m2: Seq<u32>, tz: int)
    requires
        mask_wf(m1),
        mask_wf(m2),
        tz_ok(tz),
        forall|d: int, h: int|
            0 <= d < 7 && 0 <= h < 24 ==> #[trigger] available_in(m1, d, h, tz) == available_in(m2, d, h, tz),
    ensures
        m1 == m2,
{
    assert forall|e: int| 0 <= e < 7 implies #[trigger] m1[e] == m2[e] by {
        assert forall|k: u32| k < 24 implies #[trigger] has_hour(m1[e], k) == has_hour(m2[e], k) by {
            let h = utc_hour(k as int, -tz);
            let d = utc_day(e, k as int, -tz);
            assert(utc_day(d, h, tz) == e);
            assert(utc_hour(h, tz) == k);
            assert(available_in(m1, d, h, tz) == available_in(m2, d, h, tz));
        }
        lemma_word_ext(m1[e], m2[e]);
    }
    assert(m1 =~= m2);
}

/// Reading a mask at offset zero leaves it as it is.
pub proof fn lemma_rotation_identity(m: Seq<u32>)
    ensures
        rotated(m, 0) == m,
{
}

} // verus!
