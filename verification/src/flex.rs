//! Flex layout: the alternate strategy for `display: flex` containers.
//!
//! Items are sized by a preliminary layout pass, partitioned into wrap
//! lines, and distributed along the main axis per `justify-content` and
//! across lines per `align-content` / `align-items`. Free main-axis space is
//! split in whole pixels; for `space-between` the division remainder is
//! spread one pixel at a time over the leading gaps, so the gaps sum to the
//! free space exactly.

use vstd::prelude::*;

use crate::geom::{cadd, in_range, smax, GEOM_MAX};
use crate::style::JustifyContent;

verus! {

/// The sum of a sequence of pixel gaps.
pub open spec fn sum_of(s: Seq<u64>) -> int
    decreases s.len(),
{
    if s.len() == 0 {
        0
    } else {
        sum_of(s.drop_last()) + s.last()
    }
}

/// The clamped sum of a sequence of pixel extents, folded as the layout
/// loops fold it: each summand added with clamped addition.
pub open spec fn csum(s: Seq<u64>) -> int
    decreases s.len(),
{
    if s.len() == 0 {
        0
    } else {
        cadd(csum(s.drop_last()), s.last() as int)
    }
}

/// The largest of a sequence of pixel extents (zero when empty).
pub open spec fn cmax_of(s: Seq<u64>) -> int
    decreases s.len(),
{
    if s.len() == 0 {
        0
    } else {
        smax(cmax_of(s.drop_last()), s.last() as int)
    }
}

/// The main-axis offset of item `k` in a line of `n` items with main sizes
/// `ws` and `free` spare pixels: the leading offset, then each earlier
/// item's main size and the gap after it, accumulated with clamped
/// addition. Consecutive placement: item `k + 1` starts where item `k`
/// ends, plus the distribution's gap.
pub open spec fn spec_main_offset(
    ws: Seq<u64>,
    free: int,
    n: int,
    justify: JustifyContent,
    k: int,
) -> int
    decreases k,
{
    if k <= 0 {
        spec_lead(free, n, justify)
    } else {
        cadd(
            spec_main_offset(ws, free, n, justify, k - 1),
            cadd(ws[k - 1] as int, spec_gap(free, n, justify, k - 1)),
        )
    }
}

/// The leading main-axis offset the distribution gives a line of `n` items
/// with `free` spare pixels.
pub open spec fn spec_lead(free: int, n: int, justify: JustifyContent) -> int {
    match justify {
        JustifyContent::FlexStart => 0,
        JustifyContent::FlexEnd => free,
        JustifyContent::Center => free / 2,
        JustifyContent::SpaceBetween => 0,
        JustifyContent::SpaceAround => if n > 0 {
            (free / n) / 2
        } else {
            0
        },
        JustifyContent::SpaceEvenly => {
            let divisor = if n >= GEOM_MAX { GEOM_MAX as int } else { n + 1 };
            free / divisor
        },
    }
}

/// The gap the distribution puts after item `k` (of `n - 1` gaps). For
/// `space-between` the division remainder spreads one extra pixel over the
/// leading gaps, so the gaps sum to the free space exactly.
pub open spec fn spec_gap(free: int, n: int, justify: JustifyContent, k: int) -> int {
    match justify {
        JustifyContent::FlexStart => 0,
        JustifyContent::FlexEnd => 0,
        JustifyContent::Center => 0,
        JustifyContent::SpaceBetween => if n > 1 {
            free / (n - 1) + if k < free % (n - 1) {
                1int
            } else {
                0
            }
        } else {
            0
        },
        JustifyContent::SpaceAround => if n > 0 {
            free / n
        } else {
            0
        },
        JustifyContent::SpaceEvenly => {
            let divisor = if n >= GEOM_MAX { GEOM_MAX as int } else { n + 1 };
            free / divisor
        },
    }
}

/// The main-axis distribution for one line: the leading offset and the gap
/// after each of the first `n - 1` items, given `free` spare pixels across
/// `n` items. The offset is exactly [`spec_lead`] and every gap exactly
/// [`spec_gap`].
///
/// For `space-between` with more than one item the gaps sum to the free
/// space exactly: the remainder of the division spreads one pixel at a time
/// over the leading gaps.
pub fn justify_gaps(free: u64, n: usize, justify: JustifyContent) -> (r: (u64, Vec<u64>))
    requires
        in_range(free as int),
    ensures
        in_range(r.0 as int),
        r.1@.len() == if n == 0 { 0int } else { n - 1 },
        forall|k: int| 0 <= k < r.1@.len() ==> (#[trigger] r.1@[k]) <= free,
        r.0 as int == spec_lead(free as int, n as int, justify),
        forall|k: int|
            0 <= k < r.1@.len() ==> (#[trigger] r.1@[k]) as int == spec_gap(
                free as int,
                n as int,
                justify,
                k,
            ),
        (justify == JustifyContent::SpaceBetween && n > 1) ==> sum_of(r.1@) == free,
        justify == JustifyContent::FlexStart ==> r.0 == 0 && (forall|k: int|
            0 <= k < r.1@.len() ==> (#[trigger] r.1@[k]) == 0),
        justify == JustifyContent::FlexEnd ==> r.0 == free && (forall|k: int|
            0 <= k < r.1@.len() ==> (#[trigger] r.1@[k]) == 0),
        justify == JustifyContent::Center ==> r.0 == free / 2 && (forall|k: int|
            0 <= k < r.1@.len() ==> (#[trigger] r.1@[k]) == 0),
        justify == JustifyContent::SpaceBetween ==> r.0 == 0,
        (justify == JustifyContent::SpaceAround && n > 0) ==> r.0 == (free / (n as u64)) / 2 && (
        forall|k: int| 0 <= k < r.1@.len() ==> (#[trigger] r.1@[k]) == free / (n as u64)),
        r.0 <= free,
    {
    let gap_count: usize = if n == 0 {
        0
    } else {
        n - 1
    };
    match justify {
        JustifyContent::FlexStart => (0, zero_gaps(gap_count)),
        JustifyContent::FlexEnd => (free, zero_gaps(gap_count)),
        JustifyContent::Center => (free / 2, zero_gaps(gap_count)),
        JustifyContent::SpaceBetween => {
            if n <= 1 {
                (0, zero_gaps(gap_count))
            } else {
                let m = (n - 1) as u64;
                let base = free / m;
                let rem = free % m;
                proof {
                    vstd::arithmetic::div_mod::lemma_fundamental_div_mod(free as int, m as int);
                    assert(m * (free as int / m as int) == base * m) by (nonlinear_arith)
                        requires
                            base == free as int / m as int,
                    ;
                    assert(base <= base * m) by (nonlinear_arith)
                        requires
                            base >= 0,
                            m >= 1,
                    ;
                    assert(base * m + rem == free);
                    if rem > 0 {
                        assert(base + 1 <= free);
                    }
                }
                let mut gaps: Vec<u64> = Vec::new();
                let mut i: u64 = 0;
                while i < m
                    invariant
                        0 < m,
                        free <= GEOM_MAX,
                        base == free / m,
                        rem == free % m,
                        0 <= rem < m,
                        base * m + rem == free,
                        base <= free,
                        base + 1 <= free || rem == 0,
                        i <= m,
                        gaps@.len() == i,
                        forall|k: int| 0 <= k < gaps@.len() ==> (#[trigger] gaps@[k]) <= free,
                        forall|k: int|
                            0 <= k < gaps@.len() ==> (#[trigger] gaps@[k]) as int == base + (
                            if k < rem {
                                1int
                            } else {
                                0
                            }),
                        sum_of(gaps@) == base * i + (if i <= rem {
                            i as int
                        } else {
                            rem as int
                        }),
                    decreases m - i,
                {
                    let ghost before = gaps@;
                    let extra: u64 = if i < rem {
                        1
                    } else {
                        0
                    };
                    let g = base + extra;
                    gaps.push(g);
                    proof {
                        assert((gaps@).drop_last() =~= before);
                        assert(sum_of(gaps@) == sum_of(before) + g);
                        assert(base * i + base == base * (i + 1)) by (nonlinear_arith);
                    }
                    i += 1;
                }
                proof {
                    assert(sum_of(gaps@) == base * m + rem);
                }
                (0, gaps)
            }
        },
        JustifyContent::SpaceAround => {
            if n == 0 {
                (0, zero_gaps(gap_count))
            } else {
                let spacing = free / (n as u64);
                (spacing / 2, even_gaps(gap_count, spacing, free))
            }
        },
        JustifyContent::SpaceEvenly => {
            let divisor: u64 = if (n as u64) >= GEOM_MAX {
                GEOM_MAX
            } else {
                n as u64 + 1
            };
            let spacing = free / divisor;
            (spacing, even_gaps(gap_count, spacing, free))
        },
    }
}

fn zero_gaps(count: usize) -> (r: Vec<u64>)
    ensures
        r@.len() == count,
        forall|k: int| 0 <= k < r@.len() ==> (#[trigger] r@[k]) == 0,
{
    let mut gaps: Vec<u64> = Vec::new();
    let mut i: usize = 0;
    while i < count
        invariant
            i <= count,
            gaps@.len() == i,
            forall|k: int| 0 <= k < gaps@.len() ==> (#[trigger] gaps@[k]) == 0,
        decreases count - i,
    {
        gaps.push(0);
        i += 1;
    }
    gaps
}

fn even_gaps(count: usize, spacing: u64, bound: u64) -> (r: Vec<u64>)
    requires
        spacing <= bound,
    ensures
        r@.len() == count,
        forall|k: int| 0 <= k < r@.len() ==> (#[trigger] r@[k]) == spacing,
        forall|k: int| 0 <= k < r@.len() ==> (#[trigger] r@[k]) <= bound,
{
    let mut gaps: Vec<u64> = Vec::new();
    let mut i: usize = 0;
    while i < count
        invariant
            spacing <= bound,
            i <= count,
            gaps@.len() == i,
            forall|k: int| 0 <= k < gaps@.len() ==> (#[trigger] gaps@[k]) == spacing,
        decreases count - i,
    {
        gaps.push(spacing);
        i += 1;
    }
    gaps
}

} // verus!
