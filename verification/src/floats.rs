//! Float management for one inline-layout pass.
//!
//! A [`FloatManager`] tracks the rectangles of left- and right-floated boxes
//! inside one container's content box and answers band queries: the available
//! horizontal interval at a height, after subtracting every float whose
//! vertical span covers it.
//!
//! Floats are placed by scanning candidate heights from the flow cursor down.
//! A candidate band is computed over the float's whole vertical span, so a
//! placed float never overlaps an already-registered float; when no band ever
//! fits, the float is squeezed into the band at the last candidate height
//! rather than looping forever — a documented lossy degradation. The manager
//! keeps the invariant that registered floats on the same side whose vertical
//! spans overlap never overlap horizontally.

use vstd::prelude::*;

use crate::geom::{cadd, csub, in_range, smax, smin, Rect, GEOM_MAX};
use crate::style::Float;

verus! {

/// The float's vertical span intersects the half-open band `[y0, y1)`.
pub open spec fn spans_overlap(f: Rect, y0: int, y1: int) -> bool {
    y0 < f.spec_bottom() && f.y < y1
}

/// The left bound of the band `[y0, y1)`: `base`, pushed right past the right
/// edge of every float in `fs` whose vertical span intersects the band.
pub open spec fn left_edge_at(fs: Seq<Rect>, y0: int, y1: int, base: int) -> int
    decreases fs.len(),
{
    if fs.len() == 0 {
        base
    } else {
        let prev = left_edge_at(fs.drop_last(), y0, y1, base);
        if spans_overlap(fs.last(), y0, y1) {
            smax(prev, fs.last().spec_right())
        } else {
            prev
        }
    }
}

/// The right bound of the band `[y0, y1)`: `base`, pulled left to the left
/// edge of every float in `fs` whose vertical span intersects the band.
pub open spec fn right_edge_at(fs: Seq<Rect>, y0: int, y1: int, base: int) -> int
    decreases fs.len(),
{
    if fs.len() == 0 {
        base
    } else {
        let prev = right_edge_at(fs.drop_last(), y0, y1, base);
        if spans_overlap(fs.last(), y0, y1) {
            smin(prev, fs.last().x as int)
        } else {
            prev
        }
    }
}

/// Every float intersecting the band lies left of the band's left bound.
pub proof fn lemma_left_edge_at(fs: Seq<Rect>, y0: int, y1: int, base: int)
    ensures
        left_edge_at(fs, y0, y1, base) >= base,
        forall|i: int|
            0 <= i < fs.len() && spans_overlap(#[trigger] fs[i], y0, y1) ==> fs[i].spec_right()
                <= left_edge_at(fs, y0, y1, base),
    decreases fs.len(),
{
    if fs.len() != 0 {
        lemma_left_edge_at(fs.drop_last(), y0, y1, base);
        assert forall|i: int|
            0 <= i < fs.len() && spans_overlap(#[trigger] fs[i], y0, y1) implies fs[i].spec_right()
            <= left_edge_at(fs, y0, y1, base) by {
            if i < fs.len() - 1 {
                assert(fs.drop_last()[i] == fs[i]);
            }
        }
    }
}

/// Every float intersecting the band lies right of the band's right bound.
pub proof fn lemma_right_edge_at(fs: Seq<Rect>, y0: int, y1: int, base: int)
    ensures
        right_edge_at(fs, y0, y1, base) <= base,
        forall|i: int|
            0 <= i < fs.len() && spans_overlap(#[trigger] fs[i], y0, y1) ==> right_edge_at(
                fs,
                y0,
                y1,
                base,
            ) <= fs[i].x as int,
    decreases fs.len(),
{
    if fs.len() != 0 {
        lemma_right_edge_at(fs.drop_last(), y0, y1, base);
        assert forall|i: int|
            0 <= i < fs.len() && spans_overlap(#[trigger] fs[i], y0, y1) implies right_edge_at(
            fs,
            y0,
            y1,
            base,
        ) <= fs[i].x as int by {
            if i < fs.len() - 1 {
                assert(fs.drop_last()[i] == fs[i]);
            }
        }
    }
}

/// The bottom-most edge among the floats (zero with no floats).
pub open spec fn floats_bottom_of(fs: Seq<Rect>) -> int
    decreases fs.len(),
{
    if fs.len() == 0 {
        0
    } else {
        smax(floats_bottom_of(fs.drop_last()), fs.last().spec_bottom())
    }
}

/// The least float bottom edge strictly below `y`, or `y` when every float
/// ends at or above `y`.
pub open spec fn clear_after(fs: Seq<Rect>, y: int) -> int
    decreases fs.len(),
{
    if fs.len() == 0 {
        y
    } else {
        let prev = clear_after(fs.drop_last(), y);
        let b = fs.last().spec_bottom();
        if b > y && (prev == y || b < prev) {
            b
        } else {
            prev
        }
    }
}

pub proof fn lemma_clear_after(fs: Seq<Rect>, y: int)
    requires
        forall|i: int| 0 <= i < fs.len() ==> (#[trigger] fs[i]).wf(),
        0 <= y,
    ensures
        clear_after(fs, y) == y || (y < clear_after(fs, y) <= GEOM_MAX),
    decreases fs.len(),
{
    if fs.len() != 0 {
        assert(fs[fs.len() - 1].wf());
        lemma_clear_after(fs.drop_last(), y);
    }
}

/// The spot placement chooses among registered floats `ls` (left) and `rs`
/// (right) between the content bounds, for a float of `width` x `height`
/// scanning down from `y`: candidate heights are `y` and, below it, each
/// least float bottom in turn; the float sits at the first candidate whose
/// band over its vertical span fits the width, flush against the band edge
/// of its side; when no candidate is left it is squeezed into the band at
/// the last candidate height. The result is `(x, placed y, placed width)`.
pub open spec fn spot_of(
    ls: Seq<Rect>,
    rs: Seq<Rect>,
    cl: int,
    cr: int,
    side: Float,
    width: int,
    height: int,
    y: int,
) -> (int, int, int)
    decreases GEOM_MAX - y,
    when 0 <= y <= GEOM_MAX
{
    let bl = left_edge_at(ls, y, cadd(y, height), cl);
    let br = right_edge_at(rs, y, cadd(y, height), cr);
    if bl <= br && width <= br - bl {
        ((if side == Float::Left {
            bl
        } else {
            br - width
        }), y, width)
    } else {
        let ny = clear_after(ls + rs, y);
        if y < ny && ny <= GEOM_MAX {
            spot_of(ls, rs, cl, cr, side, width, height, ny)
        } else {
            let w = csub(br, bl);
            ((if side == Float::Left {
                bl
            } else {
                br - w
            }), y, w)
        }
    }
}

/// No two floats of the side whose vertical spans intersect overlap
/// horizontally, and every registered rectangle is in pixel range.
pub open spec fn side_ok(fs: Seq<Rect>) -> bool {
    &&& forall|i: int| 0 <= i < fs.len() ==> (#[trigger] fs[i]).wf()
    &&& forall|i: int, j: int|
        0 <= i < fs.len() && 0 <= j < fs.len() && i != j && (#[trigger] fs[i]).vert_overlaps(
            #[trigger] fs[j],
        ) ==> !fs[i].horiz_overlaps(fs[j])
}

/// Left and right float rectangles registered during one inline-children
/// pass, together with the content box's horizontal bounds.
pub struct FloatManager {
    pub left_floats: Vec<Rect>,
    pub right_floats: Vec<Rect>,
    pub content_left: u64,
    pub content_right: u64,
}

impl FloatManager {
    pub open spec fn wf(self) -> bool {
        &&& side_ok(self.left_floats@)
        &&& side_ok(self.right_floats@)
        &&& in_range(self.content_left as int)
        &&& in_range(self.content_right as int)
        &&& self.content_left <= self.content_right
    }

    /// An empty manager for a content box spanning `[content_left,
    /// content_right)` horizontally.
    pub fn new(content_left: u64, content_right: u64) -> (fm: FloatManager)
        requires
            in_range(content_left as int),
            in_range(content_right as int),
            content_left <= content_right,
        ensures
            fm.wf(),
            fm.left_floats@ == Seq::<Rect>::empty(),
            fm.right_floats@ == Seq::<Rect>::empty(),
            fm.content_left == content_left,
            fm.content_right == content_right,
    {
        FloatManager {
            left_floats: Vec::new(),
            right_floats: Vec::new(),
            content_left,
            content_right,
        }
    }

    /// The band bounds over the vertical span `[y, y + h)`.
    pub open spec fn spec_band(self, y: int, h: int) -> (int, int) {
        (
            left_edge_at(self.left_floats@, y, cadd(y, h), self.content_left as int),
            right_edge_at(self.right_floats@, y, cadd(y, h), self.content_right as int),
        )
    }

    /// The available horizontal band over the vertical span `[y, y + h)`:
    /// the content bounds, narrowed by every float whose span intersects it.
    pub fn band_over(&self, y: u64, h: u64) -> (r: (u64, u64))
        requires
            self.wf(),
            in_range(y as int),
            in_range(h as int),
        ensures
            r.0 as int == self.spec_band(y as int, h as int).0,
            r.1 as int == self.spec_band(y as int, h as int).1,
            in_range(r.0 as int),
            in_range(r.1 as int),
    {
        let y1 = crate::geom::gadd(y, h);
        let mut ls = self.content_left;
        let mut i: usize = 0;
        while i < self.left_floats.len()
            invariant
                self.wf(),
                in_range(y as int),
                y1 as int == cadd(y as int, h as int),
                i <= self.left_floats@.len(),
                ls as int == left_edge_at(
                    self.left_floats@.take(i as int),
                    y as int,
                    y1 as int,
                    self.content_left as int,
                ),
                in_range(ls as int),
            decreases self.left_floats@.len() - i,
        {
            proof {
                assert(self.left_floats@.take(i as int + 1).drop_last() =~= self.left_floats@.take(
                    i as int,
                ));
                assert(self.left_floats@[i as int].wf());
            }
            let f = self.left_floats[i];
            if y < f.bottom_edge() && f.y < y1 {
                ls = crate::geom::gmax(ls, f.right_edge());
            }
            i += 1;
        }
        let mut rs = self.content_right;
        let mut j: usize = 0;
        while j < self.right_floats.len()
            invariant
                self.wf(),
                in_range(y as int),
                y1 as int == cadd(y as int, h as int),
                j <= self.right_floats@.len(),
                rs as int == right_edge_at(
                    self.right_floats@.take(j as int),
                    y as int,
                    y1 as int,
                    self.content_right as int,
                ),
                in_range(rs as int),
            decreases self.right_floats@.len() - j,
        {
            proof {
                assert(self.right_floats@.take(j as int + 1).drop_last()
                    =~= self.right_floats@.take(j as int));
                assert(self.right_floats@[j as int].wf());
            }
            let f = self.right_floats[j];
            if y < f.bottom_edge() && f.y < y1 {
                rs = crate::geom::gmin(rs, f.x);
            }
            j += 1;
        }
        proof {
            assert(self.left_floats@.take(self.left_floats@.len() as int) =~= self.left_floats@);
            assert(self.right_floats@.take(self.right_floats@.len() as int)
                =~= self.right_floats@);
        }
        (ls, rs)
    }

    /// The band at a single line: the span `[y, y + 1)`.
    pub fn line_bounds(&self, y: u64) -> (r: (u64, u64))
        requires
            self.wf(),
            in_range(y as int),
        ensures
            r.0 as int == self.spec_band(y as int, 1).0,
            r.1 as int == self.spec_band(y as int, 1).1,
            in_range(r.0 as int),
            in_range(r.1 as int),
    {
        self.band_over(y, 1)
    }

    /// The bottom-most edge of all registered floats (zero with none).
    pub open spec fn spec_bottom(self) -> int {
        smax(floats_bottom_of(self.left_floats@), floats_bottom_of(self.right_floats@))
    }

    pub fn bottom(&self) -> (r: u64)
        requires
            self.wf(),
        ensures
            r as int == self.spec_bottom(),
            in_range(r as int),
    {
        let mut b: u64 = 0;
        let mut i: usize = 0;
        while i < self.left_floats.len()
            invariant
                self.wf(),
                i <= self.left_floats@.len(),
                b as int == floats_bottom_of(self.left_floats@.take(i as int)),
                in_range(b as int),
            decreases self.left_floats@.len() - i,
        {
            proof {
                assert(self.left_floats@.take(i as int + 1).drop_last() =~= self.left_floats@.take(
                    i as int,
                ));
                assert(self.left_floats@[i as int].wf());
            }
            let f = self.left_floats[i];
            b = crate::geom::gmax(b, f.bottom_edge());
            i += 1;
        }
        proof {
            assert(self.left_floats@.take(self.left_floats@.len() as int) =~= self.left_floats@);
        }
        let mut br: u64 = 0;
        let mut j: usize = 0;
        while j < self.right_floats.len()
            invariant
                self.wf(),
                j <= self.right_floats@.len(),
                br as int == floats_bottom_of(self.right_floats@.take(j as int)),
                in_range(br as int),
            decreases self.right_floats@.len() - j,
        {
            proof {
                assert(self.right_floats@.take(j as int + 1).drop_last()
                    =~= self.right_floats@.take(j as int));
                assert(self.right_floats@[j as int].wf());
            }
            let f = self.right_floats[j];
            br = crate::geom::gmax(br, f.bottom_edge());
            j += 1;
        }
        proof {
            assert(self.right_floats@.take(self.right_floats@.len() as int)
                =~= self.right_floats@);
        }
        crate::geom::gmax(b, br)
    }

    /// The next candidate height below `y` with more horizontal room: the
    /// least float bottom strictly below `y`, or `y` itself when no float
    /// reaches below it.
    pub open spec fn spec_next_clear(self, y: int) -> int {
        clear_after(self.left_floats@ + self.right_floats@, y)
    }

    pub fn next_clear_y(&self, y: u64) -> (r: u64)
        requires
            self.wf(),
            in_range(y as int),
        ensures
            r as int == self.spec_next_clear(y as int),
            in_range(r as int),
            r >= y,
    {
        let ghost all = self.left_floats@ + self.right_floats@;
        let mut cur = y;
        let mut i: usize = 0;
        while i < self.left_floats.len()
            invariant
                self.wf(),
                in_range(y as int),
                i <= self.left_floats@.len(),
                all == self.left_floats@ + self.right_floats@,
                cur as int == clear_after(self.left_floats@.take(i as int), y as int),
                in_range(cur as int),
                cur >= y,
            decreases self.left_floats@.len() - i,
        {
            proof {
                assert(self.left_floats@.take(i as int + 1).drop_last() =~= self.left_floats@.take(
                    i as int,
                ));
                assert(self.left_floats@[i as int].wf());
            }
            let f = self.left_floats[i];
            let b = f.bottom_edge();
            if b > y && (cur == y || b < cur) {
                cur = b;
            }
            i += 1;
        }
        proof {
            assert(self.left_floats@.take(self.left_floats@.len() as int) =~= self.left_floats@);
            assert(all.take(self.left_floats@.len() as int) =~= self.left_floats@);
        }
        let mut j: usize = 0;
        while j < self.right_floats.len()
            invariant
                self.wf(),
                in_range(y as int),
                j <= self.right_floats@.len(),
                all == self.left_floats@ + self.right_floats@,
                cur as int == clear_after(
                    all.take(self.left_floats@.len() + j as int),
                    y as int,
                ),
                in_range(cur as int),
                cur >= y,
            decreases self.right_floats@.len() - j,
        {
            proof {
                assert(all.take(self.left_floats@.len() + j as int + 1).drop_last() =~= all.take(
                    self.left_floats@.len() + j as int,
                ));
                assert(all.take(self.left_floats@.len() + j as int + 1).last()
                    == self.right_floats@[j as int]);
                assert(self.right_floats@[j as int].wf());
            }
            let f = self.right_floats[j];
            let b = f.bottom_edge();
            if b > y && (cur == y || b < cur) {
                cur = b;
            }
            j += 1;
        }
        proof {
            assert(all.take(all.len() as int) =~= all);
        }
        cur
    }

    /// The spot placement chooses for a float of `width` x `height` scanning
    /// down from `y`: candidate heights are `y` and, below it, each least
    /// float bottom in turn; the float sits at the first candidate whose
    /// band over its vertical span fits the width, flush against the band
    /// edge of its side. When no candidate is left (nothing clears below),
    /// it is squeezed into the band at the last candidate height. The result
    /// is `(x, placed y, placed width)`.
    pub open spec fn spec_spot(self, side: Float, width: int, height: int, y: int) -> (
        int,
        int,
        int,
    ) {
        spot_of(
            self.left_floats@,
            self.right_floats@,
            self.content_left as int,
            self.content_right as int,
            side,
            width,
            height,
            y,
        )
    }

    /// Find the placement spot for a float of `width` x `height` scanning
    /// down from `y`: the first candidate height whose band fits the width,
    /// or — when no clearing candidate is left — the squeeze at the current
    /// band. Returns `(x, placed_y, placed_width)`, exactly [`Self::spec_spot`].
    fn find_spot(&self, side: Float, width: u64, height: u64, y: u64) -> (r: (u64, u64, u64))
        requires
            self.wf(),
            side == Float::Left || side == Float::Right,
            in_range(width as int),
            in_range(height as int),
            in_range(y as int),
        ensures
            ({
                let spot = self.spec_spot(side, width as int, height as int, y as int);
                &&& r.0 as int == spot.0
                &&& r.1 as int == spot.1
                &&& r.2 as int == spot.2
            }),
            ({
                let band = self.spec_band(r.1 as int, height as int);
                &&& in_range(r.0 as int)
                &&& in_range(r.1 as int)
                &&& in_range(r.2 as int)
                &&& r.1 >= y
                &&& r.2 <= width
                &&& (side == Float::Left ==> r.0 as int == band.0)
                &&& (side == Float::Right ==> r.0 + r.2 == band.1)
                &&& (csub(band.1, band.0) >= width ==> r.2 == width)
                &&& (r.2 < width ==> r.2 as int == csub(band.1, band.0))
            }),
        decreases GEOM_MAX - y,
    {
        let (ls, le) = self.band_over(y, height);
        if ls <= le && width <= le - ls {
            let x = if side == Float::Left {
                ls
            } else {
                le - width
            };
            (x, y, width)
        } else {
            let ny = self.next_clear_y(y);
            if ny > y {
                proof {
                    let all = self.left_floats@ + self.right_floats@;
                    assert forall|i: int| 0 <= i < all.len() implies (#[trigger] all[i]).wf() by {
                        if i < self.left_floats@.len() {
                            assert(all[i] == self.left_floats@[i]);
                        } else {
                            assert(all[i] == self.right_floats@[i - self.left_floats@.len()]);
                        }
                    }
                    lemma_clear_after(all, y as int);
                }
                self.find_spot(side, width, height, ny)
            } else {
                // Failsafe: nothing clears below; squeeze into the band here.
                let w = crate::geom::gsub(le, ls);
                let x = if side == Float::Left {
                    ls
                } else {
                    le - w
                };
                (x, y, w)
            }
        }
    }

    /// Place and register a float of `width` x `height`, scanning down from
    /// `start_y`. The placed rectangle is exactly the spot [`Self::spec_spot`]
    /// chooses: the first candidate height (at `start_y` or below) whose band
    /// fits the width, flush against the band edge of its side; a float that
    /// fits nowhere is squeezed into the band at the last candidate height.
    /// Placement preserves the non-overlap invariant, and the other side's
    /// registry is untouched.
    pub fn place(&mut self, side: Float, width: u64, height: u64, start_y: u64) -> (r: Rect)
        requires
            old(self).wf(),
            side == Float::Left || side == Float::Right,
            in_range(width as int),
            in_range(height as int),
            in_range(start_y as int),
        ensures
            final(self).wf(),
            r.wf(),
            r.height == height,
            r.width <= width,
            r.y >= start_y,
            ({
                let spot = old(self).spec_spot(
                    side,
                    width as int,
                    height as int,
                    start_y as int,
                );
                &&& r.x as int == spot.0
                &&& r.y as int == spot.1
                &&& r.width as int == spot.2
            }),
            ({
                let band = old(self).spec_band(r.y as int, height as int);
                &&& (side == Float::Left ==> r.x as int == band.0)
                &&& (side == Float::Right ==> r.x + r.width == band.1)
                &&& (csub(band.1, band.0) >= width ==> r.width == width)
                &&& (r.width < width ==> r.width as int == csub(band.1, band.0))
            }),
            final(self).content_left == old(self).content_left,
            final(self).content_right == old(self).content_right,
            side == Float::Left ==> final(self).left_floats@ == old(self).left_floats@.push(r)
                && final(self).right_floats@ == old(self).right_floats@,
            side == Float::Right ==> final(self).right_floats@ == old(self).right_floats@.push(r)
                && final(self).left_floats@ == old(self).left_floats@,
    {
        let spot = self.find_spot(side, width, height, start_y);
        let rect = Rect { x: spot.0, y: spot.1, width: spot.2, height };
        proof {
            let y1 = cadd(rect.y as int, height as int);
            if side == Float::Left {
                lemma_left_edge_at(
                    self.left_floats@,
                    rect.y as int,
                    y1,
                    self.content_left as int,
                );
                assert forall|i: int, j: int|
                    0 <= i < self.left_floats@.push(rect).len() && 0 <= j
                        < self.left_floats@.push(rect).len() && i != j && (
                    #[trigger] self.left_floats@.push(rect)[i]).vert_overlaps(
                        #[trigger] self.left_floats@.push(rect)[j],
                    ) implies !self.left_floats@.push(rect)[i].horiz_overlaps(
                    self.left_floats@.push(rect)[j],
                ) by {
                    let fs = self.left_floats@;
                    let n = fs.len() as int;
                    if i < n && j < n {
                        assert(fs.push(rect)[i] == fs[i]);
                        assert(fs.push(rect)[j] == fs[j]);
                    } else if i == n && j < n {
                        assert(fs.push(rect)[j] == fs[j]);
                        assert(spans_overlap(fs[j], rect.y as int, y1));
                    } else if j == n && i < n {
                        assert(fs.push(rect)[i] == fs[i]);
                        assert(spans_overlap(fs[i], rect.y as int, y1));
                    }
                }
            } else {
                lemma_right_edge_at(
                    self.right_floats@,
                    rect.y as int,
                    y1,
                    self.content_right as int,
                );
                assert forall|i: int, j: int|
                    0 <= i < self.right_floats@.push(rect).len() && 0 <= j
                        < self.right_floats@.push(rect).len() && i != j && (
                    #[trigger] self.right_floats@.push(rect)[i]).vert_overlaps(
                        #[trigger] self.right_floats@.push(rect)[j],
                    ) implies !self.right_floats@.push(rect)[i].horiz_overlaps(
                    self.right_floats@.push(rect)[j],
                ) by {
                    let fs = self.right_floats@;
                    let n = fs.len() as int;
                    if i < n && j < n {
                        assert(fs.push(rect)[i] == fs[i]);
                        assert(fs.push(rect)[j] == fs[j]);
                    } else if i == n && j < n {
                        assert(fs.push(rect)[j] == fs[j]);
                        assert(spans_overlap(fs[j], rect.y as int, y1));
                    } else if j == n && i < n {
                        assert(fs.push(rect)[i] == fs[i]);
                        assert(spans_overlap(fs[i], rect.y as int, y1));
                    }
                }
            }
        }
        if side == Float::Left {
            self.left_floats.push(rect);
        } else {
            self.right_floats.push(rect);
        }
        rect
    }
}

/// Float non-overlap: any two floats registered on the same side whose
/// vertical spans intersect have disjoint horizontal spans.
pub proof fn lemma_float_non_overlap(fm: FloatManager, left_side: bool, i: int, j: int)
    requires
        fm.wf(),
        i != j,
        left_side ==> 0 <= i < fm.left_floats@.len() && 0 <= j < fm.left_floats@.len()
            && fm.left_floats@[i].vert_overlaps(fm.left_floats@[j]),
        !left_side ==> 0 <= i < fm.right_floats@.len() && 0 <= j < fm.right_floats@.len()
            && fm.right_floats@[i].vert_overlaps(fm.right_floats@[j]),
    ensures
        left_side ==> !fm.left_floats@[i].horiz_overlaps(fm.left_floats@[j]),
        !left_side ==> !fm.right_floats@[i].horiz_overlaps(fm.right_floats@[j]),
{
}

} // verus!
