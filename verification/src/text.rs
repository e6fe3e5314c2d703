//! Text measurement and line breaking.
//!
//! The measurer wraps plain text into lines constrained by a maximum width.
//! Glyph metrics are an injected capability: anything implementing
//! [`FontMetrics`] supplies the width of a run of text, and the engine does
//! the splitting and greedy word-wrap itself. [`FixedAdvanceMetrics`] is a
//! deterministic implementation where every character has the same advance.
//!
//! Wrapping is greedy: words accumulate on a line while the line width plus a
//! separating space plus the next word still fits; a word that does not fit
//! starts a new line, and a single word wider than the maximum width is
//! placed alone on its own line, unbroken. Line height is a fixed 9/8
//! multiple of the font size.

use vstd::prelude::*;

use crate::geom::{cadd, in_range, smax, smin, GEOM_MAX};

verus! {

/// The glyph-metrics capability: the width of a run of text in a given
/// family at a given size. The width must be a pure function of the
/// arguments, as `spec_text_width` expresses.
pub trait FontMetrics {
    /// The width, in pixels, of `text` in `family` at `size`.
    spec fn spec_text_width(&self, family: u32, size: u32, text: Seq<char>) -> int;

    fn text_width(&self, family: u32, size: u32, text: &str) -> (w: u64)
        ensures
            w == self.spec_text_width(family, size, text@),
            in_range(w as int),
    ;
}

/// Fixed-advance metrics: every character of every family is `size / 2 + 1`
/// pixels wide. A deterministic stand-in for a real glyph backend.
#[derive(Clone, Copy, Debug, PartialEq, Eq, Structural)]
pub struct FixedAdvanceMetrics {}

impl FixedAdvanceMetrics {
    pub fn new() -> (m: FixedAdvanceMetrics)
        ensures
            m == (FixedAdvanceMetrics {  }),
    {
        FixedAdvanceMetrics {  }
    }

    /// The advance of one character at `size`.
    pub open spec fn spec_advance(size: u32) -> int {
        size as int / 2 + 1
    }
}

impl FontMetrics for FixedAdvanceMetrics {
    open spec fn spec_text_width(&self, family: u32, size: u32, text: Seq<char>) -> int {
        crate::geom::cmul(smin(text.len() as int, GEOM_MAX as int), Self::spec_advance(size))
    }

    fn text_width(&self, family: u32, size: u32, text: &str) -> (w: u64)
        ensures
            w == self.spec_text_width(family, size, text@),
            in_range(w as int),
    {
        let n0 = text.unicode_len();
        let n = crate::geom::gmin(n0 as u64, GEOM_MAX);
        crate::geom::gmul(n, (size / 2) as u64 + 1)
    }
}

/// A text node's line-break result: the wrapped lines with per-line widths
/// and heights, in order.
#[derive(Clone, Debug)]
pub struct TextInfo {
    pub lines: Vec<String>,
    pub line_heights: Vec<u64>,
    pub line_widths: Vec<u64>,
}

impl TextInfo {
    /// The three columns describe the same lines.
    pub open spec fn wf(self) -> bool {
        self.lines@.len() == self.line_heights@.len() && self.lines@.len()
            == self.line_widths@.len()
    }
}

/// Line height is a fixed 9/8 multiple of the font size.
pub open spec fn spec_line_height(size: u32) -> int {
    smin(size as int * 9 / 8, GEOM_MAX as int)
}

pub fn calculate_line_height(font_size: u32) -> (r: u64)
    ensures
        r == spec_line_height(font_size),
        in_range(r as int),
{
    let t = (font_size as u64) * 9 / 8;
    crate::geom::gmin(t, GEOM_MAX)
}

/// Split `s` at every occurrence of `sep`: the pieces, in order, without the
/// separator. A string with no separator is one piece; every separator ends
/// the piece before it, so `n` separators give `n + 1` pieces.
pub open spec fn spec_split(s: Seq<char>, sep: char) -> Seq<Seq<char>>
    decreases s.len(),
{
    if s.len() == 0 {
        seq![Seq::<char>::empty()]
    } else {
        let prev = spec_split(s.drop_last(), sep);
        if s.last() == sep {
            prev.push(Seq::<char>::empty())
        } else {
            prev.update(prev.len() - 1, prev.last().push(s.last()))
        }
    }
}

pub proof fn lemma_split_nonempty(s: Seq<char>, sep: char)
    ensures
        spec_split(s, sep).len() >= 1,
    decreases s.len(),
{
    if s.len() != 0 {
        lemma_split_nonempty(s.drop_last(), sep);
    }
}

/// Split `s` at every `sep`, as [`spec_split`] describes.
pub fn split_on(s: &str, sep: char) -> (r: Vec<String>)
    ensures
        r@.len() == spec_split(s@, sep).len(),
        forall|k: int|
            0 <= k < r@.len() ==> r@[k]@ == #[trigger] spec_split(s@, sep)[k],
{
    let n = s.unicode_len();
    let mut out: Vec<String> = Vec::new();
    let mut start: usize = 0;
    let mut i: usize = 0;
    while i < n
        invariant
            n == s@.len(),
            start <= i <= n,
            out@.len() + 1 == spec_split(s@.take(i as int), sep).len(),
            forall|k: int|
                0 <= k < out@.len() ==> out@[k]@ == #[trigger] spec_split(
                    s@.take(i as int),
                    sep,
                )[k],
            spec_split(s@.take(i as int), sep).last() == s@.subrange(start as int, i as int),
        decreases n - i,
    {
        proof {
            lemma_split_nonempty(s@.take(i as int), sep);
            assert(s@.take(i as int + 1).drop_last() =~= s@.take(i as int));
            assert(s@.take(i as int + 1).last() == s@[i as int]);
        }
        let c = s.get_char(i);
        if c == sep {
            let piece = s.substring_char(start, i).to_owned();
            out.push(piece);
            start = i + 1;
            proof {
                assert(s@.subrange(start as int, start as int) =~= Seq::<char>::empty());
            }
        } else {
            proof {
                assert(s@.subrange(start as int, i as int).push(s@[i as int]) =~= s@.subrange(
                    start as int,
                    i as int + 1,
                ));
            }
        }
        i += 1;
    }
    proof {
        assert(s@.take(n as int) =~= s@);
        lemma_split_nonempty(s@, sep);
    }
    let piece = s.substring_char(start, n).to_owned();
    out.push(piece);
    out
}

/// No piece of a split contains the separator.
pub proof fn lemma_split_no_separator(s: Seq<char>, sep: char)
    ensures
        forall|i: int|
            0 <= i < spec_split(s, sep).len() ==> !(#[trigger] spec_split(s, sep)[i]).contains(
                sep,
            ),
    decreases s.len(),
{
    if s.len() == 0 {
        assert forall|i: int|
            0 <= i < spec_split(s, sep).len() implies !(#[trigger] spec_split(s, sep)[
        i]).contains(sep) by {
            assert(spec_split(s, sep)[i] =~= Seq::<char>::empty());
        }
    } else {
        lemma_split_no_separator(s.drop_last(), sep);
        let prev = spec_split(s.drop_last(), sep);
        lemma_split_nonempty(s.drop_last(), sep);
        assert forall|i: int|
            0 <= i < spec_split(s, sep).len() implies !(#[trigger] spec_split(s, sep)[
        i]).contains(sep) by {
            if s.last() == sep {
                if i < prev.len() {
                    assert(spec_split(s, sep)[i] == prev[i]);
                } else {
                    assert(spec_split(s, sep)[i] =~= Seq::<char>::empty());
                }
            } else {
                if i < prev.len() - 1 {
                    assert(spec_split(s, sep)[i] == prev[i]);
                } else {
                    let last = prev.last().push(s.last());
                    assert(spec_split(s, sep)[i] == last);
                    assert(!prev.last().contains(sep));
                    assert forall|j: int| 0 <= j < last.len() implies last[j] != sep by {
                        if j < last.len() - 1 {
                            assert(last[j] == prev.last()[j]);
                        }
                    }
                    if last.contains(sep) {
                        let j = choose|j: int| 0 <= j < last.len() && last[j] == sep;
                        assert(false);
                    }
                }
            }
        }
    }
}

/// The pieces of a split, joined by the separator.
pub open spec fn join_with(ps: Seq<Seq<char>>, sep: char) -> Seq<char>
    decreases ps.len(),
{
    if ps.len() == 0 {
        Seq::empty()
    } else if ps.len() == 1 {
        ps[0]
    } else {
        join_with(ps.drop_last(), sep) + seq![sep] + ps.last()
    }
}

/// Splitting loses nothing: joining the pieces with the separator restores
/// the input exactly.
pub proof fn lemma_split_join(s: Seq<char>, sep: char)
    ensures
        join_with(spec_split(s, sep), sep) == s,
    decreases s.len(),
{
    if s.len() == 0 {
        assert(join_with(spec_split(s, sep), sep) =~= s);
    } else {
        lemma_split_join(s.drop_last(), sep);
        lemma_split_nonempty(s.drop_last(), sep);
        let prev = spec_split(s.drop_last(), sep);
        if s.last() == sep {
            let cur = prev.push(Seq::<char>::empty());
            assert(cur.drop_last() =~= prev);
            assert(join_with(cur, sep) =~= s.drop_last() + seq![sep] + Seq::<char>::empty());
            assert(join_with(cur, sep) =~= s);
        } else {
            let cur = prev.update(prev.len() - 1, prev.last().push(s.last()));
            if prev.len() == 1 {
                assert(join_with(cur, sep) == cur[0]);
                assert(cur[0] =~= prev[0].push(s.last()));
                assert(join_with(prev, sep) == prev[0]);
                assert(join_with(cur, sep) =~= s);
            } else {
                assert(cur.drop_last() =~= prev.drop_last());
                assert(cur.last() =~= prev.last().push(s.last()));
                assert(join_with(cur, sep) =~= join_with(prev.drop_last(), sep) + seq![sep]
                    + prev.last().push(s.last()));
                assert(join_with(prev, sep) == join_with(prev.drop_last(), sep) + seq![sep]
                    + prev.last());
                assert(join_with(cur, sep) =~= join_with(prev, sep).push(s.last()));
                assert(join_with(prev, sep).push(s.last()) =~= s);
            }
        }
    }
}

/// The words of a line: the non-empty pieces between spaces, in order.
pub open spec fn spec_words(s: Seq<char>) -> Seq<Seq<char>> {
    spec_split(s, ' ').filter(|w: Seq<char>| w.len() != 0)
}

/// Split a line into words at spaces, as [`spec_words`] describes; runs of
/// spaces collapse and leading or trailing spaces vanish.
pub fn split_words(s: &str) -> (r: Vec<String>)
    ensures
        r@.len() == spec_words(s@).len(),
        forall|k: int| 0 <= k < r@.len() ==> r@[k]@ == #[trigger] spec_words(s@)[k],
        forall|k: int| 0 <= k < r@.len() ==> #[trigger] r@[k]@.len() != 0,
{
    broadcast use vstd::seq_lib::group_seq_properties;

    let pieces = split_on(s, ' ');
    let ghost pred = |w: Seq<char>| w.len() != 0;
    let ghost all = spec_split(s@, ' ');
    let mut out: Vec<String> = Vec::new();
    let mut j: usize = 0;
    while j < pieces.len()
        invariant
            pieces@.len() == all.len(),
            forall|k: int| 0 <= k < pieces@.len() ==> pieces@[k]@ == #[trigger] all[k],
            pred == (|w: Seq<char>| w.len() != 0),
            all == spec_split(s@, ' '),
            j <= pieces@.len(),
            out@.len() == all.take(j as int).filter(pred).len(),
            forall|k: int|
                0 <= k < out@.len() ==> out@[k]@ == #[trigger] all.take(j as int).filter(pred)[k],
        decreases pieces@.len() - j,
    {
        proof {
            assert(all.take(j as int + 1).drop_last() =~= all.take(j as int));
            assert(all.take(j as int + 1).last() == all[j as int]);
            reveal(Seq::filter);
        }
        let piece = &pieces[j];
        if piece.as_str().unicode_len() != 0 {
            out.push(piece.clone());
        }
        j += 1;
    }
    proof {
        assert(all.take(pieces@.len() as int) =~= all);
        assert forall|k: int| 0 <= k < out@.len() implies #[trigger] out@[k]@.len() != 0 by {
            assert(out@[k]@ == all.filter(pred)[k]);
            all.lemma_filter_pred(pred, k);
        }
    }
    out
}

/// The state of the greedy wrap after some prefix of the words: the finished
/// lines (text and width), and the line currently accumulating.
pub struct WrapState {
    pub done: Seq<(Seq<char>, int)>,
    pub cur: Seq<char>,
    pub cur_w: int,
}

/// One step of the greedy wrap: the next word joins the current line when the
/// line width plus a space plus the word still fits in `mw`; otherwise it
/// flushes the line and starts a new one. The first word of a line is always
/// taken, however wide.
pub open spec fn wrap_step(
    st: WrapState,
    word: Seq<char>,
    sw: int,
    mw: int,
    wof: spec_fn(Seq<char>) -> int,
) -> WrapState {
    let ww = wof(word);
    if st.cur.len() == 0 {
        WrapState { done: st.done, cur: word, cur_w: ww }
    } else if st.cur_w + sw + ww <= mw {
        WrapState {
            done: st.done,
            cur: st.cur + seq![' '] + word,
            cur_w: st.cur_w + sw + ww,
        }
    } else {
        WrapState { done: st.done.push((st.cur, st.cur_w)), cur: word, cur_w: ww }
    }
}

/// The wrap state after the first `k` words.
pub open spec fn wrap_from(
    words: Seq<Seq<char>>,
    k: int,
    sw: int,
    mw: int,
    wof: spec_fn(Seq<char>) -> int,
) -> WrapState
    decreases k,
{
    if k <= 0 {
        WrapState { done: Seq::empty(), cur: Seq::<char>::empty(), cur_w: 0 }
    } else {
        wrap_step(wrap_from(words, k - 1, sw, mw, wof), words[k - 1], sw, mw, wof)
    }
}

/// The lines of the greedy wrap of `words`: all finished lines, plus the
/// still-open line if any word started one.
pub open spec fn spec_wrap(
    words: Seq<Seq<char>>,
    sw: int,
    mw: int,
    wof: spec_fn(Seq<char>) -> int,
) -> Seq<(Seq<char>, int)> {
    let st = wrap_from(words, words.len() as int, sw, mw, wof);
    if st.cur.len() == 0 {
        st.done
    } else {
        st.done.push((st.cur, st.cur_w))
    }
}

/// Every wrap state reached by the greedy wrap keeps the overflow rule:
/// a finished line, and the accumulating one, either fits the maximum width
/// or is a single word whose own width is its line width.
proof fn lemma_wrap_from_overflow(
    words: Seq<Seq<char>>,
    k: int,
    sw: int,
    mw: int,
    wof: spec_fn(Seq<char>) -> int,
)
    ensures
        ({
            let st = wrap_from(words, k, sw, mw, wof);
            &&& (st.cur.len() != 0 ==> st.cur_w <= mw || st.cur_w == wof(st.cur))
            &&& (forall|i: int|
                0 <= i < st.done.len() ==> (#[trigger] st.done[i]).1 <= mw || st.done[i].1 == wof(
                    st.done[i].0,
                ))
        }),
    decreases k,
{
    if k > 0 {
        lemma_wrap_from_overflow(words, k - 1, sw, mw, wof);
        let st = wrap_from(words, k - 1, sw, mw, wof);
        let nxt = wrap_from(words, k, sw, mw, wof);
        if st.cur.len() != 0 && !(st.cur_w + sw + wof(words[k - 1]) <= mw) {
            assert forall|i: int|
                0 <= i < nxt.done.len() implies (#[trigger] nxt.done[i]).1 <= mw || nxt.done[i].1
                == wof(nxt.done[i].0) by {
                if i < st.done.len() {
                    assert(nxt.done[i] == st.done[i]);
                } else {
                    assert(nxt.done[i] == (st.cur, st.cur_w));
                }
            }
        }
    }
}

/// Overflow is allowed only for single words: every line the greedy wrap
/// produces either fits the maximum width, or is one word placed alone,
/// unbroken, whose line width is that word's own width.
pub proof fn lemma_wrap_overflow_only_single_words(
    words: Seq<Seq<char>>,
    sw: int,
    mw: int,
    wof: spec_fn(Seq<char>) -> int,
)
    ensures
        forall|i: int|
            0 <= i < spec_wrap(words, sw, mw, wof).len() ==> (#[trigger] spec_wrap(
                words,
                sw,
                mw,
                wof,
            )[i]).1 <= mw || spec_wrap(words, sw, mw, wof)[i].1 == wof(
                spec_wrap(words, sw, mw, wof)[i].0,
            ),
{
    lemma_wrap_from_overflow(words, words.len() as int, sw, mw, wof);
    let st = wrap_from(words, words.len() as int, sw, mw, wof);
    if st.cur.len() != 0 {
        assert forall|i: int|
            0 <= i < spec_wrap(words, sw, mw, wof).len() implies (#[trigger] spec_wrap(
            words,
            sw,
            mw,
            wof,
        )[i]).1 <= mw || spec_wrap(words, sw, mw, wof)[i].1 == wof(
            spec_wrap(words, sw, mw, wof)[i].0,
        ) by {
            if i < st.done.len() {
                assert(spec_wrap(words, sw, mw, wof)[i] == st.done[i]);
            } else {
                assert(spec_wrap(words, sw, mw, wof)[i] == (st.cur, st.cur_w));
            }
        }
    }
}

/// The line-break result of one logical line: kept whole when it fits the
/// maximum width, and greedily word-wrapped otherwise.
pub open spec fn spec_measure_line(
    line: Seq<char>,
    sw: int,
    mw: int,
    wof: spec_fn(Seq<char>) -> int,
) -> Seq<(Seq<char>, int)> {
    if wof(line) <= mw {
        seq![(line, wof(line))]
    } else {
        spec_wrap(spec_words(line), sw, mw, wof)
    }
}

/// The line-break results of a sequence of logical lines, concatenated.
pub open spec fn spec_measure_lines(
    ls: Seq<Seq<char>>,
    sw: int,
    mw: int,
    wof: spec_fn(Seq<char>) -> int,
) -> Seq<(Seq<char>, int)>
    decreases ls.len(),
{
    if ls.len() == 0 {
        Seq::empty()
    } else {
        spec_measure_lines(ls.drop_last(), sw, mw, wof) + spec_measure_line(
            ls.last(),
            sw,
            mw,
            wof,
        )
    }
}

/// The width function a metrics implementation gives a family at a size.
pub open spec fn width_fn<M: FontMetrics>(m: M, family: u32, size: u32) -> spec_fn(
    Seq<char>,
) -> int {
    |w: Seq<char>| m.spec_text_width(family, size, w)
}

/// The full line-break result of a text: the text splits at hard newlines
/// and each logical line is measured by [`spec_measure_line`].
pub open spec fn spec_measure<M: FontMetrics>(
    m: M,
    text: Seq<char>,
    family: u32,
    size: u32,
    mw: int,
) -> Seq<(Seq<char>, int)> {
    let wof = width_fn(m, family, size);
    spec_measure_lines(spec_split(text, '\n'), wof(seq![' ']), mw, wof)
}

/// The overflow rule holds of the whole measurement: every measured line
/// either fits the wrap width or is a single word kept whole (its line width
/// being that word's own width), for every text.
pub proof fn lemma_measure_overflow_only_single_words<M: FontMetrics>(
    m: M,
    text: Seq<char>,
    family: u32,
    size: u32,
    mw: int,
)
    ensures
        forall|i: int|
            0 <= i < spec_measure(m, text, family, size, mw).len() ==> (#[trigger] spec_measure(
                m,
                text,
                family,
                size,
                mw,
            )[i]).1 <= mw || spec_measure(m, text, family, size, mw)[i].1 == width_fn(
                m,
                family,
                size,
            )(spec_measure(m, text, family, size, mw)[i].0),
{
    let wof = width_fn(m, family, size);
    lemma_measure_lines_overflow(spec_split(text, '\n'), wof(seq![' ']), mw, wof);
}

/// The overflow rule, line by line, over a sequence of logical lines.
proof fn lemma_measure_lines_overflow(
    ls: Seq<Seq<char>>,
    sw: int,
    mw: int,
    wof: spec_fn(Seq<char>) -> int,
)
    ensures
        forall|i: int|
            0 <= i < spec_measure_lines(ls, sw, mw, wof).len() ==> (#[trigger] spec_measure_lines(
                ls,
                sw,
                mw,
                wof,
            )[i]).1 <= mw || spec_measure_lines(ls, sw, mw, wof)[i].1 == wof(
                spec_measure_lines(ls, sw, mw, wof)[i].0,
            ),
    decreases ls.len(),
{
    if ls.len() != 0 {
        lemma_measure_lines_overflow(ls.drop_last(), sw, mw, wof);
        lemma_wrap_overflow_only_single_words(spec_words(ls.last()), sw, mw, wof);
        let prefix = spec_measure_lines(ls.drop_last(), sw, mw, wof);
        let last = spec_measure_line(ls.last(), sw, mw, wof);
        assert forall|i: int|
            0 <= i < spec_measure_lines(ls, sw, mw, wof).len() implies (
        #[trigger] spec_measure_lines(ls, sw, mw, wof)[i]).1 <= mw || spec_measure_lines(
            ls,
            sw,
            mw,
            wof,
        )[i].1 == wof(spec_measure_lines(ls, sw, mw, wof)[i].0) by {
            if i < prefix.len() {
                assert(spec_measure_lines(ls, sw, mw, wof)[i] == prefix[i]);
            } else {
                assert(spec_measure_lines(ls, sw, mw, wof)[i] == last[i - prefix.len()]);
            }
        }
    }
}

/// The widest width among the measured lines (zero if there are none).
pub open spec fn max_width_of(pairs: Seq<(Seq<char>, int)>) -> int
    decreases pairs.len(),
{
    if pairs.len() == 0 {
        0
    } else {
        smax(max_width_of(pairs.drop_last()), pairs.last().1)
    }
}

/// `n` line heights of `lh` pixels stacked, clamped addition throughout.
pub open spec fn spec_total_height(n: int, lh: int) -> int
    decreases n,
{
    if n <= 0 {
        0
    } else {
        cadd(spec_total_height(n - 1, lh), lh)
    }
}

/// The produced columns describe exactly the measured pairs `done`, every
/// line `lh` tall, with running maximum width and clamped total height.
spec fn measure_inv(
    lines: Seq<String>,
    widths: Seq<u64>,
    heights: Seq<u64>,
    maxw: u64,
    total: u64,
    done: Seq<(Seq<char>, int)>,
    lh: int,
) -> bool {
    &&& lines.len() == done.len()
    &&& widths.len() == done.len()
    &&& heights.len() == done.len()
    &&& (forall|k: int| 0 <= k < done.len() ==> lines[k]@ == #[trigger] done[k].0)
    &&& (forall|k: int| 0 <= k < done.len() ==> widths[k] as int == #[trigger] done[k].1)
    &&& (forall|k: int| 0 <= k < heights.len() ==> #[trigger] heights[k] as int == lh)
    &&& maxw as int == max_width_of(done)
    &&& in_range(maxw as int)
    &&& total as int == spec_total_height(done.len() as int, lh)
    &&& in_range(total as int)
}

/// Measure a text against a wrap width: the widest produced line (clamped to
/// `max_width`), the total height of all lines, and the full line-break
/// result. The text splits at hard newlines; a logical line that fits is
/// kept whole, and one that does not is greedily word-wrapped. The result is
/// a pure function of the text, family, size and wrap width.
pub fn measure_text<M: FontMetrics>(
    metrics: &M,
    content: &str,
    font_family: u32,
    font_size: u32,
    max_width: u64,
) -> (r: (u64, u64, TextInfo))
    requires
        max_width <= GEOM_MAX,
    ensures
        ({
            let pairs = spec_measure(*metrics, content@, font_family, font_size, max_width as int);
            let lh = spec_line_height(font_size);
            &&& r.2.wf()
            &&& r.2.lines@.len() == pairs.len()
            &&& (forall|k: int|
                0 <= k < pairs.len() ==> r.2.lines@[k]@ == #[trigger] pairs[k].0)
            &&& (forall|k: int|
                0 <= k < pairs.len() ==> r.2.line_widths@[k] as int == #[trigger] pairs[k].1)
            &&& (forall|k: int|
                0 <= k < pairs.len() ==> #[trigger] r.2.line_heights@[k] as int == lh)
            &&& r.0 as int == smin(max_width_of(pairs), max_width as int)
            &&& r.1 as int == spec_total_height(pairs.len() as int, lh)
        }),
{
    let ghost wof = width_fn(*metrics, font_family, font_size);
    let lh = calculate_line_height(font_size);
    proof {
        reveal_strlit(" ");
        assert(" "@ =~= seq![' ']);
    }
    let sw = metrics.text_width(font_family, font_size, " ");

    let logical = split_on(content, '\n');
    let ghost lns = spec_split(content@, '\n');
    let mw = max_width;

    let mut lines: Vec<String> = Vec::new();
    let mut widths: Vec<u64> = Vec::new();
    let mut heights: Vec<u64> = Vec::new();
    let mut maxw: u64 = 0;
    let mut total: u64 = 0;

    let mut li: usize = 0;
    while li < logical.len()
        invariant
            logical@.len() == lns.len(),
            forall|k: int| 0 <= k < lns.len() ==> logical@[k]@ == #[trigger] lns[k],
            li <= lns.len(),
            wof == width_fn(*metrics, font_family, font_size),
            sw as int == wof(seq![' ']),
            in_range(sw as int),
            lh as int == spec_line_height(font_size),
            in_range(lh as int),
            mw <= GEOM_MAX,
            measure_inv(
                lines@,
                widths@,
                heights@,
                maxw,
                total,
                spec_measure_lines(lns.take(li as int), sw as int, mw as int, wof),
                lh as int,
            ),
        decreases lns.len() - li,
    {
        let ghost done = spec_measure_lines(lns.take(li as int), sw as int, mw as int, wof);
        proof {
            assert(lns.take(li as int + 1).drop_last() =~= lns.take(li as int));
            assert(lns.take(li as int + 1).last() == lns[li as int]);
        }
        let lstr = &logical[li];
        let lw = metrics.text_width(font_family, font_size, lstr.as_str());
        if lw <= mw {
            lines.push(lstr.clone());
            widths.push(lw);
            heights.push(lh);
            maxw = crate::geom::gmax(maxw, lw);
            total = crate::geom::gadd(total, lh);
            proof {
                let appended = done.push((lns[li as int], lw as int));
                assert(appended.drop_last() =~= done);
                assert(spec_measure_lines(lns.take(li as int + 1), sw as int, mw as int, wof)
                    =~= appended);
            }
        } else {
            let words = split_words(lstr.as_str());
            let ghost ws = spec_words(lns[li as int]);
            let mut cur: String = String::new();
            let mut cur_w: u64 = 0;
            let mut started: bool = false;
            let mut j: usize = 0;
            while j < words.len()
                invariant
                    words@.len() == ws.len(),
                    forall|k: int| 0 <= k < ws.len() ==> words@[k]@ == #[trigger] ws[k],
                    forall|k: int| 0 <= k < ws.len() ==> #[trigger] ws[k].len() != 0,
                    j <= ws.len(),
                    wof == width_fn(*metrics, font_family, font_size),
                    sw as int == wof(seq![' ']),
                    in_range(sw as int),
                    lh as int == spec_line_height(font_size),
                    in_range(lh as int),
                    mw <= GEOM_MAX,
                    ({
                        let st = wrap_from(ws, j as int, sw as int, mw as int, wof);
                        &&& (started <==> st.cur.len() != 0)
                        &&& cur@ == st.cur
                        &&& cur_w as int == st.cur_w
                        &&& in_range(cur_w as int)
                        &&& measure_inv(
                            lines@,
                            widths@,
                            heights@,
                            maxw,
                            total,
                            done + st.done,
                            lh as int,
                        )
                    }),
                decreases ws.len() - j,
            {
                let ghost st = wrap_from(ws, j as int, sw as int, mw as int, wof);
                proof {
                    assert(wrap_from(ws, j as int + 1, sw as int, mw as int, wof) == wrap_step(
                        st,
                        ws[j as int],
                        sw as int,
                        mw as int,
                        wof,
                    ));
                }
                let w = &words[j];
                let ww = metrics.text_width(font_family, font_size, w.as_str());
                if !started {
                    cur = w.clone();
                    cur_w = ww;
                    started = true;
                } else if cur_w + sw + ww <= mw {
                    proof {
                        reveal_strlit(" ");
                        assert(" "@ =~= seq![' ']);
                    }
                    cur.append(" ");
                    cur.append(w.as_str());
                    cur_w = cur_w + sw + ww;
                } else {
                    let flushed_w = cur_w;
                    lines.push(cur);
                    widths.push(flushed_w);
                    heights.push(lh);
                    maxw = crate::geom::gmax(maxw, flushed_w);
                    total = crate::geom::gadd(total, lh);
                    cur = w.clone();
                    cur_w = ww;
                    proof {
                        let newdone = (done + st.done).push((st.cur, st.cur_w));
                        assert(newdone.drop_last() =~= done + st.done);
                        assert(done + st.done.push((st.cur, st.cur_w)) =~= newdone);
                    }
                }
                j += 1;
            }
            let ghost stf = wrap_from(ws, ws.len() as int, sw as int, mw as int, wof);
            if started {
                let flushed_w = cur_w;
                lines.push(cur);
                widths.push(flushed_w);
                heights.push(lh);
                maxw = crate::geom::gmax(maxw, flushed_w);
                total = crate::geom::gadd(total, lh);
                proof {
                    let newdone = (done + stf.done).push((stf.cur, stf.cur_w));
                    assert(newdone.drop_last() =~= done + stf.done);
                    assert(done + spec_wrap(ws, sw as int, mw as int, wof) =~= newdone);
                }
            }
            proof {
                assert(lw as int == wof(lns[li as int]));
                assert(spec_measure_line(lns[li as int], sw as int, mw as int, wof) == spec_wrap(
                    ws,
                    sw as int,
                    mw as int,
                    wof,
                ));
                assert(spec_measure_lines(lns.take(li as int + 1), sw as int, mw as int, wof)
                    =~= done + spec_wrap(ws, sw as int, mw as int, wof));
            }
        }
        li += 1;
    }
    proof {
        assert(lns.take(logical@.len() as int) =~= lns);
    }
    let clamped = crate::geom::gmin(maxw, max_width);
    (clamped, total, TextInfo { lines, line_heights: heights, line_widths: widths })
}

/// Text wrap is deterministic: the measurement contract pins the line set as
/// a pure function of text, family, size and wrap width, so two results that
/// satisfy it for the same inputs are the same line set.
pub proof fn lemma_measure_deterministic<M: FontMetrics>(
    m: M,
    text: Seq<char>,
    family: u32,
    size: u32,
    mw: int,
    a: Seq<(Seq<char>, int)>,
    b: Seq<(Seq<char>, int)>,
)
    requires
        a == spec_measure(m, text, family, size, mw),
        b == spec_measure(m, text, family, size, mw),
    ensures
        a == b,
{
}

} // verus!
