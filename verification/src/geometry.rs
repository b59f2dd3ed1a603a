//! Taskbar geometry: occupied spans, free gaps and the placement of the
//! taskbar widget.
use vstd::prelude::*;
use vstd::relations::total_ordering;
use crate::text::str_eq;

verus! {

/// Largest coordinate magnitude (2^27) the placement arithmetic accepts.
/// Real screen coordinates stay within a few ten thousand pixels, far below
/// it. The planning combines up to a handful of such quantities (gap ends,
/// margins, the pad, the widget width): with every input inside ±2^27 each
/// intermediate value stays below 2^31, so the `i32` computation never
/// overflows; with twice the bound it could. Measurements outside the bound
/// are rejected before placement (`try_place_mini`).
pub const SCREEN_LIMIT: i32 = 0x0800_0000;

/// A screen rectangle in physical pixels (same layout as the Win32 `RECT`).
#[derive(Clone, Copy, Debug, PartialEq, Eq)]
pub struct Rect {
    pub left: i32,
    pub top: i32,
    pub right: i32,
    pub bottom: i32,
}

pub open spec fn in_screen(v: int) -> bool {
    -SCREEN_LIMIT <= v <= SCREEN_LIMIT
}

pub open spec fn rect_in_screen(r: Rect) -> bool {
    in_screen(r.left as int) && in_screen(r.top as int) && in_screen(r.right as int) && in_screen(
        r.bottom as int,
    )
}

pub open spec fn rects_in_screen(rs: Seq<Rect>) -> bool {
    forall|i: int| 0 <= i < rs.len() ==> rect_in_screen(#[trigger] rs[i])
}

/// Lexicographic order of `(start, end)` spans, the order `sort` gives tuples.
pub open spec fn span_le(a: (i32, i32), b: (i32, i32)) -> bool {
    a.0 < b.0 || (a.0 == b.0 && a.1 <= b.1)
}

/// All components of all spans lie in `[lo, hi]`.
pub open spec fn spans_within(s: Seq<(i32, i32)>, lo: int, hi: int) -> bool {
    forall|i: int|
        0 <= i < s.len() ==> lo <= (#[trigger] s[i]).0 <= hi && lo <= s[i].1 <= hi
}

/// The x-extent `(left, right)` of every rectangle with positive width, in order.
pub open spec fn spans_of(rects: Seq<Rect>) -> Seq<(i32, i32)>
    decreases rects.len(),
{
    if rects.len() == 0 {
        Seq::empty()
    } else {
        let prev = spans_of(rects.drop_last());
        let r = rects.last();
        if r.right > r.left {
            prev.push((r.left, r.right))
        } else {
            prev
        }
    }
}

pub open spec fn max_i32(a: i32, b: i32) -> i32 {
    if a >= b { a } else { b }
}

pub open spec fn min_i32(a: i32, b: i32) -> i32 {
    if a <= b { a } else { b }
}

/// Left-to-right merge of spans: a span that starts at most 2 px after the
/// end of the last merged block joins that block, otherwise it opens a new one.
pub open spec fn merge_spans(s: Seq<(i32, i32)>) -> Seq<(i32, i32)>
    decreases s.len(),
{
    if s.len() == 0 {
        Seq::empty()
    } else {
        let m = merge_spans(s.drop_last());
        let p = s.last();
        if m.len() > 0 && p.0 <= m.last().1 + 2 {
            m.update(m.len() - 1, (m.last().0, max_i32(m.last().1, p.1)))
        } else {
            m.push(p)
        }
    }
}

/// The disjoint x-intervals covered by the rectangles (gaps of at most 2 px closed).
pub open spec fn occupied_intervals(rects: Seq<Rect>) -> Seq<(i32, i32)> {
    merge_spans(sorted_spans(spans_of(rects)))
}

pub proof fn lemma_span_le_total()
    ensures
        total_ordering(|a: (i32, i32), b: (i32, i32)| span_le(a, b)),
{
}

/// Trusted: std's `<[T]>::sort` on `(i32, i32)` spans. Tuples compare
/// lexicographically, so the sorted slice is the unique ordered permutation
/// of its input, which is what the contract claims.
#[verifier::external_body]
fn sort_spans(v: &mut Vec<(i32, i32)>)
    ensures
        final(v)@ == sorted_spans(old(v)@),
{
    v.sort();
}

/// Spans in lexicographic order.
pub open spec fn span_sorted(s: Seq<(i32, i32)>) -> bool {
    forall|i: int, j: int| 0 <= i < j < s.len() ==> span_le(#[trigger] s[i], #[trigger] s[j])
}

pub open spec fn sorted_spans(s: Seq<(i32, i32)>) -> Seq<(i32, i32)> {
    s.sort_by(|a: (i32, i32), b: (i32, i32)| span_le(a, b))
}

proof fn lemma_sort_props(s: Seq<(i32, i32)>)
    ensures
        span_sorted(sorted_spans(s)),
        sorted_spans(s).len() == s.len(),
        forall|p: (i32, i32)| #[trigger] s.contains(p) ==> sorted_spans(s).contains(p),
        forall|p: (i32, i32)| #[trigger] sorted_spans(s).contains(p) ==> s.contains(p),
{
    let leq = |a: (i32, i32), b: (i32, i32)| span_le(a, b);
    lemma_span_le_total();
    s.lemma_sort_by_ensures(leq);
    let t = s.sort_by(leq);
    assert forall|i: int, j: int| 0 <= i < j < t.len() implies span_le(#[trigger] t[i], #[trigger] t[j]) by {
        assert(leq(t[i], t[j]));
    }
    s.to_multiset_ensures();
    t.to_multiset_ensures();
    assert forall|p: (i32, i32)| #[trigger] s.contains(p) implies t.contains(p) by {
        assert(s.to_multiset().count(p) > 0);
        assert(t.to_multiset().count(p) > 0);
    }
    assert forall|p: (i32, i32)| #[trigger] t.contains(p) implies s.contains(p) by {
        assert(t.to_multiset().count(p) > 0);
        assert(s.to_multiset().count(p) > 0);
    }
}

proof fn lemma_sorted_within(s: Seq<(i32, i32)>, lo: int, hi: int)
    requires
        spans_within(s, lo, hi),
    ensures
        spans_within(sorted_spans(s), lo, hi),
        sorted_spans(s).len() == s.len(),
        span_sorted(sorted_spans(s)),
{
    lemma_sort_props(s);
    let t = sorted_spans(s);
    assert forall|i: int| 0 <= i < t.len() implies lo <= (#[trigger] t[i]).0 <= hi && lo <= t[i].1 <= hi by {
        assert(t.contains(t[i]));
        let j = choose|j: int| 0 <= j < s.len() && s[j] == t[i];
    }
}

proof fn lemma_merge_within(s: Seq<(i32, i32)>, lo: int, hi: int)
    requires
        spans_within(s, lo, hi),
    ensures
        spans_within(merge_spans(s), lo, hi),
        merge_spans(s).len() <= s.len(),
    decreases s.len(),
{
    if s.len() > 0 {
        lemma_merge_within(s.drop_last(), lo, hi);
    }
}

/// Spans of the rectangles with positive width.
fn spans_from(rects: &[Rect]) -> (r: Vec<(i32, i32)>)
    ensures
        r@ == spans_of(rects@),
{
    let mut v: Vec<(i32, i32)> = Vec::new();
    let mut i: usize = 0;
    while i < rects.len()
        invariant
            i <= rects.len(),
            v@ == spans_of(rects@.take(i as int)),
        decreases rects.len() - i,
    {
        let r = rects[i];
        if r.right > r.left {
            v.push((r.left, r.right));
        }
        assert(rects@.take(i as int + 1).drop_last() == rects@.take(i as int));
        i += 1;
    }
    assert(rects@.take(rects.len() as int) == rects@);
    v
}

/// Merges sorted spans whose distance is at most 2 px.
fn merge_sorted_spans(s: &Vec<(i32, i32)>) -> (out: Vec<(i32, i32)>)
    requires
        spans_within(s@, -4 * SCREEN_LIMIT, 4 * SCREEN_LIMIT),
    ensures
        out@ == merge_spans(s@),
{
    let mut out: Vec<(i32, i32)> = Vec::new();
    let mut i: usize = 0;
    while i < s.len()
        invariant
            i <= s.len(),
            spans_within(s@, -4 * SCREEN_LIMIT, 4 * SCREEN_LIMIT),
            out@ == merge_spans(s@.take(i as int)),
        decreases s.len() - i,
    {
        proof {
            lemma_merge_within(s@.take(i as int), -4 * SCREEN_LIMIT, 4 * SCREEN_LIMIT);
        }
        let (a, b) = s[i];
        let n = out.len();
        assert(s@.take(i as int + 1).drop_last() == s@.take(i as int));
        assert(s@.take(i as int + 1).last() == s@[i as int]);
        if n > 0 && a <= out[n - 1].1 + 2 {
            let last = out[n - 1];
            let end = if last.1 >= b { last.1 } else { b };
            out.set(n - 1, (last.0, end));
        } else {
            out.push((a, b));
        }
        i += 1;
    }
    assert(s@.take(s.len() as int) == s@);
    out
}

/// Occupied rectangles -> disjoint x-intervals, sorted; intervals at most
/// 2 px apart count as one block.
pub fn merge_x_intervals(rects: &[Rect]) -> (r: Vec<(i32, i32)>)
    requires
        rects_in_screen(rects@),
    ensures
        r@ == occupied_intervals(rects@),
{
    let mut v = spans_from(rects);
    proof {
        lemma_spans_within(rects@);
    }
    let ghost before = v@;
    sort_spans(&mut v);
    proof {
        lemma_sorted_within(before, -SCREEN_LIMIT as int, SCREEN_LIMIT as int);
    }
    merge_sorted_spans(&v)
}

proof fn lemma_spans_within(rects: Seq<Rect>)
    requires
        rects_in_screen(rects),
    ensures
        spans_within(spans_of(rects), -SCREEN_LIMIT as int, SCREEN_LIMIT as int),
    decreases rects.len(),
{
    if rects.len() > 0 {
        assert(rects_in_screen(rects.drop_last())) by {
            assert forall|i: int| 0 <= i < rects.drop_last().len() implies rect_in_screen(#[trigger] rects.drop_last()[i]) by {
                assert(rects.drop_last()[i] == rects[i]);
            }
        }
        lemma_spans_within(rects.drop_last());
        assert(rect_in_screen(rects[rects.len() - 1]));
    }
}

/// Truncating (toward zero) integer division, as Rust's `/` on signed integers.
pub open spec fn tdiv(a: int, b: int) -> int {
    if a >= 0 {
        a / b
    } else {
        -((-a) / b)
    }
}

pub open spec fn abs(a: int) -> int {
    if a >= 0 {
        a
    } else {
        -a
    }
}

/// Pixel margins of the placement (already scaled from logical pixels).
#[derive(Clone, Copy, Debug, PartialEq, Eq)]
pub struct Margins {
    /// Gap kept between the widget and any occupied block.
    pub pad: i32,
    /// Extra gap added when UI Automation found no elements.
    pub uia_fail_pad: i32,
    /// Room kept right of the centered icon group for new icons.
    pub icon_grow: i32,
    /// Room kept left of the tray block for new notification icons.
    pub tray_grow: i32,
}

/// The measured taskbar band.
pub struct BandInfo {
    /// Taskbar rectangle (physical pixels).
    pub band: Rect,
    /// Occupied rectangles to avoid (physical pixels, no gap added).
    pub occ: Vec<Rect>,
    /// Scaled margins of the placement.
    pub margins: Margins,
    /// Number of in-band elements UI Automation reported; 0 means it failed.
    pub uia_count: usize,
}

impl BandInfo {
    /// Coordinates and margins lie inside the accepted screen range.
    pub open spec fn in_range(&self) -> bool {
        &&& rect_in_screen(self.band)
        &&& rects_in_screen(self.occ@)
        &&& in_screen(self.margins.pad as int)
        &&& in_screen(self.margins.uia_fail_pad as int)
        &&& in_screen(self.margins.icon_grow as int)
        &&& in_screen(self.margins.tray_grow as int)
        &&& in_screen(self.margins.pad + self.margins.uia_fail_pad)
    }
}

/// The gap kept around occupied blocks: the pad, plus the extra pad when
/// UI Automation reported nothing.
pub open spec fn plan_pad(info: BandInfo) -> int {
    if info.uia_count == 0 {
        info.margins.pad + info.margins.uia_fail_pad
    } else {
        info.margins.pad as int
    }
}

pub open spec fn band_center(band: Rect) -> int {
    tdiv(band.left + band.right, 2)
}

/// A block spanning the band's center (the icon group) grows right by
/// `grow`, capped at the band's right edge; a block reaching the right edge
/// (the tray) grows left by `tray_grow`, capped at the band's left edge.
pub open spec fn grow_block(p: (i32, i32), band: Rect, grow: i32, tray_grow: i32) -> (i32, i32) {
    let c = band_center(band);
    let b1: i32 = if p.0 <= c && c <= p.1 {
        min_i32((p.1 + grow) as i32, band.right)
    } else {
        p.1
    };
    let a1: i32 = if b1 >= band.right - 2 {
        max_i32((p.0 - tray_grow) as i32, band.left)
    } else {
        p.0
    };
    (a1, b1)
}

pub open spec fn grown_blocks(info: BandInfo) -> Seq<(i32, i32)> {
    occupied_intervals(info.occ@).map_values(
        |p: (i32, i32)| grow_block(p, info.band, info.margins.icon_grow, info.margins.tray_grow),
    )
}

/// Occupied blocks after growth, merged again.
pub open spec fn plan_blocks(info: BandInfo) -> Seq<(i32, i32)> {
    merge_spans(sorted_spans(grown_blocks(info)))
}

/// Scans the blocks left to right, collecting the free stretches between
/// them (each block widened by `pad` on both sides); returns the stretches and
/// the position after the last block.
pub open spec fn scan_gaps(m: Seq<(i32, i32)>, pad: int, start: int) -> (Seq<(int, int)>, int)
    decreases m.len(),
{
    if m.len() == 0 {
        (Seq::empty(), start)
    } else {
        let prev = scan_gaps(m.drop_last(), pad, start);
        let a = m.last().0 - pad;
        let b = m.last().1 + pad;
        let g = if a - prev.1 > 0 {
            prev.0.push((prev.1, a))
        } else {
            prev.0
        };
        (g, if prev.1 >= b { prev.1 } else { b })
    }
}

/// The free stretches of the band, padded away from every block and from the band's ends.
pub open spec fn free_gaps(info: BandInfo) -> Seq<(int, int)> {
    let pad = plan_pad(info);
    let sc = scan_gaps(plan_blocks(info), pad, info.band.left + pad);
    if info.band.right - pad - sc.1 > 0 {
        sc.0.push((sc.1, info.band.right - pad))
    } else {
        sc.0
    }
}

/// The stretches offered for placement: the free ones, or the whole padded
/// band when nothing is free.
pub open spec fn plan_gaps(info: BandInfo) -> Seq<(int, int)> {
    let pad = plan_pad(info);
    if free_gaps(info).len() == 0 {
        seq![(info.band.left + pad, info.band.right - pad)]
    } else {
        free_gaps(info)
    }
}

/// Anchor of the requested position: the start of the first stretch
/// (`left`), the band center (`center`), or the end of the last stretch
/// (anything else, i.e. `right`).
pub open spec fn plan_anchor(gaps: Seq<(int, int)>, band: Rect, mw: int, pos: Seq<char>) -> int {
    if pos == "left"@ {
        gaps[0].0
    } else if pos == "center"@ {
        band_center(band) - tdiv(mw, 2)
    } else {
        gaps.last().1 - mw
    }
}

pub open spec fn gap_fits(g: (int, int), mw: int) -> bool {
    g.1 - g.0 >= mw
}

/// The three positions tried in a stretch: flush left, flush right, centered.
pub open spec fn candidate(g: (int, int), mw: int, k: int) -> int {
    if k == 0 {
        g.0
    } else if k == 1 {
        g.1 - mw
    } else {
        g.0 + (g.1 - g.0 - mw) / 2
    }
}

/// `x` is at least as good as `y`: closer to the anchor, or equally close and not left of it.
pub open spec fn prefers(x: int, y: int, anchor: int) -> bool {
    abs(x - anchor) < abs(y - anchor) || (abs(x - anchor) == abs(y - anchor) && x >= y)
}

pub open spec fn some_gap_fits(gaps: Seq<(int, int)>, mw: int) -> bool {
    exists|i: int| 0 <= i < gaps.len() && gap_fits(#[trigger] gaps[i], mw)
}

/// `x` is the best candidate of the stretches that can hold the widget.
pub open spec fn best_candidate(gaps: Seq<(int, int)>, mw: int, anchor: int, x: int) -> bool {
    &&& exists|i: int, k: int|
        0 <= i < gaps.len() && 0 <= k < 3 && gap_fits(gaps[i], mw) && x == #[trigger] candidate(
            gaps[i],
            mw,
            k,
        )
    &&& forall|j: int, l: int|
        0 <= j < gaps.len() && 0 <= l < 3 && gap_fits(gaps[j], mw) ==> prefers(
            x,
            #[trigger] candidate(gaps[j], mw, l),
            anchor,
        )
}

pub open spec fn gap_width(g: (int, int)) -> int {
    g.1 - g.0
}

/// `k` is the widest stretch (the last one among equally wide).
pub open spec fn widest_index(gaps: Seq<(int, int)>, k: int) -> bool {
    &&& 0 <= k < gaps.len()
    &&& forall|j: int|
        0 <= j < gaps.len() ==> gap_width(#[trigger] gaps[j]) <= gap_width(gaps[k]) && (j > k
            ==> gap_width(gaps[j]) < gap_width(gaps[k]))
}

/// Middle of a stretch for a widget of width `mw`, never left of its start.
pub open spec fn middle_of(g: (int, int), mw: int) -> int {
    g.0 + (if tdiv(g.1 - g.0 - mw, 2) >= 0 {
        tdiv(g.1 - g.0 - mw, 2)
    } else {
        0
    })
}

/// The x of the plan: the best candidate when a stretch can hold the widget,
/// otherwise the middle of the widest stretch.
pub open spec fn plan_x_ok(gaps: Seq<(int, int)>, mw: int, anchor: int, x: int) -> bool {
    if some_gap_fits(gaps, mw) {
        best_candidate(gaps, mw, anchor, x)
    } else {
        exists|k: int| widest_index(gaps, k) && x == middle_of(gaps[k], mw)
    }
}

/// The y of the plan: vertically centered in the band.
pub open spec fn plan_y(band: Rect, mh: int) -> int {
    band.top + tdiv((band.bottom - band.top) - mh, 2)
}

pub open spec fn int_pairs(v: Seq<(i32, i32)>) -> Seq<(int, int)> {
    v.map_values(|p: (i32, i32)| (p.0 as int, p.1 as int))
}

fn grow_all(blocks: &Vec<(i32, i32)>, band: Rect, grow: i32, tray_grow: i32) -> (r: Vec<(i32, i32)>)
    requires
        spans_within(blocks@, -SCREEN_LIMIT as int, SCREEN_LIMIT as int),
        rect_in_screen(band),
        in_screen(grow as int),
        in_screen(tray_grow as int),
    ensures
        r@ == blocks@.map_values(|p: (i32, i32)| grow_block(p, band, grow, tray_grow)),
        spans_within(r@, -2 * SCREEN_LIMIT, 2 * SCREEN_LIMIT),
{
    let center = (band.left + band.right) / 2;
    let mut out: Vec<(i32, i32)> = Vec::new();
    let mut i: usize = 0;
    while i < blocks.len()
        invariant
            i <= blocks.len(),
            spans_within(blocks@, -SCREEN_LIMIT as int, SCREEN_LIMIT as int),
            rect_in_screen(band),
            in_screen(grow as int),
            in_screen(tray_grow as int),
            center == band_center(band),
            out@ == blocks@.take(i as int).map_values(
                |p: (i32, i32)| grow_block(p, band, grow, tray_grow),
            ),
            spans_within(out@, -2 * SCREEN_LIMIT, 2 * SCREEN_LIMIT),
        decreases blocks.len() - i,
    {
        let (a, b) = blocks[i];
        let mut b1 = b;
        if a <= center && center <= b {
            b1 = if b + grow <= band.right { b + grow } else { band.right };
        }
        let mut a1 = a;
        if b1 >= band.right - 2 {
            a1 = if a - tray_grow >= band.left { a - tray_grow } else { band.left };
        }
        out.push((a1, b1));
        assert(blocks@.take(i as int + 1) == blocks@.take(i as int).push(blocks@[i as int]));
        i += 1;
    }
    assert(blocks@.take(blocks.len() as int) == blocks@);
    out
}

/// Index of the widest stretch (the last one among equally wide).
fn widest_gap(gaps: &Vec<(i32, i32)>) -> (k: usize)
    requires
        gaps.len() > 0,
        spans_within(gaps@, -4 * SCREEN_LIMIT, 4 * SCREEN_LIMIT),
    ensures
        widest_index(int_pairs(gaps@), k as int),
{
    let ghost g = int_pairs(gaps@);
    let mut k: usize = 0;
    let mut i: usize = 1;
    while i < gaps.len()
        invariant
            g == int_pairs(gaps@),
            spans_within(gaps@, -4 * SCREEN_LIMIT, 4 * SCREEN_LIMIT),
            1 <= i <= gaps.len(),
            k < i,
            forall|j: int|
                0 <= j < i ==> gap_width(#[trigger] g[j]) <= gap_width(g[k as int]) && (j > k
                    ==> gap_width(g[j]) < gap_width(g[k as int])),
        decreases gaps.len() - i,
    {
        if gaps[i].1 - gaps[i].0 >= gaps[k].1 - gaps[k].0 {
            k = i;
        }
        i += 1;
    }
    k
}

/// Middle of the stretch `(gl, gr)` for a widget of width `mw`, never left of `gl`.
fn middle_in(gl: i32, gr: i32, mw: i32) -> (x: i32)
    requires
        -4 * SCREEN_LIMIT <= gl <= 4 * SCREEN_LIMIT,
        -4 * SCREEN_LIMIT <= gr <= 4 * SCREEN_LIMIT,
        in_screen(mw as int),
    ensures
        x == middle_of((gl as int, gr as int), mw as int),
{
    let h = (gr - gl - mw) / 2;
    gl + if h >= 0 { h } else { 0 }
}

/// Placement of the taskbar widget of size `mw` x `mh` at the requested
/// position (`left`, `center`, otherwise `right`). Returns the x and y, the
/// stretches offered for placement and the pad that separates them from the
/// occupied blocks.
pub fn plan_mini(info: &BandInfo, mw: i32, mh: i32, pos: &str) -> (r: (i32, i32, Vec<(i32, i32)>, i32))
    requires
        info.in_range(),
        in_screen(mw as int),
        in_screen(mh as int),
    ensures
        r.3 == plan_pad(*info),
        int_pairs(r.2@) == plan_gaps(*info),
        plan_x_ok(plan_gaps(*info), mw as int, plan_anchor(plan_gaps(*info), info.band, mw as int, pos@), r.0 as int),
        r.1 == plan_y(info.band, mh as int),
        in_screen(r.3 as int),
        spans_within(r.2@, -3 * SCREEN_LIMIT, 3 * SCREEN_LIMIT),
        -4 * SCREEN_LIMIT <= r.0 <= 4 * SCREEN_LIMIT,
{
    let band = info.band;
    let mut pad = info.margins.pad;
    if info.uia_count == 0 {
        pad = pad + info.margins.uia_fail_pad;
    }
    let occupied = merge_x_intervals(info.occ.as_slice());
    proof {
        lemma_spans_within(info.occ@);
        lemma_sorted_within(spans_of(info.occ@), -SCREEN_LIMIT as int, SCREEN_LIMIT as int);
        lemma_merge_within(sorted_spans(spans_of(info.occ@)), -SCREEN_LIMIT as int, SCREEN_LIMIT as int);
    }
    let mut grown = grow_all(&occupied, band, info.margins.icon_grow, info.margins.tray_grow);
    let ghost before = grown@;
    sort_spans(&mut grown);
    proof {
        lemma_sorted_within(before, -2 * SCREEN_LIMIT, 2 * SCREEN_LIMIT);
    }
    let blocks = merge_sorted_spans(&grown);
    proof {
        lemma_merge_within(grown@, -2 * SCREEN_LIMIT, 2 * SCREEN_LIMIT);
    }
    assert(blocks@ == plan_blocks(*info));

    // free stretches between the padded blocks
    let ghost start = band.left + pad;
    let mut gaps: Vec<(i32, i32)> = Vec::new();
    let mut cur = band.left + pad;
    let mut i: usize = 0;
    while i < blocks.len()
        invariant
            i <= blocks.len(),
            spans_within(blocks@, -2 * SCREEN_LIMIT, 2 * SCREEN_LIMIT),
            in_screen(pad as int),
            start == band.left + pad,
            -3 * SCREEN_LIMIT <= cur <= 3 * SCREEN_LIMIT,
            spans_within(gaps@, -3 * SCREEN_LIMIT, 3 * SCREEN_LIMIT),
            int_pairs(gaps@) == scan_gaps(blocks@.take(i as int), pad as int, start).0,
            cur == scan_gaps(blocks@.take(i as int), pad as int, start).1,
        decreases blocks.len() - i,
    {
        let (a0, b0) = blocks[i];
        let a = a0 - pad;
        let b = b0 + pad;
        assert(blocks@.take(i as int + 1).drop_last() == blocks@.take(i as int));
        assert(blocks@.take(i as int + 1).last() == blocks@[i as int]);
        let ghost old_gaps = gaps@;
        if a - cur > 0 {
            gaps.push((cur, a));
            assert(int_pairs(gaps@) == int_pairs(old_gaps).push((cur as int, a as int)));
        }
        if b > cur {
            cur = b;
        }
        i += 1;
    }
    assert(blocks@.take(blocks.len() as int) == blocks@);
    if band.right - pad - cur > 0 {
        let ghost old_gaps = gaps@;
        gaps.push((cur, band.right - pad));
        assert(int_pairs(gaps@) == int_pairs(old_gaps).push((cur as int, band.right - pad)));
    }
    assert(int_pairs(gaps@) == free_gaps(*info));
    if gaps.len() == 0 {
        gaps.push((band.left + pad, band.right - pad));
        assert(int_pairs(gaps@) =~= seq![(band.left + pad, band.right - pad)]);
    }
    let ghost g = int_pairs(gaps@);
    assert(g == plan_gaps(*info));

    // anchor of the requested position
    let center = (band.left + band.right) / 2;
    let n = gaps.len();
    let ax = if str_eq(pos, "left") {
        gaps[0].0
    } else if str_eq(pos, "center") {
        center - mw / 2
    } else {
        gaps[n - 1].1 - mw
    };
    assert(ax == plan_anchor(g, band, mw as int, pos@));

    // best candidate over the stretches that can hold the widget
    let mut found = false;
    let mut best: i32 = 0;
    let mut i: usize = 0;
    while i < n
        invariant
            n == gaps.len(),
            g == int_pairs(gaps@),
            i <= n,
            spans_within(gaps@, -3 * SCREEN_LIMIT, 3 * SCREEN_LIMIT),
            in_screen(mw as int),
            -4 * SCREEN_LIMIT <= ax <= 4 * SCREEN_LIMIT,
            found ==> -4 * SCREEN_LIMIT <= best <= 4 * SCREEN_LIMIT,
            found ==> exists|j: int, k: int|
                0 <= j < i && 0 <= k < 3 && gap_fits(g[j], mw as int) && best == #[trigger] candidate(
                    g[j],
                    mw as int,
                    k,
                ),
            found ==> forall|j: int, l: int|
                0 <= j < i && 0 <= l < 3 && gap_fits(g[j], mw as int) ==> prefers(
                    best as int,
                    #[trigger] candidate(g[j], mw as int, l),
                    ax as int,
                ),
            !found ==> forall|j: int| 0 <= j < i ==> !gap_fits(#[trigger] g[j], mw as int),
        decreases n - i,
    {
        let (gl, gr) = gaps[i];
        if gr - gl >= mw {
            let c0 = gl;
            let c1 = gr - mw;
            let c2 = gl + (gr - gl - mw) / 2;
            assert(c0 == candidate(g[i as int], mw as int, 0));
            assert(c1 == candidate(g[i as int], mw as int, 1));
            assert(c2 == candidate(g[i as int], mw as int, 2));
            let mut k: usize = 0;
            while k < 3
                invariant
                    0 <= k <= 3,
                    n == gaps.len(),
                    g == int_pairs(gaps@),
                    i < n,
                    gap_fits(g[i as int], mw as int),
                    c0 == candidate(g[i as int], mw as int, 0),
                    c1 == candidate(g[i as int], mw as int, 1),
                    c2 == candidate(g[i as int], mw as int, 2),
                    -4 * SCREEN_LIMIT <= c0 <= 4 * SCREEN_LIMIT,
                    -4 * SCREEN_LIMIT <= c1 <= 4 * SCREEN_LIMIT,
                    -4 * SCREEN_LIMIT <= c2 <= 4 * SCREEN_LIMIT,
                    -4 * SCREEN_LIMIT <= ax <= 4 * SCREEN_LIMIT,
                    found ==> -4 * SCREEN_LIMIT <= best <= 4 * SCREEN_LIMIT,
                    found ==> exists|j: int, kk: int|
                        0 <= j <= i && 0 <= kk < 3 && gap_fits(g[j], mw as int) && best
                            == #[trigger] candidate(g[j], mw as int, kk),
                    found ==> forall|j: int, l: int|
                        ((0 <= j < i && 0 <= l < 3) || (j == i && 0 <= l < k)) && gap_fits(
                            g[j],
                            mw as int,
                        ) ==> prefers(best as int, #[trigger] candidate(g[j], mw as int, l), ax as int),
                    !found ==> k == 0,
                    !found ==> forall|j: int| 0 <= j < i ==> !gap_fits(#[trigger] g[j], mw as int),
                decreases 3 - k,
            {
                let x = if k == 0 {
                    c0
                } else if k == 1 {
                    c1
                } else {
                    c2
                };
                assert(x == candidate(g[i as int], mw as int, k as int));
                let sc = if x >= ax { x - ax } else { ax - x };
                if !found {
                    found = true;
                    best = x;
                } else {
                    let bs = if best >= ax { best - ax } else { ax - best };
                    if sc < bs || (sc == bs && x > best) {
                        best = x;
                    }
                }
                k += 1;
            }
        }
        i += 1;
    }
    let x = if found {
        best
    } else {
        let k = widest_gap(&gaps);
        middle_in(gaps[k].0, gaps[k].1, mw)
    };
    assert(-4 * SCREEN_LIMIT <= x <= 4 * SCREEN_LIMIT);
    let y = band.top + ((band.bottom - band.top) - mh) / 2;
    (x, y, gaps, pad)
}

/// The widget's span `[x, x + mw)` does not overlap the rectangle horizontally.
pub open spec fn clear_of(x: int, mw: int, r: Rect) -> bool {
    x + mw <= r.left || x >= r.right
}

/// The widget's span overlaps none of the rectangles.
pub open spec fn span_free(x: int, mw: int, occ: Seq<Rect>) -> bool {
    forall|i: int| 0 <= i < occ.len() ==> clear_of(x, mw, #[trigger] occ[i])
}

/// Cross-check: the widget's span `[x, x + mw)` overlaps no occupied
/// rectangle. (Growth margins are not part of this check.)
pub fn rect_free(x: i32, mw: i32, occ: &[Rect]) -> (r: bool)
    requires
        -4 * SCREEN_LIMIT <= x <= 4 * SCREEN_LIMIT,
        in_screen(mw as int),
    ensures
        r == span_free(x as int, mw as int, occ@),
{
    let mut i: usize = 0;
    while i < occ.len()
        invariant
            i <= occ.len(),
            -4 * SCREEN_LIMIT <= x <= 4 * SCREEN_LIMIT,
            in_screen(mw as int),
            forall|j: int| 0 <= j < i ==> clear_of(x as int, mw as int, #[trigger] occ@[j]),
        decreases occ.len() - i,
    {
        let r = occ[i];
        if !(x + mw <= r.left || x >= r.right) {
            return false;
        }
        i += 1;
    }
    true
}

/// The fallback position of the cross-check: the middle of the widest
/// offered stretch (the whole padded band when none is offered).
pub open spec fn fallback_x(band: Rect, gaps: Seq<(int, int)>, pad: int, mw: int, c: int) -> bool {
    if gaps.len() == 0 {
        c == middle_of((band.left + pad, band.right - pad), mw)
    } else {
        exists|k: int| widest_index(gaps, k) && c == middle_of(gaps[k], mw)
    }
}

/// The settled x `r` of a planned `x`: the plan when its span is free,
/// otherwise the fallback position when that span is free, otherwise the plan.
pub open spec fn settle_ok(band: Rect, occ: Seq<Rect>, gaps: Seq<(int, int)>, pad: int, x: int, mw: int, r: int) -> bool {
    if span_free(x, mw, occ) {
        r == x
    } else {
        exists|c: int|
            fallback_x(band, gaps, pad, mw, c) && (if span_free(c, mw, occ) {
                r == c
            } else {
                r == x
            })
    }
}

/// Final x of the widget: the planned `x` when its span is free of the
/// occupied rectangles; otherwise the middle of the widest stretch when that
/// span is free; otherwise still the planned `x` (the widget must not vanish).
pub fn settle_mini_x(band: &Rect, occ: &[Rect], gaps: &Vec<(i32, i32)>, pad: i32, x: i32, mw: i32) -> (r: i32)
    requires
        rect_in_screen(*band),
        in_screen(pad as int),
        spans_within(gaps@, -3 * SCREEN_LIMIT, 3 * SCREEN_LIMIT),
        -4 * SCREEN_LIMIT <= x <= 4 * SCREEN_LIMIT,
        in_screen(mw as int),
    ensures
        settle_ok(*band, occ@, int_pairs(gaps@), pad as int, x as int, mw as int, r as int),
        r != x ==> span_free(r as int, mw as int, occ@),
{
    if rect_free(x, mw, occ) {
        return x;
    }
    let (gl, gr) = if gaps.len() > 0 {
        let k = widest_gap(gaps);
        assert(int_pairs(gaps@)[k as int] == (gaps@[k as int].0 as int, gaps@[k as int].1 as int));
        gaps[k]
    } else {
        (band.left + pad, band.right - pad)
    };
    let cand = middle_in(gl, gr, mw);
    assert(fallback_x(*band, int_pairs(gaps@), pad as int, mw as int, cand as int));
    if rect_free(cand, mw, occ) {
        cand
    } else {
        x
    }
}

// ---------------------------------------------------------------------------
// Laws of the placement

pub open spec fn starts_nondecreasing(m: Seq<(i32, i32)>) -> bool {
    forall|i: int, j: int| 0 <= i < j < m.len() ==> (#[trigger] m[i]).0 <= (#[trigger] m[j]).0
}

pub open spec fn separated(m: Seq<(i32, i32)>) -> bool {
    forall|i: int| 0 <= i < m.len() - 1 ==> (#[trigger] m[i]).1 + 2 < m[i + 1].0
}

pub open spec fn covered_by(p: (i32, i32), q: (i32, i32)) -> bool {
    q.0 <= p.0 && p.1 <= q.1
}

pub open spec fn covers_all(s: Seq<(i32, i32)>, m: Seq<(i32, i32)>) -> bool {
    forall|j: int|
        0 <= j < s.len() ==> exists|i: int| 0 <= i < m.len() && covered_by(#[trigger] s[j], m[i])
}

proof fn lemma_merge_props(s: Seq<(i32, i32)>)
    requires
        span_sorted(s),
    ensures
        separated(merge_spans(s)),
        starts_nondecreasing(merge_spans(s)),
        covers_all(s, merge_spans(s)),
        (merge_spans(s).len() > 0) == (s.len() > 0),
        s.len() > 0 ==> merge_spans(s).last().0 <= s.last().0,
    decreases s.len(),
{
    if s.len() > 0 {
        let t = s.drop_last();
        assert(span_sorted(t)) by {
            assert forall|i: int, j: int| 0 <= i < j < t.len() implies span_le(#[trigger] t[i], #[trigger] t[j]) by {
                assert(t[i] == s[i] && t[j] == s[j]);
            }
        }
        lemma_merge_props(t);
        let m = merge_spans(t);
        let p = s.last();
        let r = merge_spans(s);
        if t.len() > 0 {
            assert(span_le(t.last(), p)) by {
                assert(t.last() == s[s.len() - 2]);
                assert(span_le(s[s.len() - 2], s[s.len() - 1]));
            }
        }
        if m.len() > 0 && p.0 <= m.last().1 + 2 {
            assert(r == m.update(m.len() - 1, (m.last().0, max_i32(m.last().1, p.1))));
            assert forall|j: int| 0 <= j < s.len() implies exists|i: int|
                0 <= i < r.len() && covered_by(#[trigger] s[j], r[i]) by {
                if j < t.len() {
                    assert(s[j] == t[j]);
                    let i = choose|i: int| 0 <= i < m.len() && covered_by(t[j], m[i]);
                    assert(covered_by(s[j], r[i]));
                } else {
                    assert(covered_by(s[j], r[r.len() - 1]));
                }
            }
            assert(starts_nondecreasing(r)) by {
                assert forall|i: int, j: int| 0 <= i < j < r.len() implies (#[trigger] r[i]).0
                    <= (#[trigger] r[j]).0 by {
                    assert(r[i].0 == m[i].0 && r[j].0 == m[j].0);
                }
            }
            assert(separated(r)) by {
                assert forall|i: int| 0 <= i < r.len() - 1 implies (#[trigger] r[i]).1 + 2
                    < r[i + 1].0 by {
                    assert(r[i] == m[i]);
                    assert(r[i + 1].0 == m[i + 1].0);
                }
            }
        } else {
            assert(r == m.push(p));
            assert forall|j: int| 0 <= j < s.len() implies exists|i: int|
                0 <= i < r.len() && covered_by(#[trigger] s[j], r[i]) by {
                if j < t.len() {
                    assert(s[j] == t[j]);
                    let i = choose|i: int| 0 <= i < m.len() && covered_by(t[j], m[i]);
                    assert(r[i] == m[i]);
                } else {
                    assert(covered_by(s[j], r[r.len() - 1]));
                }
            }
            assert(starts_nondecreasing(r)) by {
                assert forall|i: int, j: int| 0 <= i < j < r.len() implies (#[trigger] r[i]).0
                    <= (#[trigger] r[j]).0 by {
                    if j == r.len() - 1 {
                        if i < m.len() - 1 {
                            assert(m[i].0 <= m[m.len() - 1].0);
                        }
                        assert(r[i] == m[i]);
                    } else {
                        assert(r[i] == m[i] && r[j] == m[j]);
                    }
                }
            }
            assert(separated(r)) by {
                assert forall|i: int| 0 <= i < r.len() - 1 implies (#[trigger] r[i]).1 + 2
                    < r[i + 1].0 by {
                    assert(r[i] == m[i]);
                    if i + 1 < m.len() {
                        assert(r[i + 1] == m[i + 1]);
                    }
                }
            }
        }
    }
}

proof fn lemma_scan_clear(m: Seq<(i32, i32)>, pad: int, start: int)
    requires
        starts_nondecreasing(m),
    ensures
        scan_gaps(m, pad, start).1 >= start,
        forall|j: int| 0 <= j < m.len() ==> (#[trigger] m[j]).1 + pad <= scan_gaps(m, pad, start).1,
        forall|k: int, j: int|
            0 <= k < scan_gaps(m, pad, start).0.len() && 0 <= j < m.len() ==> (#[trigger] scan_gaps(
                m,
                pad,
                start,
            ).0[k]).1 + pad <= (#[trigger] m[j]).0 || m[j].1 + pad <= scan_gaps(m, pad, start).0[k].0,
        m.len() > 0 ==> forall|k: int|
            0 <= k < scan_gaps(m, pad, start).0.len() ==> (#[trigger] scan_gaps(m, pad, start).0[k]).1
                + pad <= m.last().0,
    decreases m.len(),
{
    if m.len() > 0 {
        let t = m.drop_last();
        assert(starts_nondecreasing(t)) by {
            assert forall|i: int, j: int| 0 <= i < j < t.len() implies (#[trigger] t[i]).0
                <= (#[trigger] t[j]).0 by {
                assert(t[i] == m[i] && t[j] == m[j]);
            }
        }
        lemma_scan_clear(t, pad, start);
        let prev = scan_gaps(t, pad, start);
        let g = scan_gaps(m, pad, start).0;
        assert forall|k: int, j: int| 0 <= k < g.len() && 0 <= j < m.len() implies (#[trigger] g[k]).1
            + pad <= (#[trigger] m[j]).0 || m[j].1 + pad <= g[k].0 by {
            if k < prev.0.len() {
                assert(g[k] == prev.0[k]);
                if j < t.len() {
                    assert(m[j] == t[j]);
                } else {
                    assert(t.len() > 0);
                    assert(prev.0[k].1 + pad <= t.last().0);
                    assert(t.last() == m[m.len() - 2]);
                }
            } else {
                if j < t.len() {
                    assert(m[j] == t[j]);
                } else {
                }
            }
        }
        assert forall|k: int| 0 <= k < g.len() implies (#[trigger] g[k]).1 + pad <= m.last().0 by {
            if k < prev.0.len() {
                assert(g[k] == prev.0[k]);
                if t.len() > 0 {
                    assert(t.last() == m[m.len() - 2]);
                }
            }
        }
        assert forall|j: int| 0 <= j < m.len() implies (#[trigger] m[j]).1 + pad <= scan_gaps(
            m,
            pad,
            start,
        ).1 by {
            if j < t.len() {
                assert(m[j] == t[j]);
            }
        }
    }
}

proof fn lemma_spans_of_contains(rects: Seq<Rect>, i: int)
    requires
        0 <= i < rects.len(),
        rects[i].right > rects[i].left,
    ensures
        spans_of(rects).contains((rects[i].left, rects[i].right)),
    decreases rects.len(),
{
    if i < rects.len() - 1 {
        assert(rects.drop_last()[i] == rects[i]);
        lemma_spans_of_contains(rects.drop_last(), i);
        let prev = spans_of(rects.drop_last());
        let k = choose|k: int| 0 <= k < prev.len() && prev[k] == (rects[i].left, rects[i].right);
        if rects.last().right > rects.last().left {
            assert(spans_of(rects)[k] == prev[k]);
        }
    } else {
        assert(spans_of(rects).last() == (rects[i].left, rects[i].right));
    }
}

/// Every rectangle of positive width lies in `[lo, hi]` horizontally.
pub open spec fn occ_within(occ: Seq<Rect>, lo: int, hi: int) -> bool {
    forall|i: int|
        0 <= i < occ.len() && (#[trigger] occ[i]).right > occ[i].left ==> lo <= occ[i].left
            && occ[i].right <= hi
}

proof fn lemma_spans_of_within(rects: Seq<Rect>, lo: int, hi: int)
    requires
        occ_within(rects, lo, hi),
    ensures
        spans_within(spans_of(rects), lo, hi),
    decreases rects.len(),
{
    if rects.len() > 0 {
        assert(occ_within(rects.drop_last(), lo, hi)) by {
            assert forall|i: int|
                0 <= i < rects.drop_last().len() && (#[trigger] rects.drop_last()[i]).right
                    > rects.drop_last()[i].left implies lo <= rects.drop_last()[i].left
                && rects.drop_last()[i].right <= hi by {
                assert(rects.drop_last()[i] == rects[i]);
            }
        }
        lemma_spans_of_within(rects.drop_last(), lo, hi);
        assert(rects.last() == rects[rects.len() - 1]);
    }
}

/// Clearance of the plan: when the band has free stretches and one of them
/// can hold the widget, the planned span `[x, x + mw)` keeps at least the pad
/// from every occupied rectangle of positive width (occupancy lying inside
/// the band, growth margins not negative).
pub proof fn lemma_plan_keeps_clear(info: BandInfo, mw: int, pos: Seq<char>, x: int)
    requires
        info.in_range(),
        in_screen(mw),
        info.margins.icon_grow >= 0,
        info.margins.tray_grow >= 0,
        occ_within(info.occ@, info.band.left as int, info.band.right as int),
        free_gaps(info).len() > 0,
        some_gap_fits(free_gaps(info), mw),
        plan_x_ok(plan_gaps(info), mw, plan_anchor(plan_gaps(info), info.band, mw, pos), x),
    ensures
        forall|i: int|
            0 <= i < info.occ@.len() && (#[trigger] info.occ@[i]).right > info.occ@[i].left ==> x
                + mw + plan_pad(info) <= info.occ@[i].left || info.occ@[i].right + plan_pad(info)
                <= x,
{
    let band = info.band;
    let pad = plan_pad(info);
    let gaps = plan_gaps(info);
    assert(gaps == free_gaps(info));
    let (gi, k) = choose|gi: int, k: int|
        0 <= gi < gaps.len() && 0 <= k < 3 && gap_fits(gaps[gi], mw) && x == #[trigger] candidate(
            gaps[gi],
            mw,
            k,
        );
    assert(gaps[gi].0 <= x && x + mw <= gaps[gi].1);

    // occupied intervals lie in the band and cover every rectangle
    let sp = spans_of(info.occ@);
    lemma_spans_of_within(info.occ@, band.left as int, band.right as int);
    lemma_sorted_within(sp, band.left as int, band.right as int);
    let m1 = occupied_intervals(info.occ@);
    lemma_merge_within(sorted_spans(sp), band.left as int, band.right as int);
    lemma_merge_props(sorted_spans(sp));
    let grown = grown_blocks(info);
    let pb = plan_blocks(info);
    lemma_sort_props(grown);
    lemma_sort_props(sp);
    lemma_merge_props(sorted_spans(grown));
    lemma_scan_clear(pb, pad, band.left + pad);
    let sc = scan_gaps(pb, pad, band.left + pad);

    assert forall|i: int|
        0 <= i < info.occ@.len() && (#[trigger] info.occ@[i]).right > info.occ@[i].left implies x
            + mw + pad <= info.occ@[i].left || info.occ@[i].right + pad <= x by {
        let r = info.occ@[i];
        let p = (r.left, r.right);
        lemma_spans_of_contains(info.occ@, i);
        assert(sorted_spans(sp).contains(p));
        let j0 = choose|j0: int| 0 <= j0 < sorted_spans(sp).len() && sorted_spans(sp)[j0] == p;
        let i1 = choose|i1: int| 0 <= i1 < m1.len() && covered_by(sorted_spans(sp)[j0], m1[i1]);
        let q = grown[i1];
        assert(covered_by(m1[i1], q));
        assert(grown.contains(q));
        assert(sorted_spans(grown).contains(q));
        let j1 = choose|j1: int| 0 <= j1 < sorted_spans(grown).len() && sorted_spans(grown)[j1] == q;
        let i2 = choose|i2: int| 0 <= i2 < pb.len() && covered_by(sorted_spans(grown)[j1], pb[i2]);
        assert(covered_by(p, pb[i2]));
        if gi < sc.0.len() {
            assert(gaps[gi] == sc.0[gi]);
            assert(sc.0[gi].1 + pad <= pb[i2].0 || pb[i2].1 + pad <= sc.0[gi].0);
        } else {
            assert(gaps[gi] == (sc.1, band.right - pad));
            assert(pb[i2].1 + pad <= sc.1);
        }
    }
}

/// The best candidate is unique: the contract of `plan_mini` pins its x.
pub proof fn lemma_best_candidate_unique(gaps: Seq<(int, int)>, mw: int, anchor: int, x: int, y: int)
    requires
        best_candidate(gaps, mw, anchor, x),
        best_candidate(gaps, mw, anchor, y),
    ensures
        x == y,
{
    let (i, k) = choose|i: int, k: int|
        0 <= i < gaps.len() && 0 <= k < 3 && gap_fits(gaps[i], mw) && x == #[trigger] candidate(
            gaps[i],
            mw,
            k,
        );
    let (j, l) = choose|j: int, l: int|
        0 <= j < gaps.len() && 0 <= l < 3 && gap_fits(gaps[j], mw) && y == #[trigger] candidate(
            gaps[j],
            mw,
            l,
        );
    assert(prefers(x, candidate(gaps[j], mw, l), anchor));
    assert(prefers(y, candidate(gaps[i], mw, k), anchor));
}

/// The occupied intervals are ordered and disjoint: consecutive ones are
/// more than 2 px apart.
pub proof fn lemma_occupied_intervals_separated(rects: Seq<Rect>)
    ensures
        separated(occupied_intervals(rects)),
        starts_nondecreasing(occupied_intervals(rects)),
{
    lemma_sort_props(spans_of(rects));
    lemma_merge_props(sorted_spans(spans_of(rects)));
}

/// Every rectangle of positive width lies, horizontally, inside one of the
/// occupied intervals.
pub proof fn lemma_occupied_intervals_cover(rects: Seq<Rect>, i: int)
    requires
        0 <= i < rects.len(),
        rects[i].right > rects[i].left,
    ensures
        exists|k: int|
            0 <= k < occupied_intervals(rects).len() && covered_by(
                (rects[i].left, rects[i].right),
                #[trigger] occupied_intervals(rects)[k],
            ),
{
    let sp = spans_of(rects);
    let ss = sorted_spans(sp);
    let m = merge_spans(ss);
    let p = (rects[i].left, rects[i].right);
    lemma_sort_props(sp);
    lemma_merge_props(ss);
    lemma_spans_of_contains(rects, i);
    assert(ss.contains(p));
    let j = choose|j: int| 0 <= j < ss.len() && ss[j] == p;
    let k = choose|k: int| 0 <= k < m.len() && covered_by(ss[j], m[k]);
    assert(covered_by(p, m[k]));
    assert(m == occupied_intervals(rects));
}

/// Where the taskbar widget goes: the plan of `plan_mini`, cross-checked by
/// `settle_mini_x` against the occupied rectangles.
pub fn place_mini(info: &BandInfo, mw: i32, mh: i32, pos: &str) -> (r: (i32, i32))
    requires
        info.in_range(),
        in_screen(mw as int),
        in_screen(mh as int),
    ensures
        r.1 == plan_y(info.band, mh as int),
        exists|x: int|
            plan_x_ok(plan_gaps(*info), mw as int, plan_anchor(plan_gaps(*info), info.band, mw as int, pos@), x)
                && settle_ok(info.band, info.occ@, plan_gaps(*info), plan_pad(*info), x, mw as int, r.0 as int),
{
    let (x, y, gaps, pad) = plan_mini(info, mw, mh, pos);
    let x2 = settle_mini_x(&info.band, info.occ.as_slice(), &gaps, pad, x, mw);
    assert(plan_x_ok(plan_gaps(*info), mw as int, plan_anchor(plan_gaps(*info), info.band, mw as int, pos@), x as int));
    (x2, y)
}

/// Growth room: when the band has free stretches and one of them can hold
/// the widget, the planned span keeps at least the pad from every occupied
/// block after growth, i.e. from the icon group extended right by the icon
/// margin and from the tray block extended left by the tray margin.
pub proof fn lemma_plan_leaves_growth_room(info: BandInfo, mw: int, pos: Seq<char>, x: int)
    requires
        free_gaps(info).len() > 0,
        some_gap_fits(free_gaps(info), mw),
        plan_x_ok(plan_gaps(info), mw, plan_anchor(plan_gaps(info), info.band, mw, pos), x),
    ensures
        forall|k: int|
            0 <= k < grown_blocks(info).len() ==> x + mw + plan_pad(info) <= (
            #[trigger] grown_blocks(info)[k]).0 || grown_blocks(info)[k].1 + plan_pad(info) <= x,
{
    let band = info.band;
    let pad = plan_pad(info);
    let gaps = plan_gaps(info);
    assert(gaps == free_gaps(info));
    let (gi, c) = choose|gi: int, c: int|
        0 <= gi < gaps.len() && 0 <= c < 3 && gap_fits(gaps[gi], mw) && x == #[trigger] candidate(
            gaps[gi],
            mw,
            c,
        );
    assert(gaps[gi].0 <= x && x + mw <= gaps[gi].1);
    let grown = grown_blocks(info);
    let pb = plan_blocks(info);
    lemma_sort_props(grown);
    lemma_merge_props(sorted_spans(grown));
    lemma_scan_clear(pb, pad, band.left + pad);
    let sc = scan_gaps(pb, pad, band.left + pad);
    assert forall|k: int| 0 <= k < grown.len() implies x + mw + pad <= (#[trigger] grown[k]).0
        || grown[k].1 + pad <= x by {
        let q = grown[k];
        assert(grown.contains(q));
        assert(sorted_spans(grown).contains(q));
        let j1 = choose|j1: int| 0 <= j1 < sorted_spans(grown).len() && sorted_spans(grown)[j1] == q;
        let i2 = choose|i2: int| 0 <= i2 < pb.len() && covered_by(sorted_spans(grown)[j1], pb[i2]);
        if gi < sc.0.len() {
            assert(gaps[gi] == sc.0[gi]);
            assert(sc.0[gi].1 + pad <= pb[i2].0 || pb[i2].1 + pad <= sc.0[gi].0);
        } else {
            assert(gaps[gi] == (sc.1, band.right - pad));
            assert(pb[i2].1 + pad <= sc.1);
        }
    }
}

proof fn lemma_scan_starts(m: Seq<(i32, i32)>, pad: int, start: int)
    ensures
        scan_gaps(m, pad, start).1 >= start,
        forall|k: int|
            0 <= k < scan_gaps(m, pad, start).0.len() ==> (#[trigger] scan_gaps(m, pad, start).0[k]).0
                >= start,
    decreases m.len(),
{
    if m.len() > 0 {
        lemma_scan_starts(m.drop_last(), pad, start);
    }
}

/// Every offered stretch lies inside the band, the pad away from both ends,
/// when the occupancy lies inside the band and the tray margin is not negative.
proof fn lemma_plan_gaps_within(info: BandInfo)
    requires
        info.in_range(),
        info.margins.tray_grow >= 0,
        occ_within(info.occ@, info.band.left as int, info.band.right as int),
    ensures
        forall|k: int|
            0 <= k < plan_gaps(info).len() ==> info.band.left + plan_pad(info) <= (
            #[trigger] plan_gaps(info)[k]).0 && plan_gaps(info)[k].1 <= info.band.right
                - plan_pad(info),
{
    let band = info.band;
    let pad = plan_pad(info);
    let start = band.left + pad;
    let sp = spans_of(info.occ@);
    lemma_spans_of_within(info.occ@, band.left as int, band.right as int);
    lemma_sorted_within(sp, band.left as int, band.right as int);
    let m1 = occupied_intervals(info.occ@);
    lemma_merge_within(sorted_spans(sp), band.left as int, band.right as int);
    let grown = grown_blocks(info);
    assert forall|k: int| 0 <= k < grown.len() implies (#[trigger] grown[k]).0 <= band.right by {
        assert(grown[k] == grow_block(m1[k], band, info.margins.icon_grow, info.margins.tray_grow));
    }
    let pb = plan_blocks(info);
    lemma_sort_props(grown);
    lemma_merge_props(sorted_spans(grown));
    lemma_scan_clear(pb, pad, start);
    lemma_scan_starts(pb, pad, start);
    let sc = scan_gaps(pb, pad, start);
    if pb.len() > 0 {
        let ss = sorted_spans(grown);
        assert(ss.contains(ss.last()));
        assert(grown.contains(ss.last()));
        assert(pb.last().0 <= band.right);
    }
    let fg = free_gaps(info);
    assert forall|k: int| 0 <= k < fg.len() implies start <= (#[trigger] fg[k]).0 && fg[k].1
        <= band.right - pad by {
        if k < sc.0.len() {
            assert(fg[k] == sc.0[k]);
        }
    }
}

/// The widget stays inside the band: when a stretch can hold it, the planned
/// span `[x, x + mw)` lies inside the band, the pad away from both ends
/// (occupancy lying inside the band, tray margin not negative).
pub proof fn lemma_plan_within_band(info: BandInfo, mw: int, pos: Seq<char>, x: int)
    requires
        info.in_range(),
        info.margins.tray_grow >= 0,
        occ_within(info.occ@, info.band.left as int, info.band.right as int),
        some_gap_fits(plan_gaps(info), mw),
        plan_x_ok(plan_gaps(info), mw, plan_anchor(plan_gaps(info), info.band, mw, pos), x),
    ensures
        info.band.left + plan_pad(info) <= x,
        x + mw <= info.band.right - plan_pad(info),
{
    let gaps = plan_gaps(info);
    lemma_plan_gaps_within(info);
    let (gi, k) = choose|gi: int, k: int|
        0 <= gi < gaps.len() && 0 <= k < 3 && gap_fits(gaps[gi], mw) && x == #[trigger] candidate(
            gaps[gi],
            mw,
            k,
        );
    assert(gaps[gi].0 <= x && x + mw <= gaps[gi].1);
}

// ---------------------------------------------------------------------------
// The occupied intervals do not depend on the order of the rectangles

spec fn span_part(r: Rect) -> vstd::multiset::Multiset<(i32, i32)> {
    if r.right > r.left {
        vstd::multiset::Multiset::empty().insert((r.left, r.right))
    } else {
        vstd::multiset::Multiset::empty()
    }
}

proof fn lemma_spans_ms_push(s: Seq<Rect>, x: Rect)
    ensures
        spans_of(s.push(x)).to_multiset() == spans_of(s).to_multiset().add(span_part(x)),
{
    broadcast use vstd::seq_lib::group_to_multiset_ensures;
    broadcast use vstd::multiset::group_multiset_axioms;
    assert(s.push(x).drop_last() =~= s);
    assert(s.push(x).last() == x);
    if x.right > x.left {
        assert(spans_of(s).push((x.left, x.right)).to_multiset() =~= spans_of(s).to_multiset().insert(
            (x.left, x.right),
        ));
        assert(spans_of(s).to_multiset().insert((x.left, x.right)) =~= spans_of(s).to_multiset().add(
            span_part(x),
        ));
    } else {
        assert(spans_of(s).to_multiset() =~= spans_of(s).to_multiset().add(span_part(x)));
    }
}

proof fn lemma_spans_ms_remove(s: Seq<Rect>, i: int)
    requires
        0 <= i < s.len(),
    ensures
        spans_of(s).to_multiset() == spans_of(s.remove(i)).to_multiset().add(span_part(s[i])),
    decreases s.len(),
{
    broadcast use vstd::multiset::group_multiset_axioms;
    let t = s.drop_last();
    assert(s =~= t.push(s.last()));
    lemma_spans_ms_push(t, s.last());
    if i == s.len() - 1 {
        assert(s.remove(i) =~= t);
    } else {
        lemma_spans_ms_remove(t, i);
        assert(s.remove(i) =~= t.remove(i).push(s.last()));
        lemma_spans_ms_push(t.remove(i), s.last());
        assert(t[i] == s[i]);
        let a = spans_of(t.remove(i)).to_multiset();
        assert(a.add(span_part(s[i])).add(span_part(s.last())) =~= a.add(span_part(s.last())).add(
            span_part(s[i]),
        ));
    }
}

proof fn lemma_spans_ms_perm(s1: Seq<Rect>, s2: Seq<Rect>)
    requires
        s1.to_multiset() == s2.to_multiset(),
    ensures
        spans_of(s1).to_multiset() == spans_of(s2).to_multiset(),
    decreases s1.len(),
{
    broadcast use vstd::seq_lib::group_to_multiset_ensures;
    broadcast use vstd::multiset::group_multiset_axioms;
    if s1.len() == 0 {
        assert(s1.to_multiset().len() == 0);
        assert(s2.to_multiset().len() == s2.len());
        assert(s1 =~= s2);
    } else {
        let x = s1.last();
        assert(s1.contains(x)) by {
            assert(s1[s1.len() - 1] == x);
        }
        assert(s2.to_multiset().count(x) > 0);
        assert(s2.contains(x));
        let i = choose|i: int| 0 <= i < s2.len() && s2[i] == x;
        assert(s1.drop_last() =~= s1.remove(s1.len() - 1));
        assert(s1.drop_last().to_multiset() =~= s2.remove(i).to_multiset());
        lemma_spans_ms_perm(s1.drop_last(), s2.remove(i));
        assert(s1 =~= s1.drop_last().push(x));
        lemma_spans_ms_push(s1.drop_last(), x);
        lemma_spans_ms_remove(s2, i);
    }
}

/// The occupied intervals depend only on which rectangles there are, not on
/// their order: any rearrangement of the rectangles gives the same intervals.
pub proof fn lemma_occupied_intervals_order_free(r1: Seq<Rect>, r2: Seq<Rect>)
    requires
        r1.to_multiset() == r2.to_multiset(),
    ensures
        occupied_intervals(r1) == occupied_intervals(r2),
{
    let leq = |a: (i32, i32), b: (i32, i32)| span_le(a, b);
    lemma_span_le_total();
    lemma_spans_ms_perm(r1, r2);
    let s1 = spans_of(r1);
    let s2 = spans_of(r2);
    s1.lemma_sort_by_ensures(leq);
    s2.lemma_sort_by_ensures(leq);
    vstd::seq_lib::lemma_sorted_unique(s1.sort_by(leq), s2.sort_by(leq), leq);
    assert(sorted_spans(s1) == sorted_spans(s2));
}

// ---------------------------------------------------------------------------
// Where the ends of the occupied intervals come from

/// Some rectangle of positive width starts at `a`.
pub open spec fn starts_rect(rects: Seq<Rect>, a: i32) -> bool {
    exists|i: int| 0 <= i < rects.len() && (#[trigger] rects[i]).right > rects[i].left && rects[i].left == a
}

/// Some rectangle of positive width ends at `b`.
pub open spec fn ends_rect(rects: Seq<Rect>, b: i32) -> bool {
    exists|i: int| 0 <= i < rects.len() && (#[trigger] rects[i]).right > rects[i].left && rects[i].right == b
}

spec fn has_start(s: Seq<(i32, i32)>, a: i32) -> bool {
    exists|i: int| 0 <= i < s.len() && (#[trigger] s[i]).0 == a
}

spec fn has_end(s: Seq<(i32, i32)>, b: i32) -> bool {
    exists|i: int| 0 <= i < s.len() && (#[trigger] s[i]).1 == b
}

spec fn all_positive(s: Seq<(i32, i32)>) -> bool {
    forall|i: int| 0 <= i < s.len() ==> (#[trigger] s[i]).0 < s[i].1
}

proof fn lemma_has_prefix(t: Seq<(i32, i32)>, s: Seq<(i32, i32)>, a: i32, b: i32)
    requires
        t.len() <= s.len(),
        forall|i: int| 0 <= i < t.len() ==> t[i] == s[i],
    ensures
        has_start(t, a) ==> has_start(s, a),
        has_end(t, b) ==> has_end(s, b),
{
    if has_start(t, a) {
        let i = choose|i: int| 0 <= i < t.len() && (#[trigger] t[i]).0 == a;
        assert(s[i].0 == a);
    }
    if has_end(t, b) {
        let i = choose|i: int| 0 <= i < t.len() && (#[trigger] t[i]).1 == b;
        assert(s[i].1 == b);
    }
}

proof fn lemma_merge_endpoints(s: Seq<(i32, i32)>)
    requires
        all_positive(s),
    ensures
        all_positive(merge_spans(s)),
        forall|k: int| 0 <= k < merge_spans(s).len() ==> has_start(s, (#[trigger] merge_spans(s)[k]).0)
            && has_end(s, merge_spans(s)[k].1),
    decreases s.len(),
{
    if s.len() > 0 {
        let t = s.drop_last();
        lemma_merge_endpoints(t);
        let m = merge_spans(t);
        let p = s.last();
        let r = merge_spans(s);
        let n = s.len() - 1;
        assert(s[n] == p);
        assert forall|k: int| 0 <= k < r.len() implies (#[trigger] r[k]).0 < r[k].1 && has_start(s, r[k].0)
            && has_end(s, r[k].1) by {
            if k < m.len() && !(k == m.len() - 1 && p.0 <= m.last().1 + 2) {
                assert(r[k] == m[k]);
                lemma_has_prefix(t, s, m[k].0, m[k].1);
            } else if k < m.len() {
                lemma_has_prefix(t, s, m[k].0, m[k].1);
                assert(r[k].0 == m[k].0);
                if m.last().1 >= p.1 {
                    assert(r[k].1 == m[k].1);
                } else {
                    assert(r[k].1 == p.1);
                    assert(s[n].1 == p.1);
                }
            } else {
                assert(r[k] == p);
                assert(s[n].0 == p.0 && s[n].1 == p.1);
            }
        }
    }
}

proof fn lemma_spans_of_from(rects: Seq<Rect>)
    ensures
        forall|j: int| 0 <= j < spans_of(rects).len() ==> (#[trigger] spans_of(rects)[j]).0 < spans_of(rects)[j].1
            && starts_rect(rects, spans_of(rects)[j].0) && ends_rect(rects, spans_of(rects)[j].1),
    decreases rects.len(),
{
    if rects.len() > 0 {
        let t = rects.drop_last();
        lemma_spans_of_from(t);
        let prev = spans_of(t);
        let sp = spans_of(rects);
        let n = rects.len() - 1;
        assert(rects[n] == rects.last());
        assert forall|j: int| 0 <= j < sp.len() implies (#[trigger] sp[j]).0 < sp[j].1 && starts_rect(rects, sp[j].0)
            && ends_rect(rects, sp[j].1) by {
            if j < prev.len() {
                assert(sp[j] == prev[j]);
                let a = choose|i: int| 0 <= i < t.len() && (#[trigger] t[i]).right > t[i].left && t[i].left == prev[j].0;
                let b = choose|i: int| 0 <= i < t.len() && (#[trigger] t[i]).right > t[i].left && t[i].right == prev[j].1;
                assert(rects[a] == t[a] && rects[b] == t[b]);
            } else {
                assert(sp[j] == (rects[n].left, rects[n].right));
            }
        }
    }
}

/// Every occupied interval has positive width, starts where some rectangle of
/// positive width starts and ends where some such rectangle ends.
pub proof fn lemma_occupied_intervals_endpoints(rects: Seq<Rect>)
    ensures
        forall|k: int|
            0 <= k < occupied_intervals(rects).len() ==> (#[trigger] occupied_intervals(rects)[k]).0
                < occupied_intervals(rects)[k].1 && starts_rect(rects, occupied_intervals(rects)[k].0)
                && ends_rect(rects, occupied_intervals(rects)[k].1),
{
    let sp = spans_of(rects);
    let ss = sorted_spans(sp);
    let m = occupied_intervals(rects);
    lemma_spans_of_from(rects);
    lemma_sort_props(sp);
    assert forall|i: int| 0 <= i < ss.len() implies (#[trigger] ss[i]).0 < ss[i].1 && starts_rect(rects, ss[i].0)
        && ends_rect(rects, ss[i].1) by {
        assert(ss.contains(ss[i]));
        let j = choose|j: int| 0 <= j < sp.len() && sp[j] == ss[i];
    }
    lemma_merge_endpoints(ss);
    assert forall|k: int| 0 <= k < m.len() implies (#[trigger] m[k]).0 < m[k].1 && starts_rect(rects, m[k].0)
        && ends_rect(rects, m[k].1) by {
        let a = choose|i: int| 0 <= i < ss.len() && (#[trigger] ss[i]).0 == m[k].0;
        let b = choose|i: int| 0 <= i < ss.len() && (#[trigger] ss[i]).1 == m[k].1;
    }
}

// ---------------------------------------------------------------------------
// Range checks and the clearance diagnosis

/// Whether a coordinate lies in the accepted screen range.
pub fn value_fits_screen(v: i32) -> (b: bool)
    ensures
        b == in_screen(v as int),
{
    -SCREEN_LIMIT <= v && v <= SCREEN_LIMIT
}

impl Rect {
    /// Whether all four edges lie in the accepted screen range.
    pub fn fits_screen(&self) -> (b: bool)
        ensures
            b == rect_in_screen(*self),
    {
        value_fits_screen(self.left) && value_fits_screen(self.top) && value_fits_screen(self.right)
            && value_fits_screen(self.bottom)
    }
}

impl BandInfo {
    /// Whether the measurement lies in the range the placement accepts.
    pub fn fits_screen(&self) -> (b: bool)
        ensures
            b == self.in_range(),
    {
        if !self.band.fits_screen() {
            return false;
        }
        let mut i: usize = 0;
        while i < self.occ.len()
            invariant
                i <= self.occ.len(),
                forall|j: int| 0 <= j < i ==> rect_in_screen(#[trigger] self.occ@[j]),
            decreases self.occ.len() - i,
        {
            if !self.occ[i].fits_screen() {
                return false;
            }
            i += 1;
        }
        let m = &self.margins;
        value_fits_screen(m.pad) && value_fits_screen(m.uia_fail_pad) && value_fits_screen(m.icon_grow)
            && value_fits_screen(m.tray_grow) && value_fits_screen(m.pad + m.uia_fail_pad)
    }
}

/// The placement of `place_mini` when the measurement and the widget size lie
/// in the accepted range; `None` otherwise.
pub fn try_place_mini(info: &BandInfo, mw: i32, mh: i32, pos: &str) -> (r: Option<(i32, i32)>)
    ensures
        r is Some == (info.in_range() && in_screen(mw as int) && in_screen(mh as int)),
        r matches Some(p) ==> p.1 == plan_y(info.band, mh as int) && exists|x: int|
            plan_x_ok(plan_gaps(*info), mw as int, plan_anchor(plan_gaps(*info), info.band, mw as int, pos@), x)
                && settle_ok(info.band, info.occ@, plan_gaps(*info), plan_pad(*info), x, mw as int, p.0 as int),
{
    if info.fits_screen() && value_fits_screen(mw) && value_fits_screen(mh) {
        Some(place_mini(info, mw, mh, pos))
    } else {
        None
    }
}

/// Distance between the widget's span `[x, x + mw)` and the rectangle,
/// horizontally; 0 when they overlap.
pub open spec fn span_distance(x: int, mw: int, r: Rect) -> int {
    if r.right <= x {
        x - r.right
    } else if r.left >= x + mw {
        r.left - (x + mw)
    } else {
        0
    }
}

/// The smallest distance to any of the rectangles; `i32::MAX` when there is none.
pub open spec fn min_clearance(x: int, mw: int, occ: Seq<Rect>) -> int
    decreases occ.len(),
{
    if occ.len() == 0 {
        i32::MAX as int
    } else {
        let rest = min_clearance(x, mw, occ.drop_last());
        let d = span_distance(x, mw, occ.last());
        if d < rest {
            d
        } else {
            rest
        }
    }
}

/// Clearance of the widget's span: its smallest horizontal distance to the
/// occupied rectangles (`i32::MAX` when there are none).
pub fn clearance(x: i32, mw: i32, occ: &[Rect]) -> (c: i32)
    requires
        -4 * SCREEN_LIMIT <= x <= 4 * SCREEN_LIMIT,
        in_screen(mw as int),
        rects_in_screen(occ@),
    ensures
        c == min_clearance(x as int, mw as int, occ@),
{
    let mut c: i32 = i32::MAX;
    let mut i: usize = 0;
    while i < occ.len()
        invariant
            i <= occ.len(),
            -4 * SCREEN_LIMIT <= x <= 4 * SCREEN_LIMIT,
            in_screen(mw as int),
            rects_in_screen(occ@),
            c == min_clearance(x as int, mw as int, occ@.take(i as int)),
        decreases occ.len() - i,
    {
        let r = occ[i];
        assert(rect_in_screen(occ@[i as int]));
        let d = if r.right <= x {
            x - r.right
        } else if r.left >= x + mw {
            r.left - (x + mw)
        } else {
            0
        };
        assert(occ@.take(i as int + 1).drop_last() =~= occ@.take(i as int));
        assert(occ@.take(i as int + 1).last() == occ@[i as int]);
        if d < c {
            c = d;
        }
        i += 1;
    }
    assert(occ@.take(occ.len() as int) =~= occ@);
    c
}

// ---------------------------------------------------------------------------
// The planned position is the nearest of every stretch's three positions

/// Choice of the plan: when some stretch holds the widget, the planned `x`
/// is flush left, flush right or centred in a stretch that holds it, and is
/// at least as close to the anchor as the flush-left, flush-right and
/// centred positions `a`, `b - mw` and `a + (b - a - mw) / 2` of every
/// stretch `[a, b)` that holds it.
pub proof fn lemma_plan_is_nearest_position(gaps: Seq<(int, int)>, mw: int, anchor: int, x: int)
    requires
        plan_x_ok(gaps, mw, anchor, x),
        exists|i: int| 0 <= i < gaps.len() && gaps[i].1 - gaps[i].0 >= mw,
    ensures
        exists|i: int|
            0 <= i < gaps.len() && gaps[i].1 - gaps[i].0 >= mw && (x == gaps[i].0 || x == gaps[i].1 - mw || x
                == gaps[i].0 + (gaps[i].1 - gaps[i].0 - mw) / 2),
        forall|i: int|
            0 <= i < gaps.len() && gaps[i].1 - gaps[i].0 >= mw ==> {
                let a = gaps[i].0;
                let b = gaps[i].1;
                let d = if x >= anchor { x - anchor } else { anchor - x };
                let c = a + (b - a - mw) / 2;
                &&& d <= (if a >= anchor { a - anchor } else { anchor - a })
                &&& d <= (if b - mw >= anchor { b - mw - anchor } else { anchor - (b - mw) })
                &&& d <= (if c >= anchor { c - anchor } else { anchor - c })
            },
{
    let i0 = choose|i: int| 0 <= i < gaps.len() && gaps[i].1 - gaps[i].0 >= mw;
    assert(gap_fits(gaps[i0], mw));
    assert(some_gap_fits(gaps, mw));
    let (gi, k) = choose|gi: int, k: int|
        0 <= gi < gaps.len() && 0 <= k < 3 && gap_fits(gaps[gi], mw) && x == #[trigger] candidate(
            gaps[gi],
            mw,
            k,
        );
    assert(gaps[gi].1 - gaps[gi].0 >= mw);
    assert forall|i: int| 0 <= i < gaps.len() && gaps[i].1 - gaps[i].0 >= mw implies {
        let a = gaps[i].0;
        let b = gaps[i].1;
        let d = if x >= anchor { x - anchor } else { anchor - x };
        let c = a + (b - a - mw) / 2;
        &&& d <= (if a >= anchor { a - anchor } else { anchor - a })
        &&& d <= (if b - mw >= anchor { b - mw - anchor } else { anchor - (b - mw) })
        &&& d <= (if c >= anchor { c - anchor } else { anchor - c })
    } by {
        assert(gap_fits(gaps[i], mw));
        assert(prefers(x, candidate(gaps[i], mw, 0), anchor));
        assert(prefers(x, candidate(gaps[i], mw, 1), anchor));
        assert(prefers(x, candidate(gaps[i], mw, 2), anchor));
    }
}

/// Position `left` puts the widget at the start of the first stretch, and
/// any position other than `left` and `center` puts it at the end of the
/// last stretch, whenever that stretch holds it.
pub proof fn lemma_plan_left_right_flush(info: BandInfo, mw: int, pos: Seq<char>, x: int)
    requires
        plan_x_ok(plan_gaps(info), mw, plan_anchor(plan_gaps(info), info.band, mw, pos), x),
    ensures
        pos == "left"@ && plan_gaps(info)[0].1 - plan_gaps(info)[0].0 >= mw ==> x == plan_gaps(info)[0].0,
        pos != "left"@ && pos != "center"@ && plan_gaps(info).last().1 - plan_gaps(info).last().0 >= mw
            ==> x + mw == plan_gaps(info).last().1,
{
    let gaps = plan_gaps(info);
    assert(gaps.len() > 0);
    if pos == "left"@ && gaps[0].1 - gaps[0].0 >= mw {
        lemma_plan_is_nearest_position(gaps, mw, plan_anchor(gaps, info.band, mw, pos), x);
    }
    if pos != "left"@ && pos != "center"@ && gaps.last().1 - gaps.last().0 >= mw {
        let n = gaps.len() - 1;
        assert(gaps[n] == gaps.last());
        lemma_plan_is_nearest_position(gaps, mw, plan_anchor(gaps, info.band, mw, pos), x);
    }
}

/// The clearance is the smallest horizontal gap between the span
/// `[x, x + mw)` and a rectangle (0 for an overlapping one): it is at most
/// the gap to every rectangle and equal to the gap to one of them; with no
/// rectangles it is `i32::MAX`.
pub proof fn lemma_clearance_is_smallest_gap(x: int, mw: int, occ: Seq<Rect>)
    requires
        -4 * SCREEN_LIMIT <= x <= 4 * SCREEN_LIMIT,
        in_screen(mw),
        rects_in_screen(occ),
    ensures
        occ.len() == 0 ==> min_clearance(x, mw, occ) == i32::MAX,
        forall|i: int|
            0 <= i < occ.len() ==> min_clearance(x, mw, occ) <= (if (#[trigger] occ[i]).right <= x {
                x - occ[i].right
            } else if occ[i].left >= x + mw {
                occ[i].left - (x + mw)
            } else {
                0
            }),
        occ.len() > 0 ==> exists|i: int|
            0 <= i < occ.len() && min_clearance(x, mw, occ) == (if (#[trigger] occ[i]).right <= x {
                x - occ[i].right
            } else if occ[i].left >= x + mw {
                occ[i].left - (x + mw)
            } else {
                0
            }),
    decreases occ.len(),
{
    if occ.len() > 0 {
        let t = occ.drop_last();
        assert(rects_in_screen(t)) by {
            assert forall|i: int| 0 <= i < t.len() implies rect_in_screen(#[trigger] t[i]) by {
                assert(t[i] == occ[i]);
            }
        }
        lemma_clearance_is_smallest_gap(x, mw, t);
        let n = occ.len() - 1;
        assert(occ[n] == occ.last());
        assert(rect_in_screen(occ[n]));
        let m = min_clearance(x, mw, occ);
        let rest = min_clearance(x, mw, t);
        let d = span_distance(x, mw, occ[n]);
        assert(m == if d < rest { d } else { rest });
        assert forall|i: int| 0 <= i < occ.len() implies m <= (if (#[trigger] occ[i]).right <= x {
            x - occ[i].right
        } else if occ[i].left >= x + mw {
            occ[i].left - (x + mw)
        } else {
            0
        }) by {
            if i < n {
                assert(t[i] == occ[i]);
            }
        }
        if d < rest {
            assert(0 <= n < occ.len() && m == span_distance(x, mw, occ[n]));
        } else {
            assert(t.len() > 0);
            let j = choose|i: int|
                0 <= i < t.len() && rest == (if (#[trigger] t[i]).right <= x {
                    x - t[i].right
                } else if t[i].left >= x + mw {
                    t[i].left - (x + mw)
                } else {
                    0
                });
            assert(t[j] == occ[j]);
            assert(0 <= j < occ.len() && m == span_distance(x, mw, occ[j]));
        }
    }
}

} // verus!
