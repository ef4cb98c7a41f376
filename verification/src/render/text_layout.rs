//! Laying out the text of a PDF page on a character grid.
//!
//! Glyph positions are fixed-point numbers: `POINT` units make one PDF point, and `y`
//! grows downwards from the top of the page. Every coordinate stays within
//! `COORD_LIMIT` units, which keeps all the arithmetic below inside `i64`.
use vstd::prelude::*;
use crate::text::{
    is_whitespace, is_ws, push_str, str_lowercase, trim_bounds, trim_end_bound, trim_end_seq, trim_seq,
    chars_of, lowercase, string_from_range,
};

verus! {

/// Units per PDF point.
pub const POINT: i64 = 1000;

/// Largest magnitude of a coordinate, in units.
pub const COORD_LIMIT: i64 = 1_099_511_627_776;

/// A positioned character extracted from a PDF page.
pub struct PlacedChar {
    pub x: i64,
    pub y: i64,
    /// Expected x of the next same-word glyph (from advance width).
    pub next_x: i64,
    pub ch: String,
}

/// A word with its position.
pub struct Word {
    pub x: i64,
    pub text: String,
}

/// A line of text: a y-position and the words on it.
pub struct TextLine {
    pub y: i64,
    pub words: Vec<Word>,
    /// Median glyph advance for this line (determines the width of a grid cell).
    pub char_advance: i64,
}

/// Mathematical form of a glyph.
pub struct GlyphView {
    pub x: int,
    pub y: int,
    pub next_x: int,
    pub ch: Seq<char>,
}

/// Mathematical form of a word.
pub struct WordView {
    pub x: int,
    pub text: Seq<char>,
}

/// Mathematical form of a line.
pub struct LineView {
    pub y: int,
    pub words: Seq<WordView>,
    pub char_advance: int,
}

impl View for PlacedChar {
    type V = GlyphView;

    open spec fn view(&self) -> GlyphView {
        GlyphView { x: self.x as int, y: self.y as int, next_x: self.next_x as int, ch: self.ch@ }
    }
}

impl View for Word {
    type V = WordView;

    open spec fn view(&self) -> WordView {
        WordView { x: self.x as int, text: self.text@ }
    }
}

impl View for TextLine {
    type V = LineView;

    open spec fn view(&self) -> LineView {
        LineView {
            y: self.y as int,
            words: self.words@.map_values(|w: Word| w@),
            char_advance: self.char_advance as int,
        }
    }
}

/// The glyphs of a slice, by their views.
pub open spec fn glyphs(cs: Seq<PlacedChar>) -> Seq<GlyphView> {
    cs.map_values(|c: PlacedChar| c@)
}

/// The lines of a slice, by their views.
pub open spec fn lines_view(ls: Seq<TextLine>) -> Seq<LineView> {
    ls.map_values(|l: TextLine| l@)
}

/// The words of a slice, by their views.
pub open spec fn words_view(ws: Seq<Word>) -> Seq<WordView> {
    ws.map_values(|w: Word| w@)
}

/// A coordinate within the limits.
pub open spec fn in_limits(v: int) -> bool {
    -COORD_LIMIT <= v <= COORD_LIMIT
}

/// Every coordinate of every glyph is within the limits.
pub open spec fn glyphs_ok(gs: Seq<GlyphView>) -> bool {
    forall|i: int| 0 <= i < gs.len() ==> in_limits((#[trigger] gs[i]).x) && in_limits(gs[i].y)
        && in_limits(gs[i].next_x)
}

/// `a / b` rounded to the nearest integer, halves away from zero (`f64::round`), for `b > 0`.
pub open spec fn round_div(a: int, b: int) -> int {
    if a >= 0 {
        (2 * a + b) / (2 * b)
    } else {
        -((-2 * a + b) / (2 * b))
    }
}

/// `a / b` rounded to the nearest integer, halves away from zero.
pub fn round_div_exec(a: i64, b: i64) -> (r: i64)
    requires
        0 < b <= 4 * COORD_LIMIT,
        -8 * COORD_LIMIT <= a <= 8 * COORD_LIMIT,
    ensures
        r == round_div(a as int, b as int),
{
    if a >= 0 {
        (2 * a + b) / (2 * b)
    } else {
        let na: i64 = 0 - a;
        let num: i64 = 2 * na + b;
        let den: i64 = 2 * b;
        let q: i64 = num / den;
        assert(0 <= q <= num) by (nonlinear_arith)
            requires
                num >= 0,
                den > 0,
                q == num / den,
        ;
        0 - q
    }
}

// ---------------------------------------------------------------------------
// Sorting
// ---------------------------------------------------------------------------

/// Insert `v` into `s` before the first element greater than it.
pub open spec fn insert_sorted_i64(s: Seq<i64>, v: i64) -> Seq<i64>
    decreases s.len(),
{
    if s.len() == 0 {
        seq![v]
    } else if v < s[0] {
        seq![v] + s
    } else {
        seq![s[0]] + insert_sorted_i64(s.drop_first(), v)
    }
}

/// `s` in ascending order (`slice::sort`).
pub open spec fn sorted_i64(s: Seq<i64>) -> Seq<i64>
    decreases s.len(),
{
    if s.len() == 0 {
        s
    } else {
        insert_sorted_i64(sorted_i64(s.drop_last()), s.last())
    }
}

proof fn lemma_insert_sorted_i64_at(s: Seq<i64>, v: i64, p: int)
    requires
        0 <= p <= s.len(),
        forall|j: int| 0 <= j < p ==> s[j] <= v,
        p < s.len() ==> s[p] > v,
    ensures
        insert_sorted_i64(s, v) == s.insert(p, v),
    decreases s.len(),
{
    if s.len() == 0 {
        assert(s.insert(p, v) =~= seq![v]);
    } else if v < s[0] {
        assert(p == 0);
        assert(s.insert(p, v) =~= seq![v] + s);
    } else {
        let t = s.drop_first();
        assert forall|j: int| 0 <= j < p - 1 implies t[j] <= v by {
            assert(t[j] == s[j + 1]);
        }
        lemma_insert_sorted_i64_at(t, v, p - 1);
        assert(s.insert(p, v) =~= seq![s[0]] + t.insert(p - 1, v));
    }
}

/// Insert `v` into the sorted vector `r`.
fn insert_sorted_vec_i64(r: &mut Vec<i64>, v: i64)
    ensures
        final(r)@ == insert_sorted_i64(old(r)@, v),
{
    let mut p: usize = 0;
    while p < r.len() && r[p] <= v
        invariant
            p <= r@.len(),
            forall|j: int| 0 <= j < p ==> r@[j] <= v,
        decreases r@.len() - p,
    {
        p = p + 1;
    }
    proof {
        lemma_insert_sorted_i64_at(r@, v, p as int);
    }
    r.insert(p, v);
}

/// The values of `s` in ascending order.
pub fn sort_i64(s: &Vec<i64>) -> (r: Vec<i64>)
    ensures
        r@ == sorted_i64(s@),
{
    let mut r: Vec<i64> = Vec::new();
    let mut k: usize = 0;
    while k < s.len()
        invariant
            k <= s@.len(),
            r@ == sorted_i64(s@.take(k as int)),
        decreases s@.len() - k,
    {
        proof {
            assert(s@.take(k + 1).drop_last() =~= s@.take(k as int));
        }
        insert_sorted_vec_i64(&mut r, s[k]);
        k = k + 1;
    }
    assert(s@.take(s@.len() as int) =~= s@);
    r
}

/// Reading order of glyphs: by `y`, then by `x`, then by position in the input.
pub open spec fn key_lt(a: (i64, i64, usize), b: (i64, i64, usize)) -> bool {
    a.0 < b.0 || (a.0 == b.0 && (a.1 < b.1 || (a.1 == b.1 && a.2 < b.2)))
}

/// Insert `v` into `s` before the first key after it.
pub open spec fn insert_sorted_key(s: Seq<(i64, i64, usize)>, v: (i64, i64, usize)) -> Seq<(i64, i64, usize)>
    decreases s.len(),
{
    if s.len() == 0 {
        seq![v]
    } else if key_lt(v, s[0]) {
        seq![v] + s
    } else {
        seq![s[0]] + insert_sorted_key(s.drop_first(), v)
    }
}

/// The keys of `s` in reading order.
pub open spec fn sorted_keys(s: Seq<(i64, i64, usize)>) -> Seq<(i64, i64, usize)>
    decreases s.len(),
{
    if s.len() == 0 {
        s
    } else {
        insert_sorted_key(sorted_keys(s.drop_last()), s.last())
    }
}

proof fn lemma_insert_sorted_key_at(s: Seq<(i64, i64, usize)>, v: (i64, i64, usize), p: int)
    requires
        0 <= p <= s.len(),
        forall|j: int| 0 <= j < p ==> !key_lt(v, #[trigger] s[j]),
        p < s.len() ==> key_lt(v, s[p]),
    ensures
        insert_sorted_key(s, v) == s.insert(p, v),
    decreases s.len(),
{
    if s.len() == 0 {
        assert(s.insert(p, v) =~= seq![v]);
    } else if key_lt(v, s[0]) {
        assert(p == 0);
        assert(s.insert(p, v) =~= seq![v] + s);
    } else {
        let t = s.drop_first();
        assert forall|j: int| 0 <= j < p - 1 implies !key_lt(v, #[trigger] t[j]) by {
            assert(t[j] == s[j + 1]);
        }
        lemma_insert_sorted_key_at(t, v, p - 1);
        assert(s.insert(p, v) =~= seq![s[0]] + t.insert(p - 1, v));
    }
}

fn key_less(a: (i64, i64, usize), b: (i64, i64, usize)) -> (r: bool)
    ensures
        r == key_lt(a, b),
{
    a.0 < b.0 || (a.0 == b.0 && (a.1 < b.1 || (a.1 == b.1 && a.2 < b.2)))
}

fn insert_sorted_vec_key(r: &mut Vec<(i64, i64, usize)>, v: (i64, i64, usize))
    ensures
        final(r)@ == insert_sorted_key(old(r)@, v),
{
    let mut p: usize = 0;
    while p < r.len() && !key_less(v, r[p])
        invariant
            p <= r@.len(),
            forall|j: int| 0 <= j < p ==> !key_lt(v, #[trigger] r@[j]),
        decreases r@.len() - p,
    {
        p = p + 1;
    }
    proof {
        lemma_insert_sorted_key_at(r@, v, p as int);
    }
    r.insert(p, v);
}

/// The reading-order keys `(y, x, position)` of the glyphs.
pub open spec fn glyph_keys(gs: Seq<GlyphView>) -> Seq<(i64, i64, usize)> {
    Seq::new(gs.len(), |i: int| (gs[i].y as i64, gs[i].x as i64, i as usize))
}

/// Positions of the glyphs in reading order: by `y`, then `x`; ties keep input order.
pub open spec fn reading_order(gs: Seq<GlyphView>) -> Seq<usize> {
    sorted_keys(glyph_keys(gs)).map_values(|k: (i64, i64, usize)| k.2)
}

proof fn lemma_insert_sorted_key_len(s: Seq<(i64, i64, usize)>, v: (i64, i64, usize))
    ensures
        insert_sorted_key(s, v).len() == s.len() + 1,
        forall|k: (i64, i64, usize)| #[trigger] insert_sorted_key(s, v).contains(k) <==> (s.contains(k) || k == v),
    decreases s.len(),
{
    if s.len() > 0 && !key_lt(v, s[0]) {
        let t = s.drop_first();
        lemma_insert_sorted_key_len(t, v);
        let it = insert_sorted_key(t, v);
        let r = insert_sorted_key(s, v);
        assert(r == seq![s[0]] + it);
        assert forall|k: (i64, i64, usize)| #[trigger] r.contains(k) <==> (s.contains(k) || k == v) by {
            if r.contains(k) {
                let w = choose|w: int| 0 <= w < r.len() && r[w] == k;
                if w > 0 {
                    assert(it[w - 1] == k);
                    assert(it.contains(k));
                    if t.contains(k) {
                        let q = choose|q: int| 0 <= q < t.len() && t[q] == k;
                        assert(s[q + 1] == k);
                    }
                } else {
                    assert(s[0] == k);
                }
            }
            if s.contains(k) {
                let q = choose|q: int| 0 <= q < s.len() && s[q] == k;
                if q == 0 {
                    assert(r[0] == k);
                } else {
                    assert(t[q - 1] == k);
                    assert(t.contains(k));
                    assert(it.contains(k));
                    let w = choose|w: int| 0 <= w < it.len() && it[w] == k;
                    assert(r[w + 1] == k);
                }
            }
            if k == v {
                assert(it.contains(v));
                let w = choose|w: int| 0 <= w < it.len() && it[w] == v;
                assert(r[w + 1] == v);
            }
        }
    } else if s.len() > 0 {
        let r = insert_sorted_key(s, v);
        assert(r == seq![v] + s);
        assert forall|k: (i64, i64, usize)| #[trigger] r.contains(k) <==> (s.contains(k) || k == v) by {
            if r.contains(k) {
                let w = choose|w: int| 0 <= w < r.len() && r[w] == k;
                if w > 0 {
                    assert(r[w] == s[w - 1]);
                    assert(s[w - 1] == k);
                }
            }
            if s.contains(k) {
                let q = choose|q: int| 0 <= q < s.len() && s[q] == k;
                assert(r[q + 1] == k);
            }
            if k == v {
                assert(r[0] == v);
            }
        }
    } else {
        let r = insert_sorted_key(s, v);
        assert forall|k: (i64, i64, usize)| #[trigger] r.contains(k) <==> (s.contains(k) || k == v) by {
            if k == v {
                assert(r[0] == v);
            }
        }
    }
}

/// The sorted keys are exactly the keys, each once, so their positions index the glyphs.
proof fn lemma_sorted_keys_contents(s: Seq<(i64, i64, usize)>)
    ensures
        sorted_keys(s).len() == s.len(),
        forall|k: (i64, i64, usize)| #[trigger] sorted_keys(s).contains(k) <==> s.contains(k),
    decreases s.len(),
{
    if s.len() > 0 {
        lemma_sorted_keys_contents(s.drop_last());
        lemma_insert_sorted_key_len(sorted_keys(s.drop_last()), s.last());
        assert forall|k: (i64, i64, usize)| #[trigger] sorted_keys(s).contains(k) <==> s.contains(k) by {
            if s.drop_last().contains(k) {
                let q = choose|q: int| 0 <= q < s.drop_last().len() && s.drop_last()[q] == k;
                assert(s[q] == k);
            }
            if s.contains(k) && k != s.last() {
                let q = choose|q: int| 0 <= q < s.len() && s[q] == k;
                assert(s.drop_last()[q] == k);
            }
            if k == s.last() {
                assert(s[s.len() - 1] == k);
            }
        }
    }
}

/// Every position in the reading order is a glyph position.
pub proof fn lemma_reading_order_bounds(cs: Seq<GlyphView>)
    requires
        cs.len() <= usize::MAX,
    ensures
        reading_order(cs).len() == cs.len(),
        forall|i: int| 0 <= i < cs.len() ==> #[trigger] reading_order(cs)[i] < cs.len(),
{
    let keys = glyph_keys(cs);
    lemma_sorted_keys_contents(keys);
    assert forall|i: int| 0 <= i < cs.len() implies #[trigger] reading_order(cs)[i] < cs.len() by {
        let k = sorted_keys(keys)[i];
        assert(sorted_keys(keys).contains(k));
        assert(keys.contains(k));
        let q = choose|q: int| 0 <= q < keys.len() && keys[q] == k;
        assert(k.2 == q);
    }
}

/// Positions of the glyphs in reading order.
pub fn reading_order_exec(cs: &[PlacedChar]) -> (order: Vec<usize>)
    ensures
        order@ == reading_order(glyphs(cs@)),
{
    let mut keys: Vec<(i64, i64, usize)> = Vec::new();
    let mut k: usize = 0;
    while k < cs.len()
        invariant
            k <= cs@.len(),
            keys@ == sorted_keys(glyph_keys(glyphs(cs@)).take(k as int)),
        decreases cs@.len() - k,
    {
        proof {
            assert(glyph_keys(glyphs(cs@)).take(k + 1).drop_last() =~= glyph_keys(glyphs(cs@)).take(k as int));
            assert(glyph_keys(glyphs(cs@))[k as int] == (cs[k as int].y, cs[k as int].x, k));
        }
        insert_sorted_vec_key(&mut keys, (cs[k].y, cs[k].x, k));
        k = k + 1;
    }
    assert(glyph_keys(glyphs(cs@)).take(cs@.len() as int) =~= glyph_keys(glyphs(cs@)));
    let mut order: Vec<usize> = Vec::new();
    let mut q: usize = 0;
    while q < keys.len()
        invariant
            q <= keys@.len(),
            keys@ == sorted_keys(glyph_keys(glyphs(cs@))),
            order@ == keys@.take(q as int).map_values(|k: (i64, i64, usize)| k.2),
        decreases keys@.len() - q,
    {
        order.push(keys[q].2);
        q = q + 1;
        assert(order@ =~= keys@.take(q as int).map_values(|k: (i64, i64, usize)| k.2));
    }
    assert(keys@.take(keys@.len() as int) =~= keys@);
    order
}

// ---------------------------------------------------------------------------
// Snapping baselines to the dominant line grid
// ---------------------------------------------------------------------------

/// Bound on the coordinates that `snap_y_to_grid` takes in, in units.
pub const SNAP_LIMIT: i64 = 274_877_906_944;

/// Every coordinate of every glyph is within `SNAP_LIMIT`.
pub open spec fn glyphs_small(gs: Seq<GlyphView>) -> bool {
    forall|i: int| 0 <= i < gs.len() ==> -SNAP_LIMIT <= (#[trigger] gs[i]).x <= SNAP_LIMIT
        && -SNAP_LIMIT <= gs[i].y <= SNAP_LIMIT && -SNAP_LIMIT <= gs[i].next_x <= SNAP_LIMIT
}

/// `y` rounded to the nearest tenth of a point.
pub open spec fn tenth(y: int) -> int {
    round_div(y, 100) * 100
}

/// `s` without consecutive repeats (`Vec::dedup`).
pub open spec fn dedup_i64(s: Seq<i64>) -> Seq<i64>
    decreases s.len(),
{
    if s.len() == 0 {
        s
    } else {
        let r = dedup_i64(s.drop_last());
        if r.len() > 0 && r.last() == s.last() {
            r
        } else {
            r.push(s.last())
        }
    }
}

/// The baselines of the glyphs, rounded to tenths of a point.
pub open spec fn tenths(gs: Seq<GlyphView>) -> Seq<i64> {
    Seq::new(gs.len(), |i: int| tenth(gs[i].y) as i64)
}

/// The distinct rounded baselines, in ascending order.
pub open spec fn unique_ys(gs: Seq<GlyphView>) -> Seq<i64> {
    dedup_i64(sorted_i64(tenths(gs)))
}

/// Differences between consecutive values.
pub open spec fn consecutive_gaps(ys: Seq<i64>) -> Seq<i64> {
    Seq::new((ys.len() - 1) as nat, |i: int| (ys[i + 1] - ys[i]) as i64)
}

/// The half-point bucket of a gap (`(g * 2).round() as i32`, in points).
pub open spec fn bucket_key(g: int) -> int {
    let k = round_div(g, 500);
    if k > 2147483647 {
        2147483647
    } else {
        k
    }
}

/// Number of gaps of at least 2 points in bucket `key`.
pub open spec fn count_key(gs: Seq<i64>, key: int) -> nat
    decreases gs.len(),
{
    if gs.len() == 0 {
        0
    } else {
        count_key(gs.drop_last(), key) + if gs.last() >= 2000 && bucket_key(gs.last() as int) == key {
            1nat
        } else {
            0nat
        }
    }
}

/// The bucket of the first gap, from position `i` on, of at least 2 points whose bucket
/// holds at least `thr` gaps. On ascending gaps this is the smallest such bucket.
pub open spec fn dominant_from(gs: Seq<i64>, thr: nat, i: int) -> Option<int>
    decreases gs.len() - i,
{
    if i < 0 || i >= gs.len() {
        None
    } else if gs[i] >= 2000 && count_key(gs, bucket_key(gs[i] as int)) >= thr {
        Some(bucket_key(gs[i] as int))
    } else {
        dominant_from(gs, thr, i + 1)
    }
}

/// The dominant line spacing of ascending gaps: the smallest half-point bucket of gaps of
/// at least 2 points that holds a tenth of the gaps (and at least two), else the median gap.
pub open spec fn dominant_spacing(gs: Seq<i64>) -> int {
    let thr: nat = if gs.len() / 10 >= 2 { gs.len() / 10 } else { 2 };
    match dominant_from(gs, thr, 0) {
        Some(k) => k * 500,
        None => gs[(gs.len() / 2) as int] as int,
    }
}

/// Euclidean remainder of `a` by `m > 0`.
pub open spec fn rem_euclid(a: int, m: int) -> int {
    a % m
}

/// Whether baseline `y` lies within a quarter spacing of a grid line of the given phase.
pub open spec fn near_grid(y: int, phase: int, spacing: int) -> bool {
    let offset = rem_euclid(y - phase, spacing);
    let dist = if offset <= spacing - offset { offset } else { spacing - offset };
    4 * dist < spacing
}

/// Number of glyphs near the grid of the given phase.
pub open spec fn grid_score(gs: Seq<GlyphView>, phase: int, spacing: int) -> nat
    decreases gs.len(),
{
    if gs.len() == 0 {
        0
    } else {
        grid_score(gs.drop_last(), phase, spacing) + if near_grid(gs.last().y, phase, spacing) {
            1nat
        } else {
            0nat
        }
    }
}

/// The `i`-th of the twelve candidate phases.
pub open spec fn phase_at(spacing: int, i: int) -> int {
    spacing * i / 12
}

/// Best phase and score among the first `k` candidates; a later phase wins only with a
/// strictly higher score, and phase 0 stands when nothing scores.
pub open spec fn best_phase_upto(gs: Seq<GlyphView>, spacing: int, k: int) -> (int, nat)
    decreases k,
{
    if k <= 0 {
        (0, 0)
    } else {
        let prev = best_phase_upto(gs, spacing, k - 1);
        let sc = grid_score(gs, phase_at(spacing, k - 1), spacing);
        if sc > prev.1 {
            (phase_at(spacing, k - 1), sc)
        } else {
            prev
        }
    }
}

/// `y` moved to the nearest line of the grid.
pub open spec fn snap_to(y: int, phase: int, spacing: int) -> int {
    phase + round_div(y - phase, spacing) * spacing
}

/// The glyphs with their baselines moved to the dominant line grid
/// (see `snap_y_to_grid`).
pub open spec fn snap_spec(gs: Seq<GlyphView>) -> Seq<GlyphView> {
    if gs.len() < 2 {
        gs
    } else {
        let ys = unique_ys(gs);
        if ys.len() < 2 {
            gs
        } else {
            let spacing = dominant_spacing(sorted_i64(consecutive_gaps(ys)));
            if spacing < 1000 {
                gs
            } else {
                let phase = best_phase_upto(gs, spacing, 12).0;
                gs.map_values(|g: GlyphView| GlyphView { y: snap_to(g.y, phase, spacing), ..g })
            }
        }
    }
}

proof fn lemma_insert_sorted_i64_bounds(s: Seq<i64>, v: i64, lo: int, hi: int)
    requires
        forall|i: int| 0 <= i < s.len() ==> lo <= #[trigger] s[i] <= hi,
        lo <= v <= hi,
    ensures
        insert_sorted_i64(s, v).len() == s.len() + 1,
        forall|i: int| 0 <= i < s.len() + 1 ==> lo <= #[trigger] insert_sorted_i64(s, v)[i] <= hi,
    decreases s.len(),
{
    if s.len() > 0 && !(v < s[0]) {
        let t = s.drop_first();
        lemma_insert_sorted_i64_bounds(t, v, lo, hi);
        let r = insert_sorted_i64(s, v);
        assert(r == seq![s[0]] + insert_sorted_i64(t, v));
        assert forall|i: int| 0 <= i < s.len() + 1 implies lo <= #[trigger] r[i] <= hi by {
            if i > 0 {
                assert(r[i] == insert_sorted_i64(t, v)[i - 1]);
            }
        }
    } else if s.len() > 0 {
        let r = insert_sorted_i64(s, v);
        assert(r == seq![v] + s);
        assert forall|i: int| 0 <= i < s.len() + 1 implies lo <= #[trigger] r[i] <= hi by {
            if i > 0 {
                assert(r[i] == s[i - 1]);
            }
        }
    }
}

/// Sorting keeps the values within any bounds that hold of all of them.
pub proof fn lemma_sorted_i64_bounds(s: Seq<i64>, lo: int, hi: int)
    requires
        forall|i: int| 0 <= i < s.len() ==> lo <= #[trigger] s[i] <= hi,
    ensures
        sorted_i64(s).len() == s.len(),
        forall|i: int| 0 <= i < s.len() ==> lo <= #[trigger] sorted_i64(s)[i] <= hi,
    decreases s.len(),
{
    if s.len() > 0 {
        let t = s.drop_last();
        assert forall|i: int| 0 <= i < t.len() implies lo <= #[trigger] t[i] <= hi by {
            assert(t[i] == s[i]);
        }
        lemma_sorted_i64_bounds(t, lo, hi);
        lemma_insert_sorted_i64_bounds(sorted_i64(t), s.last(), lo, hi);
    }
}

proof fn lemma_dedup_bounds(s: Seq<i64>, lo: int, hi: int)
    requires
        forall|i: int| 0 <= i < s.len() ==> lo <= #[trigger] s[i] <= hi,
    ensures
        dedup_i64(s).len() <= s.len(),
        forall|i: int| 0 <= i < dedup_i64(s).len() ==> lo <= #[trigger] dedup_i64(s)[i] <= hi,
    decreases s.len(),
{
    if s.len() > 0 {
        let t = s.drop_last();
        assert forall|i: int| 0 <= i < t.len() implies lo <= #[trigger] t[i] <= hi by {
            assert(t[i] == s[i]);
        }
        lemma_dedup_bounds(t, lo, hi);
    }
}

proof fn lemma_round_div_close(d: int, sp: int)
    requires
        sp > 0,
    ensures
        d - sp <= round_div(d, sp) * sp <= d + sp,
{
    let q = round_div(d, sp);
    if d >= 0 {
        assert(q * (2 * sp) <= 2 * d + sp < q * (2 * sp) + 2 * sp) by (nonlinear_arith)
            requires
                q == (2 * d + sp) / (2 * sp),
                sp > 0,
                d >= 0,
        ;
        assert(d - sp <= q * sp <= d + sp) by (nonlinear_arith)
            requires
                q * (2 * sp) <= 2 * d + sp < q * (2 * sp) + 2 * sp,
                sp > 0,
        ;
    } else {
        let p = (-2 * d + sp) / (2 * sp);
        assert(p * (2 * sp) <= -2 * d + sp < p * (2 * sp) + 2 * sp) by (nonlinear_arith)
            requires
                p == (-2 * d + sp) / (2 * sp),
                sp > 0,
                d < 0,
        ;
        assert(-d - sp <= p * sp <= -d + sp) by (nonlinear_arith)
            requires
                p * (2 * sp) <= -2 * d + sp < p * (2 * sp) + 2 * sp,
                sp > 0,
        ;
        assert(q == -p);
        assert(q * sp == -(p * sp)) by (nonlinear_arith)
            requires
                q == -p,
        ;
    }
}

proof fn lemma_rem_negative(d: int, m: int)
    requires
        d < 0,
        m > 0,
    ensures
        (-d) % m == 0 ==> d % m == 0,
        (-d) % m != 0 ==> d % m == m - (-d) % m,
{
    let q = (-d) / m;
    let r = (-d) % m;
    vstd::arithmetic::div_mod::lemma_fundamental_div_mod(-d, m);
    vstd::arithmetic::div_mod::lemma_mod_pos_bound(-d, m);
    assert(-d == m * q + r);
    if r == 0 {
        assert(d == m * (-q) + 0) by (nonlinear_arith)
            requires
                -d == m * q + r,
                r == 0,
        ;
        vstd::arithmetic::div_mod::lemma_mod_multiples_vanish(-q, 0, m);
    } else {
        assert(d == m * (-q - 1) + (m - r)) by (nonlinear_arith)
            requires
                -d == m * q + r,
        ;
        vstd::arithmetic::div_mod::lemma_mod_multiples_vanish(-q - 1, m - r, m);
        vstd::arithmetic::div_mod::lemma_small_mod((m - r) as nat, m as nat);
    }
}

proof fn lemma_phase_bounds(sp: int, i: int)
    requires
        sp > 0,
        0 <= i < 12,
    ensures
        0 <= phase_at(sp, i) < sp,
{
    assert(0 <= sp * i <= sp * 11) by (nonlinear_arith)
        requires
            sp > 0,
            0 <= i < 12,
    ;
    assert(sp * i / 12 < sp) by (nonlinear_arith)
        requires
            0 <= sp * i <= sp * 11,
            sp > 0,
    ;
}

/// The baselines rounded to tenths of a point.
fn tenths_exec(cs: &Vec<PlacedChar>) -> (ys: Vec<i64>)
    requires
        glyphs_small(glyphs(cs@)),
    ensures
        ys@ == tenths(glyphs(cs@)),
        forall|i: int| 0 <= i < ys@.len() ==> -SNAP_LIMIT - 100 <= #[trigger] ys@[i] <= SNAP_LIMIT + 100,
{
    let mut ys: Vec<i64> = Vec::new();
    let mut k: usize = 0;
    while k < cs.len()
        invariant
            k <= cs@.len(),
            glyphs_small(glyphs(cs@)),
            ys@ == tenths(glyphs(cs@)).take(k as int),
            forall|i: int| 0 <= i < ys@.len() ==> -SNAP_LIMIT - 100 <= #[trigger] ys@[i] <= SNAP_LIMIT + 100,
        decreases cs@.len() - k,
    {
        let y = cs[k].y;
        assert(glyphs(cs@)[k as int].y == y);
        let r = round_div_exec(y, 100);
        proof {
            lemma_round_div_close(y as int, 100);
        }
        ys.push(r * 100);
        k = k + 1;
        assert(ys@ =~= tenths(glyphs(cs@)).take(k as int));
    }
    assert(tenths(glyphs(cs@)).take(cs@.len() as int) =~= tenths(glyphs(cs@)));
    ys
}

/// Drop consecutive repeats.
fn dedup_exec(s: &Vec<i64>) -> (r: Vec<i64>)
    ensures
        r@ == dedup_i64(s@),
{
    let mut r: Vec<i64> = Vec::new();
    let mut k: usize = 0;
    while k < s.len()
        invariant
            k <= s@.len(),
            r@ == dedup_i64(s@.take(k as int)),
        decreases s@.len() - k,
    {
        proof {
            assert(s@.take(k + 1).drop_last() =~= s@.take(k as int));
        }
        let v = s[k];
        if !(r.len() > 0 && r[r.len() - 1] == v) {
            r.push(v);
        }
        k = k + 1;
    }
    assert(s@.take(s@.len() as int) =~= s@);
    r
}

/// Differences between consecutive values.
fn gaps_exec(ys: &Vec<i64>) -> (g: Vec<i64>)
    requires
        ys@.len() >= 1,
        forall|i: int| 0 <= i < ys@.len() ==> -SNAP_LIMIT - 100 <= #[trigger] ys@[i] <= SNAP_LIMIT + 100,
    ensures
        g@ == consecutive_gaps(ys@),
        forall|i: int| 0 <= i < g@.len() ==> -2 * SNAP_LIMIT - 200 <= #[trigger] g@[i] <= 2 * SNAP_LIMIT + 200,
{
    let mut g: Vec<i64> = Vec::new();
    let last = ys.len() - 1;
    let mut k: usize = 0;
    while k < last
        invariant
            k <= last,
            last == ys@.len() - 1,
            forall|i: int| 0 <= i < ys@.len() ==> -SNAP_LIMIT - 100 <= #[trigger] ys@[i] <= SNAP_LIMIT + 100,
            g@ == consecutive_gaps(ys@).take(k as int),
            forall|i: int| 0 <= i < g@.len() ==> -2 * SNAP_LIMIT - 200 <= #[trigger] g@[i] <= 2 * SNAP_LIMIT + 200,
        decreases ys@.len() - k,
    {
        g.push(ys[k + 1] - ys[k]);
        k = k + 1;
        assert(g@ =~= consecutive_gaps(ys@).take(k as int));
    }
    assert(consecutive_gaps(ys@).take(k as int) =~= consecutive_gaps(ys@));
    g
}

/// Number of gaps of at least 2 points in bucket `key`.
fn count_key_exec(gs: &Vec<i64>, key: i64) -> (n: usize)
    requires
        forall|i: int| 0 <= i < gs@.len() ==> -2 * SNAP_LIMIT - 200 <= #[trigger] gs@[i] <= 2 * SNAP_LIMIT + 200,
    ensures
        n == count_key(gs@, key as int),
{
    let mut n: usize = 0;
    let mut k: usize = 0;
    while k < gs.len()
        invariant
            k <= gs@.len(),
            n <= k,
            forall|i: int| 0 <= i < gs@.len() ==> -2 * SNAP_LIMIT - 200 <= #[trigger] gs@[i] <= 2 * SNAP_LIMIT + 200,
            n == count_key(gs@.take(k as int), key as int),
        decreases gs@.len() - k,
    {
        proof {
            assert(gs@.take(k + 1).drop_last() =~= gs@.take(k as int));
        }
        let g = gs[k];
        if g >= 2000 && bucket_key_exec(g) == key {
            n = n + 1;
        }
        k = k + 1;
    }
    assert(gs@.take(gs@.len() as int) =~= gs@);
    n
}

fn bucket_key_exec(g: i64) -> (k: i64)
    requires
        0 <= g <= 2 * SNAP_LIMIT + 200,
    ensures
        k == bucket_key(g as int),
{
    let r = round_div_exec(g, 500);
    if r > 2147483647 {
        2147483647
    } else {
        r
    }
}

/// The dominant spacing of ascending gaps.
fn dominant_spacing_exec(gs: &Vec<i64>) -> (sp: i64)
    requires
        gs@.len() >= 1,
        forall|i: int| 0 <= i < gs@.len() ==> -2 * SNAP_LIMIT - 200 <= #[trigger] gs@[i] <= 2 * SNAP_LIMIT + 200,
    ensures
        sp == dominant_spacing(gs@),
        sp <= 2 * SNAP_LIMIT + 700,
{
    let thr: usize = if gs.len() / 10 >= 2 { gs.len() / 10 } else { 2 };
    let mut i: usize = 0;
    while i < gs.len()
        invariant
            i <= gs@.len(),
            thr as nat == (if gs@.len() / 10 >= 2 { gs@.len() / 10 } else { 2 }),
            forall|q: int| 0 <= q < gs@.len() ==> -2 * SNAP_LIMIT - 200 <= #[trigger] gs@[q] <= 2 * SNAP_LIMIT + 200,
            dominant_from(gs@, thr as nat, 0) == dominant_from(gs@, thr as nat, i as int),
        decreases gs@.len() - i,
    {
        let g = gs[i];
        if g >= 2000 {
            let key = bucket_key_exec(g);
            if count_key_exec(gs, key) >= thr {
                assert(dominant_from(gs@, thr as nat, i as int) == Some(key as int));
                proof {
                    lemma_round_div_close(g as int, 500);
                }
                return key * 500;
            }
        }
        i = i + 1;
    }
    gs[gs.len() / 2]
}

/// Number of glyphs near the grid of the given phase.
fn grid_score_exec(cs: &Vec<PlacedChar>, phase: i64, spacing: i64) -> (n: usize)
    requires
        0 <= phase < spacing,
        spacing <= 2 * SNAP_LIMIT + 700,
        glyphs_small(glyphs(cs@)),
    ensures
        n == grid_score(glyphs(cs@), phase as int, spacing as int),
{
    let mut n: usize = 0;
    let mut k: usize = 0;
    while k < cs.len()
        invariant
            k <= cs@.len(),
            n <= k,
            0 <= phase < spacing,
            spacing <= 2 * SNAP_LIMIT + 700,
            glyphs_small(glyphs(cs@)),
            n == grid_score(glyphs(cs@).take(k as int), phase as int, spacing as int),
        decreases cs@.len() - k,
    {
        proof {
            assert(glyphs(cs@).take(k + 1).drop_last() =~= glyphs(cs@).take(k as int));
            assert(glyphs(cs@)[k as int].y == cs@[k as int].y);
        }
        let d = cs[k].y - phase;
        let offset = if d >= 0 {
            d % spacing
        } else {
            let r = (0 - d) % spacing;
            proof {
                lemma_rem_negative(d as int, spacing as int);
            }
            if r == 0 { 0 } else { spacing - r }
        };
        assert(offset == rem_euclid(d as int, spacing as int));
        let dist = if offset <= spacing - offset { offset } else { spacing - offset };
        if 4 * dist < spacing {
            n = n + 1;
        }
        k = k + 1;
    }
    assert(glyphs(cs@).take(cs@.len() as int) =~= glyphs(cs@));
    n
}

/// Detect the dominant line spacing and round all y-positions to that grid.
///
/// This merges glyphs that are at slightly different y-positions (e.g. line
/// numbers, superscripts, watermark chars) onto the same line as nearby
/// body text.
pub fn snap_y_to_grid(chars: &mut Vec<PlacedChar>)
    requires
        glyphs_small(glyphs(old(chars)@)),
    ensures
        glyphs(final(chars)@) == snap_spec(glyphs(old(chars)@)),
        glyphs_ok(glyphs(final(chars)@)),
{
    let ghost gs = glyphs(chars@);
    proof {
        assert forall|i: int| 0 <= i < gs.len() implies in_limits((#[trigger] gs[i]).x) && in_limits(gs[i].y)
            && in_limits(gs[i].next_x) by {}
    }
    if chars.len() < 2 {
        return;
    }
    let ys = tenths_exec(chars);
    let sorted = sort_i64(&ys);
    proof {
        lemma_sorted_i64_bounds(ys@, -SNAP_LIMIT - 100, SNAP_LIMIT + 100);
        lemma_dedup_bounds(sorted@, -SNAP_LIMIT - 100, SNAP_LIMIT + 100);
    }
    let uniq = dedup_exec(&sorted);
    if uniq.len() < 2 {
        return;
    }
    let gaps = gaps_exec(&uniq);
    let gs_sorted = sort_i64(&gaps);
    proof {
        lemma_sorted_i64_bounds(gaps@, -2 * SNAP_LIMIT - 200, 2 * SNAP_LIMIT + 200);
    }
    let spacing = dominant_spacing_exec(&gs_sorted);
    if spacing < 1000 {
        return;
    }
    let mut best_phase: i64 = 0;
    let mut best_score: usize = 0;
    let mut i: i64 = 0;
    while i < 12
        invariant
            0 <= i <= 12,
            1000 <= spacing,
            spacing <= 2 * SNAP_LIMIT + 700,
            glyphs_small(glyphs(chars@)),
            gs == glyphs(chars@),
            (best_phase as int, best_score as nat) == best_phase_upto(gs, spacing as int, i as int),
            0 <= best_phase < spacing,
        decreases 12 - i,
    {
        proof {
            lemma_phase_bounds(spacing as int, i as int);
        }
        let phase = spacing * i / 12;
        let score = grid_score_exec(chars, phase, spacing);
        if score > best_score {
            best_score = score;
            best_phase = phase;
        }
        i = i + 1;
    }
    let n = chars.len();
    let mut k: usize = 0;
    while k < n
        invariant
            k <= n,
            n == chars@.len(),
            n == gs.len(),
            1000 <= spacing,
            spacing <= 2 * SNAP_LIMIT + 700,
            0 <= best_phase < spacing,
            glyphs_small(gs),
            forall|j: int| 0 <= j < k ==> #[trigger] glyphs(chars@)[j] == (GlyphView {
                y: snap_to(gs[j].y, best_phase as int, spacing as int),
                ..gs[j]
            }),
            forall|j: int| k <= j < n ==> #[trigger] glyphs(chars@)[j] == gs[j],
            forall|j: int| 0 <= j < k ==> in_limits(#[trigger] glyphs(chars@)[j].y),
        decreases n - k,
    {
        assert(glyphs(chars@)[k as int] == gs[k as int]);
        let ghost prev = chars@;
        let y = chars[k].y;
        let d = y - best_phase;
        let q = round_div_exec(d, spacing);
        proof {
            lemma_round_div_close(d as int, spacing as int);
        }
        assert(-SNAP_LIMIT <= gs[k as int].y <= SNAP_LIMIT);
        let ny = best_phase + q * spacing;
        assert(in_limits(ny as int));
        chars[k].y = ny;
        proof {
            assert forall|j: int| 0 <= j <= k implies in_limits(#[trigger] glyphs(chars@)[j].y) by {
                if j < k {
                    assert(glyphs(prev)[j] == glyphs(chars@)[j]);
                }
            }
            assert(chars@ == prev.update(k as int, PlacedChar { y: ny, ..prev[k as int] }));
            assert forall|j: int| 0 <= j < n implies #[trigger] glyphs(chars@)[j] == (if j <= k {
                GlyphView { y: snap_to(gs[j].y, best_phase as int, spacing as int), ..gs[j] }
            } else {
                gs[j]
            }) by {
                if j < k {
                    assert(glyphs(prev)[j] == glyphs(chars@)[j]);
                } else if j > k {
                    assert(glyphs(prev)[j] == glyphs(chars@)[j]);
                }
            }
        }
        k = k + 1;
    }
    proof {
        assert(glyphs(chars@) =~= gs.map_values(|g: GlyphView| GlyphView {
            y: snap_to(g.y, best_phase as int, spacing as int),
            ..g
        }));
    }
}

// ---------------------------------------------------------------------------
// Lines and words
// ---------------------------------------------------------------------------

/// Whether a glyph's text is only whitespace.
pub open spec fn is_blank(ch: Seq<char>) -> bool {
    trim_seq(ch).len() == 0
}

/// Absolute value.
pub open spec fn abs(v: int) -> int {
    if v < 0 {
        -v
    } else {
        v
    }
}

/// Whether a glyph's advance counts towards its line's cell width: a visible glyph with
/// an advance between 0.1 and 50 points.
pub open spec fn counted_advance(g: GlyphView) -> bool {
    100 < g.next_x - g.x < 50000 && !is_blank(g.ch)
}

/// Lines so far, the line being gathered, and its baseline.
pub open spec fn group_state(gs: Seq<GlyphView>, order: Seq<usize>) -> (Seq<Seq<usize>>, Seq<usize>, int)
    decreases order.len(),
{
    if order.len() <= 1 {
        (Seq::empty(), order, gs[order[0] as int].y)
    } else {
        let st = group_state(gs, order.drop_last());
        let i = order.last();
        if abs(gs[i as int].y - st.2) < 2000 {
            (st.0, st.1.push(i), st.2)
        } else {
            (st.0.push(st.1), seq![i], gs[i as int].y)
        }
    }
}

/// Glyphs in reading order cut into lines: a glyph within 2 points of the baseline of
/// the line's first glyph joins it, any other starts a new line.
pub open spec fn line_groups(gs: Seq<GlyphView>, order: Seq<usize>) -> Seq<Seq<usize>> {
    if order.len() == 0 {
        Seq::empty()
    } else {
        let st = group_state(gs, order);
        st.0.push(st.1)
    }
}

/// State of the word scan of a line.
pub struct WordScan {
    pub words: Seq<WordView>,
    pub text: Seq<char>,
    pub word_x: int,
    pub started: bool,
    pub prev: GlyphView,
    pub advances: Seq<i64>,
}

/// Add the word `text` at `x`, trimmed, unless it is blank.
pub open spec fn flush(words: Seq<WordView>, text: Seq<char>, x: int) -> Seq<WordView> {
    if trim_seq(text).len() > 0 {
        words.push(WordView { x, text: trim_seq(text) })
    } else {
        words
    }
}

/// Whether glyph `c` starts a new word after `prev`: it lies beyond where the next glyph
/// of the same word was expected (by 30% of the previous advance, at least 1 point), or
/// more than 1 point back.
pub open spec fn breaks_word(prev: GlyphView, c: GlyphView) -> bool {
    let pa0 = abs(prev.next_x - prev.x);
    let pa = if pa0 >= 1000 { pa0 } else { 1000 };
    let tol10 = if 3 * pa >= 10000 { 3 * pa } else { 10000 };
    10 * c.x > 10 * prev.next_x + tol10 || c.x < prev.x - 1000
}

/// The advances with that of `c` added when it counts.
pub open spec fn with_advance(advances: Seq<i64>, c: GlyphView) -> Seq<i64> {
    if counted_advance(c) {
        advances.push((c.next_x - c.x) as i64)
    } else {
        advances
    }
}

/// The scan after the first glyph of a line.
pub open spec fn scan_start(g: GlyphView) -> WordScan {
    WordScan {
        words: Seq::empty(),
        text: if is_blank(g.ch) { Seq::empty() } else { g.ch },
        word_x: g.x,
        started: !is_blank(g.ch),
        prev: g,
        advances: with_advance(Seq::empty(), g),
    }
}

/// One glyph of the word scan: blanks end a word, a glyph placed beyond the expected
/// position starts one, any other glyph extends the current word.
pub open spec fn scan_step(st: WordScan, c: GlyphView) -> WordScan {
    let adv = with_advance(st.advances, c);
    if is_blank(c.ch) {
        WordScan { words: flush(st.words, st.text, st.word_x), text: Seq::empty(), started: false, prev: c, advances: adv, ..st }
    } else if !st.started {
        WordScan { word_x: c.x, text: c.ch, started: true, prev: c, advances: adv, ..st }
    } else if breaks_word(st.prev, c) {
        WordScan { words: flush(st.words, st.text, st.word_x), word_x: c.x, text: c.ch, prev: c, advances: adv, ..st }
    } else {
        WordScan { text: st.text + c.ch, prev: c, advances: adv, ..st }
    }
}

/// The word scan of a line given by glyph positions.
pub open spec fn scan_group(gs: Seq<GlyphView>, group: Seq<usize>) -> WordScan
    decreases group.len(),
{
    if group.len() <= 1 {
        scan_start(gs[group[0] as int])
    } else {
        scan_step(scan_group(gs, group.drop_last()), gs[group.last() as int])
    }
}

/// A line of text from its glyphs, when it has any word: its baseline is its first
/// glyph's, its cell width the median counted advance (6 points without one).
pub open spec fn line_of(gs: Seq<GlyphView>, group: Seq<usize>) -> Option<LineView> {
    let st = scan_group(gs, group);
    let words = flush(st.words, st.text, st.word_x);
    if words.len() == 0 {
        None
    } else {
        let adv = sorted_i64(st.advances);
        Some(LineView {
            y: gs[group[0] as int].y,
            words,
            char_advance: if adv.len() == 0 { 6000 } else { adv[(adv.len() / 2) as int] as int },
        })
    }
}

/// The lines of the groups that have words.
pub open spec fn lines_of(gs: Seq<GlyphView>, groups: Seq<Seq<usize>>) -> Seq<LineView>
    decreases groups.len(),
{
    if groups.len() == 0 {
        Seq::empty()
    } else {
        let r = lines_of(gs, groups.drop_last());
        match line_of(gs, groups.last()) {
            Some(l) => r.push(l),
            None => r,
        }
    }
}

/// The text lines of a page (see `build_lines`).
pub open spec fn build_lines_spec(gs: Seq<GlyphView>) -> Seq<LineView> {
    lines_of(gs, line_groups(gs, reading_order(gs)))
}

/// The groups by their views.
pub open spec fn groups_view(gr: Seq<Vec<usize>>) -> Seq<Seq<usize>> {
    gr.map_values(|v: Vec<usize>| v@)
}

/// Whether a string is only whitespace.
pub fn is_blank_exec(s: &str) -> (b: bool)
    ensures
        b == is_blank(s@),
{
    let cs = chars_of(s);
    let (a, b) = trim_bounds(cs.as_slice());
    a == b
}

/// `s` with leading and trailing whitespace removed.
fn trimmed(s: &String) -> (t: String)
    ensures
        t@ == trim_seq(s@),
{
    crate::text::trim_string(s.as_str())
}

/// Add the word `text` at `x`, trimmed, unless it is blank.
fn flush_word(words: &mut Vec<Word>, text: &String, x: i64)
    ensures
        words_view(final(words)@) == flush(words_view(old(words)@), text@, x as int),
{
    let t = trimmed(text);
    if t.as_str().unicode_len() > 0 {
        words.push(Word { x, text: t });
        assert(words_view(words@) =~= words_view(old(words)@).push(WordView { x: x as int, text: trim_seq(text@) }));
    }
}

/// Cut the glyphs, in reading order, into lines.
fn group_lines(chars: &[PlacedChar], order: &Vec<usize>) -> (groups: Vec<Vec<usize>>)
    requires
        glyphs_ok(glyphs(chars@)),
        forall|i: int| 0 <= i < order@.len() ==> #[trigger] order@[i] < chars@.len(),
    ensures
        groups_view(groups@) == line_groups(glyphs(chars@), order@),
        forall|g: int, q: int| 0 <= g < groups@.len() && 0 <= q < groups@[g]@.len() ==> #[trigger] groups@[g]@[q] < chars@.len(),
        forall|g: int| 0 <= g < groups@.len() ==> #[trigger] groups@[g]@.len() > 0,
{
    let ghost gs = glyphs(chars@);
    let mut groups: Vec<Vec<usize>> = Vec::new();
    if order.len() == 0 {
        assert(groups_view(groups@) =~= Seq::<Seq<usize>>::empty());
        return groups;
    }
    let mut cur: Vec<usize> = Vec::new();
    cur.push(order[0]);
    let mut cur_y: i64 = chars[order[0]].y;
    proof {
        assert(order@.take(1) =~= seq![order@[0]]);
        assert(cur@ =~= order@.take(1));
    }
    let mut k: usize = 1;
    while k < order.len()
        invariant
            1 <= k <= order@.len(),
            gs == glyphs(chars@),
            glyphs_ok(gs),
            forall|i: int| 0 <= i < order@.len() ==> #[trigger] order@[i] < chars@.len(),
            (groups_view(groups@), cur@, cur_y as int) == group_state(gs, order@.take(k as int)),
            forall|g: int, q: int| 0 <= g < groups@.len() && 0 <= q < groups@[g]@.len() ==> #[trigger] groups@[g]@[q] < chars@.len(),
            forall|g: int| 0 <= g < groups@.len() ==> #[trigger] groups@[g]@.len() > 0,
            forall|q: int| 0 <= q < cur@.len() ==> #[trigger] cur@[q] < chars@.len(),
            cur@.len() > 0,
            in_limits(cur_y as int),
        decreases order@.len() - k,
    {
        proof {
            assert(order@.take(k + 1).drop_last() =~= order@.take(k as int));
            assert(order@.take(k + 1).last() == order@[k as int]);
        }
        let i = order[k];
        let y = chars[i].y;
        assert(gs[i as int].y == y);
        let d = if y >= cur_y { y - cur_y } else { cur_y - y };
        if d < 2000 {
            cur.push(i);
        } else {
            let ghost old_groups = groups@;
            let done = cur;
            groups.push(done);
            assert(groups_view(groups@) =~= groups_view(old_groups).push(done@));
            cur = Vec::new();
            cur.push(i);
            assert(cur@ =~= seq![i]);
            cur_y = y;
        }
        k = k + 1;
    }
    assert(order@.take(order@.len() as int) =~= order@);
    let ghost old_groups = groups@;
    groups.push(cur);
    assert(groups_view(groups@) =~= groups_view(old_groups).push(cur@));
    groups
}

/// The median counted advance, 6 points without one.
fn median_advance(advances: &Vec<i64>) -> (m: i64)
    ensures
        m == (if sorted_i64(advances@).len() == 0 { 6000 } else {
            sorted_i64(advances@)[(sorted_i64(advances@).len() / 2) as int] as int
        }),
{
    let sorted = sort_i64(advances);
    if sorted.len() == 0 {
        6000
    } else {
        sorted[sorted.len() / 2]
    }
}

/// The line of one group of glyphs, if it has words.
fn line_of_group(chars: &[PlacedChar], group: &Vec<usize>) -> (line: Option<TextLine>)
    requires
        glyphs_ok(glyphs(chars@)),
        group@.len() > 0,
        forall|q: int| 0 <= q < group@.len() ==> #[trigger] group@[q] < chars@.len(),
    ensures
        match line {
            Some(l) => line_of(glyphs(chars@), group@) == Some(l@),
            None => line_of(glyphs(chars@), group@) is None,
        },
{
    let ghost gs = glyphs(chars@);
    let first = group[0];
    let mut words: Vec<Word> = Vec::new();
    let mut advances: Vec<i64> = Vec::new();
    let first_blank = is_blank_exec(chars[first].ch.as_str());
    let mut word_x: i64 = chars[first].x;
    let mut text: String = if first_blank { String::new() } else { chars[first].ch.clone() };
    let mut started: bool = !first_blank;
    let mut prev: usize = first;
    proof {
        assert(gs[first as int] == chars@[first as int]@);
    }
    let adv0 = chars[first].next_x - chars[first].x;
    if 100 < adv0 && adv0 < 50000 && !first_blank {
        advances.push(adv0);
    }
    proof {
        assert(advances@ =~= with_advance(Seq::empty(), gs[first as int]));
        assert(group@.take(1) =~= seq![first]);
        assert(words_view(words@) =~= Seq::<WordView>::empty());
    }
    let mut k: usize = 1;
    while k < group.len()
        invariant
            1 <= k <= group@.len(),
            gs == glyphs(chars@),
            glyphs_ok(gs),
            forall|q: int| 0 <= q < group@.len() ==> #[trigger] group@[q] < chars@.len(),
            prev < chars@.len(),
            scan_group(gs, group@.take(k as int)) == (WordScan {
                words: words_view(words@),
                text: text@,
                word_x: word_x as int,
                started,
                prev: gs[prev as int],
                advances: advances@,
            }),
            in_limits(word_x as int),
        decreases group@.len() - k,
    {
        proof {
            assert(group@.take(k + 1).drop_last() =~= group@.take(k as int));
            assert(group@.take(k + 1).last() == group@[k as int]);
        }
        let i = group[k];
        let c = &chars[i];
        let p = &chars[prev];
        proof {
            assert(gs[i as int] == c@);
            assert(gs[prev as int] == p@);
        }
        let blank = is_blank_exec(c.ch.as_str());
        let adv = c.next_x - c.x;
        if 100 < adv && adv < 50000 && !blank {
            advances.push(adv);
        }
        if blank {
            flush_word(&mut words, &text, word_x);
            text = String::new();
            started = false;
        } else if !started {
            word_x = c.x;
            text = c.ch.clone();
            started = true;
        } else {
            let pa0 = if p.next_x >= p.x { p.next_x - p.x } else { p.x - p.next_x };
            let pa = if pa0 >= 1000 { pa0 } else { 1000 };
            let tol10 = if 3 * pa >= 10000 { 3 * pa } else { 10000 };
            if 10 * c.x > 10 * p.next_x + tol10 || c.x < p.x - 1000 {
                flush_word(&mut words, &text, word_x);
                word_x = c.x;
                text = c.ch.clone();
            } else {
                push_str(&mut text, c.ch.as_str());
            }
        }
        prev = i;
        k = k + 1;
    }
    assert(group@.take(group@.len() as int) =~= group@);
    flush_word(&mut words, &text, word_x);
    if words.len() == 0 {
        return None;
    }
    let char_advance = median_advance(&advances);
    let line = TextLine { y: chars[first].y, words, char_advance };
    proof {
        assert(line@.words == words_view(line.words@));
    }
    Some(line)
}

/// Group glyphs into words using advance-width prediction,
/// then cluster words into lines by y-position.
pub fn build_lines(chars: &[PlacedChar]) -> (lines: Vec<TextLine>)
    requires
        glyphs_ok(glyphs(chars@)),
    ensures
        lines_view(lines@) == build_lines_spec(glyphs(chars@)),
{
    let order = reading_order_exec(chars);
    let n = chars.len();
    proof {
        lemma_reading_order_bounds(glyphs(chars@));
    }
    let groups = group_lines(chars, &order);
    let ghost gv = groups_view(groups@);
    let mut lines: Vec<TextLine> = Vec::new();
    let mut g: usize = 0;
    while g < groups.len()
        invariant
            g <= groups@.len(),
            gv == groups_view(groups@),
            glyphs_ok(glyphs(chars@)),
            forall|a: int, q: int| 0 <= a < groups@.len() && 0 <= q < groups@[a]@.len() ==> #[trigger] groups@[a]@[q] < chars@.len(),
            forall|a: int| 0 <= a < groups@.len() ==> #[trigger] groups@[a]@.len() > 0,
            lines_view(lines@) == lines_of(glyphs(chars@), gv.take(g as int)),
        decreases groups@.len() - g,
    {
        proof {
            assert(gv.take(g + 1).drop_last() =~= gv.take(g as int));
            assert(gv.take(g + 1).last() == groups@[g as int]@);
        }
        let ghost before = lines@;
        match line_of_group(chars, &groups[g]) {
            Some(l) => {
                lines.push(l);
                assert(lines_view(lines@) =~= lines_view(before).push(lines@.last()@));
            },
            None => {},
        }
        g = g + 1;
    }
    assert(gv.take(gv.len() as int) =~= gv);
    lines
}

// ---------------------------------------------------------------------------
// The character grid
// ---------------------------------------------------------------------------

/// The gaps of more than 1 point between the baselines of consecutive lines, in order.
pub open spec fn line_gaps(ls: Seq<LineView>) -> Seq<i64>
    decreases ls.len(),
{
    if ls.len() < 2 {
        Seq::empty()
    } else {
        let r = line_gaps(ls.drop_last());
        let g = ls.last().y - ls[ls.len() - 2].y;
        if g > 1000 {
            r.push(g as i64)
        } else {
            r
        }
    }
}

/// The base line spacing: the lower quartile of the gaps between lines, 12 points when
/// there is none.
pub open spec fn line_spacing_spec(ls: Seq<LineView>) -> int {
    let gs = sorted_i64(line_gaps(ls));
    if ls.len() < 2 || gs.len() == 0 {
        12000
    } else {
        gs[(gs.len() / 4) as int] as int
    }
}

/// Every line's baseline is within the limits.
pub open spec fn lines_ok(ls: Seq<LineView>) -> bool {
    forall|i: int| 0 <= i < ls.len() ==> in_limits(#[trigger] ls[i].y)
}

proof fn lemma_line_gaps_bounds(ls: Seq<LineView>)
    requires
        lines_ok(ls),
    ensures
        forall|i: int| 0 <= i < line_gaps(ls).len() ==> 1000 < #[trigger] line_gaps(ls)[i] <= 2 * COORD_LIMIT,
    decreases ls.len(),
{
    if ls.len() >= 2 {
        let t = ls.drop_last();
        assert forall|i: int| 0 <= i < t.len() implies in_limits(#[trigger] t[i].y) by {
            assert(t[i] == ls[i]);
        }
        lemma_line_gaps_bounds(t);
        assert(in_limits(ls[ls.len() - 1].y) && in_limits(ls[ls.len() - 2].y));
        let r = line_gaps(t);
        let r2 = line_gaps(ls);
        assert forall|i: int| 0 <= i < r2.len() implies 1000 < #[trigger] r2[i] <= 2 * COORD_LIMIT by {
            if i < r.len() {
                assert(r2[i] == r[i]);
            }
        }
    }
}

/// Detect the dominant line spacing from text line y-positions.
pub fn detect_line_spacing(lines: &Vec<TextLine>) -> (sp: i64)
    requires
        lines_ok(lines_view(lines@)),
    ensures
        sp == line_spacing_spec(lines_view(lines@)),
        1000 < sp <= 2 * COORD_LIMIT,
{
    let ghost ls = lines_view(lines@);
    if lines.len() < 2 {
        return 12000;
    }
    let mut gaps: Vec<i64> = Vec::new();
    let mut k: usize = 1;
    while k < lines.len()
        invariant
            1 <= k <= lines@.len(),
            ls == lines_view(lines@),
            lines_ok(ls),
            gaps@ == line_gaps(ls.take(k as int)),
        decreases lines@.len() - k,
    {
        proof {
            assert(ls.take(k + 1).drop_last() =~= ls.take(k as int));
            assert(ls[k as int].y == lines@[k as int].y);
            assert(ls[k - 1].y == lines@[k - 1].y);
        }
        let g = lines[k].y - lines[k - 1].y;
        if g > 1000 {
            gaps.push(g);
        }
        k = k + 1;
    }
    assert(ls.take(ls.len() as int) =~= ls);
    proof {
        lemma_line_gaps_bounds(ls);
        lemma_sorted_i64_bounds(gaps@, 1001, 2 * COORD_LIMIT);
    }
    let sorted = sort_i64(&gaps);
    if sorted.len() == 0 {
        12000
    } else {
        sorted[sorted.len() / 4]
    }
}

/// `buf` with `text` written from column `col` on, as far as the buffer goes.
pub open spec fn place_word(buf: Seq<char>, col: int, text: Seq<char>) -> Seq<char> {
    Seq::new(buf.len(), |i: int| if col <= i < col + text.len() { text[i - col] } else { buf[i] })
}

/// Grid column of a word at `x`: its position in cells, rounded, at least 0
/// (at most `usize::MAX`).
pub open spec fn word_col(x: int, adv: int) -> int {
    let r = round_div(x, adv);
    if r < 0 {
        0
    } else if r > usize::MAX {
        usize::MAX as int
    } else {
        r
    }
}

/// Column after writing `len` characters from `col` into `cols` columns.
pub open spec fn word_end(col: int, len: int, cols: int) -> int {
    if col >= cols {
        col
    } else if col + len <= cols {
        col + len
    } else {
        cols
    }
}

/// The buffer after placing the words, each at its column but at least one blank
/// after the previous one, and the first column free for the next word.
pub open spec fn render_words(ws: Seq<WordView>, adv: int, cols: nat) -> (Seq<char>, int)
    decreases ws.len(),
{
    if ws.len() == 0 {
        (Seq::new(cols, |i: int| ' '), 0)
    } else {
        let prev = render_words(ws.drop_last(), adv, cols);
        let w = ws.last();
        let c0 = word_col(w.x, adv);
        let col = if c0 >= prev.1 { c0 } else { prev.1 };
        let end = word_end(col, w.text.len() as int, cols as int);
        (place_word(prev.0, col, w.text), if end < usize::MAX { end + 1 } else { end })
    }
}

/// A line's words on `cols` columns, trailing blanks removed.
pub open spec fn render_line_spec(ws: Seq<WordView>, adv: int, cols: nat) -> Seq<char> {
    trim_end_seq(render_words(ws, adv, cols).0)
}

/// Every word's position is within the limits.
pub open spec fn words_ok(ws: Seq<WordView>) -> bool {
    forall|i: int| 0 <= i < ws.len() ==> in_limits(#[trigger] ws[i].x)
}

/// The buffer of a rendered line keeps its `cols` columns.
proof fn lemma_render_words_len(ws: Seq<WordView>, adv: int, cols: nat)
    ensures
        render_words(ws, adv, cols).0.len() == cols,
    decreases ws.len(),
{
    if ws.len() > 0 {
        lemma_render_words_len(ws.drop_last(), adv, cols);
    }
}

proof fn lemma_trim_end_shorter(s: Seq<char>)
    ensures
        trim_end_seq(s).len() <= s.len(),
    decreases s.len(),
{
    if s.len() > 0 && is_ws(s.last()) {
        lemma_trim_end_shorter(s.drop_last());
    }
}

/// A rendered line never holds more than `cols` characters.
pub proof fn law_rendered_line_fits(ws: Seq<WordView>, adv: int, cols: nat)
    ensures
        render_line_spec(ws, adv, cols).len() <= cols,
{
    lemma_render_words_len(ws, adv, cols);
    lemma_trim_end_shorter(render_words(ws, adv, cols).0);
}

/// Render a line's words into a string of at most `cols` characters.
/// Each word is placed at its x-position mapped via `char_advance`.
pub fn render_line(words: &Vec<Word>, char_advance: i64, cols: usize) -> (s: String)
    requires
        100 < char_advance <= 2 * COORD_LIMIT,
        words_ok(words_view(words@)),
    ensures
        s@ == render_line_spec(words_view(words@), char_advance as int, cols as nat),
{
    let ghost ws = words_view(words@);
    let mut buf: Vec<char> = Vec::new();
    let mut i: usize = 0;
    while i < cols
        invariant
            i <= cols,
            buf@ == Seq::new(i as nat, |j: int| ' '),
        decreases cols - i,
    {
        buf.push(' ');
        i = i + 1;
        assert(buf@ =~= Seq::new(i as nat, |j: int| ' '));
    }
    let mut min_next: usize = 0;
    let mut k: usize = 0;
    while k < words.len()
        invariant
            k <= words@.len(),
            ws == words_view(words@),
            words_ok(ws),
            100 < char_advance <= 2 * COORD_LIMIT,
            buf@.len() == cols,
            (buf@, min_next as int) == render_words(ws.take(k as int), char_advance as int, cols as nat),
        decreases words@.len() - k,
    {
        proof {
            assert(ws.take(k + 1).drop_last() =~= ws.take(k as int));
            assert(ws.take(k + 1).last() == words@[k as int]@);
        }
        let w = &words[k];
        assert(in_limits(ws[k as int].x));
        let r = round_div_exec(w.x, char_advance);
        let c0: usize = if r < 0 {
            0
        } else if r as u64 > usize::MAX as u64 {
            usize::MAX
        } else {
            r as usize
        };
        let col = if c0 >= min_next { c0 } else { min_next };
        let ghost before = buf@;
        let text = chars_of(w.text.as_str());
        let mut c = col;
        let mut t: usize = 0;
        while t < text.len() && c < cols
            invariant
                t <= text@.len(),
                c == col + t,
                c <= cols || t == 0,
                buf@.len() == cols,
                forall|j: int| 0 <= j < cols ==> #[trigger] buf@[j] == (if col <= j < col + t { text@[j - col] } else { before[j] }),
            decreases text@.len() - t,
        {
            buf.set(c, text[t]);
            c = c + 1;
            t = t + 1;
        }
        proof {
            assert(buf@ =~= place_word(before, col as int, text@));
            assert(c == word_end(col as int, text@.len() as int, cols as int));
        }
        min_next = if c < usize::MAX { c + 1 } else { c };
        k = k + 1;
    }
    assert(ws.take(ws.len() as int) =~= ws);
    let end = trim_end_bound(buf.as_slice());
    string_from_range(buf.as_slice(), 0, end)
}

/// Blank rows before a line `gap` below the previous one: none within 1.5 spacings,
/// otherwise one less than the gap in spacings, at most two.
pub open spec fn blank_rows(gap: int, spacing: int) -> nat {
    if 2 * gap > 3 * spacing {
        let r = round_div(gap, spacing) - 1;
        if r < 0 {
            0
        } else if r > 2 {
            2
        } else {
            r as nat
        }
    } else {
        0
    }
}

/// The blank rows for a gap, in terms of the gap and the spacing: none up to 1.5 spacings,
/// one for a gap above 1.5 and below 2.5 spacings, two from 2.5 spacings on.
proof fn lemma_blank_rows(gap: int, spacing: int)
    requires
        spacing > 0,
    ensures
        2 * gap <= 3 * spacing ==> blank_rows(gap, spacing) == 0,
        3 * spacing < 2 * gap < 5 * spacing ==> blank_rows(gap, spacing) == 1,
        2 * gap >= 5 * spacing ==> blank_rows(gap, spacing) == 2,
{
    if 3 * spacing < 2 * gap {
        let q = round_div(gap, spacing);
        assert(q == (2 * gap + spacing) / (2 * spacing));
        if 2 * gap < 5 * spacing {
            assert((2 * gap + spacing) / (2 * spacing) == 2) by (nonlinear_arith)
                requires
                    spacing > 0,
                    3 * spacing < 2 * gap,
                    2 * gap < 5 * spacing,
            {
                let n = 2 * gap + spacing;
                let d = 2 * spacing;
                assert(2 * d <= n < 3 * d);
            }
        } else {
            assert((2 * gap + spacing) / (2 * spacing) >= 3) by (nonlinear_arith)
                requires
                    spacing > 0,
                    2 * gap >= 5 * spacing,
            {
                let n = 2 * gap + spacing;
                let d = 2 * spacing;
                assert(n >= 3 * d);
            }
        }
    }
}

/// `n` empty rows.
pub open spec fn empty_rows(n: nat) -> Seq<Seq<char>> {
    Seq::new(n, |i: int| Seq::<char>::empty())
}

/// Between two consecutive lines of the grid stand blank rows that show the gap between
/// their baselines: none when it is at most 1.5 line spacings, one when it is above 1.5 and
/// below 2.5, two when it is 2.5 spacings or more (paragraph breaks, at most two rows).
pub proof fn law_blank_rows_between_lines(ls: Seq<LineView>, spacing: int, cols: nat, k: int)
    requires
        spacing > 0,
        1 <= k < ls.len(),
    ensures
        exists|b: nat| {
            let g = ls[k].y - ls[k - 1].y;
            &&& grid_rows(ls.take(k + 1), spacing, cols) == grid_rows(ls.take(k), spacing, cols) + #[trigger] empty_rows(b)
                + seq![render_line_spec(ls[k].words, ls[k].char_advance, cols)]
            &&& 2 * g <= 3 * spacing ==> b == 0
            &&& 3 * spacing < 2 * g < 5 * spacing ==> b == 1
            &&& 2 * g >= 5 * spacing ==> b == 2
        },
{
    let t = ls.take(k + 1);
    assert(t.drop_last() =~= ls.take(k));
    assert(t.last() == ls[k]);
    assert(t[t.len() - 2] == ls[k - 1]);
    let g = ls[k].y - ls[k - 1].y;
    let b = blank_rows(g, spacing);
    lemma_blank_rows(g, spacing);
    let out = grid_rows(ls.take(k), spacing, cols);
    let row = render_line_spec(ls[k].words, ls[k].char_advance, cols);
    assert((out + Seq::new(b, |i: int| Seq::<char>::empty())).push(row) =~= out + Seq::new(
        b,
        |i: int| Seq::<char>::empty(),
    ) + seq![row]);
    assert(grid_rows(t, spacing, cols) == out + empty_rows(b) + seq![row]);
}

/// The grid rows of the lines, each preceded by its blank rows.
pub open spec fn grid_rows(ls: Seq<LineView>, spacing: int, cols: nat) -> Seq<Seq<char>>
    decreases ls.len(),
{
    if ls.len() == 0 {
        Seq::empty()
    } else {
        let out = grid_rows(ls.drop_last(), spacing, cols);
        let l = ls.last();
        let blanks = if ls.len() >= 2 { blank_rows(l.y - ls[ls.len() - 2].y, spacing) } else { 0 };
        (out + Seq::new(blanks, |i: int| Seq::<char>::empty())).push(render_line_spec(l.words, l.char_advance, cols))
    }
}

/// `rows` without trailing empty rows.
pub open spec fn trim_trailing_rows(rows: Seq<Seq<char>>) -> Seq<Seq<char>>
    decreases rows.len(),
{
    if rows.len() > 0 && rows.last().len() == 0 {
        trim_trailing_rows(rows.drop_last())
    } else {
        rows
    }
}

/// Trimming drops exactly the empty rows at the end: what is left is a prefix of the rows
/// that is empty or ends in a row with text, and every row dropped is empty.
pub proof fn law_trim_drops_only_trailing_empty_rows(rows: Seq<Seq<char>>)
    ensures
        ({
            let t = trim_trailing_rows(rows);
            &&& t.len() <= rows.len()
            &&& t == rows.take(t.len() as int)
            &&& t.len() == 0 || t.last().len() > 0
            &&& forall|i: int| t.len() <= i < rows.len() ==> (#[trigger] rows[i]).len() == 0
        }),
    decreases rows.len(),
{
    if rows.len() > 0 && rows.last().len() == 0 {
        let r = rows.drop_last();
        law_trim_drops_only_trailing_empty_rows(r);
        let t = trim_trailing_rows(r);
        assert(rows.take(t.len() as int) =~= r.take(t.len() as int));
        assert forall|i: int| t.len() <= i < rows.len() implies (#[trigger] rows[i]).len() == 0 by {
            if i < r.len() {
                assert(rows[i] == r[i]);
            }
        }
    } else {
        assert(rows.take(rows.len() as int) =~= rows);
    }
}

/// The text of a page on a grid of `cols` columns (see `layout_to_grid`).
pub open spec fn layout_spec(gs: Seq<GlyphView>, cols: nat) -> Seq<Seq<char>> {
    let ls = build_lines_spec(gs);
    if gs.len() == 0 || cols == 0 || ls.len() == 0 {
        Seq::empty()
    } else {
        trim_trailing_rows(grid_rows(ls, line_spacing_spec(ls), cols))
    }
}

/// The strings by their views.
pub open spec fn rows_view(rows: Seq<String>) -> Seq<Seq<char>> {
    rows.map_values(|r: String| r@)
}

/// Every line and word built from glyphs within the limits is within the limits, and
/// every cell width is positive.
pub proof fn lemma_build_lines_ok(gs: Seq<GlyphView>)
    requires
        glyphs_ok(gs),
        gs.len() <= usize::MAX,
    ensures
        lines_ok(build_lines_spec(gs)),
        forall|i: int| 0 <= i < build_lines_spec(gs).len() ==> words_ok((#[trigger] build_lines_spec(gs)[i]).words)
            && 100 < build_lines_spec(gs)[i].char_advance <= 2 * COORD_LIMIT,
{
    lemma_reading_order_bounds(gs);
    let order = reading_order(gs);
    let groups = line_groups(gs, order);
    lemma_line_groups_bounds(gs, order);
    lemma_lines_of_ok(gs, groups);
}

proof fn lemma_group_state_bounds(gs: Seq<GlyphView>, order: Seq<usize>)
    requires
        order.len() >= 1,
        forall|i: int| 0 <= i < order.len() ==> #[trigger] order[i] < gs.len(),
    ensures
        forall|g: int, q: int| 0 <= g < group_state(gs, order).0.len() && 0 <= q < group_state(gs, order).0[g].len()
            ==> #[trigger] group_state(gs, order).0[g][q] < gs.len(),
        forall|g: int| 0 <= g < group_state(gs, order).0.len() ==> #[trigger] group_state(gs, order).0[g].len() > 0,
        forall|q: int| 0 <= q < group_state(gs, order).1.len() ==> #[trigger] group_state(gs, order).1[q] < gs.len(),
        group_state(gs, order).1.len() > 0,
    decreases order.len(),
{
    if order.len() > 1 {
        let t = order.drop_last();
        assert forall|i: int| 0 <= i < t.len() implies #[trigger] t[i] < gs.len() by {
            assert(t[i] == order[i]);
        }
        lemma_group_state_bounds(gs, t);
        let st = group_state(gs, t);
        let st2 = group_state(gs, order);
        assert(order[order.len() - 1] < gs.len());
        assert forall|g: int, q: int| 0 <= g < st2.0.len() && 0 <= q < st2.0[g].len() implies #[trigger] st2.0[g][q] < gs.len() by {
            if g < st.0.len() {
                assert(st2.0[g] == st.0[g]);
            }
        }
        assert forall|g: int| 0 <= g < st2.0.len() implies #[trigger] st2.0[g].len() > 0 by {
            if g < st.0.len() {
                assert(st2.0[g] == st.0[g]);
            }
        }
        assert forall|q: int| 0 <= q < st2.1.len() implies #[trigger] st2.1[q] < gs.len() by {
            if q < st.1.len() && st2.1.len() > 1 {
                assert(st2.1[q] == st.1[q]);
            }
        }
    }
}

proof fn lemma_line_groups_bounds(gs: Seq<GlyphView>, order: Seq<usize>)
    requires
        forall|i: int| 0 <= i < order.len() ==> #[trigger] order[i] < gs.len(),
    ensures
        forall|g: int, q: int| 0 <= g < line_groups(gs, order).len() && 0 <= q < line_groups(gs, order)[g].len()
            ==> #[trigger] line_groups(gs, order)[g][q] < gs.len(),
        forall|g: int| 0 <= g < line_groups(gs, order).len() ==> #[trigger] line_groups(gs, order)[g].len() > 0,
{
    if order.len() > 0 {
        lemma_group_state_bounds(gs, order);
        let st = group_state(gs, order);
        let lg = line_groups(gs, order);
        assert forall|g: int, q: int| 0 <= g < lg.len() && 0 <= q < lg[g].len() implies #[trigger] lg[g][q] < gs.len() by {
            if g < st.0.len() {
                assert(lg[g] == st.0[g]);
            }
        }
        assert forall|g: int| 0 <= g < lg.len() implies #[trigger] lg[g].len() > 0 by {
            if g < st.0.len() {
                assert(lg[g] == st.0[g]);
            }
        }
    }
}

proof fn lemma_scan_ok(gs: Seq<GlyphView>, group: Seq<usize>)
    requires
        glyphs_ok(gs),
        group.len() >= 1,
        forall|q: int| 0 <= q < group.len() ==> #[trigger] group[q] < gs.len(),
    ensures
        words_ok(scan_group(gs, group).words),
        in_limits(scan_group(gs, group).word_x),
        forall|i: int| 0 <= i < scan_group(gs, group).advances.len() ==> 100 < #[trigger] scan_group(gs, group).advances[i] < 50000,
    decreases group.len(),
{
    if group.len() > 1 {
        let t = group.drop_last();
        assert forall|q: int| 0 <= q < t.len() implies #[trigger] t[q] < gs.len() by {
            assert(t[q] == group[q]);
        }
        lemma_scan_ok(gs, t);
        let st = scan_group(gs, t);
        let c = gs[group.last() as int];
        assert(group[group.len() - 1] < gs.len());
        let st2 = scan_group(gs, group);
        assert forall|i: int| 0 <= i < st2.words.len() implies in_limits(#[trigger] st2.words[i].x) by {
            if i < st.words.len() {
                assert(st2.words[i] == st.words[i]);
            }
        }
        assert forall|i: int| 0 <= i < st2.advances.len() implies 100 < #[trigger] st2.advances[i] < 50000 by {
            if i < st.advances.len() {
                assert(st2.advances[i] == st.advances[i]);
            }
        }
    } else {
        assert(group[0] < gs.len());
    }
}

proof fn lemma_lines_of_ok(gs: Seq<GlyphView>, groups: Seq<Seq<usize>>)
    requires
        glyphs_ok(gs),
        forall|g: int, q: int| 0 <= g < groups.len() && 0 <= q < groups[g].len() ==> #[trigger] groups[g][q] < gs.len(),
        forall|g: int| 0 <= g < groups.len() ==> #[trigger] groups[g].len() > 0,
    ensures
        lines_ok(lines_of(gs, groups)),
        forall|i: int| 0 <= i < lines_of(gs, groups).len() ==> words_ok((#[trigger] lines_of(gs, groups)[i]).words)
            && 100 < lines_of(gs, groups)[i].char_advance <= 2 * COORD_LIMIT,
    decreases groups.len(),
{
    if groups.len() > 0 {
        let t = groups.drop_last();
        assert forall|g: int, q: int| 0 <= g < t.len() && 0 <= q < t[g].len() implies #[trigger] t[g][q] < gs.len() by {
            assert(t[g] == groups[g]);
        }
        assert forall|g: int| 0 <= g < t.len() implies #[trigger] t[g].len() > 0 by {
            assert(t[g] == groups[g]);
        }
        lemma_lines_of_ok(gs, t);
        let last = groups.last();
        assert(last == groups[groups.len() - 1]);
        assert forall|q: int| 0 <= q < last.len() implies #[trigger] last[q] < gs.len() by {
            assert(groups[groups.len() - 1][q] < gs.len());
        }
        assert(last.len() > 0);
        lemma_scan_ok(gs, last);
        let st = scan_group(gs, last);
        let words = flush(st.words, st.text, st.word_x);
        assert forall|i: int| 0 <= i < words.len() implies in_limits(#[trigger] words[i].x) by {
            if i < st.words.len() {
                assert(words[i] == st.words[i]);
            }
        }
        lemma_sorted_i64_bounds(st.advances, 101, 49999);
        assert(last[0] < gs.len());
        let r = lines_of(gs, t);
        let r2 = lines_of(gs, groups);
        assert forall|i: int| 0 <= i < r2.len() implies in_limits(#[trigger] r2[i].y) by {
            if i < r.len() {
                assert(r2[i] == r[i]);
            }
        }
        assert forall|i: int| 0 <= i < r2.len() implies words_ok((#[trigger] r2[i]).words) && 100 < r2[i].char_advance <= 2 * COORD_LIMIT by {
            if i < r.len() {
                assert(r2[i] == r[i]);
            }
        }
    }
}

/// Map text lines onto a terminal grid of `cols` columns.
///
/// Uses the detected line spacing to decide blank rows: a y-gap of
/// more than 1.5× the line spacing produces blank rows (at most two); otherwise
/// lines are packed consecutively. This avoids excessive whitespace
/// from line numbers or other per-line annotations.
pub fn layout_to_grid(chars: &[PlacedChar], cols: u16) -> (rows: Vec<String>)
    requires
        glyphs_ok(glyphs(chars@)),
    ensures
        rows_view(rows@) == layout_spec(glyphs(chars@), cols as nat),
{
    let ghost gs = glyphs(chars@);
    let mut output: Vec<String> = Vec::new();
    if chars.len() == 0 || cols == 0 {
        assert(rows_view(output@) =~= Seq::<Seq<char>>::empty());
        return output;
    }
    let lines = build_lines(chars);
    let ghost ls = lines_view(lines@);
    if lines.len() == 0 {
        assert(rows_view(output@) =~= Seq::<Seq<char>>::empty());
        return output;
    }
    let n = chars.len();
    proof {
        lemma_build_lines_ok(gs);
    }
    let spacing = detect_line_spacing(&lines);
    let ncols: usize = cols as usize;
    let mut k: usize = 0;
    while k < lines.len()
        invariant
            k <= lines@.len(),
            ls == lines_view(lines@),
            ls == build_lines_spec(gs),
            lines_ok(ls),
            forall|i: int| 0 <= i < ls.len() ==> words_ok((#[trigger] ls[i]).words) && 100 < ls[i].char_advance <= 2 * COORD_LIMIT,
            1000 < spacing <= 2 * COORD_LIMIT,
            spacing == line_spacing_spec(ls),
            ncols == cols,
            rows_view(output@) == grid_rows(ls.take(k as int), spacing as int, ncols as nat),
        decreases lines@.len() - k,
    {
        proof {
            assert(ls.take(k + 1).drop_last() =~= ls.take(k as int));
            assert(ls.take(k + 1).last() == ls[k as int]);
            assert(ls[k as int] == lines@[k as int]@);
        }
        let ghost before = rows_view(output@);
        let mut blanks: usize = 0;
        if k > 0 {
            assert(ls[k - 1] == lines@[k - 1]@);
            assert(in_limits(ls[k as int].y) && in_limits(ls[k - 1].y));
            let gap = lines[k].y - lines[k - 1].y;
            if 2 * gap > 3 * spacing {
                let r = round_div_exec(gap, spacing) - 1;
                blanks = if r < 0 { 0 } else if r > 2 { 2 } else { r as usize };
            }
        }
        let mut b: usize = 0;
        while b < blanks
            invariant
                b <= blanks,
                rows_view(output@) == before + Seq::new(b as nat, |i: int| Seq::<char>::empty()),
            decreases blanks - b,
        {
            let ghost prev_rows = output@;
            let empty_row = String::new();
            assert(empty_row@ == Seq::<char>::empty());
            output.push(empty_row);
            assert(rows_view(output@) =~= rows_view(prev_rows).push(Seq::<char>::empty()));
            b = b + 1;
            assert(rows_view(output@) =~= before + Seq::new(b as nat, |i: int| Seq::<char>::empty()));
        }
        let row = render_line(&lines[k].words, lines[k].char_advance, ncols);
        let ghost mid = rows_view(output@);
        output.push(row);
        assert(rows_view(output@) =~= mid.push(row@));
        k = k + 1;
    }
    assert(ls.take(ls.len() as int) =~= ls);
    let ghost full = rows_view(output@);
    while output.len() > 0 && output[output.len() - 1].as_str().unicode_len() == 0
        invariant
            trim_trailing_rows(rows_view(output@)) == trim_trailing_rows(full),
        decreases output@.len(),
    {
        let ghost before = rows_view(output@);
        output.pop();
        assert(rows_view(output@) =~= before.drop_last());
    }
    output
}

/// The text of a page laid out on a grid of `cols` columns, after snapping baselines to
/// the page's line grid (`extract_text_grid` without the PDF parsing).
pub fn text_grid(chars: &mut Vec<PlacedChar>, cols: u16) -> (rows: Vec<String>)
    requires
        glyphs_small(glyphs(old(chars)@)),
    ensures
        glyphs(final(chars)@) == snap_spec(glyphs(old(chars)@)),
        rows_view(rows@) == layout_spec(snap_spec(glyphs(old(chars)@)), cols as nat),
{
    snap_y_to_grid(chars);
    layout_to_grid(chars.as_slice(), cols)
}

// ---------------------------------------------------------------------------
// Plain text and search
// ---------------------------------------------------------------------------

/// The texts of the glyphs at the given positions, concatenated.
pub open spec fn concat_texts(gs: Seq<GlyphView>, order: Seq<usize>) -> Seq<char>
    decreases order.len(),
{
    if order.len() == 0 {
        Seq::empty()
    } else {
        concat_texts(gs, order.drop_last()) + gs[order.last() as int].ch
    }
}

/// The text of the glyphs in reading order.
pub open spec fn reading_text(gs: Seq<GlyphView>) -> Seq<char> {
    concat_texts(gs, reading_order(gs))
}

/// Extract plain text from the glyphs of a page: their texts in reading order
/// (top to bottom, then left to right).
pub fn extract_text(chars: &[PlacedChar]) -> (s: String)
    ensures
        s@ == reading_text(glyphs(chars@)),
{
    let order = reading_order_exec(chars);
    let n = chars.len();
    proof {
        lemma_reading_order_bounds(glyphs(chars@));
    }
    let mut s = String::new();
    let mut k: usize = 0;
    while k < order.len()
        invariant
            k <= order@.len(),
            order@ == reading_order(glyphs(chars@)),
            forall|i: int| 0 <= i < order@.len() ==> #[trigger] order@[i] < chars@.len(),
            s@ == concat_texts(glyphs(chars@), order@.take(k as int)),
        decreases order@.len() - k,
    {
        proof {
            assert(order@.take(k + 1).drop_last() =~= order@.take(k as int));
            assert(order@.take(k + 1).last() == order@[k as int]);
        }
        let i = order[k];
        assert(glyphs(chars@)[i as int] == chars@[i as int]@);
        push_str(&mut s, chars[i].ch.as_str());
        k = k + 1;
    }
    assert(order@.take(order@.len() as int) =~= order@);
    s
}

/// Non-overlapping occurrences of `q` in `hay` from position `i` on, found left to right.
pub open spec fn count_from(hay: Seq<char>, q: Seq<char>, i: int) -> nat
    decreases hay.len() - i,
{
    if q.len() == 0 || i < 0 || i + q.len() > hay.len() {
        0
    } else if hay.subrange(i, i + q.len()) == q {
        1 + count_from(hay, q, i + q.len())
    } else {
        count_from(hay, q, i + 1)
    }
}

/// Number of matches of `q` in `hay` (`str::matches(..).count()`): non-overlapping
/// occurrences, or one more than the characters for an empty `q`.
pub open spec fn count_matches(hay: Seq<char>, q: Seq<char>) -> nat {
    if q.len() == 0 {
        if hay.len() < usize::MAX {
            hay.len() + 1
        } else {
            usize::MAX as nat
        }
    } else {
        count_from(hay, q, 0)
    }
}

/// Whether `q` occurs in `hay` at position `i`.
pub fn matches_at_seq(hay: &Vec<char>, q: &Vec<char>, i: usize) -> (b: bool)
    requires
        i + q@.len() <= hay@.len(),
    ensures
        b == (hay@.subrange(i as int, i + q@.len()) == q@),
{
    let hl = hay.len();
    let mut j: usize = 0;
    while j < q.len()
        invariant
            j <= q@.len(),
            hl == hay@.len(),
            i + q@.len() <= hay@.len(),
            forall|t: int| 0 <= t < j ==> hay@[i + t] == q@[t],
        decreases q@.len() - j,
    {
        if hay[i + j] != q[j] {
            assert(hay@.subrange(i as int, i + q@.len())[j as int] != q@[j as int]);
            return false;
        }
        j = j + 1;
    }
    assert(hay@.subrange(i as int, i + q@.len()) =~= q@);
    true
}

/// Number of matches of `q` in `hay`.
pub fn count_matches_exec(hay: &str, q: &str) -> (n: usize)
    ensures
        n == count_matches(hay@, q@),
{
    let h = chars_of(hay);
    let qs = chars_of(q);
    if qs.len() == 0 {
        return if h.len() < usize::MAX { h.len() + 1 } else { usize::MAX };
    }
    if qs.len() > h.len() {
        return 0;
    }
    let last = h.len() - qs.len();
    let hl = h.len();
    let mut n: usize = 0;
    let mut i: usize = 0;
    while i <= last
        invariant
            qs@.len() > 0,
            hl == h@.len(),
            last == h@.len() - qs@.len(),
            i <= h@.len(),
            n + count_from(h@, qs@, i as int) == count_from(h@, qs@, 0),
            n <= i,
        decreases h@.len() - i,
    {
        if matches_at_seq(&h, &qs, i) {
            n = n + 1;
            i = i + qs.len();
        } else {
            i = i + 1;
        }
    }
    n
}

/// Number of matches of a lower-cased query in the lower-cased plain text of a page
/// (one page of a text search).
pub fn page_match_count(chars: &[PlacedChar], query_lower: &str) -> (n: usize)
    ensures
        n == count_matches(str_lowercase(reading_text(glyphs(chars@))), query_lower@),
{
    let text = extract_text(chars);
    let lower = lowercase(text.as_str());
    count_matches_exec(lower.as_str(), query_lower)
}

/// The words of a line joined by single spaces.
pub open spec fn line_text(ws: Seq<WordView>) -> Seq<char>
    decreases ws.len(),
{
    if ws.len() == 0 {
        Seq::empty()
    } else if ws.len() == 1 {
        ws[0].text
    } else {
        line_text(ws.drop_last()) + " "@ + ws.last().text
    }
}

/// Whether `q` occurs in `hay`.
pub open spec fn contains_seq(hay: Seq<char>, q: Seq<char>) -> bool {
    exists|i: int| 0 <= i && i + q.len() <= hay.len() && #[trigger] hay.subrange(i, i + q.len()) == q
}

/// Vertical position of a baseline as a fraction of the page height, in millionths,
/// kept within the page.
pub open spec fn fraction(y: int, height: int) -> int {
    if y <= 0 {
        0
    } else if y * 1000000 / height > 1000000 {
        1000000
    } else {
        y * 1000000 / height
    }
}

/// Positions of the lines whose lower-cased text contains `q`.
pub open spec fn match_positions_of(ls: Seq<LineView>, height: int, q: Seq<char>) -> Seq<u32>
    decreases ls.len(),
{
    if ls.len() == 0 {
        Seq::empty()
    } else {
        let r = match_positions_of(ls.drop_last(), height, q);
        if contains_seq(str_lowercase(line_text(ls.last().words)), q) {
            r.push(fraction(ls.last().y, height) as u32)
        } else {
            r
        }
    }
}

/// Match positions are fractions of the page: between 0 and one million millionths.
pub proof fn law_match_positions_within_page(ls: Seq<LineView>, height: int, q: Seq<char>)
    requires
        height > 0,
    ensures
        forall|i: int| 0 <= i < match_positions_of(ls, height, q).len()
            ==> #[trigger] match_positions_of(ls, height, q)[i] <= 1000000,
    decreases ls.len(),
{
    if ls.len() > 0 {
        law_match_positions_within_page(ls.drop_last(), height, q);
        let y = ls.last().y;
        if y > 0 {
            assert(y * 1000000 / height >= 0) by (nonlinear_arith)
                requires
                    y > 0,
                    height > 0,
            ;
        }
        let f = fraction(y, height);
        assert(0 <= f <= 1000000);
        assert((f as u32) as int == f);
        let r = match_positions_of(ls.drop_last(), height, q);
        assert forall|i: int| 0 <= i < match_positions_of(ls, height, q).len()
            implies #[trigger] match_positions_of(ls, height, q)[i] <= 1000000 by {
            if i < r.len() {
                assert(r[i] <= 1000000);
            }
        }
    }
}

/// Whether `q` occurs in `hay`.
fn contains_exec(hay: &str, q: &str) -> (b: bool)
    ensures
        b == contains_seq(hay@, q@),
{
    let h = chars_of(hay);
    let qs = chars_of(q);
    if qs.len() == 0 {
        assert(hay@.subrange(0int, 0int + q@.len()) =~= q@);
        return true;
    }
    if qs.len() > h.len() {
        return false;
    }
    let bound = h.len() - qs.len() + 1;
    let mut i: usize = 0;
    while i < bound
        invariant
            i <= bound,
            qs@.len() > 0,
            h@ == hay@,
            qs@ == q@,
            bound == h@.len() - qs@.len() + 1,
            qs@.len() <= h@.len(),
            forall|t: int| 0 <= t < i ==> #[trigger] h@.subrange(t, t + qs@.len()) != qs@,
        decreases h@.len() - i,
    {
        if matches_at_seq(&h, &qs, i) {
            assert(hay@.subrange(i as int, i + q@.len()) == q@);
            return true;
        }
        i = i + 1;
    }
    assert forall|t: int| 0 <= t && t + qs@.len() <= h@.len() implies #[trigger] h@.subrange(t, t + qs@.len()) != qs@ by {
        assert(t < i);
    }
    false
}

/// The words of a line joined by single spaces.
fn join_words(words: &Vec<Word>) -> (s: String)
    ensures
        s@ == line_text(words_view(words@)),
{
    let ghost ws = words_view(words@);
    let mut s = String::new();
    let mut k: usize = 0;
    while k < words.len()
        invariant
            k <= words@.len(),
            ws == words_view(words@),
            s@ == line_text(ws.take(k as int)),
        decreases words@.len() - k,
    {
        proof {
            assert(ws.take(k + 1).drop_last() =~= ws.take(k as int));
            assert(ws.take(k + 1).last() == words@[k as int]@);
        }
        if k > 0 {
            push_str(&mut s, " ");
        } else {
            assert(s@ =~= Seq::<char>::empty());
            assert(ws.take(1)[0] == words@[0]@);
        }
        push_str(&mut s, words[k].text.as_str());
        k = k + 1;
    }
    assert(ws.take(ws.len() as int) =~= ws);
    s
}

/// Find vertical positions of search matches on a page: for each line whose text
/// contains the query (ignoring case), its baseline as a fraction of the page height in
/// millionths. The glyphs' baselines are snapped to the page's line grid first.
pub fn find_match_positions(chars: &mut Vec<PlacedChar>, page_height: i64, query: &str) -> (positions: Vec<u32>)
    requires
        glyphs_small(glyphs(old(chars)@)),
        page_height > 0,
    ensures
        query@.len() == 0 ==> positions@.len() == 0,
        query@.len() > 0 ==> positions@ == match_positions_of(
            build_lines_spec(snap_spec(glyphs(old(chars)@))),
            page_height as int,
            str_lowercase(query@),
        ),
{
    let mut positions: Vec<u32> = Vec::new();
    if query.unicode_len() == 0 {
        return positions;
    }
    snap_y_to_grid(chars);
    let lines = build_lines(chars.as_slice());
    let ghost ls = lines_view(lines@);
    let n = chars.len();
    proof {
        lemma_build_lines_ok(glyphs(chars@));
    }
    let q = lowercase(query);
    let mut k: usize = 0;
    while k < lines.len()
        invariant
            k <= lines@.len(),
            ls == lines_view(lines@),
            lines_ok(ls),
            page_height > 0,
            positions@ == match_positions_of(ls.take(k as int), page_height as int, q@),
        decreases lines@.len() - k,
    {
        proof {
            assert(ls.take(k + 1).drop_last() =~= ls.take(k as int));
            assert(ls.take(k + 1).last() == lines@[k as int]@);
        }
        let text = join_words(&lines[k].words);
        let lower = lowercase(text.as_str());
        if contains_exec(lower.as_str(), q.as_str()) {
            let y = lines[k].y;
            assert(in_limits(ls[k as int].y));
            let f: i64 = if y <= 0 {
                0
            } else if y * 1000000 / page_height > 1000000 {
                1000000
            } else {
                y * 1000000 / page_height
            };
            positions.push(f as u32);
        }
        k = k + 1;
    }
    assert(ls.take(ls.len() as int) =~= ls);
    positions
}

} // verus!
