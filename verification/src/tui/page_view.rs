//! State of the main page view, and the search highlighting of its text view.
use vstd::prelude::*;
use crate::render::text_layout::matches_at_seq;
use crate::text::{chars_of, lowercase, str_lowercase, string_from_range};

verus! {

/// A terminal image ready to draw, carried through the library as an opaque value.
#[verifier::external_type_specification]
#[verifier::external_body]
pub struct ExStatefulProtocol(ratatui_image::protocol::StatefulProtocol);

/// A rectangle of terminal cells, carried through the library as an opaque value.
#[verifier::external_type_specification]
#[verifier::external_body]
pub struct ExRect(ratatui::layout::Rect);

/// State for the page view, holding the rendered image protocol.
pub struct PageViewState {
    pub protocol: Option<ratatui_image::protocol::StatefulProtocol>,
    pub rendered_page: Option<usize>,
    /// Image dimensions (width, height) in pixels for centering.
    pub image_size: Option<(u32, u32)>,
    /// Cached text lines for the current page in text mode.
    pub text_lines: Option<(usize, Vec<String>)>,
    /// Vertical scroll offset for text view.
    pub text_scroll: u16,
    /// The terminal area where the page image was last rendered (for click mapping).
    pub image_area: Option<ratatui::layout::Rect>,
    /// Right page protocol for two-page spread view.
    pub protocol_right: Option<ratatui_image::protocol::StatefulProtocol>,
    /// Right page image dimensions for spread view.
    pub image_size_right: Option<(u32, u32)>,
    /// Right page index currently rendered in spread view.
    pub rendered_page_right: Option<usize>,
}

/// Largest scroll offset for `lines` lines of text, `visible` of which fit on screen;
/// the line count is taken as a `u16`, wrapping around.
pub open spec fn max_scroll(lines: nat, visible: u16) -> u16 {
    let n = (lines % 65536) as u16;
    if n >= visible {
        (n - visible) as u16
    } else {
        0
    }
}

/// The view state after scrolling down `n` lines with `visible` rows on screen.
pub open spec fn scroll_down_spec(v: PageViewState, n: u16, visible: u16) -> PageViewState {
    match v.text_lines {
        Some(t) => {
            let m = max_scroll(t.1@.len(), visible);
            let s = (v.text_scroll + n) as u16;
            PageViewState { text_scroll: if s <= m { s } else { m }, ..v }
        },
        None => v,
    }
}

/// The view state after scrolling up `n` lines.
pub open spec fn scroll_up_spec(v: PageViewState, n: u16) -> PageViewState {
    PageViewState { text_scroll: if v.text_scroll >= n { (v.text_scroll - n) as u16 } else { 0 }, ..v }
}

impl PageViewState {
    pub fn new() -> (s: Self)
        ensures
            s.protocol is None,
            s.rendered_page is None,
            s.image_size is None,
            s.text_lines is None,
            s.text_scroll == 0,
            s.image_area is None,
            s.protocol_right is None,
            s.image_size_right is None,
            s.rendered_page_right is None,
    {
        Self {
            protocol: None,
            rendered_page: None,
            image_size: None,
            text_lines: None,
            text_scroll: 0,
            image_area: None,
            protocol_right: None,
            image_size_right: None,
            rendered_page_right: None,
        }
    }

    /// Scroll text view down by `n` lines, stopping where the last line is at the bottom.
    /// Nothing happens while no text is held.
    pub fn scroll_down(&mut self, n: u16, visible_rows: u16)
        requires
            old(self).text_scroll + n <= u16::MAX,
        ensures
            *final(self) == scroll_down_spec(*old(self), n, visible_rows),
    {
        let mut target: Option<u16> = None;
        match &self.text_lines {
            Some(t) => {
                let len = t.1.len();
                let n16: u16 = (len % 65536) as u16;
                let m: u16 = if n16 >= visible_rows { n16 - visible_rows } else { 0 };
                let s: u16 = self.text_scroll + n;
                target = Some(if s <= m { s } else { m });
            },
            None => {},
        }
        match target {
            Some(v) => {
                self.text_scroll = v;
            },
            None => {},
        }
    }

    /// Scroll text view up by `n` lines, stopping at the top.
    pub fn scroll_up(&mut self, n: u16)
        ensures
            *final(self) == scroll_up_spec(*old(self), n),
    {
        self.text_scroll = if self.text_scroll >= n { self.text_scroll - n } else { 0 };
    }
}

// ---------------------------------------------------------------------------
// Search highlighting
// ---------------------------------------------------------------------------

/// Starts of the non-overlapping occurrences of `q` in `hay` from position `i` on,
/// found left to right.
pub open spec fn match_list(hay: Seq<char>, q: Seq<char>, i: int) -> Seq<int>
    decreases hay.len() - i,
{
    if q.len() == 0 || i < 0 || i + q.len() > hay.len() {
        Seq::empty()
    } else if hay.subrange(i, i + q.len()) == q {
        seq![i] + match_list(hay, q, i + q.len())
    } else {
        match_list(hay, q, i + 1)
    }
}

/// Whether character position `k` of the lower-cased text (of `lower_len` characters)
/// has a counterpart in the line as given (of `orig_len`): the end, or a position the
/// line also has.
pub open spec fn maps(orig_len: int, lower_len: int, k: int) -> bool {
    k == lower_len || (0 <= k < orig_len)
}

/// The counterpart in the line as given of position `k` of the lower-cased text.
pub open spec fn map_pos(orig_len: int, lower_len: int, k: int) -> int {
    if k == lower_len {
        orig_len
    } else {
        k
    }
}

/// A piece of a line, and whether it is a highlighted match.
pub type Span = (Seq<char>, bool);

/// The spans of `orig` for the matches starting at `ms` (each `qlen` long), the text
/// before them starting at `last_end`; `None` when a position has no counterpart in
/// the line as given.
pub open spec fn spans_from(orig: Seq<char>, lower_len: int, qlen: int, ms: Seq<int>, last_end: int) -> Option<Seq<Span>>
    decreases ms.len(),
{
    let n = orig.len() as int;
    if ms.len() == 0 {
        if !maps(n, lower_len, last_end) {
            None
        } else {
            let le = map_pos(n, lower_len, last_end);
            if le < n {
                Some(seq![(orig.subrange(le, n), false)])
            } else {
                Some(Seq::empty())
            }
        }
    } else {
        let s = ms[0];
        let e = s + qlen;
        if !maps(n, lower_len, s) || !maps(n, lower_len, e) || !maps(n, lower_len, last_end) {
            None
        } else {
            let so = map_pos(n, lower_len, s);
            let eo = map_pos(n, lower_len, e);
            let le = map_pos(n, lower_len, last_end);
            let before: Seq<Span> = if so > le { seq![(orig.subrange(le, so), false)] } else { Seq::empty() };
            match spans_from(orig, lower_len, qlen, ms.drop_first(), e) {
                Some(rest) => Some(before + seq![(orig.subrange(so, eo), true)] + rest),
                None => None,
            }
        }
    }
}

/// The spans of a line with the case-insensitive matches of `query` highlighted: the
/// whole line when the query is empty or nothing matches. `None` where the positions
/// of the lower-cased line have no counterpart in the line (the lower-cased form has
/// more characters), or where the lower-cased query is empty.
pub open spec fn highlight_spec(line: Seq<char>, query: Seq<char>) -> Option<Seq<Span>> {
    if query.len() == 0 {
        Some(seq![(line, false)])
    } else {
        let lower = str_lowercase(line);
        let q = str_lowercase(query);
        if q.len() == 0 {
            None
        } else {
            match spans_from(line, lower.len() as int, q.len() as int, match_list(lower, q, 0), 0) {
                Some(sp) => if sp.len() == 0 {
                    Some(seq![(line, false)])
                } else {
                    Some(sp)
                },
                None => None,
            }
        }
    }
}

/// The spans by their views.
pub open spec fn spans_view(v: Seq<(String, bool)>) -> Seq<Span> {
    v.map_values(|s: (String, bool)| (s.0@, s.1))
}

/// `spans_from` after the spans found so far.
pub open spec fn prefixed(done: Seq<Span>, rest: Option<Seq<Span>>) -> Option<Seq<Span>> {
    match rest {
        Some(r) => Some(done + r),
        None => None,
    }
}

/// Split a line into spans, highlighting case-insensitive matches of `query`.
///
/// Positions are mapped between the lower-cased line and the line character by
/// character; `None` stands for the lines on which that mapping runs off the line.
pub fn highlight_line(line: &str, query: &str) -> (r: Option<Vec<(String, bool)>>)
    ensures
        match r {
            Some(v) => highlight_spec(line@, query@) == Some(spans_view(v@)),
            None => highlight_spec(line@, query@) is None,
        },
{
    let orig = chars_of(line);
    let mut spans: Vec<(String, bool)> = Vec::new();
    if query.unicode_len() == 0 {
        spans.push((String::from_str(line), false));
        assert(spans_view(spans@) =~= seq![(line@, false)]);
        return Some(spans);
    }
    let lower_s = lowercase(line);
    let q_s = lowercase(query);
    let lower = chars_of(lower_s.as_str());
    let q = chars_of(q_s.as_str());
    if q.len() == 0 {
        return None;
    }
    let n = orig.len();
    let ln = lower.len();
    let ghost ms0 = match_list(lower@, q@, 0);
    let mut last_end: usize = 0;
    let mut i: usize = 0;
    while i < ln && q.len() <= ln - i
        invariant
            q@.len() > 0,
            n == orig@.len(),
            ln == lower@.len(),
            i <= ln,
            last_end <= i,
            orig@ == line@,
            lower@ == str_lowercase(line@),
            q@ == str_lowercase(query@),
            ms0 == match_list(lower@, q@, 0),
            query@.len() > 0,
            spans_from(orig@, ln as int, q@.len() as int, ms0, 0) == prefixed(
                spans_view(spans@),
                spans_from(orig@, ln as int, q@.len() as int, match_list(lower@, q@, i as int), last_end as int),
            ),
        decreases ln - i,
    {
        let ghost ms = match_list(lower@, q@, i as int);
        if matches_at_seq(&lower, &q, i) {
            let s = i;
            let e = i + q.len();
            assert(ms == seq![s as int] + match_list(lower@, q@, e as int));
            let fits_s = s < n;
            let fits_e = e == ln || e < n;
            let fits_l = last_end == ln || last_end < n;
            if !(fits_s && fits_e && fits_l) {
                assert(spans_from(orig@, ln as int, q@.len() as int, ms, last_end as int) is None);
                return None;
            }
            let so = s;
            let eo = if e == ln { n } else { e };
            let le = if last_end == ln { n } else { last_end };
            let ghost before = spans_view(spans@);
            if so > le {
                spans.push((string_from_range(orig.as_slice(), le, so), false));
            }
            spans.push((string_from_range(orig.as_slice(), so, eo), true));
            proof {
                let pre: Seq<Span> = if so > le { seq![(orig@.subrange(le as int, so as int), false)] } else { Seq::empty() };
                assert(spans_view(spans@) =~= before + pre + seq![(orig@.subrange(so as int, eo as int), true)]);
                assert(ms.drop_first() =~= match_list(lower@, q@, e as int));
            }
            last_end = e;
            i = e;
        } else {
            assert(ms == match_list(lower@, q@, i + 1));
            i = i + 1;
        }
    }
    proof {
        assert(match_list(lower@, q@, i as int) =~= Seq::<int>::empty());
    }
    if !(last_end == ln || last_end < n) {
        return None;
    }
    let le = if last_end == ln { n } else { last_end };
    let ghost before = spans_view(spans@);
    if le < n {
        spans.push((string_from_range(orig.as_slice(), le, n), false));
        assert(spans_view(spans@) =~= before + seq![(orig@.subrange(le as int, n as int), false)]);
    } else {
        assert(before + Seq::<Span>::empty() =~= before);
    }
    if spans.len() == 0 {
        spans.push((String::from_str(line), false));
        assert(spans_view(spans@) =~= seq![(line@, false)]);
    }
    Some(spans)
}

/// The text of a line of spans, their pieces one after the other.
pub open spec fn spans_text(sp: Seq<Span>) -> Seq<char>
    decreases sp.len(),
{
    if sp.len() == 0 {
        Seq::empty()
    } else {
        sp[0].0 + spans_text(sp.drop_first())
    }
}

proof fn lemma_spans_text_one(x: Span)
    ensures
        spans_text(seq![x]) == x.0,
{
    assert(seq![x].drop_first() =~= Seq::<Span>::empty());
    assert(spans_text(Seq::<Span>::empty()) == Seq::<char>::empty());
    assert(x.0 + Seq::<char>::empty() =~= x.0);
}

proof fn lemma_spans_text_concat(a: Seq<Span>, b: Seq<Span>)
    ensures
        spans_text(a + b) == spans_text(a) + spans_text(b),
    decreases a.len(),
{
    if a.len() == 0 {
        assert(a + b =~= b);
    } else {
        lemma_spans_text_concat(a.drop_first(), b);
        assert((a + b).drop_first() =~= a.drop_first() + b);
        assert(spans_text(a) + spans_text(b) =~= a[0].0 + (spans_text(a.drop_first()) + spans_text(b)));
    }
}

/// Match starts, each at or after `lo` and after the end of the one before, each match
/// lying within a text of `hay_len` characters.
pub open spec fn spaced(ms: Seq<int>, qlen: int, lo: int, hay_len: int) -> bool
    decreases ms.len(),
{
    ms.len() == 0 || (lo <= ms[0] && ms[0] + qlen <= hay_len && spaced(ms.drop_first(), qlen, ms[0] + qlen, hay_len))
}

proof fn lemma_match_list_spaced(hay: Seq<char>, q: Seq<char>, i: int)
    requires
        0 <= i,
    ensures
        spaced(match_list(hay, q, i), q.len() as int, i, hay.len() as int),
    decreases hay.len() - i,
{
    if q.len() == 0 || i + q.len() > hay.len() {
    } else if hay.subrange(i, i + q.len()) == q {
        lemma_match_list_spaced(hay, q, i + q.len());
        assert((seq![i] + match_list(hay, q, i + q.len())).drop_first() =~= match_list(hay, q, i + q.len()));
    } else {
        lemma_match_list_spaced(hay, q, i + 1);
        let ms = match_list(hay, q, i + 1);
        if ms.len() > 0 {
            assert(spaced(ms, q.len() as int, i + 1, hay.len() as int));
        }
    }
}

proof fn lemma_spans_from_text(orig: Seq<char>, lower_len: int, qlen: int, ms: Seq<int>, last_end: int)
    requires
        qlen > 0,
        0 <= last_end,
        spaced(ms, qlen, last_end, lower_len),
        spans_from(orig, lower_len, qlen, ms, last_end) is Some,
    ensures
        0 <= map_pos(orig.len() as int, lower_len, last_end) <= orig.len(),
        spans_text(spans_from(orig, lower_len, qlen, ms, last_end)->0)
            == orig.subrange(map_pos(orig.len() as int, lower_len, last_end), orig.len() as int),
    decreases ms.len(),
{
    let n = orig.len() as int;
    if ms.len() == 0 {
        let le = map_pos(n, lower_len, last_end);
        if le < n {
            lemma_spans_text_one((orig.subrange(le, n), false));
        } else {
            assert(orig.subrange(le, n) =~= Seq::<char>::empty());
        }
    } else {
        let s = ms[0];
        let e = s + qlen;
        let so = map_pos(n, lower_len, s);
        let eo = map_pos(n, lower_len, e);
        let le = map_pos(n, lower_len, last_end);
        lemma_spans_from_text(orig, lower_len, qlen, ms.drop_first(), e);
        let rest = spans_from(orig, lower_len, qlen, ms.drop_first(), e)->0;
        let before: Seq<Span> = if so > le { seq![(orig.subrange(le, so), false)] } else { Seq::empty() };
        let mid: Seq<Span> = seq![(orig.subrange(so, eo), true)];
        assert(le == last_end && so == s);
        lemma_spans_text_concat(before, mid);
        lemma_spans_text_concat(before + mid, rest);
        lemma_spans_text_one((orig.subrange(so, eo), true));
        if so > le {
            lemma_spans_text_one((orig.subrange(le, so), false));
        } else {
            assert(spans_text(before) == Seq::<char>::empty());
        }
        assert(spans_text(before) + spans_text(mid) + spans_text(rest) =~= orig.subrange(le, n));
    }
}

/// The spans of a highlighted line, put back together, give the line.
pub proof fn law_highlight_spans_rebuild_line(line: Seq<char>, query: Seq<char>)
    requires
        highlight_spec(line, query) is Some,
    ensures
        spans_text(highlight_spec(line, query)->0) == line,
{
    lemma_spans_text_one((line, false));
    if query.len() > 0 {
        let lower = str_lowercase(line);
        let q = str_lowercase(query);
        if q.len() > 0 {
            let ms = match_list(lower, q, 0);
            lemma_match_list_spaced(lower, q, 0);
            lemma_spans_from_text(line, lower.len() as int, q.len() as int, ms, 0);
            let sp = spans_from(line, lower.len() as int, q.len() as int, ms, 0)->0;
            if sp.len() > 0 && lower.len() == 0 {
                assert(ms.len() == 0);
                assert(false);
            }
            assert(line.subrange(0, line.len() as int) =~= line);
        }
    }
}

/// Column of the search tick marks: just left of the image, or the area's first column
/// when the image starts there.
pub open spec fn tick_column(img_x: u16, area_x: u16) -> u16 {
    if img_x > area_x + 1 { (img_x - 1) as u16 } else { area_x }
}

/// Row of a tick for a position `frac` (millionths of the page height) on an image drawn
/// from row `img_y` over `img_h` rows: the nearest row, halves rounded up.
pub open spec fn tick_row(frac: u32, img_y: u16, img_h: u16) -> int {
    img_y + (frac * img_h + 500000) / 1000000
}

/// The cells `(column, row)` of the tick marks for the match positions `ps` that fall
/// within the rows `area_y..area_y + area_h`; none for an image without rows.
pub open spec fn tick_cells_spec(ps: Seq<u32>, area_x: u16, area_y: u16, area_h: u16, img_x: u16, img_y: u16, img_h: u16) -> Seq<(u16, u16)>
    decreases ps.len(),
{
    if ps.len() == 0 || img_h == 0 {
        Seq::empty()
    } else {
        let r = tick_cells_spec(ps.drop_last(), area_x, area_y, area_h, img_x, img_y, img_h);
        let row = tick_row(ps.last(), img_y, img_h);
        if area_y <= row < area_y + area_h {
            r.push((tick_column(img_x, area_x), row as u16))
        } else {
            r
        }
    }
}

/// Where the search matches of the current page are marked beside its image: one cell
/// per match position (millionths of the page height) whose row lies in the area.
pub fn match_tick_cells(
    positions: &[u32],
    area_x: u16,
    area_y: u16,
    area_h: u16,
    img_x: u16,
    img_y: u16,
    img_h: u16,
) -> (cells: Vec<(u16, u16)>)
    requires
        img_y + img_h <= u16::MAX,
        forall|k: int| 0 <= k < positions@.len() ==> #[trigger] positions@[k] <= 1000000,
    ensures
        cells@ == tick_cells_spec(positions@, area_x, area_y, area_h, img_x, img_y, img_h),
{
    let mut cells: Vec<(u16, u16)> = Vec::new();
    if img_h == 0 {
        return cells;
    }
    let col: u16 = if (img_x as u32) > (area_x as u32) + 1 { img_x - 1 } else { area_x };
    let mut k: usize = 0;
    while k < positions.len()
        invariant
            k <= positions@.len(),
            img_h > 0,
            img_y + img_h <= u16::MAX,
            col == tick_column(img_x, area_x),
            forall|q: int| 0 <= q < positions@.len() ==> #[trigger] positions@[q] <= 1000000,
            cells@ == tick_cells_spec(positions@.take(k as int), area_x, area_y, area_h, img_x, img_y, img_h),
        decreases positions@.len() - k,
    {
        let p = positions[k];
        proof {
            assert(positions@.take(k + 1).drop_last() =~= positions@.take(k as int));
            assert((p * img_h + 500000) / 1000000 <= img_h) by (nonlinear_arith)
                requires
                    p <= 1000000,
            ;
        }
        let row: u64 = img_y as u64 + ((p as u64) * (img_h as u64) + 500000) / 1000000;
        if (area_y as u64) <= row && row < (area_y as u64) + (area_h as u64) {
            cells.push((col, row as u16));
        }
        k = k + 1;
    }
    assert(positions@.take(positions@.len() as int) =~= positions@);
    cells
}

} // verus!

