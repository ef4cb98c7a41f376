//! Decisions of the interactive viewer's main loop: sizes of the views, what a finished
//! search shows, how the text view scrolls, the text of the status bar, and which of a
//! burst of key presses is handled.
use vstd::prelude::*;
use crate::app::{App, LayoutMode, SearchState, TextScroll, ViewMode};
use crate::model::workspace::Workspace;
use crate::text::{decimal, decimal_string, push_str};
use crate::tui::dialog::{lemma_utf8_len_is_encoding_len, utf8_len};
use crate::tui::input::{shows, KeyEvent};
use crate::tui::page_view::{max_scroll, scroll_down_spec, scroll_up_spec, PageViewState};

verus! {

/// Max thumbnails to render per event loop tick to stay responsive.
pub const THUMB_BATCH_SIZE: usize = 3;

/// `a * b`, or `u16::MAX` when that does not fit.
pub open spec fn sat_mul(a: u16, b: u16) -> u16 {
    if a * b > u16::MAX { u16::MAX } else { (a * b) as u16 }
}

/// `a - b`, or 0 below zero.
pub open spec fn sat_sub(a: u16, b: u16) -> u16 {
    if a >= b { (a - b) as u16 } else { 0 }
}

/// Compute pixel dimensions from a terminal cell area and font size (at least 1 each).
pub fn area_to_pixels(width: u16, height: u16, font_size: (u16, u16)) -> (r: (u16, u16))
    ensures
        r.0 == (if sat_mul(width, font_size.0) >= 1 { sat_mul(width, font_size.0) } else { 1 }),
        r.1 == (if sat_mul(height, font_size.1) >= 1 { sat_mul(height, font_size.1) } else { 1 }),
{
    assert((width as u32) * (font_size.0 as u32) <= 65535 * 65535) by (nonlinear_arith)
        requires
            width <= 65535,
            font_size.0 <= 65535,
    ;
    assert((height as u32) * (font_size.1 as u32) <= 65535 * 65535) by (nonlinear_arith)
        requires
            height <= 65535,
            font_size.1 <= 65535,
    ;
    let w32: u32 = (width as u32) * (font_size.0 as u32);
    let h32: u32 = (height as u32) * (font_size.1 as u32);
    let w: u16 = if w32 > 65535 { 65535 } else { w32 as u16 };
    let h: u16 = if h32 > 65535 { 65535 } else { h32 as u16 };
    (if w >= 1 { w } else { 1 }, if h >= 1 { h } else { 1 })
}

/// Cells of the main view: the terminal without the sidebar, and without the status
/// and hint rows (and the thumbnail strip unless it is hidden).
pub fn main_view_size(layout: LayoutMode, term_w: u16, term_h: u16) -> (r: (u16, u16))
    ensures
        r == (sat_sub(term_w, 14), if layout == LayoutMode::NoThumbnails { sat_sub(term_h, 3) } else { sat_sub(term_h, 11) }),
{
    let cols = term_w.saturating_sub(14);
    let rows = if layout == LayoutMode::NoThumbnails { term_h.saturating_sub(3) } else { term_h.saturating_sub(11) };
    (cols, rows)
}

/// Rows of text shown in the text view.
pub fn text_visible_rows(term_h: u16) -> (r: u16)
    ensures
        r == sat_sub(term_h, 12),
{
    term_h.saturating_sub(12)
}

/// Whether a search was started and has not run yet.
pub open spec fn search_pending(app: App) -> bool {
    app.search matches Some(s) && s.matches@.len() == 0 && s.query@.len() > 0
}

/// Whether a search was started and has not run yet.
pub fn needs_search(app: &App) -> (b: bool)
    ensures
        b == search_pending(*app),
{
    match &app.search {
        Some(s) => s.matches.len() == 0 && s.query.as_str().unicode_len() > 0,
        None => false,
    }
}

/// Index of the first match on the page `cur` or later, from position `i` on; -1 when none.
pub open spec fn first_match_from(ms: Seq<(usize, usize)>, cur: usize, i: int) -> int
    decreases ms.len() - i,
{
    if i < 0 || i >= ms.len() {
        -1
    } else if ms[i].0 >= cur {
        i
    } else {
        first_match_from(ms, cur, i + 1)
    }
}

/// Status text when a search found nothing.
pub open spec fn no_matches_message(q: Seq<char>) -> Seq<char> {
    "No matches for '"@ + q + "'"@
}

/// Status text after a search, on match `pos` of `total`.
pub open spec fn search_done_message(pos: nat, total: nat, q: Seq<char>) -> Seq<char> {
    "Match "@ + decimal(pos) + "/"@ + decimal(total) + " for '"@ + q + "'"@
}

/// `first_match_from` from `i` finds the first match at or after `i` on page `cur` or later.
proof fn lemma_first_match_from(ms: Seq<(usize, usize)>, cur: usize, i: int)
    requires
        0 <= i <= ms.len(),
    ensures
        (exists|j: int| i <= j < ms.len() && ms[j].0 >= cur) ==> {
            let f = first_match_from(ms, cur, i);
            &&& i <= f < ms.len()
            &&& ms[f].0 >= cur
            &&& forall|j: int| i <= j < f ==> ms[j].0 < cur
        },
        (forall|j: int| i <= j < ms.len() ==> ms[j].0 < cur) ==> first_match_from(ms, cur, i) == -1,
    decreases ms.len() - i,
{
    if i < ms.len() {
        lemma_first_match_from(ms, cur, i + 1);
        if ms[i].0 < cur && (exists|j: int| i <= j < ms.len() && ms[j].0 >= cur) {
            let j = choose|j: int| i <= j < ms.len() && ms[j].0 >= cur;
            assert(i + 1 <= j);
        }
    }
}

/// The match a finished search goes to: the earliest on the cursor's page or a later one
/// (every match before it is on an earlier page), or the first of all when every match is
/// on an earlier page. With the matches in page order, as a search lists them, a match on
/// the cursor's page keeps the cursor where it is.
pub proof fn law_search_starts_from_cursor(ms: Seq<(usize, usize)>, cur: usize)
    requires
        ms.len() > 0,
    ensures
        ({
            let f = first_match_from(ms, cur, 0);
            let k = if f < 0 { 0 } else { f };
            &&& 0 <= k < ms.len()
            &&& (exists|j: int| 0 <= j < ms.len() && ms[j].0 >= cur) ==> ms[k].0 >= cur && forall|j: int|
                0 <= j < k ==> ms[j].0 < cur
            &&& (forall|j: int| 0 <= j < ms.len() ==> ms[j].0 < cur) ==> k == 0
            &&& (forall|a: int, b: int| 0 <= a < b < ms.len() ==> ms[a].0 <= ms[b].0) && (exists|j: int|
                0 <= j < ms.len() && ms[j].0 == cur) ==> ms[k].0 == cur
        }),
{
    lemma_first_match_from(ms, cur, 0);
    let f = first_match_from(ms, cur, 0);
    if (forall|a: int, b: int| 0 <= a < b < ms.len() ==> ms[a].0 <= ms[b].0) && (exists|j: int|
        0 <= j < ms.len() && ms[j].0 == cur) {
        let j = choose|j: int| 0 <= j < ms.len() && ms[j].0 == cur;
        assert(ms[j].0 >= cur);
        if f < j {
            assert(ms[f].0 <= ms[j].0);
        } else if f > j {
            assert(ms[j].0 < cur);
        }
    }
}

/// Show the outcome of a search: report when nothing matched; otherwise go to the first
/// match on the current page or after it (the first of all when there is none) and ask
/// the text view to scroll to it.
pub fn show_search_results(app: &mut App, search: SearchState)
    ensures
        search.matches@.len() == 0 ==> {
            &&& shows(*final(app), no_matches_message(search.query@))
            &&& *final(app) == (App { search: Some(search), status_message: final(app).status_message, ..*old(app) })
        },
        search.matches@.len() > 0 ==> {
            let f = first_match_from(search.matches@, old(app).workspace.selected_page, 0);
            let k = if f < 0 { 0 } else { f };
            &&& shows(*final(app), search_done_message((k + 1) as nat, search.matches@.len(), search.query@))
            &&& *final(app) == (App {
                search: Some(SearchState { current_match: k as usize, ..search }),
                workspace: Workspace { selected_page: search.matches@[k].0, ..old(app).workspace },
                scroll_to_match: true,
                status_message: final(app).status_message,
                ..*old(app)
            })
        },
        search.matches@.len() > 0 ==> ({
            let ms = search.matches@;
            let cur = old(app).workspace.selected_page;
            let k = final(app).search->0.current_match as int;
            &&& final(app).search is Some
            &&& 0 <= k < ms.len()
            &&& final(app).workspace.selected_page == ms[k].0
            &&& (exists|j: int| 0 <= j < ms.len() && ms[j].0 >= cur) ==> ms[k].0 >= cur && forall|j: int|
                0 <= j < k ==> ms[j].0 < cur
            &&& (forall|j: int| 0 <= j < ms.len() ==> ms[j].0 < cur) ==> k == 0
            &&& (forall|a: int, b: int| 0 <= a < b < ms.len() ==> ms[a].0 <= ms[b].0) && (exists|j: int|
                0 <= j < ms.len() && ms[j].0 == cur) ==> final(app).workspace.selected_page == cur
        }),
{
    let mut search = search;
    if search.matches.len() == 0 {
        let mut m = String::from_str("No matches for '");
        push_str(&mut m, search.query.as_str());
        push_str(&mut m, "'");
        app.status_message = Some(m);
        app.search = Some(search);
        return;
    }
    let cur = app.workspace.selected_page;
    let mut i: usize = 0;
    while i < search.matches.len() && search.matches[i].0 < cur
        invariant
            i <= search.matches@.len(),
            first_match_from(search.matches@, cur, 0) == first_match_from(search.matches@, cur, i as int),
        decreases search.matches@.len() - i,
    {
        i = i + 1;
    }
    let k = if i < search.matches.len() { i } else { 0 };
    proof {
        law_search_starts_from_cursor(search.matches@, cur);
    }
    let page = search.matches[k].0;
    let total = search.matches.len();
    let mut m = String::from_str("Match ");
    push_str(&mut m, decimal_string(k + 1).as_str());
    push_str(&mut m, "/");
    push_str(&mut m, decimal_string(total).as_str());
    push_str(&mut m, " for '");
    push_str(&mut m, search.query.as_str());
    push_str(&mut m, "'");
    search.current_match = k;
    app.workspace.selected_page = page;
    app.scroll_to_match = true;
    app.status_message = Some(m);
    app.search = Some(search);
}

/// Whether the pending scroll command can be applied without overflowing the offset.
pub open spec fn scroll_fits(scroll: TextScroll, view: PageViewState) -> bool {
    match scroll {
        TextScroll::Bottom => view.text_scroll + 32767 <= u16::MAX,
        TextScroll::Lines(n) => n != i16::MIN && (n > 0 ==> view.text_scroll + n <= u16::MAX),
        _ => true,
    }
}

/// The view after a scroll command, with `visible` rows on screen.
pub open spec fn scrolled_view(scroll: TextScroll, view: PageViewState, visible: u16) -> PageViewState {
    match scroll {
        TextScroll::NoScroll => view,
        TextScroll::Bottom => scroll_down_spec(view, 32767, visible),
        TextScroll::Top => PageViewState { text_scroll: 0, ..view },
        TextScroll::Lines(n) => if n > 0 {
            scroll_down_spec(view, n as u16, visible)
        } else {
            scroll_up_spec(view, (-n) as u16)
        },
    }
}

/// Apply the text scroll command that a key or the mouse left pending.
pub fn apply_text_scroll(app: &mut App, view: &mut PageViewState, term_h: u16)
    requires
        scroll_fits(old(app).text_scroll, *old(view)),
    ensures
        *final(view) == scrolled_view(old(app).text_scroll, *old(view), sat_sub(term_h, 12)),
        *final(app) == (App { text_scroll: TextScroll::NoScroll, ..*old(app) }),
{
    let scroll = app.text_scroll;
    if scroll == TextScroll::NoScroll {
        return;
    }
    app.text_scroll = TextScroll::NoScroll;
    let visible = text_visible_rows(term_h);
    match scroll {
        TextScroll::Bottom => view.scroll_down(32767, visible),
        TextScroll::Top => {
            view.text_scroll = 0;
        },
        TextScroll::Lines(n) => {
            if n > 0 {
                view.scroll_down(n as u16, visible);
            } else {
                view.scroll_up((-n) as u16);
            }
        },
        TextScroll::NoScroll => {},
    }
}

/// Text view offset that brings a match at `frac` (millionths of the page) of a text of
/// `total` lines to the middle of `visible` rows.
pub open spec fn match_scroll(frac: u32, total: u16, visible: u16) -> u16 {
    let t = frac * total / 1000000;
    let target: u16 = if t > u16::MAX { u16::MAX } else { t as u16 };
    let s = sat_sub(target, visible / 2);
    let m = sat_sub(total, visible);
    if s <= m { s } else { m }
}

/// After a jump to a search match in the text view, scroll it to the match's first
/// position on the page; the request to do so is consumed either way.
pub fn scroll_to_match(app: &mut App, view: &mut PageViewState, term_h: u16)
    ensures
        *final(app) == (App { scroll_to_match: false, ..*old(app) }),
        *final(view) == (if old(app).scroll_to_match && old(app).view_mode == ViewMode::Text {
            match (old(app).search, old(view).text_lines) {
                (Some(s), Some(t)) => if s.current_page_match_positions@.len() > 0 {
                    PageViewState {
                        text_scroll: match_scroll(
                            s.current_page_match_positions@[0],
                            (t.1@.len() % 65536) as u16,
                            sat_sub(term_h, 12),
                        ),
                        ..*old(view)
                    }
                } else {
                    *old(view)
                },
                _ => *old(view),
            }
        } else {
            *old(view)
        }),
{
    if app.scroll_to_match && app.view_mode == ViewMode::Text {
        let mut target: Option<u16> = None;
        match (&app.search, &view.text_lines) {
            (Some(s), Some(t)) => {
                if s.current_page_match_positions.len() > 0 {
                    let frac = s.current_page_match_positions[0];
                    let total: u16 = (t.1.len() % 65536) as u16;
                    let visible = text_visible_rows(term_h);
                    assert((frac as u64) * (total as u64) <= 4294967295 * 65535) by (nonlinear_arith)
                        requires
                            frac <= 4294967295,
                            total <= 65535,
                    ;
                    let tt: u64 = (frac as u64) * (total as u64) / 1000000;
                    let tgt: u16 = if tt > 65535 { 65535 } else { tt as u16 };
                    let sc = tgt.saturating_sub(visible / 2);
                    let m = total.saturating_sub(visible);
                    target = Some(if sc <= m { sc } else { m });
                }
            },
            _ => {},
        }
        match target {
            Some(v) => {
                view.text_scroll = v;
            },
            None => {},
        }
    }
    app.scroll_to_match = false;
}

// ---------------------------------------------------------------------------
// The status bar
// ---------------------------------------------------------------------------

/// The texts of the status bar, left to right, and the blanks that fill the rest of the
/// row. Separators of one cell go between the file name, the page and the view mode.
pub struct StatusLine {
    pub filename: String,
    pub page_info: String,
    pub mode: String,
    pub deleted: String,
    pub search: String,
    pub status: String,
    pub padding: usize,
}

/// Number of pages marked for deletion.
pub open spec fn marked_count(pages: Seq<crate::model::page_ref::PageSlot>) -> nat
    decreases pages.len(),
{
    if pages.len() == 0 {
        0
    } else {
        marked_count(pages.drop_last()) + if pages.last().marked_for_delete { 1nat } else { 0nat }
    }
}

/// Match count of the first search result on page `cur`, from position `i` on; 0 when none.
pub open spec fn matches_on_page(ms: Seq<(usize, usize)>, cur: usize, i: int) -> nat
    decreases ms.len() - i,
{
    if i < 0 || i >= ms.len() {
        0
    } else if ms[i].0 == cur {
        ms[i].1 as nat
    } else {
        matches_on_page(ms, cur, i + 1)
    }
}

/// The page part: ` page N/M `, or ` no pages `.
pub open spec fn page_info_spec(count: nat, cur: nat) -> Seq<char> {
    if count > 0 {
        " page "@ + decimal(cur + 1) + "/"@ + decimal(count) + " "@
    } else {
        " no pages "@
    }
}

/// The search part: the query with the current match and the matches on this page, or
/// a note that nothing matched.
pub open spec fn search_info_spec(search: Option<SearchState>, cur: usize) -> Seq<char> {
    match search {
        Some(s) => if s.matches@.len() > 0 {
            let pm = matches_on_page(s.matches@, cur, 0);
            let head = " /"@ + s.query@ + " ["@ + decimal((s.current_match + 1) as nat) + "/"@ + decimal(s.matches@.len());
            if pm > 0 {
                head + ", "@ + decimal(pm) + " on page]"@
            } else {
                head + "]"@
            }
        } else if s.query@.len() > 0 {
            " /"@ + s.query@ + " [no matches]"@
        } else {
            Seq::empty()
        },
        None => Seq::empty(),
    }
}

/// Length in bytes of the UTF-8 form of a text (`str::len`).
pub open spec fn byte_count(s: Seq<char>) -> int {
    (utf8_len(s) as usize) as int
}

/// The status bar texts of an app on a row of `width` cells.
pub open spec fn status_line_spec(app: App, width: u16, l: StatusLine) -> bool {
    let cur = app.workspace.selected_page;
    let count = app.workspace@.pages.len();
    let marked = marked_count(app.workspace@.pages);
    &&& l.filename@ == " "@ + (if app.workspace.documents@.len() > 0 {
        app.workspace.documents@[0].label_view()
    } else {
        "pdft"@
    }) + " "@
    &&& l.page_info@ == page_info_spec(count, cur as nat)
    &&& l.mode@ == (if app.view_mode == ViewMode::Image { " [image] "@ } else { " [text] "@ })
    &&& l.deleted@ == (if marked > 0 { " "@ + decimal(marked) + " marked for delete "@ } else { Seq::empty() })
    &&& l.search@ == search_info_spec(app.search, cur)
    &&& l.status@ == (match app.status_message {
        Some(m) => " "@ + m@,
        None => Seq::empty(),
    })
    &&& {
        let used = byte_count(l.filename@) + 1 + byte_count(l.page_info@) + 1 + byte_count(l.mode@)
            + byte_count(l.deleted@) + byte_count(l.search@) + byte_count(l.status@);
        l.padding == (if width > used { width - used } else { 0 })
    }
}

/// `a + b`, or `usize::MAX` when that does not fit.
fn add_sat(a: usize, b: usize) -> (r: usize)
    ensures
        r == (if a + b > usize::MAX { usize::MAX as int } else { a + b }),
{
    if a <= usize::MAX - b {
        a + b
    } else {
        usize::MAX
    }
}

/// Byte length of a string.
fn byte_len(s: &String) -> (n: usize)
    ensures
        n == byte_count(s@),
{
    proof {
        lemma_utf8_len_is_encoding_len(s@);
    }
    s.as_str().len()
}

/// Lay out the status bar of `app` on a row of `width` cells.
pub fn status_line(app: &App, width: u16) -> (l: StatusLine)
    requires
        app.workspace.selected_page < usize::MAX,
        app.search matches Some(s) ==> s.current_match < usize::MAX,
    ensures
        status_line_spec(*app, width, l),
{
    let cur = app.workspace.selected_page;
    let count = app.workspace.pages.len();
    let page_info = if count > 0 {
        let mut p = String::from_str(" page ");
        push_str(&mut p, decimal_string(cur + 1).as_str());
        push_str(&mut p, "/");
        push_str(&mut p, decimal_string(count).as_str());
        push_str(&mut p, " ");
        p
    } else {
        String::from_str(" no pages ")
    };
    let mode = if app.view_mode == ViewMode::Image { String::from_str(" [image] ") } else { String::from_str(" [text] ") };
    let mut filename = String::from_str(" ");
    if app.workspace.documents.len() > 0 {
        push_str(&mut filename, app.workspace.documents[0].label_string().as_str());
    } else {
        push_str(&mut filename, "pdft");
    }
    push_str(&mut filename, " ");
    let mut marked: usize = 0;
    let mut i: usize = 0;
    while i < app.workspace.pages.len()
        invariant
            i <= app.workspace@.pages.len(),
            marked <= i,
            marked == marked_count(app.workspace@.pages.take(i as int)),
        decreases app.workspace@.pages.len() - i,
    {
        proof {
            assert(app.workspace@.pages.take(i + 1).drop_last() =~= app.workspace@.pages.take(i as int));
        }
        if app.workspace.pages[i].marked_for_delete {
            marked = marked + 1;
        }
        i = i + 1;
    }
    assert(app.workspace@.pages.take(app.workspace@.pages.len() as int) =~= app.workspace@.pages);
    let deleted = if marked > 0 {
        let mut d = String::from_str(" ");
        push_str(&mut d, decimal_string(marked).as_str());
        push_str(&mut d, " marked for delete ");
        d
    } else {
        String::new()
    };
    let search = search_info(app);
    let status = match &app.status_message {
        Some(m) => {
            let mut t = String::from_str(" ");
            push_str(&mut t, m.as_str());
            t
        },
        None => String::new(),
    };
    let ghost full_width = byte_count(filename@) + 1 + byte_count(page_info@) + 1 + byte_count(mode@)
        + byte_count(deleted@) + byte_count(search@) + byte_count(status@);
    let used = total_width(&filename, &page_info, &mode, &deleted, &search, &status);
    let padding = if (width as usize) > used { width as usize - used } else { 0 };
    assert(padding == (if width > full_width { width - full_width } else { 0 }));
    StatusLine { filename, page_info, mode, deleted, search, status, padding }
}

/// Cells that the texts of the status bar take (counting their bytes, as the row is
/// padded by), with the two separators; `usize::MAX` when that does not fit.
fn total_width(a: &String, b: &String, c: &String, d: &String, e: &String, f: &String) -> (n: usize)
    ensures
        n as int == {
            let sum = byte_count(a@) + 1 + byte_count(b@) + 1 + byte_count(c@) + byte_count(d@) + byte_count(e@)
                + byte_count(f@);
            if sum > usize::MAX { usize::MAX as int } else { sum }
        },
{
    let mut used = byte_len(a);
    used = add_sat(used, 1);
    used = add_sat(used, byte_len(b));
    used = add_sat(used, 1);
    used = add_sat(used, byte_len(c));
    used = add_sat(used, byte_len(d));
    used = add_sat(used, byte_len(e));
    used = add_sat(used, byte_len(f));
    used
}

/// The search part of the status bar.
fn search_info(app: &App) -> (t: String)
    requires
        app.search matches Some(s) ==> s.current_match < usize::MAX,
    ensures
        t@ == search_info_spec(app.search, app.workspace.selected_page),
{
    let cur = app.workspace.selected_page;
    match &app.search {
        Some(s) => {
            if s.matches.len() > 0 {
                let mut i: usize = 0;
                while i < s.matches.len() && s.matches[i].0 != cur
                    invariant
                        i <= s.matches@.len(),
                        matches_on_page(s.matches@, cur, 0) == matches_on_page(s.matches@, cur, i as int),
                    decreases s.matches@.len() - i,
                {
                    i = i + 1;
                }
                let pm: usize = if i < s.matches.len() { s.matches[i].1 } else { 0 };
                assert(pm == matches_on_page(s.matches@, cur, 0));
                let mut t = String::from_str(" /");
                push_str(&mut t, s.query.as_str());
                push_str(&mut t, " [");
                push_str(&mut t, decimal_string(s.current_match + 1).as_str());
                push_str(&mut t, "/");
                push_str(&mut t, decimal_string(s.matches.len()).as_str());
                if pm > 0 {
                    push_str(&mut t, ", ");
                    push_str(&mut t, decimal_string(pm).as_str());
                    push_str(&mut t, " on page]");
                } else {
                    push_str(&mut t, "]");
                }
                t
            } else if s.query.as_str().unicode_len() > 0 {
                let mut t = String::from_str(" /");
                push_str(&mut t, s.query.as_str());
                push_str(&mut t, " [no matches]");
                t
            } else {
                String::new()
            }
        },
        None => String::new(),
    }
}

/// What the main loop remembers of the state before a key press, to tell what changed.
#[derive(Debug, Clone, Copy, PartialEq, Eq, Structural)]
pub struct Snapshot {
    pub page: usize,
    pub page_count: usize,
    pub doc_count: usize,
    pub history_len: usize,
    pub layout: LayoutMode,
    pub view_mode: ViewMode,
    pub help: bool,
    pub dialog_active: bool,
}

/// Take a snapshot of the app and the dialog.
pub fn snapshot(app: &App, dialog_active: bool) -> (s: Snapshot)
    ensures
        s == (Snapshot {
            page: app.workspace.selected_page,
            page_count: app.workspace@.pages.len() as usize,
            doc_count: app.workspace.documents@.len() as usize,
            history_len: app.workspace@.history.len() as usize,
            layout: app.layout_mode,
            view_mode: app.view_mode,
            help: app.show_help,
            dialog_active,
        }),
{
    Snapshot {
        page: app.workspace.selected_page,
        page_count: app.workspace.pages.len(),
        doc_count: app.workspace.documents.len(),
        history_len: app.workspace.history.len(),
        layout: app.layout_mode,
        view_mode: app.view_mode,
        help: app.show_help,
        dialog_active,
    }
}

/// What the main loop redoes after a key press.
#[derive(Debug, Clone, Copy, PartialEq, Eq, Structural)]
pub struct Refresh {
    /// Documents from this index on were added and need loading for rendering.
    pub load_documents_from: Option<usize>,
    /// The layout changed or an overlay went away: clear the screen and the page image.
    pub clear_screen: bool,
    /// Thumbnails and cached images no longer match the pages.
    pub clear_images: bool,
    /// The page view, text and thumbnails need rendering again.
    pub rerender: bool,
    /// The current page changed: the text view goes back to its top.
    pub reset_scroll: bool,
}

/// What changed between two snapshots, as the main loop acts on it.
pub open spec fn refresh_spec(b: Snapshot, a: Snapshot) -> Refresh {
    let layout_changed = a.layout != b.layout;
    let overlay_dismissed = (b.help && !a.help) || (b.dialog_active && !a.dialog_active);
    let count_changed = a.page_count != b.page_count;
    let docs_added = a.doc_count > b.doc_count;
    Refresh {
        load_documents_from: if docs_added { Some(b.doc_count) } else { None },
        clear_screen: layout_changed || overlay_dismissed,
        clear_images: count_changed || docs_added,
        rerender: a.page != b.page || docs_added || layout_changed || overlay_dismissed || count_changed
            || a.history_len != b.history_len || a.view_mode != b.view_mode,
        reset_scroll: a.page != b.page,
    }
}

/// Decide what to redo after a key press, from the state before and after it.
pub fn refresh_after_key(before: Snapshot, after: Snapshot) -> (r: Refresh)
    ensures
        r == refresh_spec(before, after),
{
    let layout_changed = after.layout != before.layout;
    let overlay_dismissed = (before.help && !after.help) || (before.dialog_active && !after.dialog_active);
    let count_changed = after.page_count != before.page_count;
    let docs_added = after.doc_count > before.doc_count;
    Refresh {
        load_documents_from: if docs_added { Some(before.doc_count) } else { None },
        clear_screen: layout_changed || overlay_dismissed,
        clear_images: count_changed || docs_added,
        rerender: after.page != before.page || docs_added || layout_changed || overlay_dismissed || count_changed
            || after.history_len != before.history_len || after.view_mode != before.view_mode,
        reset_scroll: after.page != before.page,
    }
}

/// The pages with matches and their numbers of matches, in page order.
pub open spec fn nonzero_counts(counts: Seq<usize>) -> Seq<(usize, usize)>
    decreases counts.len(),
{
    if counts.len() == 0 {
        Seq::empty()
    } else {
        let r = nonzero_counts(counts.drop_last());
        if counts.last() > 0 {
            r.push(((counts.len() - 1) as usize, counts.last()))
        } else {
            r
        }
    }
}

/// The matches of a search over all pages, from the number of matches on each page:
/// `(page, count)` for each page that has any.
pub fn search_matches(counts: &[usize]) -> (m: Vec<(usize, usize)>)
    ensures
        m@ == nonzero_counts(counts@),
{
    let mut m: Vec<(usize, usize)> = Vec::new();
    let mut i: usize = 0;
    while i < counts.len()
        invariant
            i <= counts@.len(),
            m@ == nonzero_counts(counts@.take(i as int)),
        decreases counts@.len() - i,
    {
        proof {
            assert(counts@.take(i + 1).drop_last() =~= counts@.take(i as int));
        }
        if counts[i] > 0 {
            m.push((i, counts[i]));
        }
        i = i + 1;
    }
    assert(counts@.take(counts@.len() as int) =~= counts@);
    m
}

/// An input event read while a key press waits to be handled.
#[derive(Debug, Clone, Copy)]
pub enum QueuedInput {
    Key(KeyEvent),
    Resize,
    Other,
}

/// What a burst of input leaves to handle: one key press, and whether the terminal was
/// resized.
#[derive(Debug, Clone, Copy)]
pub struct PendingInput {
    pub key: KeyEvent,
    pub resized: bool,
}

/// The key press of a burst that gets handled: the last one read.
pub open spec fn last_key(first: KeyEvent, queued: Seq<QueuedInput>) -> KeyEvent
    decreases queued.len(),
{
    if queued.len() == 0 {
        first
    } else {
        match queued.last() {
            QueuedInput::Key(k) => k,
            _ => last_key(first, queued.drop_last()),
        }
    }
}

/// Whether any of the queued events is a resize.
pub open spec fn any_resize(queued: Seq<QueuedInput>) -> bool {
    exists|i: int| 0 <= i < queued.len() && queued[i] is Resize
}

/// Fold the events read after a key press into what is left to handle: of the key presses
/// only the last is handled (so a held key does not queue up work), and a resize among them
/// is remembered.
pub fn coalesce_input(first: KeyEvent, queued: &Vec<QueuedInput>) -> (p: PendingInput)
    ensures
        p.key == last_key(first, queued@),
        p.resized == any_resize(queued@),
{
    let mut p = PendingInput { key: first, resized: false };
    let mut i: usize = 0;
    while i < queued.len()
        invariant
            i <= queued@.len(),
            p.key == last_key(first, queued@.take(i as int)),
            p.resized == any_resize(queued@.take(i as int)),
        decreases queued@.len() - i,
    {
        proof {
            assert(queued@.take(i + 1).drop_last() =~= queued@.take(i as int));
        }
        match queued[i] {
            QueuedInput::Key(k) => {
                p.key = k;
            },
            QueuedInput::Resize => {
                p.resized = true;
                assert(queued@.take(i + 1)[i as int] is Resize);
            },
            QueuedInput::Other => {},
        }
        proof {
            let t = queued@.take(i + 1);
            if !(queued@[i as int] is Resize) {
                if any_resize(t) {
                    let j = choose|j: int| 0 <= j < t.len() && t[j] is Resize;
                    assert(queued@.take(i as int)[j] is Resize);
                }
            }
            if any_resize(queued@.take(i as int)) {
                let j = choose|j: int| 0 <= j < i && queued@.take(i as int)[j] is Resize;
                assert(t[j] is Resize);
            }
        }
        i = i + 1;
    }
    assert(queued@.take(queued@.len() as int) =~= queued@);
    p
}

} // verus!


