//! Keyboard handling of the interactive viewer.
//!
//! A key press changes the application state and the input dialog. Where an
//! action needs the file system (loading a PDF, checking whether a file
//! exists, writing a PDF), the handler stops there and hands back an [`IoRequest`];
//! the caller does the file work and passes its outcome to the matching
//! continuation (`finish_merge`, `continue_save_input`, `save_failed`,
//! `App::finish_save`, `finish_group_save`).
use vstd::prelude::*;
use crate::app::{
    first_label_index, group_saves_for, group_saves_view, next_layout, next_page_spec, other_view,
    prev_page_spec, selected_range_spec, App, Mode, SearchState, TextScroll, ViewMode,
};
use crate::model::document::{pdf_page_ids, PdfDocument};
use crate::model::page_ref::{OutputTargetId, PageSlot};
use crate::model::workspace::{
    assign_output_spec, in_range_indices, lists_index, open_document_spec, restore_targets_prefix,
    toggle_delete_batch_spec, toggle_parity, undo_spec, OperationView, OutputTargetView, Workspace, WorkspaceView,
};
use crate::ops::save::is_grouping;
use crate::text::{
    decimal, decimal_string, lowercase, parse_usize, parse_usize_spec, push_char, push_str,
    str_lowercase, trim_seq, trim_string, chars_of,
};
use crate::tui::dialog::{backspace_spec, insert_char_spec, utf8_len, InputDialog};

verus! {

/// A key of the keyboard, as far as the viewer tells keys apart.
#[derive(Debug, Clone, Copy, PartialEq, Eq, Structural)]
pub enum KeyCode {
    Char(char),
    Esc,
    Enter,
    Backspace,
    Up,
    Down,
    Left,
    Right,
    Home,
    End,
    PageUp,
    PageDown,
    /// Any other key.
    Other,
}

/// A key press: the key and whether Control was held.
#[derive(Debug, Clone, Copy, PartialEq, Eq, Structural)]
pub struct KeyEvent {
    pub code: KeyCode,
    pub ctrl: bool,
}

/// File work that a key press asks the caller to do.
pub enum IoRequest {
    /// Load the PDF at this path and add it (`finish_merge`).
    Merge(String),
    /// Tell whether a file exists at this path (`continue_save_input`).
    CheckSavePath(String),
    /// Save the workspace to this path (`App::save_copy`, then `App::finish_save` or `save_failed`).
    Save(String),
    /// Save these 1-indexed pages to this path (`finish_group_save`).
    SaveGroup(Vec<u32>, String),
}

/// Mathematical form of a request.
pub enum IoRequestView {
    Merge(Seq<char>),
    CheckSavePath(Seq<char>),
    Save(Seq<char>),
    SaveGroup(Seq<u32>, Seq<char>),
}

impl View for IoRequest {
    type V = IoRequestView;

    open spec fn view(&self) -> IoRequestView {
        match self {
            IoRequest::Merge(p) => IoRequestView::Merge(p@),
            IoRequest::CheckSavePath(p) => IoRequestView::CheckSavePath(p@),
            IoRequest::Save(p) => IoRequestView::Save(p@),
            IoRequest::SaveGroup(pages, p) => IoRequestView::SaveGroup(pages@, p@),
        }
    }
}

/// A request, by its view.
pub open spec fn request_view(r: Option<IoRequest>) -> Option<IoRequestView> {
    match r {
        Some(q) => Some(q@),
        None => None,
    }
}

/// What `handle_key` reports: whether the key was used, and the file work it asks for.
pub struct Handled {
    pub consumed: bool,
    pub request: Option<IoRequest>,
}

// ---------------------------------------------------------------------------
// Messages and small predicates
// ---------------------------------------------------------------------------

/// The status line shows exactly `m`.
pub open spec fn shows(a: App, m: Seq<char>) -> bool {
    a.status_message matches Some(s) && s@ == m
}

/// Only the status line changed, and it shows `m`.
pub open spec fn only_status(a0: App, a1: App, m: Seq<char>) -> bool {
    shows(a1, m) && a1 == (App { status_message: a1.status_message, ..a0 })
}

/// `d1` is `d0` closed and emptied, as `take_input` leaves it.
pub open spec fn taken(d0: InputDialog, d1: InputDialog) -> bool {
    &&& !d1.active
    &&& d1.input@ == Seq::<char>::empty()
    &&& d1.cursor == d0.cursor
    &&& d1.title == d0.title
    &&& d1.prompt == d0.prompt
}

/// `d1` is open with this title and prompt, holding `prefill` with the cursor at its end.
pub open spec fn opened(d1: InputDialog, title: Seq<char>, prompt: Seq<char>, prefill: Seq<char>) -> bool {
    &&& d1.active
    &&& d1.title@ == title
    &&& d1.prompt@ == prompt
    &&& d1.input@ == prefill
    &&& d1.cursor == utf8_len(prefill) as usize
}

/// The key quits from anywhere: Control and `c`.
pub open spec fn is_quit_chord(key: KeyEvent) -> bool {
    key.ctrl && key.code == KeyCode::Char('c')
}

/// A group letter: an ASCII lower-case letter.
pub open spec fn is_group_letter(c: char) -> bool {
    'a' <= c <= 'z'
}

/// The indices `s, s + 1, ..., e`.
pub open spec fn inclusive_range(s: usize, e: usize) -> Seq<usize> {
    Seq::new((e - s + 1) as nat, |i: int| (s + i) as usize)
}

/// The pages of the current selection, in order.
pub open spec fn selection(a: App) -> Seq<usize> {
    let r = selected_range_spec(a.visual_anchor, a.workspace.selected_page);
    inclusive_range(r.0, r.1)
}

/// Whether some page is assigned to an output group.
pub open spec fn has_group(pages: Seq<PageSlot>) -> bool {
    exists|i: int| 0 <= i < pages.len() && (#[trigger] pages[i]).output_target is Some
}

/// Whether every listed page is in group `id`.
pub open spec fn all_in_group(pages: Seq<PageSlot>, idx: Seq<usize>, id: OutputTargetId) -> bool {
    forall|k: int| 0 <= k < idx.len() ==> pages[#[trigger] idx[k] as int].output_target == Some(id)
}

/// The id of the group named by letter `c`: the first target labelled `c`, or a new one.
pub open spec fn group_id(w: WorkspaceView, c: char) -> OutputTargetId {
    match first_label_index(w.output_targets, seq![c]) {
        Some(i) => i as usize,
        None => w.output_targets.len() as usize,
    }
}

/// The workspace once the group named by `c` exists.
pub open spec fn with_group(w: WorkspaceView, c: char) -> WorkspaceView {
    match first_label_index(w.output_targets, seq![c]) {
        Some(_) => w,
        None => WorkspaceView {
            output_targets: w.output_targets.push(OutputTargetView { path: Seq::empty(), label: seq![c] }),
            ..w
        },
    }
}

/// Toggle off, one page at a time and in order, the delete mark of each listed page
/// that carries one.
pub open spec fn unmark_each(w: WorkspaceView, idx: Seq<usize>) -> WorkspaceView
    decreases idx.len(),
{
    if idx.len() == 0 {
        w
    } else {
        let w1 = unmark_each(w, idx.drop_last());
        let i = idx.last();
        if w1.pages[i as int].marked_for_delete {
            toggle_delete_batch_spec(w1, seq![i])
        } else {
            w1
        }
    }
}

/// Status text after clearing group `c` from `n` pages.
pub open spec fn cleared_message(c: char, n: nat) -> Seq<char> {
    "Cleared group '"@.push(c) + "' from "@ + decimal(n) + " page(s)"@
}

/// Status text after assigning `n` pages to group `c`.
pub open spec fn assigned_message(c: char, n: nat) -> Seq<char> {
    ("Assigned "@ + decimal(n) + " page(s) to group '"@).push(c).push('\'')
}

/// Status text for a page number outside `1..=count`.
pub open spec fn out_of_range_message(n: nat, count: nat) -> Seq<char> {
    "Page "@ + decimal(n) + " out of range (1-"@ + decimal(count) + ")"@
}

/// Status text when moving to match `pos` of `total`.
pub open spec fn match_message(pos: nat, total: nat) -> Seq<char> {
    "Match "@ + decimal(pos) + "/"@ + decimal(total)
}

/// Status text after merging the file at `path`.
pub open spec fn merged_message(path: Seq<char>, count: nat) -> Seq<char> {
    "Merged "@ + path + " ("@ + decimal(count) + " total pages)"@
}

/// Status text after a failed merge.
pub open spec fn merge_error_message(e: Seq<char>) -> Seq<char> {
    "Merge error: "@ + e
}

/// Status text after a failed save.
pub open spec fn save_error_message(e: Seq<char>) -> Seq<char> {
    "Save error: "@ + e
}

/// Status text after saving a group.
pub open spec fn group_saved_message(label: Seq<char>, n: nat, path: Seq<char>) -> Seq<char> {
    "Saved "@ + label + " ("@ + decimal(n) + " pages) → "@ + path
}

/// Prompt for saving a group.
pub open spec fn group_prompt(label: Seq<char>, n: nat) -> Seq<char> {
    "Save "@ + label + " ("@ + decimal(n) + " pages):"@
}

/// Whether the answer to the overwrite question is yes: `y` or `yes` in any case.
pub open spec fn confirms(answer: Seq<char>) -> bool {
    str_lowercase(answer) == "y"@ || str_lowercase(answer) == "yes"@
}

/// Every delete mark cleared.
pub open spec fn unmarked_all(pages: Seq<PageSlot>) -> Seq<PageSlot> {
    pages.map_values(|p: PageSlot| PageSlot { marked_for_delete: false, ..p })
}

// ---------------------------------------------------------------------------
// Effects, one per branch of the key handler
// ---------------------------------------------------------------------------

/// `a1, d1` after asking for the first pending group save: the save dialog opens with
/// the group's label, page count and suggested path. Nothing happens without one.
pub open spec fn prompted_next_group(a0: App, d0: InputDialog, a1: App, d1: InputDialog) -> bool {
    if a0.pending_group_saves@.len() > 0 {
        let g = a0.pending_group_saves@[0];
        &&& a1 == (App { mode: Mode::SaveGroupInput, ..a0 })
        &&& opened(d1, "Save"@, group_prompt(g.0@, g.1@.len()), g.2@)
    } else {
        a1 == a0 && d1 == d0
    }
}

/// Effect of submitting `input` to the dialog in the app's current mode.
/// `d0` is the dialog before its input was taken.
pub open spec fn submit_post(
    a0: App,
    d0: InputDialog,
    input: Seq<char>,
    a1: App,
    d1: InputDialog,
    req: Option<IoRequestView>,
) -> bool {
    let t = trim_seq(input);
    match a0.mode {
        Mode::MergeInput => {
            &&& taken(d0, d1)
            &&& req == Some(IoRequestView::Merge(t))
            &&& a1 == (App { mode: Mode::Normal, ..a0 })
        },
        Mode::SaveInput => {
            &&& taken(d0, d1)
            &&& req == Some(IoRequestView::CheckSavePath(t))
            &&& a1 == a0
        },
        Mode::SaveConfirm => {
            &&& taken(d0, d1)
            &&& if confirms(t) {
                match a0.pending_save_path {
                    Some(p) => req == Some(IoRequestView::Save(p@)) && a1 == (App {
                        pending_save_path: None,
                        mode: Mode::Normal,
                        ..a0
                    }),
                    None => req is None && a1 == (App { mode: Mode::Normal, ..a0 }),
                }
            } else {
                &&& req is None
                &&& a1.pending_group_saves@.len() == 0
                &&& shows(a1, "Save cancelled"@)
                &&& a1 == (App {
                    pending_save_path: None,
                    pending_group_saves: a1.pending_group_saves,
                    status_message: a1.status_message,
                    mode: Mode::Normal,
                    ..a0
                })
            }
        },
        Mode::SaveGroupInput => {
            &&& taken(d0, d1)
            &&& req == Some(IoRequestView::SaveGroup(a0.pending_group_saves@[0].1@, t))
            &&& a1 == a0
        },
        Mode::GotoPage => taken(d0, d1) && req is None && goto_post(a0, t, a1),
        Mode::SearchInput => taken(d0, d1) && req is None && search_submit_post(a0, t, a1),
        Mode::Normal => taken(d0, d1) && req is None && a1 == a0,
    }
}

/// Effect of submitting the page number `t`.
pub open spec fn goto_post(a0: App, t: Seq<char>, a1: App) -> bool {
    let count = a0.workspace@.pages.len();
    match parse_usize_spec(t) {
        Some(n) => if 1 <= n <= count {
            a1 == (App {
                workspace: Workspace { selected_page: (n - 1) as usize, ..a0.workspace },
                mode: Mode::Normal,
                ..a0
            })
        } else {
            shows(a1, out_of_range_message(n as nat, count)) && a1 == (App {
                status_message: a1.status_message,
                mode: Mode::Normal,
                ..a0
            })
        },
        None => if t.len() > 0 {
            shows(a1, "Invalid page number"@) && a1 == (App {
                status_message: a1.status_message,
                mode: Mode::Normal,
                ..a0
            })
        } else {
            a1 == (App { mode: Mode::Normal, ..a0 })
        },
    }
}

/// Effect of submitting the search text `t`: an empty text clears the search, any other
/// starts a new one with no results yet.
pub open spec fn search_submit_post(a0: App, t: Seq<char>, a1: App) -> bool {
    if t.len() == 0 {
        &&& a1.search is None
        &&& shows(a1, "Search cleared"@)
        &&& a1 == (App { search: None, status_message: a1.status_message, mode: Mode::Normal, ..a0 })
    } else {
        &&& a1.search matches Some(s) && s.query@ == t && s.matches@.len() == 0 && s.current_match == 0
            && s.current_page_match_positions@.len() == 0
        &&& a1 == (App { search: a1.search, mode: Mode::Normal, ..a0 })
    }
}

/// Effect of a key while the dialog is open.
pub open spec fn dialog_key_post(
    a0: App,
    d0: InputDialog,
    code: KeyCode,
    a1: App,
    d1: InputDialog,
    req: Option<IoRequestView>,
) -> bool {
    match code {
        KeyCode::Esc => {
            &&& req is None
            &&& a1 == (App { mode: Mode::Normal, ..a0 })
            &&& d1 == (InputDialog { active: false, ..d0 })
        },
        KeyCode::Enter => submit_post(a0, d0, d0.input@, a1, d1, req),
        KeyCode::Backspace => {
            &&& req is None
            &&& a1 == a0
            &&& (d1.input@, d1.cursor as nat) == backspace_spec(d0.input@, d0.cursor as nat)
            &&& d1.active == d0.active && d1.title == d0.title && d1.prompt == d0.prompt
        },
        KeyCode::Char(c) => {
            &&& req is None
            &&& a1 == a0
            &&& (d1.input@, d1.cursor as nat) == insert_char_spec(d0.input@, d0.cursor as nat, c)
            &&& d1.active == d0.active && d1.title == d0.title && d1.prompt == d0.prompt
        },
        _ => req is None && a1 == a0 && d1 == d0,
    }
}

/// Effect of the key after `a`: a group letter assigns the selection to that group, or
/// clears the group when every selected page is already in it; any other key cancels.
pub open spec fn assign_key_post(a0: App, code: KeyCode, a1: App) -> bool {
    match code {
        KeyCode::Char(c) => if is_group_letter(c) {
            assign_letter_post(a0, c, a1)
        } else {
            only_status(App { pending_assign: false, ..a0 }, a1, "Assign cancelled"@)
        },
        _ => only_status(App { pending_assign: false, ..a0 }, a1, "Assign cancelled"@),
    }
}

/// Effect of assigning the selection to group `c`.
pub open spec fn assign_letter_post(a0: App, c: char, a1: App) -> bool {
    let idx = selection(a0);
    let w1 = with_group(a0.workspace@, c);
    let id = group_id(a0.workspace@, c);
    &&& if all_in_group(w1.pages, idx, id) {
        &&& a1.workspace@ == assign_output_spec(w1, idx, None)
        &&& shows(a1, cleared_message(c, idx.len()))
    } else {
        &&& a1.workspace@ == unmark_each(assign_output_spec(w1, idx, Some(id)), idx)
        &&& shows(a1, assigned_message(c, idx.len()))
    }
    &&& a1.workspace.documents == a0.workspace.documents
    &&& a1 == (App {
        workspace: a1.workspace,
        status_message: a1.status_message,
        visual_anchor: None,
        pending_assign: false,
        ..a0
    })
}

/// Effect of `n` (or `N` when `reverse`): move to the next (previous) page with a search
/// match, wrapping around.
pub open spec fn search_next_post(a0: App, reverse: bool, a1: App) -> bool {
    match a0.search {
        Some(s) => if s.matches@.len() > 0 {
            let k = next_match_index(s.matches@, a0.workspace.selected_page, reverse);
            &&& shows(a1, match_message((k + 1) as nat, s.matches@.len()))
            &&& a1 == (App {
                search: Some(SearchState { current_match: k as usize, ..s }),
                workspace: Workspace { selected_page: s.matches@[k].0, ..a0.workspace },
                scroll_to_match: true,
                status_message: a1.status_message,
                ..a0
            })
        } else {
            only_status(a0, a1, "No search results"@)
        },
        None => only_status(a0, a1, "No search results"@),
    }
}

/// Index of the first match at or after `i` on a page after `cur`; -1 when none.
pub open spec fn first_match_after(ms: Seq<(usize, usize)>, cur: usize, i: int) -> int
    decreases ms.len() - i,
{
    if i < 0 || i >= ms.len() {
        -1
    } else if ms[i].0 > cur {
        i
    } else {
        first_match_after(ms, cur, i + 1)
    }
}

/// Index of the last match among the first `n` on a page before `cur`; -1 when none.
pub open spec fn last_match_before(ms: Seq<(usize, usize)>, cur: usize, n: int) -> int
    decreases n,
{
    if n <= 0 {
        -1
    } else if ms[n - 1].0 < cur {
        n - 1
    } else {
        last_match_before(ms, cur, n - 1)
    }
}

/// The match `search_next` moves to: the first on a later page, else the first of all;
/// in reverse the last on an earlier page, else the last of all.
pub open spec fn next_match_index(ms: Seq<(usize, usize)>, cur: usize, reverse: bool) -> int {
    if reverse {
        let k = last_match_before(ms, cur, ms.len() as int);
        if k < 0 {
            ms.len() - 1
        } else {
            k
        }
    } else {
        let k = first_match_after(ms, cur, 0);
        if k < 0 {
            0
        } else {
            k
        }
    }
}

/// Effect of `s`: nothing to save without a document; with page groups, prepare one save
/// per group and prompt for the first; otherwise prompt for one path, prefilled with the
/// first document's path.
pub open spec fn save_key_post(a0: App, d0: InputDialog, a1: App, d1: InputDialog) -> bool {
    if a0.workspace.documents@.len() == 0 {
        d1 == d0 && only_status(a0, a1, "No documents loaded"@)
    } else if has_group(a0.workspace@.pages) {
        let base = a0.workspace.documents@[0].path_view();
        &&& exists|groups: Seq<(Option<OutputTargetId>, Seq<usize>)>|
            is_grouping(a0.workspace@.pages, groups) && group_saves_for(
                a0.workspace@,
                base,
                groups,
                group_saves_view(a1.pending_group_saves@),
            )
        &&& prompted_next_group(
            App { pending_group_saves: a1.pending_group_saves, ..a0 },
            d0,
            a1,
            d1,
        )
    } else {
        &&& a1 == (App { mode: Mode::SaveInput, ..a0 })
        &&& opened(d1, "Save"@, "Save to:"@, a0.workspace.documents@[0].path_view())
    }
}

/// The page selection after `G` or End: the last page.
pub open spec fn last_page(count: nat) -> usize {
    if count == 0 {
        0
    } else {
        (count - 1) as usize
    }
}

/// `a0` with the cursor on page `p`.
pub open spec fn at_page(a0: App, p: usize) -> App {
    App { workspace: Workspace { selected_page: p, ..a0.workspace }, ..a0 }
}

/// `a0` with the text view scrolled by `n` lines when the text view is shown.
pub open spec fn scrolled(a0: App, n: i16) -> App {
    if a0.view_mode == ViewMode::Text {
        App { text_scroll: TextScroll::Lines(n), ..a0 }
    } else {
        a0
    }
}

/// Whether a key is used in normal mode.
pub open spec fn normal_consumes(code: KeyCode) -> bool {
    match code {
        KeyCode::Char(c) => c == 'q' || c == 'j' || c == 'k' || c == 'h' || c == 'l' || c == 'd'
            || c == 'x' || c == 'a' || c == 'v' || c == 's' || c == 'm' || c == ':' || c == '/'
            || c == 'n' || c == 'N' || c == 'u' || c == 't' || c == 'w' || c == '?' || c == 'G'
            || c == 'g',
        KeyCode::Enter | KeyCode::Backspace | KeyCode::Other => false,
        _ => true,
    }
}

/// Effect of a key in normal mode.
pub open spec fn normal_key_post(a0: App, d0: InputDialog, code: KeyCode, a1: App, d1: InputDialog) -> bool {
    let w0 = a0.workspace@;
    if code == KeyCode::Char('s') {
        save_key_post(a0, d0, a1, d1)
    } else if code == KeyCode::Char('m') {
        a1 == (App { mode: Mode::MergeInput, ..a0 }) && opened(d1, "Merge PDF"@, "Enter file path:"@, Seq::empty())
    } else if code == KeyCode::Char(':') {
        a1 == (App { mode: Mode::GotoPage, ..a0 }) && opened(d1, "Go to"@, "Page:"@, Seq::empty())
    } else if code == KeyCode::Char('/') {
        a1 == (App { mode: Mode::SearchInput, ..a0 }) && opened(d1, "Search"@, "Search text:"@, Seq::empty())
    } else {
        &&& d1 == d0
        &&& if code == KeyCode::Char('q') {
            a1 == (App { should_quit: true, ..a0 })
        } else if code == KeyCode::Esc {
            if a0.visual_anchor is Some {
                a1 == (App { visual_anchor: None, pending_assign: false, ..a0 })
            } else {
                a1 == (App { should_quit: true, ..a0 })
            }
        } else if code == KeyCode::Char('j') || code == KeyCode::Down {
            a1 == at_page(a0, next_page_spec(a0.workspace.selected_page, w0.pages.len()))
        } else if code == KeyCode::Char('k') || code == KeyCode::Up {
            a1 == at_page(a0, prev_page_spec(a0.workspace.selected_page))
        } else if code == KeyCode::Char('h') || code == KeyCode::Left {
            a1 == scrolled(a0, -3i16)
        } else if code == KeyCode::Char('l') || code == KeyCode::Right {
            a1 == scrolled(a0, 3)
        } else if code == KeyCode::PageDown {
            a1 == scrolled(a0, 20)
        } else if code == KeyCode::PageUp {
            a1 == scrolled(a0, -20i16)
        } else if code == KeyCode::Char('d') || code == KeyCode::Char('x') {
            let idx = selection(a0);
            &&& a1.workspace@ == toggle_delete_batch_spec(assign_output_spec(w0, idx, None), idx)
            &&& a1.workspace.documents == a0.workspace.documents
            &&& a1 == (App { workspace: a1.workspace, visual_anchor: None, ..a0 })
        } else if code == KeyCode::Char('a') {
            only_status(App { pending_assign: true, ..a0 }, a1, "Assign to group: a-z"@)
        } else if code == KeyCode::Char('v') {
            if a0.visual_anchor is Some {
                a1 == (App { visual_anchor: None, ..a0 })
            } else {
                a1 == (App { visual_anchor: Some(a0.workspace.selected_page), ..a0 })
            }
        } else if code == KeyCode::Char('n') {
            search_next_post(a0, false, a1)
        } else if code == KeyCode::Char('N') {
            search_next_post(a0, true, a1)
        } else if code == KeyCode::Char('u') {
            let (w1, undone) = undo_spec(w0);
            &&& a1.workspace@ == w1
            &&& a1.workspace.documents == a0.workspace.documents
            &&& if undone {
                a1 == (App { workspace: a1.workspace, ..a0 })
            } else {
                only_status(App { workspace: a1.workspace, ..a0 }, a1, "Nothing to undo"@)
            }
        } else if code == KeyCode::Char('t') {
            a1 == (App { view_mode: other_view(a0.view_mode), ..a0 })
        } else if code == KeyCode::Char('w') {
            a1 == (App { layout_mode: next_layout(a0.layout_mode), ..a0 })
        } else if code == KeyCode::Char('?') {
            a1 == (App { show_help: true, ..a0 })
        } else if code == KeyCode::Char('G') || code == KeyCode::End {
            a1 == at_page(a0, last_page(w0.pages.len()))
        } else if code == KeyCode::Char('g') {
            a1 == (App { pending_g: true, ..a0 })
        } else if code == KeyCode::Home {
            a1 == at_page(a0, 0)
        } else {
            a1 == a0
        }
    }
}

/// Whether the key acts on the selected pages (so they must exist).
pub open spec fn acts_on_selection(a: App, d: InputDialog, key: KeyEvent) -> bool {
    &&& !is_quit_chord(key)
    &&& !d.active
    &&& !a.show_help
    &&& !a.pending_g
    &&& if a.pending_assign {
        key.code matches KeyCode::Char(c) && is_group_letter(c)
    } else {
        key.code == KeyCode::Char('d') || key.code == KeyCode::Char('x')
    }
}

/// Whether the key submits the dialog of a group save.
pub open spec fn submits_group_save(a: App, d: InputDialog, key: KeyEvent) -> bool {
    !is_quit_chord(key) && d.active && key.code == KeyCode::Enter && a.mode == Mode::SaveGroupInput
}

// ---------------------------------------------------------------------------
// The handler
// ---------------------------------------------------------------------------

/// Handle a key press: update the app and the dialog, and report whether the key was
/// used and which file work it asks for.
pub fn handle_key(app: &mut App, key: KeyEvent, dialog: &mut InputDialog) -> (r: Handled)
    requires
        old(dialog).active ==> old(dialog).cursor_ok() && utf8_len(old(dialog).input@) + 4 <= usize::MAX,
        acts_on_selection(*old(app), *old(dialog), key) ==> selected_range_spec(
            old(app).visual_anchor,
            old(app).workspace.selected_page,
        ).1 < old(app).workspace@.pages.len(),
        submits_group_save(*old(app), *old(dialog), key) ==> old(app).pending_group_saves@.len() > 0,
    ensures
        is_quit_chord(key) ==> {
            &&& r.consumed && r.request is None
            &&& *final(app) == (App { should_quit: true, ..*old(app) })
            &&& *final(dialog) == *old(dialog)
        },
        !is_quit_chord(key) && old(dialog).active ==> {
            &&& r.consumed
            &&& dialog_key_post(*old(app), *old(dialog), key.code, *final(app), *final(dialog), request_view(r.request))
        },
        !is_quit_chord(key) && !old(dialog).active && old(app).show_help ==> {
            &&& r.consumed && r.request is None
            &&& *final(app) == (App { show_help: false, ..*old(app) })
            &&& *final(dialog) == *old(dialog)
        },
        !is_quit_chord(key) && !old(dialog).active && !old(app).show_help && old(app).pending_g ==> {
            &&& r.consumed && r.request is None
            &&& *final(app) == (if key.code == KeyCode::Char('g') {
                at_page(App { pending_g: false, ..*old(app) }, 0)
            } else {
                App { pending_g: false, ..*old(app) }
            })
            &&& *final(dialog) == *old(dialog)
        },
        !is_quit_chord(key) && !old(dialog).active && !old(app).show_help && !old(app).pending_g
            && old(app).pending_assign ==> {
            &&& r.consumed && r.request is None
            &&& assign_key_post(*old(app), key.code, *final(app))
            &&& *final(dialog) == *old(dialog)
        },
        !is_quit_chord(key) && !old(dialog).active && !old(app).show_help && !old(app).pending_g
            && !old(app).pending_assign ==> {
            &&& r.consumed == normal_consumes(key.code) && r.request is None
            &&& normal_key_post(*old(app), *old(dialog), key.code, *final(app), *final(dialog))
        },
        marks_exclusive(old(app).workspace@.pages) && (key.code == KeyCode::Char('u') ==> undo_keeps_apart(
            old(app).workspace@,
        )) ==> marks_exclusive(final(app).workspace@.pages),
{
    if key.ctrl && key.code == KeyCode::Char('c') {
        app.should_quit = true;
        return Handled { consumed: true, request: None };
    }
    if dialog.active {
        let request = dialog_key(app, key.code, dialog);
        return Handled { consumed: true, request };
    }
    if app.show_help {
        app.show_help = false;
        return Handled { consumed: true, request: None };
    }
    if app.pending_g {
        app.pending_g = false;
        if key.code == KeyCode::Char('g') {
            app.workspace.selected_page = 0;
        }
        return Handled { consumed: true, request: None };
    }
    if app.pending_assign {
        let ghost a0 = *app;
        assign_key(app, key.code);
        proof {
            if let KeyCode::Char(c) = key.code {
                if is_group_letter(c) && marks_exclusive(a0.workspace@.pages) {
                    lemma_selection_bounded(a0);
                    lemma_assign_keeps_exclusive(a0, c, *app);
                }
            }
        }
        return Handled { consumed: true, request: None };
    }
    let ghost a0 = *app;
    let consumed = normal_key(app, key.code, dialog);
    proof {
        if (key.code == KeyCode::Char('d') || key.code == KeyCode::Char('x')) && marks_exclusive(a0.workspace@.pages) {
            lemma_delete_keeps_exclusive(a0.workspace@, selection(a0));
        }
        if key.code == KeyCode::Char('u') && marks_exclusive(a0.workspace@.pages) && undo_keeps_apart(a0.workspace@) {
            law_undo_keeps_marks_apart(a0.workspace@);
        }
    }
    Handled { consumed, request: None }
}

/// A key while the dialog is open.
fn dialog_key(app: &mut App, code: KeyCode, dialog: &mut InputDialog) -> (req: Option<IoRequest>)
    requires
        old(dialog).active,
        old(dialog).cursor_ok(),
        utf8_len(old(dialog).input@) + 4 <= usize::MAX,
        code == KeyCode::Enter && old(app).mode == Mode::SaveGroupInput ==> old(app).pending_group_saves@.len() > 0,
    ensures
        dialog_key_post(*old(app), *old(dialog), code, *final(app), *final(dialog), request_view(req)),
{
    match code {
        KeyCode::Esc => {
            dialog.close();
            app.mode = Mode::Normal;
            None
        },
        KeyCode::Enter => {
            let input = dialog.take_input();
            submit_dialog(app, input.as_str(), dialog)
        },
        KeyCode::Backspace => {
            dialog.backspace();
            None
        },
        KeyCode::Char(c) => {
            dialog.insert_char(c);
            None
        },
        _ => None,
    }
}

/// Act on the text submitted to the dialog, according to the app's mode.
/// The dialog has already been closed and emptied.
pub fn submit_dialog(app: &mut App, input: &str, dialog: &mut InputDialog) -> (req: Option<IoRequest>)
    requires
        !old(dialog).active,
        old(dialog).input@ == Seq::<char>::empty(),
        old(app).mode == Mode::SaveGroupInput ==> old(app).pending_group_saves@.len() > 0,
    ensures
        submit_post(*old(app), *old(dialog), input@, *final(app), *final(dialog), request_view(req)),
{
    let t = trim_string(input);
    match app.mode {
        Mode::MergeInput => {
            app.mode = Mode::Normal;
            Some(IoRequest::Merge(t))
        },
        Mode::SaveInput => Some(IoRequest::CheckSavePath(t)),
        Mode::SaveConfirm => {
            let answer = lowercase(t.as_str());
            if answer == String::from_str("y") || answer == String::from_str("yes") {
                let p = app.pending_save_path.take();
                app.mode = Mode::Normal;
                match p {
                    Some(p) => Some(IoRequest::Save(p)),
                    None => None,
                }
            } else {
                app.pending_save_path = None;
                app.pending_group_saves = Vec::new();
                app.status_message = Some(String::from_str("Save cancelled"));
                app.mode = Mode::Normal;
                None
            }
        },
        Mode::SaveGroupInput => {
            let pages = app.pending_group_saves[0].1.clone();
            Some(IoRequest::SaveGroup(pages, t))
        },
        Mode::GotoPage => {
            goto_page(app, t.as_str());
            None
        },
        Mode::SearchInput => {
            if t.as_str().unicode_len() == 0 {
                app.search = None;
                app.status_message = Some(String::from_str("Search cleared"));
            } else {
                app.search = Some(
                    SearchState {
                        query: t,
                        matches: Vec::new(),
                        current_match: 0,
                        current_page_match_positions: Vec::new(),
                    },
                );
            }
            app.mode = Mode::Normal;
            None
        },
        Mode::Normal => None,
    }
}

/// Go to the page numbered `t` (1-indexed), or report why not.
fn goto_page(app: &mut App, t: &str)
    requires
        old(app).mode == Mode::GotoPage,
    ensures
        goto_post(*old(app), t@, *final(app)),
{
    let cs = chars_of(t);
    let count = app.page_count();
    match parse_usize(cs.as_slice()) {
        Some(n) => {
            if 1 <= n && n <= count {
                app.workspace.selected_page = n - 1;
            } else {
                let mut m = String::from_str("Page ");
                push_str(&mut m, decimal_string(n).as_str());
                push_str(&mut m, " out of range (1-");
                push_str(&mut m, decimal_string(count).as_str());
                push_str(&mut m, ")");
                app.status_message = Some(m);
            }
        },
        None => {
            if cs.len() > 0 {
                app.status_message = Some(String::from_str("Invalid page number"));
            }
        },
    }
    app.mode = Mode::Normal;
}

/// The indices `s..=e` as a vector.
fn range_vec(s: usize, e: usize) -> (v: Vec<usize>)
    requires
        s <= e < usize::MAX,
    ensures
        v@ == inclusive_range(s, e),
{
    let mut v: Vec<usize> = Vec::new();
    let mut i = s;
    while i <= e
        invariant
            s <= i <= e + 1,
            e < usize::MAX,
            v@ == Seq::new((i - s) as nat, |k: int| (s + k) as usize),
        decreases e + 1 - i,
    {
        v.push(i);
        i = i + 1;
        assert(v@ =~= Seq::new((i - s) as nat, |k: int| (s + k) as usize));
    }
    v
}

/// The key after `a`.
fn assign_key(app: &mut App, code: KeyCode)
    requires
        old(app).pending_assign,
        code matches KeyCode::Char(c) && is_group_letter(c) ==> selected_range_spec(
            old(app).visual_anchor,
            old(app).workspace.selected_page,
        ).1 < old(app).workspace@.pages.len(),
    ensures
        assign_key_post(*old(app), code, *final(app)),
{
    app.pending_assign = false;
    match code {
        KeyCode::Char(c) => {
            if 'a' <= c && c <= 'z' {
                assign_letter(app, c);
                return;
            }
        },
        _ => {},
    }
    app.status_message = Some(String::from_str("Assign cancelled"));
}

proof fn lemma_unmark_each_len(w: WorkspaceView, idx: Seq<usize>)
    ensures
        unmark_each(w, idx).pages.len() == w.pages.len(),
    decreases idx.len(),
{
    if idx.len() > 0 {
        lemma_unmark_each_len(w, idx.drop_last());
    }
}

/// Whether every listed page is in group `id`.
fn all_pages_in_group(pages: &Vec<PageSlot>, indices: &Vec<usize>, id: OutputTargetId) -> (b: bool)
    requires
        forall|k: int| 0 <= k < indices@.len() ==> indices@[k] < pages@.len(),
    ensures
        b == all_in_group(pages@, indices@, id),
{
    let mut k: usize = 0;
    while k < indices.len()
        invariant
            k <= indices@.len(),
            forall|q: int| 0 <= q < indices@.len() ==> indices@[q] < pages@.len(),
            all_in_group(pages@, indices@.take(k as int), id),
        decreases indices@.len() - k,
    {
        let i = indices[k];
        if pages[i].output_target != Some(id) {
            assert(pages@[indices@[k as int] as int].output_target != Some(id));
            return false;
        }
        proof {
            let t1 = indices@.take(k + 1);
            assert forall|q: int| 0 <= q < t1.len() implies pages@[#[trigger] t1[q] as int].output_target == Some(id) by {
                if q < k {
                    assert(t1[q] == indices@.take(k as int)[q]);
                }
            }
        }
        k = k + 1;
    }
    assert(indices@.take(indices@.len() as int) =~= indices@);
    true
}

/// Put the listed pages in group `id` and clear their delete marks, one page at a time.
fn join_group(ws: &mut Workspace, indices: &Vec<usize>, id: OutputTargetId)
    requires
        forall|k: int| 0 <= k < indices@.len() ==> indices@[k] < old(ws)@.pages.len(),
    ensures
        final(ws)@ == unmark_each(assign_output_spec(old(ws)@, indices@, Some(id)), indices@),
        final(ws).documents == old(ws).documents,
{
    ws.assign_output(indices.as_slice(), Some(id));
    let ghost w2 = ws@;
    let mut k: usize = 0;
    while k < indices.len()
        invariant
            k <= indices@.len(),
            forall|q: int| 0 <= q < indices@.len() ==> indices@[q] < w2.pages.len(),
            w2 == assign_output_spec(old(ws)@, indices@, Some(id)),
            ws@ == unmark_each(w2, indices@.take(k as int)),
            ws.documents == old(ws).documents,
        decreases indices@.len() - k,
    {
        let i = indices[k];
        proof {
            lemma_unmark_each_len(w2, indices@.take(k as int));
            assert(indices@.take(k + 1).drop_last() =~= indices@.take(k as int));
            assert(indices@.take(k + 1).last() == i);
        }
        if ws.pages[i].marked_for_delete {
            ws.toggle_delete(i);
        }
        k = k + 1;
    }
    assert(indices@.take(indices@.len() as int) =~= indices@);
}

/// Status text after clearing group `c` from `n` pages.
fn cleared_status(c: char, n: usize) -> (m: String)
    ensures
        m@ == cleared_message(c, n as nat),
{
    let mut m = String::from_str("Cleared group '");
    push_char(&mut m, c);
    push_str(&mut m, "' from ");
    push_str(&mut m, decimal_string(n).as_str());
    push_str(&mut m, " page(s)");
    m
}

/// Status text after assigning `n` pages to group `c`.
fn assigned_status(c: char, n: usize) -> (m: String)
    ensures
        m@ == assigned_message(c, n as nat),
{
    let mut m = String::from_str("Assigned ");
    push_str(&mut m, decimal_string(n).as_str());
    push_str(&mut m, " page(s) to group '");
    push_char(&mut m, c);
    push_char(&mut m, '\'');
    m
}

/// Assign the selection to group `c`, or clear it when all of it is already there.
fn assign_letter(app: &mut App, c: char)
    requires
        !old(app).pending_assign,
        is_group_letter(c),
        selected_range_spec(old(app).visual_anchor, old(app).workspace.selected_page).1
            < old(app).workspace@.pages.len(),
    ensures
        assign_letter_post(App { pending_assign: true, ..*old(app) }, c, *final(app)),
{
    let ghost a0 = *app;
    let n = app.workspace.pages.len();
    let (start, end) = app.selected_range();
    let id = app.get_or_create_group(c);
    let ghost w1 = app.workspace@;
    proof {
        assert(w1 == with_group(a0.workspace@, c));
        assert(id == group_id(a0.workspace@, c));
    }
    let indices = range_vec(start, end);
    assert forall|k: int| 0 <= k < indices@.len() implies indices@[k] < app.workspace@.pages.len() by {
        assert(indices@[k] == start + k);
    }
    let count = indices.len();
    if all_pages_in_group(&app.workspace.pages, &indices, id) {
        app.workspace.assign_output(indices.as_slice(), None);
        app.status_message = Some(cleared_status(c, count));
    } else {
        join_group(&mut app.workspace, &indices, id);
        app.status_message = Some(assigned_status(c, count));
    }
    app.visual_anchor = None;
    proof {
        let a0p = App { pending_assign: true, ..a0 };
        assert(selection(a0p) == indices@);
    }
}

/// A key in normal mode; false when the key has no binding.
#[verifier::rlimit(50)]
#[verifier::spinoff_prover]
fn normal_key(app: &mut App, code: KeyCode, dialog: &mut InputDialog) -> (consumed: bool)
    requires
        code == KeyCode::Char('d') || code == KeyCode::Char('x') ==> selected_range_spec(
            old(app).visual_anchor,
            old(app).workspace.selected_page,
        ).1 < old(app).workspace@.pages.len(),
    ensures
        consumed == normal_consumes(code),
        normal_key_post(*old(app), *old(dialog), code, *final(app), *final(dialog)),
{
    match code {
        KeyCode::Char(c) => {
            if c == 'q' {
                app.should_quit = true;
            } else if c == 'j' {
                app.next_page();
            } else if c == 'k' {
                app.prev_page();
            } else if c == 'h' {
                scroll_text(app, -3);
            } else if c == 'l' {
                scroll_text(app, 3);
            } else if c == 'd' || c == 'x' {
                let n = app.workspace.pages.len();
                let (start, end) = app.selected_range();
                let indices = range_vec(start, end);
                app.workspace.assign_output(indices.as_slice(), None);
                app.workspace.toggle_delete_batch(indices.as_slice());
                app.visual_anchor = None;
            } else if c == 'a' {
                app.pending_assign = true;
                app.status_message = Some(String::from_str("Assign to group: a-z"));
            } else if c == 'v' {
                if app.visual_anchor.is_some() {
                    app.visual_anchor = None;
                } else {
                    app.visual_anchor = Some(app.current_page());
                }
            } else if c == 's' {
                save_key(app, dialog);
            } else if c == 'm' {
                app.mode = Mode::MergeInput;
                dialog.title = String::from_str("Merge PDF");
                dialog.prompt = String::from_str("Enter file path:");
                dialog.open();
            } else if c == ':' {
                app.mode = Mode::GotoPage;
                dialog.title = String::from_str("Go to");
                dialog.prompt = String::from_str("Page:");
                dialog.open();
            } else if c == '/' {
                app.mode = Mode::SearchInput;
                dialog.title = String::from_str("Search");
                dialog.prompt = String::from_str("Search text:");
                dialog.open();
            } else if c == 'n' {
                search_next(app, false);
            } else if c == 'N' {
                search_next(app, true);
            } else if c == 'u' {
                if !app.undo() {
                    app.status_message = Some(String::from_str("Nothing to undo"));
                }
            } else if c == 't' {
                app.toggle_view_mode();
            } else if c == 'w' {
                app.cycle_layout();
            } else if c == '?' {
                app.show_help = true;
            } else if c == 'G' {
                go_last(app);
            } else if c == 'g' {
                app.pending_g = true;
            } else {
                return false;
            }
        },
        KeyCode::Esc => {
            if app.visual_anchor.is_some() {
                app.visual_anchor = None;
                app.pending_assign = false;
            } else {
                app.should_quit = true;
            }
        },
        KeyCode::Down => app.next_page(),
        KeyCode::Up => app.prev_page(),
        KeyCode::Left => scroll_text(app, -3),
        KeyCode::Right => scroll_text(app, 3),
        KeyCode::Home => {
            app.workspace.selected_page = 0;
        },
        KeyCode::End => go_last(app),
        KeyCode::PageDown => scroll_text(app, 20),
        KeyCode::PageUp => scroll_text(app, -20),
        KeyCode::Enter | KeyCode::Backspace | KeyCode::Other => {
            return false;
        },
    }
    true
}

/// Ask the text view to scroll by `n` lines, when it is shown.
fn scroll_text(app: &mut App, n: i16)
    ensures
        *final(app) == scrolled(*old(app), n),
{
    if app.view_mode == ViewMode::Text {
        app.text_scroll = TextScroll::Lines(n);
    }
}

/// Move to the last page.
fn go_last(app: &mut App)
    ensures
        *final(app) == at_page(*old(app), last_page(old(app).workspace@.pages.len())),
{
    let count = app.page_count();
    app.workspace.selected_page = if count == 0 { 0 } else { count - 1 };
}

/// The `s` key.
fn save_key(app: &mut App, dialog: &mut InputDialog)
    ensures
        save_key_post(*old(app), *old(dialog), *final(app), *final(dialog)),
{
    if app.workspace.documents.len() == 0 {
        app.status_message = Some(String::from_str("No documents loaded"));
        return;
    }
    let mut grouped = false;
    let mut i: usize = 0;
    while i < app.workspace.pages.len()
        invariant
            i <= app.workspace@.pages.len(),
            grouped == exists|j: int| 0 <= j < i && (#[trigger] app.workspace@.pages[j]).output_target is Some,
        decreases app.workspace@.pages.len() - i,
    {
        if app.workspace.pages[i].output_target.is_some() {
            grouped = true;
        }
        i = i + 1;
    }
    let base = match app.original_path() {
        Some(p) => p,
        None => String::new(),
    };
    if grouped {
        app.prepare_group_saves(base.as_str());
        prompt_next_group_save(app, dialog);
    } else {
        app.mode = Mode::SaveInput;
        dialog.title = String::from_str("Save");
        dialog.prompt = String::from_str("Save to:");
        dialog.open_with(base.as_str());
    }
}

/// Open the save dialog for the first pending group save, if any.
fn prompt_next_group_save(app: &mut App, dialog: &mut InputDialog)
    ensures
        prompted_next_group(*old(app), *old(dialog), *final(app), *final(dialog)),
{
    if app.pending_group_saves.len() > 0 {
        app.mode = Mode::SaveGroupInput;
        let mut prompt = String::from_str("Save ");
        push_str(&mut prompt, app.pending_group_saves[0].0.as_str());
        push_str(&mut prompt, " (");
        push_str(&mut prompt, decimal_string(app.pending_group_saves[0].1.len()).as_str());
        push_str(&mut prompt, " pages):");
        dialog.title = String::from_str("Save");
        dialog.prompt = prompt;
        dialog.open_with(app.pending_group_saves[0].2.as_str());
    }
}

/// `first_match_after` from `i` finds the first match at or after `i` on a page after `cur`.
proof fn lemma_first_match_after(ms: Seq<(usize, usize)>, cur: usize, i: int)
    requires
        0 <= i <= ms.len(),
    ensures
        (exists|j: int| i <= j < ms.len() && ms[j].0 > cur) ==> {
            let f = first_match_after(ms, cur, i);
            &&& i <= f < ms.len()
            &&& ms[f].0 > cur
            &&& forall|j: int| i <= j < f ==> ms[j].0 <= cur
        },
        (forall|j: int| i <= j < ms.len() ==> ms[j].0 <= cur) ==> first_match_after(ms, cur, i) == -1,
    decreases ms.len() - i,
{
    if i < ms.len() {
        lemma_first_match_after(ms, cur, i + 1);
        if ms[i].0 <= cur && (exists|j: int| i <= j < ms.len() && ms[j].0 > cur) {
            let j = choose|j: int| i <= j < ms.len() && ms[j].0 > cur;
            assert(i + 1 <= j);
        }
    }
}

/// `last_match_before` over the first `n` finds the last of them on a page before `cur`.
proof fn lemma_last_match_before(ms: Seq<(usize, usize)>, cur: usize, n: int)
    requires
        0 <= n <= ms.len(),
    ensures
        (exists|j: int| 0 <= j < n && ms[j].0 < cur) ==> {
            let f = last_match_before(ms, cur, n);
            &&& 0 <= f < n
            &&& ms[f].0 < cur
            &&& forall|j: int| f < j < n ==> ms[j].0 >= cur
        },
        (forall|j: int| 0 <= j < n ==> ms[j].0 >= cur) ==> last_match_before(ms, cur, n) == -1,
    decreases n,
{
    if n > 0 {
        lemma_last_match_before(ms, cur, n - 1);
        if ms[n - 1].0 >= cur && (exists|j: int| 0 <= j < n && ms[j].0 < cur) {
            let j = choose|j: int| 0 <= j < n && ms[j].0 < cur;
            assert(j < n - 1);
        }
    }
}

/// Stepping forward (`n`) through search matches goes to the earliest match on a page after
/// the cursor's: every match before it is on the cursor's page or an earlier one. With no
/// match after the cursor's page it wraps to the first match.
pub proof fn law_next_match_forward(ms: Seq<(usize, usize)>, cur: usize)
    requires
        ms.len() > 0,
    ensures
        0 <= next_match_index(ms, cur, false) < ms.len(),
        (exists|j: int| 0 <= j < ms.len() && ms[j].0 > cur) ==> {
            let k = next_match_index(ms, cur, false);
            &&& ms[k].0 > cur
            &&& forall|j: int| 0 <= j < k ==> ms[j].0 <= cur
        },
        (forall|j: int| 0 <= j < ms.len() ==> ms[j].0 <= cur) ==> next_match_index(ms, cur, false) == 0,
{
    lemma_first_match_after(ms, cur, 0);
}

/// Stepping backward (`N`) through search matches goes to the latest match on a page before
/// the cursor's: every match after it is on the cursor's page or a later one. With no match
/// before the cursor's page it wraps to the last match.
pub proof fn law_next_match_backward(ms: Seq<(usize, usize)>, cur: usize)
    requires
        ms.len() > 0,
    ensures
        0 <= next_match_index(ms, cur, true) < ms.len(),
        (exists|j: int| 0 <= j < ms.len() && ms[j].0 < cur) ==> {
            let k = next_match_index(ms, cur, true);
            &&& ms[k].0 < cur
            &&& forall|j: int| k < j < ms.len() ==> ms[j].0 >= cur
        },
        (forall|j: int| 0 <= j < ms.len() ==> ms[j].0 >= cur) ==> next_match_index(ms, cur, true) == ms.len() - 1,
{
    lemma_last_match_before(ms, cur, ms.len() as int);
}

/// After `n` (or `N`) with search results, the cursor is on the page of the match the
/// search now points at, the status says which match of how many it is, and that match is
/// the earliest on a later page (the latest on an earlier page for `N`), wrapping around.
pub proof fn law_search_step_lands_on_match(a0: App, reverse: bool, a1: App)
    requires
        search_next_post(a0, reverse, a1),
        a0.search matches Some(s) && s.matches@.len() > 0,
    ensures
        a1.search matches Some(s1) && {
            let ms = a0.search->0.matches@;
            let cur = a0.workspace.selected_page;
            let k = next_match_index(ms, cur, reverse);
            &&& s1.current_match == k as usize
            &&& s1.matches@ == ms
            &&& 0 <= k < ms.len()
            &&& a1.workspace.selected_page == ms[k].0
            &&& shows(a1, match_message((k + 1) as nat, ms.len()))
            &&& !reverse && (exists|j: int| 0 <= j < ms.len() && ms[j].0 > cur) ==> ms[k].0 > cur && forall|j: int|
                0 <= j < k ==> ms[j].0 <= cur
            &&& !reverse && (forall|j: int| 0 <= j < ms.len() ==> ms[j].0 <= cur) ==> k == 0
            &&& reverse && (exists|j: int| 0 <= j < ms.len() && ms[j].0 < cur) ==> ms[k].0 < cur && forall|j: int|
                k < j < ms.len() ==> ms[j].0 >= cur
            &&& reverse && (forall|j: int| 0 <= j < ms.len() ==> ms[j].0 >= cur) ==> k == ms.len() - 1
        },
{
    let s = a0.search->0;
    let ms = s.matches@;
    law_next_match_forward(ms, a0.workspace.selected_page);
    law_next_match_backward(ms, a0.workspace.selected_page);
}

/// The index of the match `search_next` moves to.
fn find_match(ms: &[(usize, usize)], cur: usize, reverse: bool) -> (k: usize)
    requires
        ms@.len() > 0,
    ensures
        k == next_match_index(ms@, cur, reverse),
        k < ms@.len(),
        !reverse && (exists|j: int| 0 <= j < ms@.len() && ms@[j].0 > cur) ==> ms@[k as int].0 > cur && forall|j: int|
            0 <= j < k ==> ms@[j].0 <= cur,
        !reverse && (forall|j: int| 0 <= j < ms@.len() ==> ms@[j].0 <= cur) ==> k == 0,
        reverse && (exists|j: int| 0 <= j < ms@.len() && ms@[j].0 < cur) ==> ms@[k as int].0 < cur && forall|j: int|
            k < j < ms@.len() ==> ms@[j].0 >= cur,
        reverse && (forall|j: int| 0 <= j < ms@.len() ==> ms@[j].0 >= cur) ==> k == ms@.len() - 1,
{
    proof {
        law_next_match_forward(ms@, cur);
        law_next_match_backward(ms@, cur);
    }
    if reverse {
        let mut n = ms.len();
        while n > 0
            invariant
                n <= ms@.len(),
                reverse,
                last_match_before(ms@, cur, ms@.len() as int) == last_match_before(ms@, cur, n as int),
            decreases n,
        {
            if ms[n - 1].0 < cur {
                assert(last_match_before(ms@, cur, n as int) == n - 1);
                proof {
                    law_next_match_backward(ms@, cur);
                }
                return n - 1;
            }
            n = n - 1;
        }
        ms.len() - 1
    } else {
        let mut i: usize = 0;
        while i < ms.len()
            invariant
                i <= ms@.len(),
                !reverse,
                first_match_after(ms@, cur, 0) == first_match_after(ms@, cur, i as int),
            decreases ms@.len() - i,
        {
            if ms[i].0 > cur {
                assert(first_match_after(ms@, cur, i as int) == i);
                proof {
                    law_next_match_forward(ms@, cur);
                }
                return i;
            }
            i = i + 1;
        }
        0
    }
}

/// Move to the next (or, in reverse, previous) page with a search match.
fn search_next(app: &mut App, reverse: bool)
    ensures
        search_next_post(*old(app), reverse, *final(app)),
{
    let taken = app.search.take();
    match taken {
        Some(mut s) => {
            if s.matches.len() == 0 {
                app.search = Some(s);
                app.status_message = Some(String::from_str("No search results"));
                return;
            }
            let k = find_match(s.matches.as_slice(), app.workspace.selected_page, reverse);
            let page = s.matches[k].0;
            let total = s.matches.len();
            s.current_match = k;
            app.search = Some(s);
            app.workspace.selected_page = page;
            app.scroll_to_match = true;
            let mut m = String::from_str("Match ");
            push_str(&mut m, decimal_string(k + 1).as_str());
            push_str(&mut m, "/");
            push_str(&mut m, decimal_string(total).as_str());
            app.status_message = Some(m);
        },
        None => {
            app.status_message = Some(String::from_str("No search results"));
        },
    }
}

// ---------------------------------------------------------------------------
// Continuations: the outcome of the file work that a key asked for
// ---------------------------------------------------------------------------

/// Add the PDF loaded for a merge from `path`, or report why it could not be loaded.
pub fn finish_merge(app: &mut App, path: &str, loaded: Result<PdfDocument, String>)
    requires
        loaded is Ok ==> old(app).workspace.pages.len() + old(app).workspace.documents.len() + 2 < usize::MAX,
    ensures
        match loaded {
            Ok(doc) => {
                &&& final(app).workspace.documents@ == old(app).workspace.documents@.push(doc)
                &&& final(app).workspace@ == open_document_spec(
                    old(app).workspace@,
                    old(app).workspace.documents.len(),
                    pdf_page_ids(doc.document()).len(),
                )
                &&& shows(*final(app), merged_message(path@, final(app).workspace@.pages.len()))
                &&& *final(app) == (App {
                    workspace: final(app).workspace,
                    status_message: final(app).status_message,
                    ..*old(app)
                })
            },
            Err(e) => only_status(*old(app), *final(app), merge_error_message(e@)),
        },
{
    match loaded {
        Ok(doc) => {
            app.workspace.open_document(doc);
            let mut m = String::from_str("Merged ");
            push_str(&mut m, path);
            push_str(&mut m, " (");
            push_str(&mut m, decimal_string(app.page_count()).as_str());
            push_str(&mut m, " total pages)");
            app.status_message = Some(m);
        },
        Err(e) => {
            let mut m = String::from_str("Merge error: ");
            push_str(&mut m, e.as_str());
            app.status_message = Some(m);
        },
    }
}

/// Go on with a save to `path` once it is known whether a file is there: ask before
/// overwriting it, otherwise ask for the save itself.
pub fn continue_save_input(app: &mut App, dialog: &mut InputDialog, path: &str, exists: bool) -> (req: Option<IoRequest>)
    ensures
        exists ==> {
            &&& req is None
            &&& final(app).pending_save_path matches Some(p) && p@ == path@
            &&& *final(app) == (App {
                pending_save_path: final(app).pending_save_path,
                mode: Mode::SaveConfirm,
                ..*old(app)
            })
            &&& opened(*final(dialog), old(dialog).title@, "File exists. Overwrite? (y/n)"@, Seq::empty())
        },
        !exists ==> {
            &&& request_view(req) == Some(IoRequestView::Save(path@))
            &&& *final(app) == (App { mode: Mode::Normal, ..*old(app) })
            &&& *final(dialog) == *old(dialog)
        },
{
    if exists {
        app.pending_save_path = Some(String::from_str(path));
        app.mode = Mode::SaveConfirm;
        dialog.prompt = String::from_str("File exists. Overwrite? (y/n)");
        dialog.open_with("");
        proof {
            reveal_strlit("");
            assert(""@ =~= Seq::<char>::empty());
        }
        None
    } else {
        app.mode = Mode::Normal;
        Some(IoRequest::Save(String::from_str(path)))
    }
}

/// Report a failed save.
pub fn save_failed(app: &mut App, error: &str)
    ensures
        only_status(*old(app), *final(app), save_error_message(error@)),
{
    let mut m = String::from_str("Save error: ");
    push_str(&mut m, error);
    app.status_message = Some(m);
}

/// Go on after the first pending group was saved to `path` (or failed to be): report it,
/// then prompt for the next group; after the last one, clear every delete mark. A failure
/// drops the remaining groups.
pub fn finish_group_save(app: &mut App, dialog: &mut InputDialog, path: &str, saved: Result<(), String>)
    requires
        old(app).pending_group_saves@.len() > 0,
    ensures
        saved matches Err(e) ==> {
            &&& shows(*final(app), save_error_message(e@))
            &&& final(app).pending_group_saves@.len() == 0
            &&& *final(app) == (App {
                status_message: final(app).status_message,
                pending_group_saves: final(app).pending_group_saves,
                mode: Mode::Normal,
                ..*old(app)
            })
            &&& *final(dialog) == *old(dialog)
        },
        saved is Ok ==> {
            let g = old(app).pending_group_saves@[0];
            let reported = App {
                status_message: final(app).status_message,
                pending_group_saves: final(app).pending_group_saves,
                ..*old(app)
            };
            &&& shows(*final(app), group_saved_message(g.0@, g.1@.len(), path@))
            &&& final(app).pending_group_saves@ == old(app).pending_group_saves@.drop_first()
            &&& if final(app).pending_group_saves@.len() > 0 {
                prompted_next_group(reported, *old(dialog), *final(app), *final(dialog))
            } else {
                &&& final(app).workspace.pages@ == unmarked_all(old(app).workspace.pages@)
                &&& *final(app) == (App {
                    workspace: Workspace { pages: final(app).workspace.pages, ..old(app).workspace },
                    mode: Mode::Normal,
                    ..reported
                })
                &&& *final(dialog) == *old(dialog)
            }
        },
{
    match saved {
        Err(e) => {
            let mut m = String::from_str("Save error: ");
            push_str(&mut m, e.as_str());
            app.status_message = Some(m);
            app.pending_group_saves = Vec::new();
            app.mode = Mode::Normal;
        },
        Ok(()) => {
            let mut m = String::from_str("Saved ");
            push_str(&mut m, app.pending_group_saves[0].0.as_str());
            push_str(&mut m, " (");
            push_str(&mut m, decimal_string(app.pending_group_saves[0].1.len()).as_str());
            push_str(&mut m, " pages) → ");
            push_str(&mut m, path);
            app.status_message = Some(m);
            app.pending_group_saves.remove(0);
            if app.pending_group_saves.len() > 0 {
                prompt_next_group_save(app, dialog);
            } else {
                clear_delete_marks(&mut app.workspace);
                app.mode = Mode::Normal;
            }
        },
    }
}

/// Clear every delete mark, recording nothing for undo.
fn clear_delete_marks(ws: &mut Workspace)
    ensures
        final(ws).pages@ == unmarked_all(old(ws).pages@),
        *final(ws) == (Workspace { pages: final(ws).pages, ..*old(ws) }),
{
    let n = ws.pages.len();
    let mut i: usize = 0;
    while i < n
        invariant
            i <= n,
            n == ws.pages@.len(),
            forall|j: int| 0 <= j < i ==> ws.pages@[j] == (PageSlot { marked_for_delete: false, ..old(ws).pages@[j] }),
            forall|j: int| i <= j < n ==> ws.pages@[j] == old(ws).pages@[j],
            n == old(ws).pages@.len(),
            *ws == (Workspace { pages: ws.pages, ..*old(ws) }),
        decreases n - i,
    {
        let mut slot = ws.pages[i];
        slot.marked_for_delete = false;
        ws.pages.set(i, slot);
        i = i + 1;
    }
    assert(ws.pages@ =~= unmarked_all(old(ws).pages@));
}

// ---------------------------------------------------------------------------
// Laws: deleting and assigning exclude each other
// ---------------------------------------------------------------------------

/// The delete key (`d`/`x`) leaves every page of the selection without a group.
pub proof fn law_delete_clears_group(w: WorkspaceView, idx: Seq<usize>)
    ensures
        forall|j: int| 0 <= j < w.pages.len() && lists_index(idx, j)
            ==> (#[trigger] toggle_delete_batch_spec(assign_output_spec(w, idx, None), idx).pages[j]).output_target
            is None,
{
}

/// Toggling the mark of one page changes that mark only.
proof fn lemma_toggle_one(w: WorkspaceView, i: usize)
    requires
        i < w.pages.len(),
    ensures
        toggle_delete_batch_spec(w, seq![i]).pages.len() == w.pages.len(),
        forall|j: int| 0 <= j < w.pages.len() ==> {
            &&& (#[trigger] toggle_delete_batch_spec(w, seq![i]).pages[j]).output_target == w.pages[j].output_target
            &&& toggle_delete_batch_spec(w, seq![i]).pages[j].marked_for_delete == if j == i {
                !w.pages[j].marked_for_delete
            } else {
                w.pages[j].marked_for_delete
            }
        },
{
    let one = seq![i];
    assert(one.drop_last() =~= Seq::<usize>::empty());
    assert(crate::model::workspace::in_range_indices(Seq::<usize>::empty(), w.pages.len()) =~= Seq::<usize>::empty());
    assert(crate::model::workspace::in_range_indices(one, w.pages.len()) =~= one);
    assert forall|j: int| 0 <= j < w.pages.len() implies crate::model::workspace::toggle_parity(one, j) == (j == i) by {
        assert(!crate::model::workspace::toggle_parity(Seq::<usize>::empty(), j));
    }
}

/// Unmarking page after page keeps the pages' groups, and leaves every listed page
/// unmarked.
proof fn lemma_unmark_each(w: WorkspaceView, idx: Seq<usize>)
    requires
        forall|k: int| 0 <= k < idx.len() ==> #[trigger] idx[k] < w.pages.len(),
    ensures
        unmark_each(w, idx).pages.len() == w.pages.len(),
        forall|j: int| 0 <= j < w.pages.len() ==> (#[trigger] unmark_each(w, idx).pages[j]).output_target
            == w.pages[j].output_target,
        forall|j: int| 0 <= j < w.pages.len() && lists_index(idx, j)
            ==> !(#[trigger] unmark_each(w, idx).pages[j]).marked_for_delete,
        forall|j: int| 0 <= j < w.pages.len() && (#[trigger] unmark_each(w, idx).pages[j]).marked_for_delete
            ==> w.pages[j].marked_for_delete,
    decreases idx.len(),
{
    if idx.len() > 0 {
        let rest = idx.drop_last();
        lemma_unmark_each(w, rest);
        let w1 = unmark_each(w, rest);
        let i = idx.last();
        if w1.pages[i as int].marked_for_delete {
            lemma_toggle_one(w1, i);
        }
        assert forall|j: int| 0 <= j < w.pages.len() && lists_index(idx, j)
            implies !(#[trigger] unmark_each(w, idx).pages[j]).marked_for_delete by {
            let k = choose|k: int| 0 <= k < idx.len() && idx[k] == j;
            if k < rest.len() {
                assert(rest[k] == j);
                assert(lists_index(rest, j));
            }
        }
    }
}

/// Assigning the selection to a group (`a` and a letter) puts every selected page in the
/// group and clears its delete mark.
pub proof fn law_assign_clears_delete_mark(w: WorkspaceView, idx: Seq<usize>, id: OutputTargetId)
    requires
        forall|k: int| 0 <= k < idx.len() ==> #[trigger] idx[k] < w.pages.len(),
    ensures
        forall|j: int| 0 <= j < w.pages.len() && lists_index(idx, j) ==> {
            &&& (#[trigger] unmark_each(assign_output_spec(w, idx, Some(id)), idx).pages[j]).output_target == Some(id)
            &&& !unmark_each(assign_output_spec(w, idx, Some(id)), idx).pages[j].marked_for_delete
        },
{
    lemma_unmark_each(assign_output_spec(w, idx, Some(id)), idx);
}

// ---------------------------------------------------------------------------
// Law: no key makes a page both marked for deletion and grouped
// ---------------------------------------------------------------------------

/// No page is both marked for deletion and in an output group.
pub open spec fn marks_exclusive(pages: Seq<PageSlot>) -> bool {
    forall|j: int| 0 <= j < pages.len() ==> !((#[trigger] pages[j]).marked_for_delete && pages[j].output_target is Some)
}

/// A page whose mark an index list flips is listed in it.
proof fn lemma_parity_listed(idx: Seq<usize>, j: int)
    ensures
        toggle_parity(idx, j) ==> lists_index(idx, j),
    decreases idx.len(),
{
    if idx.len() > 0 {
        let rest = idx.drop_last();
        lemma_parity_listed(rest, j);
        if toggle_parity(idx, j) {
            if toggle_parity(rest, j) {
                let k = choose|k: int| 0 <= k < rest.len() && rest[k] == j;
                assert(idx[k] == j);
            } else {
                assert(idx[idx.len() - 1] == j);
            }
        }
    }
}

/// The in-range indices of a list are listed in it.
proof fn lemma_in_range_listed(idx: Seq<usize>, n: nat, j: int)
    ensures
        lists_index(in_range_indices(idx, n), j) ==> lists_index(idx, j),
    decreases idx.len(),
{
    if idx.len() > 0 {
        let rest = idx.drop_last();
        lemma_in_range_listed(rest, n, j);
        let r = in_range_indices(rest, n);
        let s = in_range_indices(idx, n);
        if lists_index(s, j) {
            let k = choose|k: int| 0 <= k < s.len() && s[k] == j;
            if idx.last() < n && k == r.len() {
                assert(idx[idx.len() - 1] == j);
            } else {
                assert(r[k] == j);
                assert(lists_index(r, j));
                let k2 = choose|k2: int| 0 <= k2 < rest.len() && rest[k2] == j;
                assert(idx[k2] == j);
            }
        }
    }
}

/// Whether undoing the last step re-marks no grouped page and regroups no marked page: the
/// step is an insertion or an added document, a deletion whose pages (those it lists) are
/// each still marked or in no group, or an assignment whose pages are each unmarked.
pub open spec fn undo_keeps_apart(w: WorkspaceView) -> bool {
    w.history.len() > 0 ==> match w.history.last() {
        OperationView::MarkForDelete { indices } => forall|j: int|
            0 <= j < w.pages.len() && lists_index(indices, j) ==> (#[trigger] w.pages[j]).marked_for_delete
                || w.pages[j].output_target is None,
        OperationView::AssignOutput { page_indices, .. } => forall|j: int|
            0 <= j < w.pages.len() && lists_index(page_indices, j) ==> !(#[trigger] w.pages[j]).marked_for_delete,
        _ => true,
    }
}

/// Writing back previous targets keeps every mark, and changes only listed pages.
proof fn lemma_restore_targets_prefix(pages: Seq<PageSlot>, idx: Seq<usize>, prev: Seq<Option<OutputTargetId>>, k: nat)
    requires
        k <= idx.len(),
        k <= prev.len(),
    ensures
        restore_targets_prefix(pages, idx, prev, k).len() == pages.len(),
        forall|j: int| 0 <= j < pages.len() ==> {
            &&& (#[trigger] restore_targets_prefix(pages, idx, prev, k)[j]).marked_for_delete == pages[j].marked_for_delete
            &&& !lists_index(idx, j) ==> restore_targets_prefix(pages, idx, prev, k)[j] == pages[j]
        },
    decreases k,
{
    if k > 0 {
        lemma_restore_targets_prefix(pages, idx, prev, (k - 1) as nat);
        let r = restore_targets_prefix(pages, idx, prev, (k - 1) as nat);
        let i = idx[k - 1];
        assert forall|j: int| 0 <= j < pages.len() && !lists_index(idx, j) implies restore_targets_prefix(
            pages,
            idx,
            prev,
            k,
        )[j] == pages[j] by {
            if j == i {
                assert(idx[k - 1] == j);
            }
        }
    }
}

/// Undoing a step that re-marks no grouped page and regroups no marked page keeps marks and
/// groups apart.
pub proof fn law_undo_keeps_marks_apart(w: WorkspaceView)
    requires
        marks_exclusive(w.pages),
        undo_keeps_apart(w),
    ensures
        marks_exclusive(undo_spec(w).0.pages),
{
    if w.history.len() > 0 {
        let popped = WorkspaceView { history: w.history.drop_last(), ..w };
        let w2 = undo_spec(w).0;
        match w.history.last() {
            OperationView::MarkForDelete { indices } => {
                let valid = in_range_indices(indices, w.pages.len());
                assert forall|j: int| 0 <= j < w2.pages.len() implies !((#[trigger] w2.pages[j]).marked_for_delete
                    && w2.pages[j].output_target is Some) by {
                    lemma_parity_listed(valid, j);
                    lemma_in_range_listed(indices, w.pages.len(), j);
                }
            },
            OperationView::InsertPages { at, pages, .. } => {
                let count = pages.len();
                if count <= w.pages.len() && at <= w.pages.len() - count {
                    assert forall|j: int| 0 <= j < w2.pages.len() implies !((#[trigger] w2.pages[j]).marked_for_delete
                        && w2.pages[j].output_target is Some) by {
                        if j < at {
                            assert(w2.pages[j] == w.pages[j]);
                        } else {
                            assert(w2.pages[j] == w.pages[j + count]);
                        }
                    }
                }
            },
            OperationView::AddDocument { .. } => {},
            OperationView::AssignOutput { page_indices, previous, .. } => {
                let k = if page_indices.len() <= previous.len() {
                    page_indices.len()
                } else {
                    previous.len()
                };
                lemma_restore_targets_prefix(w.pages, page_indices, previous, k);
                assert forall|j: int| 0 <= j < w2.pages.len() implies !((#[trigger] w2.pages[j]).marked_for_delete
                    && w2.pages[j].output_target is Some) by {
                    if !lists_index(page_indices, j) {
                        assert(w2.pages[j] == w.pages[j]);
                    }
                }
            },
        }
    }
}

/// Deleting the selection (`d`/`x`) keeps marks and groups apart.
proof fn lemma_delete_keeps_exclusive(w: WorkspaceView, idx: Seq<usize>)
    requires
        marks_exclusive(w.pages),
    ensures
        marks_exclusive(toggle_delete_batch_spec(assign_output_spec(w, idx, None), idx).pages),
{
    let w1 = assign_output_spec(w, idx, None);
    let valid = in_range_indices(idx, w1.pages.len());
    let w2 = toggle_delete_batch_spec(w1, idx);
    assert forall|j: int| 0 <= j < w2.pages.len() implies !((#[trigger] w2.pages[j]).marked_for_delete
        && w2.pages[j].output_target is Some) by {
        if !lists_index(idx, j) {
            lemma_parity_listed(valid, j);
            lemma_in_range_listed(idx, w1.pages.len(), j);
            assert(w1.pages[j] == w.pages[j]);
        }
    }
}

/// Assigning the selection to a group, or clearing its group, keeps marks and groups apart.
proof fn lemma_assign_keeps_exclusive(a0: App, c: char, a1: App)
    requires
        assign_letter_post(a0, c, a1),
        marks_exclusive(a0.workspace@.pages),
        forall|k: int| 0 <= k < selection(a0).len() ==> #[trigger] selection(a0)[k] < a0.workspace@.pages.len(),
    ensures
        marks_exclusive(a1.workspace@.pages),
{
    let idx = selection(a0);
    let w1 = with_group(a0.workspace@, c);
    let id = group_id(a0.workspace@, c);
    assert(w1.pages == a0.workspace@.pages);
    if all_in_group(w1.pages, idx, id) {
        let w2 = assign_output_spec(w1, idx, None);
        assert forall|j: int| 0 <= j < w2.pages.len() implies !((#[trigger] w2.pages[j]).marked_for_delete
            && w2.pages[j].output_target is Some) by {
            if !lists_index(idx, j) {
                assert(w2.pages[j] == w1.pages[j]);
            }
        }
    } else {
        let w2 = assign_output_spec(w1, idx, Some(id));
        lemma_unmark_each(w2, idx);
        let w3 = unmark_each(w2, idx);
        assert forall|j: int| 0 <= j < w3.pages.len() implies !((#[trigger] w3.pages[j]).marked_for_delete
            && w3.pages[j].output_target is Some) by {
            assert(w3.pages[j].output_target == w2.pages[j].output_target);
            if !lists_index(idx, j) {
                assert(w2.pages[j] == w1.pages[j]);
                if w3.pages[j].marked_for_delete {
                    assert(w2.pages[j].marked_for_delete);
                }
            }
        }
    }
}

/// The selection lies inside the page list when its end does.
proof fn lemma_selection_bounded(a: App)
    requires
        selected_range_spec(a.visual_anchor, a.workspace.selected_page).1 < a.workspace@.pages.len(),
    ensures
        forall|k: int| 0 <= k < selection(a).len() ==> #[trigger] selection(a)[k] < a.workspace@.pages.len(),
{
}

} // verus!
