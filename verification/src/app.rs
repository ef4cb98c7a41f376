//! Top-level application state shared between the viewer's components.
use vstd::prelude::*;
use crate::model::document::{
    lemma_delete_safe_subset, page_tree_message, pages_without, pdf_delete_safe, pdf_flat_tree, pdf_page_ids, PdfDocument,
};
use crate::model::page_ref::{OutputTarget, OutputTargetId, PageSlot};
use crate::model::workspace::{open_document_spec, undo_spec, Workspace, WorkspaceView};
use crate::ops::save::{group_active_pages, groups_view, is_grouping};
use crate::tui::input::has_group;
use crate::paths::{file_extension, file_stem, join_path, parent_dir, path_extension, path_join, path_parent, path_stem};
use crate::text::{decimal, decimal_string, push_char, push_str};

verus! {

/// View mode for the main page viewer.
#[derive(Debug, Clone, Copy, PartialEq, Eq, Structural)]
pub enum ViewMode {
    Image,
    Text,
}

/// Layout mode controlling which panels are visible.
#[derive(Debug, Clone, Copy, PartialEq, Eq, Structural)]
pub enum LayoutMode {
    /// Main page view + thumbnail strip
    Normal,
    /// Thumbnail strip only (no main page)
    ThumbnailsOnly,
    /// Main page view only (no thumbnails)
    NoThumbnails,
}

/// Focus area in the UI.
#[derive(Debug, Clone, Copy, PartialEq, Eq, Structural)]
pub enum Focus {
    Sidebar,
}

/// Modes the app can be in.
#[derive(Debug, Clone, Copy, PartialEq, Eq, Structural)]
pub enum Mode {
    Normal,
    MergeInput,
    SaveInput,
    SaveConfirm,
    SaveGroupInput,
    SearchInput,
    GotoPage,
}

/// Text scroll command from input to event loop.
#[derive(Debug, Clone, Copy, PartialEq, Eq, Structural)]
pub enum TextScroll {
    /// No scroll pending.
    NoScroll,
    Lines(i16),
    Top,
    Bottom,
}

/// Scale of the vertical match positions: a position `p` stands for the fraction
/// `p / FRACTION_ONE` of the page height.
pub const FRACTION_ONE: u32 = 1_000_000;

/// Search state for text search across pages.
pub struct SearchState {
    pub query: String,
    /// Pages that contain matches, with match count per page.
    pub matches: Vec<(usize, usize)>,
    /// Index into `matches` for current match position.
    pub current_match: usize,
    /// For the current page: vertical positions of matches, in units of `1 / FRACTION_ONE`
    /// of the page height. Updated when the page changes.
    pub current_page_match_positions: Vec<u32>,
}

/// Top-level application state shared between TUI components.
pub struct App {
    pub workspace: Workspace,
    pub view_mode: ViewMode,
    pub layout_mode: LayoutMode,
    pub focus: Focus,
    pub mode: Mode,
    pub should_quit: bool,
    pub status_message: Option<String>,
    pub show_help: bool,
    pub search: Option<SearchState>,
    /// Pending text scroll command from input handler (applied by event loop).
    pub text_scroll: TextScroll,
    /// Path pending overwrite confirmation.
    pub pending_save_path: Option<String>,
    /// Grouped save state: list of (group_label, pages_1indexed, output_path).
    /// Populated during save, consumed one at a time via SaveGroupInput prompts.
    pub pending_group_saves: Vec<(String, Vec<u32>, String)>,
    /// Visual selection anchor (page index where `v` was pressed).
    pub visual_anchor: Option<usize>,
    /// Waiting for group letter after pressing `a`.
    pub pending_assign: bool,
    /// Waiting for second key after pressing `g`.
    pub pending_g: bool,
    /// Signal to scroll text view to the current search match.
    pub scroll_to_match: bool,
}

/// The inclusive page range selected: between the anchor and the cursor in visual mode,
/// otherwise the cursor alone.
pub open spec fn selected_range_spec(anchor: Option<usize>, selected: usize) -> (usize, usize) {
    match anchor {
        Some(a) => (if a <= selected { a } else { selected }, if a <= selected { selected } else { a }),
        None => (selected, selected),
    }
}

/// Position of the cursor after moving to the next page.
pub open spec fn next_page_spec(selected: usize, count: nat) -> usize {
    let max = if count == 0 { 0 } else { (count - 1) as nat };
    if selected >= max {
        max as usize
    } else {
        (selected + 1) as usize
    }
}

/// Position of the cursor when the viewer opens at 1-indexed page `page`: that page, or
/// the last one when the document is shorter.
pub open spec fn start_page_spec(page: usize, count: nat) -> usize {
    let want: int = if page >= 1 { page - 1 } else { 0 };
    let last: int = if count >= 1 { count - 1 } else { 0 };
    (if want <= last { want } else { last }) as usize
}

/// Position of the cursor after moving to the previous page.
pub open spec fn prev_page_spec(selected: usize) -> usize {
    if selected == 0 {
        0
    } else {
        (selected - 1) as usize
    }
}

/// The layout after `cycle_layout`.
pub open spec fn next_layout(l: LayoutMode) -> LayoutMode {
    match l {
        LayoutMode::Normal => LayoutMode::NoThumbnails,
        LayoutMode::NoThumbnails => LayoutMode::ThumbnailsOnly,
        LayoutMode::ThumbnailsOnly => LayoutMode::Normal,
    }
}

/// The view mode after `toggle_view_mode`.
pub open spec fn other_view(v: ViewMode) -> ViewMode {
    match v {
        ViewMode::Image => ViewMode::Text,
        ViewMode::Text => ViewMode::Image,
    }
}

/// Status text after opening a file.
pub open spec fn opened_message(path: Seq<char>) -> Seq<char> {
    "Opened "@ + path
}

/// Status text after a successful save of `n` pages.
pub open spec fn saved_message(n: nat, path: Seq<char>) -> Seq<char> {
    "Saved "@ + decimal(n) + " pages → "@ + path
}

/// Error text when there is nothing to save.
pub open spec fn no_documents_message() -> Seq<char> {
    "no documents loaded"@
}

/// First index of an output target labelled exactly `label`.
pub open spec fn first_label_index(targets: Seq<crate::model::workspace::OutputTargetView>, label: Seq<char>) -> Option<int> {
    if exists|i: int| 0 <= i < targets.len() && (#[trigger] targets[i]).label == label {
        Some(choose|i: int| 0 <= i < targets.len() && (#[trigger] targets[i]).label == label && forall|j: int| 0 <= j < i ==> (#[trigger] targets[j]).label != label)
    } else {
        None
    }
}

/// Label of a group of pages in the save prompts.
pub open spec fn group_label_text(targets: Seq<crate::model::workspace::OutputTargetView>, key: Option<OutputTargetId>) -> Seq<char> {
    match key {
        None => "unassigned"@,
        Some(id) => "group '"@ + target_label(targets, id) + "'"@,
    }
}

/// Label of an output target, `x` for an unknown id.
pub open spec fn target_label(targets: Seq<crate::model::workspace::OutputTargetView>, id: OutputTargetId) -> Seq<char> {
    if id < targets.len() {
        targets[id as int].label
    } else {
        "x"@
    }
}

/// Suggested output path of a group: the base path for unassigned pages, otherwise
/// `<parent>/<stem>_<label><.ext>` next to the base path.
pub open spec fn group_default_path(
    targets: Seq<crate::model::workspace::OutputTargetView>,
    base: Seq<char>,
    key: Option<OutputTargetId>,
) -> Seq<char> {
    match key {
        None => base,
        Some(id) => {
            let ext = match path_extension(base) {
                Some(e) => "."@ + e,
                None => Seq::empty(),
            };
            let parent = match path_parent(base) {
                Some(p) => p,
                None => "."@,
            };
            path_join(parent, path_stem(base) + "_"@ + target_label(targets, id) + ext)
        },
    }
}

/// 1-indexed page numbers of 0-indexed positions.
pub open spec fn one_indexed(positions: Seq<usize>) -> Seq<u32> {
    positions.map_values(|i: usize| (i + 1) as u32)
}

/// The pending group saves as plain values.
pub open spec fn group_saves_view(g: Seq<(String, Vec<u32>, String)>) -> Seq<(Seq<char>, Seq<u32>, Seq<char>)> {
    g.map_values(|e: (String, Vec<u32>, String)| (e.0@, e.1@, e.2@))
}

/// Whether `saves` holds one prompt per group of `groups`, in order.
pub open spec fn group_saves_for(
    w: WorkspaceView,
    base: Seq<char>,
    groups: Seq<(Option<OutputTargetId>, Seq<usize>)>,
    saves: Seq<(Seq<char>, Seq<u32>, Seq<char>)>,
) -> bool {
    &&& saves.len() == groups.len()
    &&& forall|i: int| 0 <= i < groups.len() ==> #[trigger] saves[i] == (
        group_label_text(w.output_targets, groups[i].0),
        one_indexed(groups[i].1),
        group_default_path(w.output_targets, base, groups[i].0),
    )
}

/// Positions of the pages marked for deletion, in order.
pub open spec fn deleted_positions(pages: Seq<PageSlot>) -> Seq<usize>
    decreases pages.len(),
{
    if pages.len() == 0 {
        Seq::empty()
    } else {
        let r = deleted_positions(pages.drop_last());
        if pages.last().marked_for_delete {
            r.push((pages.len() - 1) as usize)
        } else {
            r
        }
    }
}

/// 1-indexed numbers `1..=n` (as `u32`) that are not kept.
pub open spec fn unkept_pages(n: nat, keep: Seq<u32>) -> Seq<u32>
    decreases n,
{
    if n == 0 {
        Seq::empty()
    } else {
        let r = unkept_pages((n - 1) as nat, keep);
        if keep.contains(n as u32) {
            r
        } else {
            r.push(n as u32)
        }
    }
}

/// Everything but the workspace is the same in `a` and `b`.
pub open spec fn same_ui(a: &App, b: &App) -> bool {
    &&& a.view_mode == b.view_mode
    &&& a.layout_mode == b.layout_mode
    &&& a.focus == b.focus
    &&& a.mode == b.mode
    &&& a.should_quit == b.should_quit
    &&& a.status_message == b.status_message
    &&& a.show_help == b.show_help
    &&& a.search == b.search
    &&& a.text_scroll == b.text_scroll
    &&& a.pending_save_path == b.pending_save_path
    &&& a.pending_group_saves == b.pending_group_saves
    &&& a.visual_anchor == b.visual_anchor
    &&& a.pending_assign == b.pending_assign
    &&& a.pending_g == b.pending_g
    &&& a.scroll_to_match == b.scroll_to_match
}

impl App {
    pub fn new() -> (app: Self)
        ensures
            app.workspace@.pages.len() == 0,
            app.workspace@.output_targets.len() == 0,
            app.workspace@.history.len() == 0,
            app.workspace@.selected_page == 0,
            app.workspace.documents@.len() == 0,
            app.view_mode == ViewMode::Image,
            app.layout_mode == LayoutMode::Normal,
            app.focus == Focus::Sidebar,
            app.mode == Mode::Normal,
            !app.should_quit,
            app.status_message is None,
            !app.show_help,
            app.search is None,
            app.text_scroll == TextScroll::NoScroll,
            app.pending_save_path is None,
            app.pending_group_saves@.len() == 0,
            app.visual_anchor is None,
            !app.pending_assign,
            !app.pending_g,
            !app.scroll_to_match,
    {
        Self {
            workspace: Workspace::new(),
            view_mode: ViewMode::Image,
            layout_mode: LayoutMode::Normal,
            focus: Focus::Sidebar,
            mode: Mode::Normal,
            should_quit: false,
            status_message: None,
            show_help: false,
            search: None,
            text_scroll: TextScroll::NoScroll,
            pending_save_path: None,
            pending_group_saves: Vec::new(),
            visual_anchor: None,
            pending_assign: false,
            pending_g: false,
            scroll_to_match: false,
        }
    }

    /// Add a loaded document to the workspace and report it in the status line.
    pub fn open_document(&mut self, doc: PdfDocument, path: &str)
        requires
            old(self).workspace.pages.len() + old(self).workspace.documents.len() + 2 < usize::MAX,
        ensures
            final(self).workspace.documents@ == old(self).workspace.documents@.push(doc),
            final(self).workspace@ == open_document_spec(
                old(self).workspace@,
                old(self).workspace.documents.len(),
                pdf_page_ids(doc.document()).len(),
            ),
            final(self).status_message matches Some(m) && m@ == opened_message(path@),
            same_but_status_ui(final(self), old(self)),
    {
        self.workspace.open_document(doc);
        let mut m = String::from_str("Opened ");
        push_str(&mut m, path);
        self.status_message = Some(m);
    }

    pub fn current_page(&self) -> (p: usize)
        ensures
            p == self.workspace.selected_page,
    {
        self.workspace.selected_page
    }

    /// Get the visual selection range (inclusive), or just the current page if not in visual mode.
    pub fn selected_range(&self) -> (r: (usize, usize))
        ensures
            r == selected_range_spec(self.visual_anchor, self.workspace.selected_page),
    {
        match self.visual_anchor {
            Some(anchor) => {
                let p = self.workspace.selected_page;
                let a = if anchor <= p { anchor } else { p };
                let b = if anchor <= p { p } else { anchor };
                (a, b)
            },
            None => {
                let p = self.workspace.selected_page;
                (p, p)
            },
        }
    }

    /// Check if a page index is in the current visual selection.
    pub fn is_selected(&self, idx: usize) -> (b: bool)
        ensures
            b == (selected_range_spec(self.visual_anchor, self.workspace.selected_page).0 <= idx
                <= selected_range_spec(self.visual_anchor, self.workspace.selected_page).1),
    {
        let (a, b) = self.selected_range();
        idx >= a && idx <= b
    }

    /// Get or create an output target for a group letter, returning its ID.
    /// An existing target labelled with exactly that letter is reused.
    pub fn get_or_create_group(&mut self, letter: char) -> (id: OutputTargetId)
        ensures
            first_label_index(old(self).workspace@.output_targets, seq![letter]) matches Some(i)
                ==> id == i && final(self).workspace == old(self).workspace,
            first_label_index(old(self).workspace@.output_targets, seq![letter]) is None ==> {
                &&& id == old(self).workspace@.output_targets.len()
                &&& final(self).workspace@ == (WorkspaceView {
                    output_targets: old(self).workspace@.output_targets.push(
                        crate::model::workspace::OutputTargetView {
                            path: Seq::empty(),
                            label: seq![letter],
                        },
                    ),
                    ..old(self).workspace@
                })
                &&& final(self).workspace.documents == old(self).workspace.documents
            },
            same_ui(final(self), old(self)),
    {
        let mut label = String::new();
        push_char(&mut label, letter);
        let n = self.workspace.output_targets.len();
        let mut i: usize = 0;
        while i < n
            invariant
                i <= n,
                n == self.workspace.output_targets@.len(),
                label@ == seq![letter],
                forall|j: int| 0 <= j < i ==> (#[trigger] self.workspace@.output_targets[j]).label != label@,
            decreases n - i,
        {
            if self.workspace.output_targets[i].label == label {
                proof {
                    let t = self.workspace@.output_targets;
                    assert(t[i as int].label == label@);
                    let c = choose|c: int| 0 <= c < t.len() && (#[trigger] t[c]).label == label@ && forall|j: int| 0 <= j < c ==> (#[trigger] t[j]).label != label@;
                    if c < i {
                    } else if c > i {
                        assert(t[i as int].label != label@);
                    }
                }
                return i;
            }
            i = i + 1;
        }
        proof {
            let t = self.workspace@.output_targets;
            assert(!(exists|i: int| 0 <= i < t.len() && (#[trigger] t[i]).label == label@));
        }
        let path = String::new();
        let id = self.workspace.add_output_target(OutputTarget { path, label });
        id
    }

    pub fn page_count(&self) -> (n: usize)
        ensures
            n == self.workspace@.pages.len(),
    {
        self.workspace.page_count()
    }

    /// Start at the given 1-indexed page, or the last one when there are fewer pages.
    pub fn open_at_page(&mut self, page: usize)
        ensures
            *final(self) == (App {
                workspace: Workspace { selected_page: start_page_spec(page, old(self).workspace@.pages.len()), ..old(self).workspace },
                ..*old(self)
            }),
    {
        let count = self.workspace.pages.len();
        let want = if page >= 1 { page - 1 } else { 0 };
        let last = if count >= 1 { count - 1 } else { 0 };
        self.workspace.selected_page = if want <= last { want } else { last };
    }

    /// Move to the next page, stopping at the last one.
    pub fn next_page(&mut self)
        ensures
            *final(self) == (App {
                workspace: Workspace {
                    selected_page: next_page_spec(
                        old(self).workspace.selected_page,
                        old(self).workspace@.pages.len(),
                    ),
                    ..old(self).workspace
                },
                ..*old(self)
            }),
    {
        let count = self.page_count();
        let max = if count == 0 { 0 } else { count - 1 };
        self.workspace.selected_page = if self.workspace.selected_page >= max {
            max
        } else {
            self.workspace.selected_page + 1
        };
    }

    /// Move to the previous page, stopping at the first one.
    pub fn prev_page(&mut self)
        ensures
            *final(self) == (App {
                workspace: Workspace {
                    selected_page: prev_page_spec(old(self).workspace.selected_page),
                    ..old(self).workspace
                },
                ..*old(self)
            }),
    {
        self.workspace.selected_page = if self.workspace.selected_page == 0 {
            0
        } else {
            self.workspace.selected_page - 1
        };
    }

    /// Undo the last workspace operation; true if something was undone.
    pub fn undo(&mut self) -> (b: bool)
        ensures
            (final(self).workspace@, b) == undo_spec(old(self).workspace@),
            final(self).workspace.documents == old(self).workspace.documents,
            same_ui(final(self), old(self)),
    {
        self.workspace.undo()
    }

    /// Switch between the image and the text view.
    pub fn toggle_view_mode(&mut self)
        ensures
            *final(self) == (App { view_mode: other_view(old(self).view_mode), ..*old(self) }),
    {
        self.view_mode = match self.view_mode {
            ViewMode::Image => ViewMode::Text,
            ViewMode::Text => ViewMode::Image,
        };
    }

    /// Go to the next layout: normal, no thumbnails, thumbnails only, normal.
    pub fn cycle_layout(&mut self)
        ensures
            *final(self) == (App { layout_mode: next_layout(old(self).layout_mode), ..*old(self) }),
    {
        self.layout_mode = match self.layout_mode {
            LayoutMode::Normal => LayoutMode::NoThumbnails,
            LayoutMode::NoThumbnails => LayoutMode::ThumbnailsOnly,
            LayoutMode::ThumbnailsOnly => LayoutMode::Normal,
        };
    }

    /// The file path of the first document.
    pub fn original_path(&self) -> (p: Option<String>)
        ensures
            self.workspace.documents@.len() == 0 ==> p is None,
            self.workspace.documents@.len() > 0 ==> (p matches Some(s) && s@
                == self.workspace.documents@[0].path_view()),
    {
        if self.workspace.documents.len() == 0 {
            None
        } else {
            Some(self.workspace.documents[0].path_string())
        }
    }

    /// What saving to a single file does with the page list: the positions of the pages
    /// marked for deletion, and their 1-indexed numbers. Fails when no document is loaded.
    pub fn begin_save(&self) -> (r: Result<(Vec<usize>, Vec<u32>), String>)
        ensures
            self.workspace.documents@.len() == 0 <==> r is Err,
            r matches Err(e) ==> e@ == no_documents_message(),
            r matches Ok((deleted, numbers)) ==> deleted@ == deleted_positions(self.workspace@.pages)
                && numbers@ == one_indexed(deleted@),
    {
        if self.workspace.documents.len() == 0 {
            return Err(String::from_str("no documents loaded"));
        }
        let mut deleted: Vec<usize> = Vec::new();
        let mut numbers: Vec<u32> = Vec::new();
        let mut i: usize = 0;
        while i < self.workspace.pages.len()
            invariant
                i <= self.workspace@.pages.len(),
                deleted@ == deleted_positions(self.workspace@.pages.take(i as int)),
                numbers@ == one_indexed(deleted@),
            decreases self.workspace@.pages.len() - i,
        {
            proof {
                assert(self.workspace@.pages.take(i + 1).drop_last() =~= self.workspace@.pages.take(i as int));
            }
            if self.workspace.pages[i].marked_for_delete {
                deleted.push(i);
                numbers.push((i + 1) as u32);
                assert(numbers@ =~= one_indexed(deleted@));
            }
            i = i + 1;
        }
        assert(self.workspace@.pages.take(self.workspace@.pages.len() as int) =~= self.workspace@.pages);
        Ok((deleted, numbers))
    }

    /// What saving to a single file writes: the first document without the pages marked
    /// for deletion, with the positions of those pages (for `finish_save`). Fails when
    /// no document is loaded, or when the first document's page tree does not allow the
    /// deletion.
    pub fn save_copy(&self) -> (r: Result<(Vec<usize>, lopdf::Document), String>)
        ensures
            self.workspace.documents@.len() == 0 ==> (r matches Err(e) && e@ == no_documents_message()),
            r matches Err(e) ==> (self.workspace.documents@.len() == 0 && e@ == no_documents_message())
                || (self.workspace.documents@.len() > 0 && deleted_positions(self.workspace@.pages).len() > 0
                    && e@ == page_tree_message()),
            self.workspace.documents@.len() > 0 && deleted_positions(self.workspace@.pages).len() == 0 ==> r is Ok,
            self.workspace.documents@.len() > 0 && deleted_positions(self.workspace@.pages).len() > 0 ==> (r is Ok
                <==> pdf_delete_safe(
                self.workspace.documents@[0].document(),
                one_indexed(deleted_positions(self.workspace@.pages)).to_set(),
            )),
            r matches Ok((deleted, doc)) ==> deleted@ == deleted_positions(self.workspace@.pages) && (deleted@.len() == 0
                || pdf_flat_tree(self.workspace.documents@[0].document()) ==> pdf_page_ids(doc) == pages_without(
                pdf_page_ids(self.workspace.documents@[0].document()),
                one_indexed(deleted@).to_set(),
            )),
    {
        match self.begin_save() {
            Err(e) => Err(e),
            Ok((deleted, numbers)) => {
                match self.workspace.documents[0].pruned_copy(numbers.as_slice()) {
                    Ok(doc) => Ok((deleted, doc)),
                    Err(e) => Err(e),
                }
            },
        }
    }

    /// Whether some page is in an output group.
    pub fn has_page_group(&self) -> (b: bool)
        ensures
            b == has_group(self.workspace@.pages),
    {
        let mut i: usize = 0;
        while i < self.workspace.pages.len()
            invariant
                i <= self.workspace@.pages.len(),
                forall|j: int| 0 <= j < i ==> (#[trigger] self.workspace@.pages[j]).output_target is None,
            decreases self.workspace@.pages.len() - i,
        {
            if self.workspace.pages[i].output_target.is_some() {
                assert(self.workspace@.pages[i as int].output_target is Some);
                return true;
            }
            i = i + 1;
        }
        false
    }

    /// What saving to `path` writes: with page groups, one file per group (the unassigned
    /// pages in `path` itself, each group in `<stem>_<label><ext>` beside it, as
    /// `group_saves` suggests); without, one file holding every page not marked for
    /// deletion. Also gives the positions of the marked pages (for `finish_save`). Fails when
    /// no document is loaded, or when the first document's page tree does not allow a
    /// deletion.
    pub fn save_files(&self, path: &str) -> (r: Result<(Vec<usize>, Vec<(String, lopdf::Document)>), String>)
        ensures
            self.workspace.documents@.len() == 0 ==> (r matches Err(e) && e@ == no_documents_message()),
            r matches Err(e) ==> (self.workspace.documents@.len() == 0 && e@ == no_documents_message())
                || (self.workspace.documents@.len() > 0 && e@ == page_tree_message()),
            self.workspace.documents@.len() > 0 && pdf_delete_safe(self.workspace.documents@[0].document(), Set::full())
                ==> r is Ok,
            r matches Ok((deleted, files)) ==> {
                let ids = pdf_page_ids(self.workspace.documents@[0].document());
                let n = (self.workspace@.pages.len() as u32) as nat;
                &&& deleted@ == deleted_positions(self.workspace@.pages)
                &&& !has_group(self.workspace@.pages) ==> {
                    &&& files@.len() == 1
                    &&& files@[0].0@ == path@
                    &&& deleted@.len() == 0 || pdf_flat_tree(self.workspace.documents@[0].document()) ==> pdf_page_ids(
                        files@[0].1,
                    ) == pages_without(ids, one_indexed(deleted@).to_set())
                }
                &&& has_group(self.workspace@.pages) ==> exists|groups: Seq<(Option<OutputTargetId>, Seq<usize>)>| {
                    &&& is_grouping(self.workspace@.pages, groups)
                    &&& files@.len() == groups.len()
                    &&& forall|i: int| 0 <= i < groups.len() ==> {
                        &&& (#[trigger] files@[i]).0@ == group_default_path(self.workspace@.output_targets, path@, groups[i].0)
                        &&& pdf_flat_tree(self.workspace.documents@[0].document()) ==> pdf_page_ids(files@[i].1)
                            == pages_without(ids, unkept_pages(n, one_indexed(groups[i].1)).to_set())
                    }
                }
            },
    {
        let (deleted, numbers) = match self.begin_save() {
            Err(e) => {
                return Err(e);
            },
            Ok(v) => v,
        };
        if !self.has_page_group() {
            proof {
                if pdf_delete_safe(self.workspace.documents@[0].document(), Set::full()) {
                    lemma_delete_safe_subset(self.workspace.documents@[0].document(), numbers@.to_set());
                }
            }
            return match self.workspace.documents[0].pruned_copy(numbers.as_slice()) {
                Ok(doc) => Ok((deleted, vec![(String::from_str(path), doc)])),
                Err(e) => Err(e),
            };
        }
        let saves = self.group_saves(path);
        let ghost groups = choose|groups: Seq<(Option<OutputTargetId>, Seq<usize>)>|
            is_grouping(self.workspace@.pages, groups) && group_saves_for(
                self.workspace@,
                path@,
                groups,
                group_saves_view(saves@),
            );
        let ghost ids = pdf_page_ids(self.workspace.documents@[0].document());
        let ghost n = (self.workspace@.pages.len() as u32) as nat;
        let mut files: Vec<(String, lopdf::Document)> = Vec::new();
        let mut g: usize = 0;
        while g < saves.len()
            invariant
                g <= saves@.len(),
                self.workspace.documents@.len() > 0,
                saves@.len() == groups.len(),
                ids == pdf_page_ids(self.workspace.documents@[0].document()),
                n == (self.workspace@.pages.len() as u32) as nat,
                group_saves_for(self.workspace@, path@, groups, group_saves_view(saves@)),
                files@.len() == g,
                forall|i: int| 0 <= i < g ==> {
                    &&& (#[trigger] files@[i]).0@ == group_default_path(self.workspace@.output_targets, path@, groups[i].0)
                    &&& pdf_flat_tree(self.workspace.documents@[0].document()) ==> pdf_page_ids(files@[i].1)
                        == pages_without(ids, unkept_pages(n, one_indexed(groups[i].1)).to_set())
                },
            decreases saves@.len() - g,
        {
            assert(group_saves_view(saves@)[g as int] == (
                group_label_text(self.workspace@.output_targets, groups[g as int].0),
                one_indexed(groups[g as int].1),
                group_default_path(self.workspace@.output_targets, path@, groups[g as int].0),
            ));
            proof {
                if pdf_delete_safe(self.workspace.documents@[0].document(), Set::full()) {
                    lemma_delete_safe_subset(
                        self.workspace.documents@[0].document(),
                        unkept_pages((self.workspace@.pages.len() as u32) as nat, saves@[g as int].1@).to_set(),
                    );
                }
            }
            let doc = match self.group_copy(saves[g].1.as_slice()) {
                Ok(d) => d,
                Err(e) => {
                    return Err(e);
                },
            };
            let ghost before = files@;
            files.push((saves[g].2.clone(), doc));
            proof {
                assert forall|i: int| 0 <= i < g + 1 implies {
                    &&& (#[trigger] files@[i]).0@ == group_default_path(self.workspace@.output_targets, path@, groups[i].0)
                    &&& pdf_flat_tree(self.workspace.documents@[0].document()) ==> pdf_page_ids(files@[i].1)
                        == pages_without(ids, unkept_pages(n, one_indexed(groups[i].1)).to_set())
                } by {
                    if i < g {
                        assert(files@[i] == before[i]);
                    }
                }
            }
            g = g + 1;
        }
        Ok((deleted, files))
    }

    /// What saving one group writes: the first document keeping only the pages of these
    /// 1-indexed numbers, in order. Fails when the page tree does not allow the deletion.
    pub fn group_copy(&self, keep_pages: &[u32]) -> (r: Result<lopdf::Document, String>)
        requires
            self.workspace.documents@.len() > 0,
        ensures
            unkept_pages((self.workspace@.pages.len() as u32) as nat, keep_pages@).len() == 0 ==> r is Ok,
            unkept_pages((self.workspace@.pages.len() as u32) as nat, keep_pages@).len() > 0 ==> (r is Ok <==> pdf_delete_safe(
                self.workspace.documents@[0].document(),
                unkept_pages((self.workspace@.pages.len() as u32) as nat, keep_pages@).to_set(),
            )),
            r matches Ok(c) ==> (unkept_pages((self.workspace@.pages.len() as u32) as nat, keep_pages@).len() == 0
                || pdf_flat_tree(self.workspace.documents@[0].document()) ==> pdf_page_ids(c) == pages_without(
                pdf_page_ids(self.workspace.documents@[0].document()),
                unkept_pages((self.workspace@.pages.len() as u32) as nat, keep_pages@).to_set(),
            )),
            r matches Err(e) ==> e@ == page_tree_message(),
    {
        let delete = self.group_pages_to_delete(keep_pages);
        self.workspace.documents[0].pruned_copy(delete.as_slice())
    }

    /// Record a successful single-file save: report it and clear the delete marks of the
    /// saved-over pages.
    pub fn finish_save(&mut self, path: &str, deleted: &[usize])
        requires
            deleted@.len() <= old(self).workspace@.pages.len(),
            forall|k: int| 0 <= k < deleted@.len() ==> deleted@[k] < old(self).workspace@.pages.len(),
        ensures
            final(self).status_message matches Some(m) && m@ == saved_message(
                (old(self).workspace@.pages.len() - deleted@.len()) as nat,
                path@,
            ),
            final(self).workspace@.pages.len() == old(self).workspace@.pages.len(),
            forall|j: int| 0 <= j < old(self).workspace@.pages.len() ==> (#[trigger] final(self).workspace@.pages[j]) == (
                if deleted@.contains(j as usize) {
                    PageSlot { marked_for_delete: false, ..old(self).workspace@.pages[j] }
                } else {
                    old(self).workspace@.pages[j]
                }),
            final(self).workspace@.history == old(self).workspace@.history,
            final(self).workspace@.output_targets == old(self).workspace@.output_targets,
            final(self).workspace@.selected_page == old(self).workspace@.selected_page,
            final(self).workspace.documents == old(self).workspace.documents,
    {
        let remaining = self.workspace.pages.len() - deleted.len();
        let ghost old_pages = self.workspace@.pages;
        let npages = self.workspace.pages.len();
        let mut k: usize = 0;
        while k < deleted.len()
            invariant
                k <= deleted@.len(),
                npages == old_pages.len(),
                old_pages == old(self).workspace@.pages,
                self.workspace@.pages.len() == old_pages.len(),
                forall|q: int| 0 <= q < deleted@.len() ==> deleted@[q] < old_pages.len(),
                forall|j: int| 0 <= j < old_pages.len() ==> (#[trigger] self.workspace@.pages[j]) == (
                    if deleted@.take(k as int).contains(j as usize) {
                        PageSlot { marked_for_delete: false, ..old_pages[j] }
                    } else {
                        old_pages[j]
                    }),
                self.workspace.history == old(self).workspace.history,
                self.workspace.output_targets == old(self).workspace.output_targets,
                self.workspace.selected_page == old(self).workspace.selected_page,
                self.workspace.documents == old(self).workspace.documents,
            decreases deleted@.len() - k,
        {
            let i = deleted[k];
            let mut slot = self.workspace.pages[i];
            slot.marked_for_delete = false;
            self.workspace.pages.set(i, slot);
            proof {
                assert forall|j: int| 0 <= j < old_pages.len() implies #[trigger] deleted@.take(k + 1).contains(j as usize)
                    == (deleted@.take(k as int).contains(j as usize) || i == j) by {
                    crate::text::lemma_take_contains_step(deleted@, k as int, j as usize);
                }
            }
            k = k + 1;
        }
        proof {
            assert(deleted@.take(deleted@.len() as int) =~= deleted@);
            assert(self.workspace@.history =~= old(self).workspace@.history);
            assert(self.workspace@.output_targets =~= old(self).workspace@.output_targets);
        }
        let mut m = String::from_str("Saved ");
        let n = decimal_string(remaining);
        push_str(&mut m, n.as_str());
        push_str(&mut m, " pages → ");
        push_str(&mut m, path);
        self.status_message = Some(m);
    }

    /// Build the list of grouped saves and populate `pending_group_saves`: one entry per
    /// group of non-deleted pages (unassigned first, then by target), with its label, its
    /// 1-indexed pages and a suggested output path derived from `base_path`.
    pub fn prepare_group_saves(&mut self, base_path: &str)
        ensures
            exists|groups: Seq<(Option<OutputTargetId>, Seq<usize>)>|
                is_grouping(old(self).workspace@.pages, groups) && group_saves_for(
                    old(self).workspace@,
                    base_path@,
                    groups,
                    group_saves_view(final(self).pending_group_saves@),
                ),
            *final(self) == (App { pending_group_saves: final(self).pending_group_saves, ..*old(self) }),
    {
        let saves = self.group_saves(base_path);
        self.pending_group_saves = saves;
    }

    /// The grouped saves: one entry per group of non-deleted pages (unassigned first, then
    /// by target), with its label, its 1-indexed pages and a suggested output path derived
    /// from `base_path`.
    pub fn group_saves(&self, base_path: &str) -> (saves: Vec<(String, Vec<u32>, String)>)
        ensures
            exists|groups: Seq<(Option<OutputTargetId>, Seq<usize>)>|
                is_grouping(self.workspace@.pages, groups) && group_saves_for(
                    self.workspace@,
                    base_path@,
                    groups,
                    group_saves_view(saves@),
                ),
    {
        let stem = file_stem(base_path);
        let ext = match file_extension(base_path) {
            Some(e) => {
                let mut s = String::from_str(".");
                push_str(&mut s, e.as_str());
                s
            },
            None => String::new(),
        };
        let parent = match parent_dir(base_path) {
            Some(p) => p,
            None => String::from_str("."),
        };
        let npages = self.workspace.pages.len();
        let groups = group_active_pages(self.workspace.pages.as_slice());
        let ghost gv = groups_view(groups@);
        proof {
            assert forall|i: int, q: int| 0 <= i < groups@.len() && 0 <= q < groups@[i].1@.len() implies #[trigger] groups@[i].1@[q] < self.workspace@.pages.len() by {
                assert(gv[i].1 == groups@[i].1@);
                crate::ops::save::lemma_positions_bounded(self.workspace@.pages, gv[i].0);
            }
        }
        let mut saves: Vec<(String, Vec<u32>, String)> = Vec::new();
        let mut g: usize = 0;
        while g < groups.len()
            invariant
                g <= groups@.len(),
                npages == self.workspace@.pages.len(),
                gv == groups_view(groups@),
                is_grouping(self.workspace@.pages, gv),
                forall|i: int, q: int| 0 <= i < groups@.len() && 0 <= q < groups@[i].1@.len() ==> #[trigger] groups@[i].1@[q] < self.workspace@.pages.len(),
                stem@ == path_stem(base_path@),
                ext@ == (match path_extension(base_path@) {
                    Some(e) => "."@ + e,
                    None => Seq::<char>::empty(),
                }),
                parent@ == (match path_parent(base_path@) {
                    Some(p) => p,
                    None => "."@,
                }),
                saves@.len() == g,
                forall|i: int| 0 <= i < g ==> #[trigger] group_saves_view(saves@)[i] == (
                    group_label_text(self.workspace@.output_targets, gv[i].0),
                    one_indexed(gv[i].1),
                    group_default_path(self.workspace@.output_targets, base_path@, gv[i].0),
                ),
            decreases groups@.len() - g,
        {
            let key = groups[g].0;
            let mut pages: Vec<u32> = Vec::new();
            let mut q: usize = 0;
            while q < groups[g].1.len()
                invariant
                    q <= groups@[g as int].1@.len(),
                    g < groups@.len(),
                    npages == self.workspace@.pages.len(),
                    forall|i: int, q: int| 0 <= i < groups@.len() && 0 <= q < groups@[i].1@.len() ==> #[trigger] groups@[i].1@[q] < self.workspace@.pages.len(),
                    pages@ == one_indexed(groups@[g as int].1@.take(q as int)),
                decreases groups@[g as int].1@.len() - q,
            {
                pages.push((groups[g].1[q] + 1) as u32);
                q = q + 1;
                assert(pages@ =~= one_indexed(groups@[g as int].1@.take(q as int)));
            }
            assert(groups@[g as int].1@.take(q as int) =~= groups@[g as int].1@);
            let (label, path) = match key {
                None => (String::from_str("unassigned"), String::from_str(base_path)),
                Some(id) => {
                    let lbl = if id < self.workspace.output_targets.len() {
                        self.workspace.output_targets[id].label.clone()
                    } else {
                        String::from_str("x")
                    };
                    let mut label = String::from_str("group '");
                    push_str(&mut label, lbl.as_str());
                    push_str(&mut label, "'");
                    let mut name = stem.clone();
                    push_str(&mut name, "_");
                    push_str(&mut name, lbl.as_str());
                    push_str(&mut name, ext.as_str());
                    let path = join_path(parent.as_str(), name.as_str());
                    (label, path)
                },
            };
            let ghost old_saves = saves@;
            saves.push((label, pages, path));
            proof {
                assert(group_saves_view(saves@) =~= group_saves_view(old_saves).push(
                    (saves@.last().0@, saves@.last().1@, saves@.last().2@),
                ));
                assert(group_saves_view(saves@)[g as int] == (
                    group_label_text(self.workspace@.output_targets, gv[g as int].0),
                    one_indexed(gv[g as int].1),
                    group_default_path(self.workspace@.output_targets, base_path@, gv[g as int].0),
                ));
                assert forall|i: int| 0 <= i < g + 1 implies #[trigger] group_saves_view(saves@)[i] == (
                    group_label_text(self.workspace@.output_targets, gv[i].0),
                    one_indexed(gv[i].1),
                    group_default_path(self.workspace@.output_targets, base_path@, gv[i].0),
                ) by {
                    if i < g {
                        assert(group_saves_view(saves@)[i] == group_saves_view(old_saves)[i]);
                    }
                }
            }
            g = g + 1;
        }
        proof {
            assert(is_grouping(self.workspace@.pages, gv));
            assert(group_saves_for(self.workspace@, base_path@, gv, group_saves_view(saves@)));
        }
        saves
    }

    /// The 1-indexed pages to drop when saving only `keep_pages`: every number of
    /// `1..=page_count` (as `u32`) that is not kept, in order.
    pub fn group_pages_to_delete(&self, keep_pages: &[u32]) -> (r: Vec<u32>)
        ensures
            r@ == unkept_pages((self.workspace@.pages.len() as u32) as nat, keep_pages@),
    {
        let n = self.workspace.pages.len() as u32;
        let mut r: Vec<u32> = Vec::new();
        let mut p: u32 = 0;
        while p < n
            invariant
                p <= n,
                n == self.workspace@.pages.len() as u32,
                r@ == unkept_pages(p as nat, keep_pages@),
            decreases n - p,
        {
            p = p + 1;
            let mut kept = false;
            let mut q: usize = 0;
            while q < keep_pages.len()
                invariant
                    q <= keep_pages@.len(),
                    kept == keep_pages@.take(q as int).contains(p),
                decreases keep_pages@.len() - q,
            {
                proof {
                    let t1 = keep_pages@.take(q + 1);
                    let t0 = keep_pages@.take(q as int);
                    if t1.contains(p) {
                        let w = choose|w: int| 0 <= w < t1.len() && t1[w] == p;
                        if w < q {
                            assert(t0[w] == p);
                        }
                    }
                    if t0.contains(p) {
                        let w = choose|w: int| 0 <= w < t0.len() && t0[w] == p;
                        assert(t1[w] == p);
                    }
                    assert(t1[q as int] == keep_pages@[q as int]);
                }
                if keep_pages[q] == p {
                    kept = true;
                }
                q = q + 1;
            }
            assert(keep_pages@.take(keep_pages@.len() as int) =~= keep_pages@);
            if !kept {
                r.push(p);
            }
        }
        r
    }
}

/// Everything but the workspace and the status message is the same in `a` and `b`.
pub open spec fn same_but_status_ui(a: &App, b: &App) -> bool {
    &&& a.view_mode == b.view_mode
    &&& a.layout_mode == b.layout_mode
    &&& a.focus == b.focus
    &&& a.mode == b.mode
    &&& a.should_quit == b.should_quit
    &&& a.show_help == b.show_help
    &&& a.search == b.search
    &&& a.text_scroll == b.text_scroll
    &&& a.pending_save_path == b.pending_save_path
    &&& a.pending_group_saves == b.pending_group_saves
    &&& a.visual_anchor == b.visual_anchor
    &&& a.pending_assign == b.pending_assign
    &&& a.pending_g == b.pending_g
    &&& a.scroll_to_match == b.scroll_to_match
}

/// Cycling the layout three times comes back to the starting layout.
pub proof fn law_cycle_layout_three_times(l: LayoutMode)
    ensures
        next_layout(next_layout(next_layout(l))) == l,
{
}

/// Toggling the view mode twice comes back to the starting view.
pub proof fn law_toggle_view_twice(v: ViewMode)
    ensures
        other_view(other_view(v)) == v,
{
}

/// Moving to the next or previous page keeps the cursor on a page.
pub proof fn law_navigation_stays_in_range(selected: usize, count: nat)
    requires
        selected < count,
    ensures
        next_page_spec(selected, count) < count,
        prev_page_spec(selected) < count,
{
}

/// The visual selection always contains the cursor and is ordered.
pub proof fn law_selection_contains_cursor(anchor: Option<usize>, selected: usize)
    ensures
        selected_range_spec(anchor, selected).0 <= selected <= selected_range_spec(anchor, selected).1,
        anchor matches Some(a) ==> selected_range_spec(anchor, selected).0 <= a <= selected_range_spec(anchor, selected).1,
{
}

} // verus!
