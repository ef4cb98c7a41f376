//! The page list at the left of the viewer: one line per page, with its marks.
use vstd::prelude::*;
use crate::app::{selected_range_spec, App};
use crate::model::workspace::WorkspaceView;
use crate::text::{decimal, decimal_string, push_str};
use crate::tui::thumbnail_bar::{group_label, label_of};

verus! {

/// How a line of the page list is shown, the first that applies winning.
#[derive(Debug, Clone, Copy, PartialEq, Eq, Structural)]
pub enum ItemStyle {
    /// The current page.
    Selected,
    /// A page of the visual selection.
    Visual,
    /// A page marked for deletion.
    Deleted,
    /// A page with search matches.
    SearchMatch,
    Normal,
}

/// Whether page `i` has search matches.
pub open spec fn has_match(matches: Seq<(usize, usize)>, i: usize) -> bool {
    exists|k: int| 0 <= k < matches.len() && (#[trigger] matches[k]).0 == i
}

/// `s` padded on the left with spaces to at least `w` characters.
pub open spec fn pad_left(s: Seq<char>, w: nat) -> Seq<char> {
    if s.len() >= w {
        s
    } else {
        Seq::new((w - s.len()) as nat, |i: int| ' ') + s
    }
}

/// The text of the line of page `i`: a `>` for the current page, a `×` for a page marked
/// for deletion, the page number right-aligned on three columns, and the group label.
pub open spec fn item_text(w: WorkspaceView, i: usize) -> Seq<char> {
    let marker: Seq<char> = if i == w.selected_page { ">"@ } else { " "@ };
    let del: Seq<char> = if w.pages[i as int].marked_for_delete { seq!['×'] } else { " "@ };
    let group: Seq<char> = match label_of(w, i as int) {
        Some(l) => " "@ + l,
        None => Seq::empty(),
    };
    marker + del + pad_left(decimal((i + 1) as nat), 3) + group
}

/// The style of the line of page `i`.
pub open spec fn item_style(a: App, i: usize) -> ItemStyle {
    let r = selected_range_spec(a.visual_anchor, a.workspace.selected_page);
    if i == a.workspace.selected_page {
        ItemStyle::Selected
    } else if a.visual_anchor is Some && r.0 <= i <= r.1 {
        ItemStyle::Visual
    } else if a.workspace@.pages[i as int].marked_for_delete {
        ItemStyle::Deleted
    } else if a.search matches Some(s) && has_match(s.matches@, i) {
        ItemStyle::SearchMatch
    } else {
        ItemStyle::Normal
    }
}

/// The line of the page list for page `i`.
pub fn sidebar_item(app: &App, i: usize) -> (r: (String, ItemStyle))
    requires
        i < app.workspace@.pages.len(),
        i < usize::MAX,
    ensures
        r.0@ == item_text(app.workspace@, i),
        r.1 == item_style(*app, i),
{
    let selected = i == app.workspace.selected_page;
    let deleted = app.workspace.pages[i].marked_for_delete;
    let mut t = String::from_str(if selected { ">" } else { " " });
    if deleted {
        crate::text::push_char(&mut t, '×');
    } else {
        push_str(&mut t, " ");
    }
    let num = decimal_string(i + 1);
    let n = num.as_str().unicode_len();
    let mut k = n;
    while k < 3
        invariant
            n <= k <= 3 || (n > 3 && k == n),
            n == decimal((i + 1) as nat).len(),
            t@ == (if selected { ">"@ } else { " "@ }) + (if deleted { seq!['×'] } else { " "@ })
                + Seq::new((k - n) as nat, |j: int| ' '),
        decreases 3 - k,
    {
        push_str(&mut t, " ");
        assert(t@ =~= (if selected { ">"@ } else { " "@ }) + (if deleted { seq!['×'] } else { " "@ })
            + Seq::new((k + 1 - n) as nat, |j: int| ' ')) by {
            reveal_strlit(" ");
        }
        k = k + 1;
    }
    push_str(&mut t, num.as_str());
    proof {
        if n >= 3 {
            assert(Seq::new((k - n) as nat, |j: int| ' ') =~= Seq::<char>::empty());
        }
    }
    match group_label(app, i) {
        Some(l) => {
            push_str(&mut t, " ");
            push_str(&mut t, l.as_str());
        },
        None => {},
    }
    proof {
        reveal_strlit(" ");
        reveal_strlit(">");
    }
    assert(t@ =~= item_text(app.workspace@, i));
    let style = if selected {
        ItemStyle::Selected
    } else if app.visual_anchor.is_some() && app.is_selected(i) {
        ItemStyle::Visual
    } else if deleted {
        ItemStyle::Deleted
    } else if page_has_match(app, i) {
        ItemStyle::SearchMatch
    } else {
        ItemStyle::Normal
    };
    (t, style)
}

/// Whether page `i` has search matches.
fn page_has_match(app: &App, i: usize) -> (b: bool)
    ensures
        b == (app.search matches Some(s) && has_match(s.matches@, i)),
{
    match &app.search {
        Some(s) => {
            let mut k: usize = 0;
            while k < s.matches.len()
                invariant
                    k <= s.matches@.len(),
                    app.search == Some(*s),
                    forall|q: int| 0 <= q < k ==> (#[trigger] s.matches@[q]).0 != i,
                decreases s.matches@.len() - k,
            {
                if s.matches[k].0 == i {
                    assert(s.matches@[k as int].0 == i);
                    return true;
                }
                k = k + 1;
            }
            false
        },
        None => false,
    }
}

/// The title of the page list: it says when a visual selection is under way.
pub fn sidebar_title(app: &App) -> (t: &'static str)
    ensures
        t@ == (if app.visual_anchor is Some { " Visual "@ } else { " Pages "@ }),
{
    if app.visual_anchor.is_some() {
        " Visual "
    } else {
        " Pages "
    }
}

} // verus!
