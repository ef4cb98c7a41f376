//! The thumbnail strip (normal layout) and grid (thumbnails-only layout): which pages
//! show, and where.
use vstd::prelude::*;
use crate::app::{App, LayoutMode};
use crate::model::workspace::WorkspaceView;
use crate::text::{decimal, decimal_string, push_char, push_str};

verus! {

/// Fixed thumbnail cell height in terminal rows.
pub const THUMB_CELL_HEIGHT: u16 = 8;

#[verifier::external_type_specification]
#[verifier::external_body]
pub struct ExPicker(ratatui_image::picker::Picker);

/// A copy of an image (`DynamicImage::clone`). Claims nothing of the copy: Verus does
/// not look into images.
#[verifier::external_body]
fn image_copy(image: &image::DynamicImage) -> image::DynamicImage {
    image.clone()
}

/// A display protocol for an image, resized when drawn (`Picker::new_resize_protocol`).
/// Claims nothing of the protocol: Verus does not look into it.
#[verifier::external_body]
fn resize_protocol(
    picker: &ratatui_image::picker::Picker,
    image: image::DynamicImage,
) -> ratatui_image::protocol::StatefulProtocol {
    picker.new_resize_protocol(image)
}

/// State for the thumbnail strip: rendered images and display protocols, indexed by page.
pub struct ThumbnailBarState {
    /// Cached rendered images, indexed by page number.
    pub images: Vec<Option<image::DynamicImage>>,
    /// Cached display protocols, indexed by page number; made from the images when
    /// first shown and reused across frames.
    protocols: Vec<Option<ratatui_image::protocol::StatefulProtocol>>,
}

/// `s` lengthened to `n` entries with `None`, unchanged when already that long.
pub open spec fn padded<T>(s: Seq<Option<T>>, n: nat) -> Seq<Option<T>> {
    if s.len() >= n {
        s
    } else {
        s + Seq::new((n - s.len()) as nat, |i: int| None)
    }
}

impl ThumbnailBarState {
    pub fn new() -> (s: Self)
        ensures
            s.images_view().len() == 0,
            s.protocols_view().len() == 0,
    {
        Self { images: Vec::new(), protocols: Vec::new() }
    }

    /// Make room for `page_count` pages, keeping what is cached.
    pub fn ensure_capacity(&mut self, page_count: usize)
        ensures
            final(self).images_view() == padded(old(self).images_view(), page_count as nat),
            final(self).protocols_view() == padded(old(self).protocols_view(), page_count as nat),
    {
        let ghost old_images = self.images@;
        while self.images.len() < page_count
            invariant
                old_images.len() <= self.images@.len() <= (if old_images.len() >= page_count { old_images.len() } else { page_count as nat }),
                self.images@ == old_images + Seq::new((self.images@.len() - old_images.len()) as nat, |i: int| None::<image::DynamicImage>),
                self.protocols == old(self).protocols,
            decreases page_count - self.images@.len(),
        {
            self.images.push(None);
            assert(self.images@ =~= old_images + Seq::new((self.images@.len() - old_images.len()) as nat, |i: int| None::<image::DynamicImage>));
        }
        assert(self.images@ =~= padded(old_images, page_count as nat));
        let ghost old_protocols = self.protocols@;
        while self.protocols.len() < page_count
            invariant
                old_protocols.len() <= self.protocols@.len() <= (if old_protocols.len() >= page_count { old_protocols.len() } else { page_count as nat }),
                self.protocols@ == old_protocols + Seq::new((self.protocols@.len() - old_protocols.len()) as nat, |i: int| None::<ratatui_image::protocol::StatefulProtocol>),
                self.images@ == padded(old_images, page_count as nat),
            decreases page_count - self.protocols@.len(),
        {
            self.protocols.push(None);
            assert(self.protocols@ =~= old_protocols + Seq::new((self.protocols@.len() - old_protocols.len()) as nat, |i: int| None::<ratatui_image::protocol::StatefulProtocol>));
        }
        assert(self.protocols@ =~= padded(old_protocols, page_count as nat));
    }

    /// The cached images, by page.
    pub closed spec fn images_view(&self) -> Seq<Option<image::DynamicImage>> {
        self.images@
    }

    /// The cached protocols, by page.
    pub closed spec fn protocols_view(&self) -> Seq<Option<ratatui_image::protocol::StatefulProtocol>> {
        self.protocols@
    }

    /// The display protocol of a page, made from its cached image the first time; `None`
    /// for a page without a cached image.
    pub fn get_protocol(&mut self, page_idx: usize, picker: &ratatui_image::picker::Picker) -> (r: Option<
        &mut ratatui_image::protocol::StatefulProtocol,
    >)
        requires
            page_idx < old(self).images_view().len() ==> page_idx < old(self).protocols_view().len(),
        ensures
            final(self).images_view() == old(self).images_view(),
            final(self).protocols_view().len() == old(self).protocols_view().len(),
            forall|j: int| 0 <= j < old(self).protocols_view().len() && j != page_idx
                ==> final(self).protocols_view()[j] == old(self).protocols_view()[j],
            r is Some <==> page_idx < old(self).images_view().len() && (old(self).protocols_view()[page_idx as int] is Some
                || old(self).images_view()[page_idx as int] is Some),
            r matches Some(p) ==> final(self).protocols_view()[page_idx as int] == Some(*final(p)),
            r matches Some(p) ==> (old(self).protocols_view()[page_idx as int] is Some
                ==> old(self).protocols_view()[page_idx as int] == Some(*p)),
            r is None && page_idx < old(self).protocols_view().len()
                ==> final(self).protocols_view()[page_idx as int] == old(self).protocols_view()[page_idx as int],
    {
        if page_idx >= self.images.len() {
            return None;
        }
        if self.protocols[page_idx].is_none() {
            match &self.images[page_idx] {
                Some(img) => {
                    let proto = resize_protocol(picker, image_copy(img));
                    self.protocols.set(page_idx, Some(proto));
                },
                None => {},
            }
        }
        self.protocols[page_idx].as_mut()
    }

    /// Drop every cached image and protocol.
    pub fn clear(&mut self)
        ensures
            final(self).images_view().len() == 0,
            final(self).protocols_view().len() == 0,
    {
        self.images = Vec::new();
        self.protocols = Vec::new();
    }
}

/// Thumbnail cell width for a cell height: 1.4 times the height, rounded up (at most
/// `u16::MAX`).
pub open spec fn thumb_width_spec(cell_height: nat) -> nat {
    let w = (7 * cell_height + 4) / 5;
    if w > 65535 {
        65535
    } else {
        w
    }
}

/// Compute thumbnail cell width from a fixed cell height.
pub fn thumb_cell_width(cell_height: u16) -> (w: u16)
    ensures
        w == thumb_width_spec(cell_height as nat),
{
    let w: u32 = (7 * (cell_height as u32) + 4) / 5;
    if w > 65535 {
        65535
    } else {
        w as u16
    }
}

/// First and one-past-last page of the strip: about `cols` pages with the current one in
/// the middle, shifted to fill the strip at the end of the document.
pub open spec fn strip_range_spec(current: usize, page_count: usize, cols: usize) -> (usize, usize) {
    let half = cols / 2;
    let tail = if page_count >= cols { page_count - cols } else { 0 };
    let start = if current >= half {
        if current - half <= tail { (current - half) as usize } else { tail as usize }
    } else {
        0
    };
    let end = if start + cols <= page_count { (start + cols) as usize } else { page_count };
    (start, end)
}

/// Number of thumbnails that fit across `width` cells at `thumb_w` each plus a gap
/// (at least one).
pub open spec fn strip_cols(width: u16, thumb_w: u16) -> usize {
    let c = width as int / (thumb_w as int + 1);
    if c >= 1 { c as usize } else { 1 }
}

/// The cells of the strip: for each page from `page` on (until `end`), its x and width,
/// the width cut by the strip's right edge; the strip ends at the first cell narrower
/// than 4.
pub open spec fn strip_cells_spec(ax: u16, aw: u16, tw: u16, x: u16, page: usize, end: usize) -> Seq<(usize, u16, u16)>
    decreases end - page,
{
    if page >= end {
        Seq::empty()
    } else {
        let room = if aw >= x - ax { aw - (x - ax) } else { 0 };
        let w = if tw <= room { tw } else { room as u16 };
        if w < 4 {
            Seq::empty()
        } else {
            seq![(page, x, w)] + strip_cells_spec(ax, aw, tw, (x + w + 1) as u16, (page + 1) as usize, end)
        }
    }
}

/// Where the thumbnails of the strip go in an area at column `ax` of width `aw` and
/// height `ah`: `(page, x, width)` for each shown page. Nothing shows in an area
/// smaller than 10 by 3 or without pages.
pub fn strip_layout(ax: u16, aw: u16, ah: u16, current: usize, page_count: usize) -> (cells: Vec<(usize, u16, u16)>)
    requires
        ax + aw < u16::MAX,
        ah <= 46810,
    ensures
        ah < 3 || aw < 10 || page_count == 0 ==> cells@.len() == 0,
        !(ah < 3 || aw < 10 || page_count == 0) ==> {
            let tw = thumb_width_spec(ah as nat) as u16;
            let r = strip_range_spec(current, page_count, strip_cols(aw, tw));
            cells@ == strip_cells_spec(ax, aw, tw, ax, r.0, r.1)
        },
{
    let mut cells: Vec<(usize, u16, u16)> = Vec::new();
    if ah < 3 || aw < 10 || page_count == 0 {
        return cells;
    }
    let tw = thumb_cell_width(ah);
    let c = aw / (tw + 1);
    let cols: usize = if c >= 1 { c as usize } else { 1 };
    assert(cols == strip_cols(aw, tw));
    let half = cols / 2;
    let tail = if page_count >= cols { page_count - cols } else { 0 };
    let start = if current >= half {
        if current - half <= tail { current - half } else { tail }
    } else {
        0
    };
    let end = if start <= page_count - cols.min(page_count) { start + cols } else { page_count };
    let end = if end <= page_count { end } else { page_count };
    assert((start, end) == strip_range_spec(current, page_count, cols));
    let ghost full = strip_cells_spec(ax, aw, tw, ax, start, end);
    let mut x = ax;
    let mut page = start;
    while page < end
        invariant
            start <= page <= end,
            !(ah < 3 || aw < 10 || page_count == 0),
            tw == thumb_width_spec(ah as nat),
            (start, end) == strip_range_spec(current, page_count, strip_cols(aw, tw)),
            ax <= x,
            ax + aw < u16::MAX,
            x - ax <= aw + 1,
            full == strip_cells_spec(ax, aw, tw, ax, start, end),
            full == cells@ + strip_cells_spec(ax, aw, tw, x, page, end),
        decreases end - page,
    {
        let used = x - ax;
        let room = if aw >= used { aw - used } else { 0 };
        let w = if tw <= room { tw } else { room };
        if w < 4 {
            assert(strip_cells_spec(ax, aw, tw, x, page, end) =~= Seq::<(usize, u16, u16)>::empty());
            assert(full =~= cells@);
            return cells;
        }
        let ghost rest = strip_cells_spec(ax, aw, tw, (x + w + 1) as u16, (page + 1) as usize, end);
        cells.push((page, x, w));
        assert(full =~= cells@ + rest);
        x = x + w + 1;
        page = page + 1;
    }
    assert(strip_cells_spec(ax, aw, tw, x, page, end) =~= Seq::<(usize, u16, u16)>::empty());
    assert(full =~= cells@);
    cells
}

/// First page of the grid screen holding the current page, and how many fit on a screen.
pub open spec fn grid_screen(current: usize, aw: u16, ah: u16) -> (int, int) {
    let cols: int = if aw / 13 >= 1 { (aw / 13) as int } else { 1 };
    let rows: int = if ah / 8 >= 1 { (ah / 8) as int } else { 1 };
    let per = cols * rows;
    ((current as int / per) * per, per)
}

/// The cells of the grid from the `i`-th of `n` on: `(page, x, y)`, filling rows of
/// `cols` cells; the grid ends at the first cell that would cross the area's edge.
pub open spec fn grid_cells_spec(ax: u16, ay: u16, aw: u16, ah: u16, cols: int, first: int, i: int, n: int) -> Seq<(usize, u16, u16)>
    decreases n - i,
{
    if i >= n || i < 0 || cols <= 0 {
        Seq::empty()
    } else {
        let x = ax + (i % cols) * 13;
        let y = ay + (i / cols) * 8;
        if x + 12 > ax + aw || y + 8 > ay + ah {
            Seq::empty()
        } else {
            seq![((first + i) as usize, x as u16, y as u16)] + grid_cells_spec(ax, ay, aw, ah, cols, first, i + 1, n)
        }
    }
}

/// Where the thumbnails of the grid go in an area at `(ax, ay)` of size `aw` by `ah`:
/// `(page, x, y)` for each shown page of the screen that holds the current page.
/// Nothing shows in an area smaller than 10 by 3 or without pages.
pub fn grid_layout(ax: u16, ay: u16, aw: u16, ah: u16, current: usize, page_count: usize) -> (cells: Vec<(usize, u16, u16)>)
    requires
        ax + aw < u16::MAX,
        ay + ah < u16::MAX,
    ensures
        ah < 3 || aw < 10 || page_count == 0 ==> cells@.len() == 0,
        !(ah < 3 || aw < 10 || page_count == 0) ==> {
            let (first, per) = grid_screen(current, aw, ah);
            let end = if first + per <= page_count { first + per } else { page_count as int };
            let cols = if aw / 13 >= 1 { aw / 13 } else { 1 };
            cells@ == grid_cells_spec(ax, ay, aw, ah, cols as int, first, 0, end - first)
        },
{
    let mut cells: Vec<(usize, u16, u16)> = Vec::new();
    if ah < 3 || aw < 10 || page_count == 0 {
        return cells;
    }
    let cols: usize = if aw / 13 >= 1 { (aw / 13) as usize } else { 1 };
    let rows: usize = if ah / 8 >= 1 { (ah / 8) as usize } else { 1 };
    assert(1 <= cols <= 5041 && 1 <= rows <= 8191);
    assert(1 <= cols * rows <= 5041 * 8191) by (nonlinear_arith)
        requires
            1 <= cols <= 5041,
            1 <= rows <= 8191,
    ;
    let per = cols * rows;
    assert((current / per) * per <= current) by (nonlinear_arith)
        requires
            per > 0,
    ;
    let first = (current / per) * per;
    let end = if first <= page_count && per <= page_count - first { first + per } else { page_count };
    let n: usize = if end >= first { end - first } else { 0 };
    let ghost full = grid_cells_spec(ax, ay, aw, ah, cols as int, first as int, 0, n as int);
    let mut i: usize = 0;
    while i < n
        invariant
            i <= n,
            cols >= 1,
            cols as int == (if aw / 13 >= 1 { aw / 13 } else { 1 }),
            cols <= 5041,
            rows as int == (if ah / 8 >= 1 { ah / 8 } else { 1 }),
            n <= cols * rows,
            first + n <= page_count || n == 0,
            !(ah < 3 || aw < 10 || page_count == 0),
            ax + aw < u16::MAX,
            ay + ah < u16::MAX,
            full == grid_cells_spec(ax, ay, aw, ah, cols as int, first as int, 0, n as int),
            full == cells@ + grid_cells_spec(ax, ay, aw, ah, cols as int, first as int, i as int, n as int),
        decreases n - i,
    {
        let col = i % cols;
        let row = i / cols;
        proof {
            assert(row < rows) by (nonlinear_arith)
                requires
                    row == i / cols,
                    i < n,
                    n <= cols * rows,
                    cols >= 1,
            ;
            assert(col * 13 <= 5040 * 13) by (nonlinear_arith)
                requires
                    col < cols,
                    cols <= 5041,
            ;
            assert(row * 8 <= ah as int) by (nonlinear_arith)
                requires
                    row < rows,
                    rows as int == (if ah / 8 >= 1 { ah / 8 } else { 1 }),
            ;
        }
        let x: u32 = ax as u32 + (col as u32) * 13;
        let y: u32 = ay as u32 + (row as u32) * 8;
        if x + 12 > ax as u32 + aw as u32 || y + 8 > ay as u32 + ah as u32 {
            assert(grid_cells_spec(ax, ay, aw, ah, cols as int, first as int, i as int, n as int) =~= Seq::<(usize, u16, u16)>::empty());
            assert(full =~= cells@);
            return cells;
        }
        let ghost rest = grid_cells_spec(ax, ay, aw, ah, cols as int, first as int, i + 1, n as int);
        cells.push((first + i, x as u16, y as u16));
        assert(full =~= cells@ + rest);
        i = i + 1;
    }
    assert(full =~= cells@);
    cells
}

/// Title of a thumbnail cell: the page number, `×` when marked for deletion, and the
/// group label, padded with spaces.
pub open spec fn thumb_title_spec(page_idx: nat, deleted: bool, label: Option<Seq<char>>) -> Seq<char> {
    let t = " "@ + decimal(page_idx + 1) + " "@;
    let t = if deleted { t.push('×') } else { t };
    let t = match label {
        Some(l) => t + l,
        None => t,
    };
    if deleted || label is Some {
        t.push(' ')
    } else {
        t
    }
}

/// Title of a thumbnail cell.
pub fn thumb_title(page_idx: usize, deleted: bool, label: Option<&str>) -> (t: String)
    requires
        page_idx < usize::MAX,
    ensures
        t@ == thumb_title_spec(page_idx as nat, deleted, match label {
            Some(l) => Some(l@),
            None => None,
        }),
{
    let mut t = String::from_str(" ");
    push_str(&mut t, decimal_string(page_idx + 1).as_str());
    push_str(&mut t, " ");
    if deleted {
        push_char(&mut t, '×');
    }
    match label {
        Some(l) => push_str(&mut t, l),
        None => {},
    }
    if deleted || label.is_some() {
        push_char(&mut t, ' ');
    }
    t
}

/// The label of the group of page `page_idx`, when it has a known group.
pub open spec fn label_of(w: WorkspaceView, page_idx: int) -> Option<Seq<char>> {
    if 0 <= page_idx < w.pages.len() {
        match w.pages[page_idx].output_target {
            Some(id) => if id < w.output_targets.len() {
                Some(w.output_targets[id as int].label)
            } else {
                None
            },
            None => None,
        }
    } else {
        None
    }
}

/// The group label of a page, if it is assigned to a known group.
pub fn group_label(app: &App, page_idx: usize) -> (l: Option<String>)
    ensures
        match l {
            Some(s) => label_of(app.workspace@, page_idx as int) == Some(s@),
            None => label_of(app.workspace@, page_idx as int) is None,
        },
{
    if page_idx >= app.workspace.pages.len() {
        return None;
    }
    match app.workspace.pages[page_idx].output_target {
        Some(id) => {
            if id < app.workspace.output_targets.len() {
                Some(app.workspace.output_targets[id].label.clone())
            } else {
                None
            }
        },
        None => None,
    }
}

/// Pages whose thumbnails are on screen: the grid screen holding the current page in the
/// thumbnails-only layout, otherwise four pages either side of the current one.
pub open spec fn visible_range_spec(layout: LayoutMode, current: usize, page_count: usize, term_w: u16, term_h: u16) -> (int, int) {
    if layout == LayoutMode::ThumbnailsOnly {
        let grid_w: int = if term_w >= 13 { term_w - 13 } else { 0 };
        let cols: int = if grid_w / 13 >= 1 { grid_w / 13 } else { 1 };
        let h: int = if term_h >= 2 { term_h - 2 } else { 0 };
        let rows: int = if h / 8 >= 1 { h / 8 } else { 1 };
        let per = cols * rows;
        let start = (current as int / per) * per;
        (start, if start + per <= page_count { start + per } else { page_count as int })
    } else {
        (if current >= 4 { current - 4 } else { 0 }, if current + 5 <= page_count { current + 5 } else { page_count as int })
    }
}

/// Compute the range of page indices that are visible in the thumbnail area.
pub fn visible_thumb_range(layout: LayoutMode, current: usize, page_count: usize, term_w: u16, term_h: u16) -> (r: (usize, usize))
    requires
        current < usize::MAX - 5,
    ensures
        (r.0 as int, r.1 as int) == visible_range_spec(layout, current, page_count, term_w, term_h),
{
    if layout == LayoutMode::ThumbnailsOnly {
        let cell_w: u16 = thumb_cell_width(THUMB_CELL_HEIGHT);
        assert(cell_w == 12);
        let grid_w = if term_w >= 13 { term_w - 13 } else { 0 };
        let cols: usize = if grid_w / (cell_w + 1) >= 1 { (grid_w / (cell_w + 1)) as usize } else { 1 };
        let h = if term_h >= 2 { term_h - 2 } else { 0 };
        let rows: usize = if h / 8 >= 1 { (h / 8) as usize } else { 1 };
        assert(1 <= cols <= 5041 && 1 <= rows <= 8191);
        assert(1 <= cols * rows <= 5041 * 8191) by (nonlinear_arith)
            requires
                1 <= cols <= 5041,
                1 <= rows <= 8191,
        ;
        let per = cols * rows;
        assert((current / per) * per <= current) by (nonlinear_arith)
            requires
                per > 0,
        ;
        let start = (current / per) * per;
        let end = if start <= page_count && per <= page_count - start { start + per } else { page_count };
        (start, end)
    } else {
        let start = if current >= 4 { current - 4 } else { 0 };
        let end = if current + 5 <= page_count { current + 5 } else { page_count };
        (start, end)
    }
}

} // verus!
