use hayro::hayro_interpret::font::{Glyph, GlyphRun};
use hayro::hayro_interpret::hayro_cmap::BfString;
use hayro::hayro_interpret::{
    interpret_page, BlendMode, ClipPath, Context, Device, DrawMode, DrawProps, Image, ImageDrawProps,
    InterpreterCache, InterpreterSettings, SoftMask,
};
use hayro::hayro_syntax::Pdf;
use hayro::kurbo::{Affine, BezPath, Point, Rect};
use lopdf::{Dictionary, Object, Stream};
use pdft::render::text_layout::{text_grid, PlacedChar, POINT, SNAP_LIMIT};

/// A one-page PDF (US Letter) whose lines of text, each `(x, y from the top, font size,
/// font, text)`, are set in standard fonts.
fn pdf_with_lines(lines: &[(f64, f64, f64, &str, &str)]) -> Vec<u8> {
    let mut doc = lopdf::Document::with_version("1.5");
    let pages_id = doc.new_object_id();
    let mut fonts = Dictionary::new();
    for (key, base) in [("F1", "Helvetica"), ("F2", "Helvetica-Bold"), ("F3", "Helvetica-Oblique")] {
        let mut font = Dictionary::new();
        font.set("Type", Object::Name(b"Font".to_vec()));
        font.set("Subtype", Object::Name(b"Type1".to_vec()));
        font.set("BaseFont", Object::Name(base.as_bytes().to_vec()));
        font.set("Encoding", Object::Name(b"WinAnsiEncoding".to_vec()));
        fonts.set(key, Object::Reference(doc.add_object(Object::Dictionary(font))));
    }
    let mut content = String::new();
    for (x, y, size, font, text) in lines {
        content.push_str(&format!("BT /{font} {size} Tf {x} {} Td ({text}) Tj ET\n", 792.0 - y));
    }
    let content_id = doc.add_object(Stream::new(Dictionary::new(), content.into_bytes()));
    let mut resources = Dictionary::new();
    resources.set("Font", Object::Dictionary(fonts));
    let mut page = Dictionary::new();
    page.set("Type", Object::Name(b"Page".to_vec()));
    page.set("Parent", Object::Reference(pages_id));
    page.set("MediaBox", Object::Array(vec![0.into(), 0.into(), 612.into(), 792.into()]));
    page.set("Resources", Object::Dictionary(resources));
    page.set("Contents", Object::Reference(content_id));
    let page_id = doc.add_object(Object::Dictionary(page));
    let mut pages = Dictionary::new();
    pages.set("Type", Object::Name(b"Pages".to_vec()));
    pages.set("Count", Object::Integer(1));
    pages.set("Kids", Object::Array(vec![Object::Reference(page_id)]));
    doc.objects.insert(pages_id, Object::Dictionary(pages));
    let mut catalog = Dictionary::new();
    catalog.set("Type", Object::Name(b"Catalog".to_vec()));
    catalog.set("Pages", Object::Reference(pages_id));
    let catalog_id = doc.add_object(Object::Dictionary(catalog));
    doc.trailer.set("Root", Object::Reference(catalog_id));
    let mut out = Vec::new();
    doc.save_to(&mut out).unwrap();
    out
}

fn units(v: f64) -> i64 {
    let u = (v * POINT as f64).round();
    if u.is_nan() {
        0
    } else {
        u.clamp(-(SNAP_LIMIT as f64), SNAP_LIMIT as f64) as i64
    }
}

/// Collects the positioned characters of a page, as the viewer's text mode does.
struct Glyphs {
    chars: Vec<PlacedChar>,
    page_height: f64,
}

impl<'a> Device<'a> for Glyphs {
    fn draw_path(&mut self, _: &BezPath, _: DrawProps<'a>, _: &DrawMode) {}
    fn push_clip_path(&mut self, _: &ClipPath) {}
    fn push_transparency_group(&mut self, _: f32, _: Option<SoftMask<'a>>, _: BlendMode) {}
    fn draw_image(&mut self, _: Image<'a, '_>, _: ImageDrawProps<'a>) {}
    fn pop_clip(&mut self) {}
    fn pop_transparency_group(&mut self) {}

    fn draw_glyph_run(&mut self, run: &GlyphRun<'_, 'a>, props: DrawProps<'a>, _: &DrawMode) {
        for glyph in run.glyphs() {
            let s = match glyph.as_unicode() {
                Some(BfString::Char(c)) if !c.is_control() => c.to_string(),
                Some(BfString::String(s)) => s,
                _ => continue,
            };
            if s.is_empty() {
                continue;
            }
            let combined = props.transform * glyph.transform();
            let pos = combined * Point::ZERO;
            let advance = match &**glyph {
                Glyph::Outline(og) => og.advance_width().map(|aw| (combined * Point::new(aw as f64, 0.0)).x - pos.x),
                _ => None,
            };
            let next_x = match advance {
                Some(adv) if adv > 0.0 => pos.x + adv,
                _ => pos.x,
            };
            self.chars.push(PlacedChar {
                x: units(pos.x),
                y: units(self.page_height - pos.y),
                next_x: units(next_x),
                ch: s,
            });
        }
    }
}

/// The text of the PDF's first page laid out `width` columns wide (`pdft text`).
fn run_text(pdf: &[u8], width: u16, _height: u16) -> String {
    let pdf = Pdf::new(pdf.to_vec()).unwrap();
    let pages = pdf.pages();
    let page = pages.first().unwrap();
    let dims = page.render_dimensions();
    let mut glyphs = Glyphs { chars: Vec::new(), page_height: dims.1 as f64 };
    let cache = InterpreterCache::new();
    let mut context = Context::new(
        Affine::IDENTITY,
        Rect::new(0.0, 0.0, dims.0 as f64, dims.1 as f64),
        &cache,
        pdf.xref(),
        InterpreterSettings::default(),
    );
    interpret_page(page, &mut context, &mut glyphs);
    text_grid(&mut glyphs.chars, width).join("\n")
}

/// A heading, a paragraph and a short list.
fn simple_pdf() -> Vec<u8> {
    pdf_with_lines(&[
        (72.0, 72.0, 18.0, "F2", "Hello World"),
        (72.0, 110.0, 11.0, "F1", "This is a simple test document."),
        (72.0, 124.0, 11.0, "F1", "It has a paragraph and a list."),
        (84.0, 152.0, 11.0, "F1", "- Item one"),
        (84.0, 166.0, 11.0, "F1", "- Item two"),
        (84.0, 180.0, 11.0, "F1", "- Item three"),
    ])
}

/// Two columns of text side by side, and a row of digits.
fn columns_pdf() -> Vec<u8> {
    pdf_with_lines(&[
        (72.0, 72.0, 11.0, "F1", "The quick brown fox"),
        (320.0, 72.0, 11.0, "F1", "This is the right column"),
        (72.0, 86.0, 11.0, "F1", "jumps over the lazy"),
        (320.0, 86.0, 11.0, "F1", "of the page, set apart"),
        (72.0, 100.0, 11.0, "F1", "dog in the left"),
        (320.0, 100.0, 11.0, "F1", "from the left one by"),
        (72.0, 114.0, 11.0, "F1", "column of the page."),
        (320.0, 114.0, 11.0, "F1", "a wide gutter."),
        (72.0, 142.0, 11.0, "F1", "1234567890"),
    ])
}

/// A heading, bold and italic text and a small table.
fn mixed_pdf() -> Vec<u8> {
    pdf_with_lines(&[
        (72.0, 60.0, 20.0, "F2", "Mixed Content"),
        (72.0, 100.0, 11.0, "F1", "Some"),
        (102.0, 100.0, 11.0, "F2", "bold text"),
        (160.0, 100.0, 11.0, "F1", "and some"),
        (210.0, 100.0, 11.0, "F3", "italic text."),
        (72.0, 130.0, 11.0, "F2", "Name"),
        (200.0, 130.0, 11.0, "F2", "Value"),
        (72.0, 144.0, 11.0, "F1", "Width"),
        (200.0, 144.0, 11.0, "F1", "120"),
        (72.0, 158.0, 11.0, "F1", "Height"),
        (200.0, 158.0, 11.0, "F1", "80"),
    ])
}

// --- simple ---

#[test]
fn simple_extracts_heading() {
    let text = run_text(&simple_pdf(), 80, 60);
    assert!(text.contains("Hello World"), "expected heading in: {text}");
}

#[test]
fn simple_extracts_paragraph() {
    let text = run_text(&simple_pdf(), 80, 60);
    assert!(text.contains("simple test document"), "expected paragraph text in: {text}");
}

#[test]
fn simple_extracts_list_items() {
    let text = run_text(&simple_pdf(), 80, 60);
    assert!(text.contains("Item one"), "expected list item in: {text}");
    assert!(text.contains("Item two"), "expected list item in: {text}");
    assert!(text.contains("Item three"), "expected list item in: {text}");
}

// --- columns ---

#[test]
fn columns_extracts_both_columns() {
    let text = run_text(&columns_pdf(), 120, 60);
    assert!(text.contains("quick brown fox"), "expected left column text in: {text}");
    assert!(text.contains("right column"), "expected right column text in: {text}");
}

#[test]
fn columns_extracts_numbers() {
    let text = run_text(&columns_pdf(), 120, 60);
    assert!(text.contains("1234567890"), "expected numbers in: {text}");
}

// --- mixed ---

#[test]
fn mixed_extracts_heading() {
    let text = run_text(&mixed_pdf(), 80, 60);
    assert!(text.contains("Mixed Content"), "expected heading in: {text}");
}

#[test]
fn mixed_extracts_table_data() {
    let text = run_text(&mixed_pdf(), 80, 60);
    assert!(text.contains("Name"), "expected table header in: {text}");
    assert!(text.contains("Width"), "expected table row in: {text}");
    assert!(text.contains("120"), "expected table value in: {text}");
}

#[test]
fn mixed_extracts_styled_text() {
    let text = run_text(&mixed_pdf(), 80, 60);
    assert!(text.contains("bold text"), "expected bold text in: {text}");
    assert!(text.contains("italic text"), "expected italic text in: {text}");
}
