use pdfoverlay::config::{DataRow, FieldSpec, PlaceConfig, SettingsSection};
use pdfoverlay::content::ContentError;
use pdfoverlay::dimension::Dimension;
use pdfoverlay::document::{create_output_pdf, should_use_cid_font, BuildError};
use pdfoverlay::object::{ObjectId, PdfDict, PdfObject, PdfStream};
use pdfoverlay::store::ObjectStore;

fn id(num: u32) -> ObjectId {
    ObjectId { num, gen: 0 }
}

fn key(id: ObjectId) -> u64 {
    ((id.num as u64) << 16) | id.gen as u64
}

fn dict(entries: Vec<(&str, PdfObject)>) -> PdfDict {
    PdfDict { entries: entries.into_iter().map(|(k, v)| (k.as_bytes().to_vec(), v)).collect() }
}

fn name(s: &str) -> PdfObject {
    PdfObject::Name(s.as_bytes().to_vec())
}

/// A one-page template: pages root 1, page 2, content 3, resources 4.
fn template() -> ObjectStore {
    let mut doc = ObjectStore::new();
    doc.insert_loaded(
        id(1),
        PdfObject::Dictionary(dict(vec![
            ("Type", name("Pages")),
            ("Kids", PdfObject::Array(vec![PdfObject::Reference(id(2))])),
            ("Count", PdfObject::Integer(1)),
        ])),
    );
    doc.insert_loaded(
        id(2),
        PdfObject::Dictionary(dict(vec![
            ("Type", name("Page")),
            ("Parent", PdfObject::Reference(id(1))),
            ("Contents", PdfObject::Reference(id(3))),
            ("Resources", PdfObject::Reference(id(4))),
        ])),
    );
    doc.insert_loaded(id(3), PdfObject::Stream(PdfStream { dict: dict(vec![]), content: b"BT ET".to_vec() }));
    doc.insert_loaded(id(4), PdfObject::Dictionary(dict(vec![("ProcSet", PdfObject::Array(vec![name("PDF")]))])));
    doc
}

fn pt(v: i64) -> Dimension {
    Dimension::from_points(v)
}

fn field(t: &str) -> FieldSpec {
    FieldSpec { x: pt(10), y: pt(10), w: pt(50), h: pt(50), output_type: t.to_string(), font_size: None }
}

fn row(pairs: &[(&str, &str)]) -> DataRow {
    DataRow { data: pairs.iter().map(|(k, v)| (k.to_string(), v.to_string())).collect() }
}

fn config(fields: Vec<(&str, FieldSpec)>) -> PlaceConfig {
    PlaceConfig {
        fields: fields.into_iter().map(|(n, f)| (n.to_string(), f)).collect(),
        settings: SettingsSection { font: None },
    }
}

fn get(doc: &ObjectStore, i: ObjectId) -> &PdfObject {
    doc.objects.get(&key(i)).unwrap()
}

fn as_dict(o: &PdfObject) -> &PdfDict {
    match o {
        PdfObject::Dictionary(d) => d,
        _ => panic!("not a dictionary"),
    }
}

fn entry<'a>(d: &'a PdfDict, k: &str) -> &'a PdfObject {
    d.get(&k.as_bytes().to_vec()).unwrap()
}

#[test]
fn three_rows_give_three_pages() {
    let mut doc = template();
    let cfg = config(vec![("code", field("QR")), ("label", field("Text"))]);
    let rows = vec![
        row(&[("code", "A1"), ("label", "first")]),
        row(&[("code", "A2"), ("label", "second")]),
        row(&[("code", "A3")]),
    ];
    create_output_pdf(&mut doc, id(2), id(1), pt(842), &rows, &cfg, None).unwrap();
    let pages = as_dict(get(&doc, id(1)));
    let kids = match entry(pages, "Kids") {
        PdfObject::Array(a) => a.clone_refs(),
        _ => panic!("no kids"),
    };
    assert_eq!(kids.len(), 3);
    assert_eq!(kids[0], id(2));
    assert!(matches!(entry(pages, "Count"), PdfObject::Integer(3)));
    for (n, page_id) in kids.iter().enumerate() {
        let page = as_dict(get(&doc, *page_id));
        let contents = match entry(page, "Contents") {
            PdfObject::Array(a) => a.clone_refs(),
            _ => panic!("contents not an array"),
        };
        // template content first, then this row's overlay
        assert_eq!(contents.len(), 2);
        assert_eq!(contents[0], id(3));
        let overlay = match get(&doc, contents[1]) {
            PdfObject::Stream(s) => String::from_utf8(s.content.clone()).unwrap(),
            _ => panic!("overlay missing"),
        };
        let expected = ["(first)", "(second)", "()"][n];
        assert!(overlay.contains(expected), "page {} overlay {}", n, overlay);
        assert!(overlay.contains(" cm /Im"));
        // each page has its own resource dictionary, the template's is untouched
        let res_id = match entry(page, "Resources") {
            PdfObject::Reference(r) => *r,
            _ => panic!("resources not a reference"),
        };
        assert_ne!(res_id, id(4));
        let res = as_dict(get(&doc, res_id));
        assert!(res.get(&b"ProcSet".to_vec()).is_some());
        let fonts = as_dict(entry(res, "Font"));
        assert!(fonts.get(&b"Helvetica".to_vec()).is_some());
        let images = as_dict(entry(res, "XObject"));
        assert_eq!(images.entries.len(), 1);
    }
    let shared = as_dict(get(&doc, id(4)));
    assert!(shared.get(&b"Font".to_vec()).is_none());
    assert!(shared.get(&b"XObject".to_vec()).is_none());
}

trait Refs {
    fn clone_refs(&self) -> Vec<ObjectId>;
}

impl Refs for Vec<PdfObject> {
    fn clone_refs(&self) -> Vec<ObjectId> {
        self.iter()
            .map(|o| match o {
                PdfObject::Reference(r) => *r,
                _ => panic!("not a reference"),
            })
            .collect()
    }
}

#[test]
fn one_row_reuses_the_template_page() {
    let mut doc = template();
    let cfg = config(vec![("label", field("Text"))]);
    let rows = vec![row(&[("label", "only")])];
    create_output_pdf(&mut doc, id(2), id(1), pt(842), &rows, &cfg, None).unwrap();
    let pages = as_dict(get(&doc, id(1)));
    assert!(matches!(entry(pages, "Count"), PdfObject::Integer(1)));
}

#[test]
fn unknown_output_type_fails_before_any_change() {
    let mut doc = template();
    let before = doc.max_id;
    let cfg = config(vec![("label", field("Text")), ("code", field("Barcode"))]);
    let rows = vec![row(&[("label", "x")])];
    let r = create_output_pdf(&mut doc, id(2), id(1), pt(842), &rows, &cfg, None);
    assert!(matches!(r, Err(BuildError::Content(ContentError::UnknownOutputType(t))) if t == "Barcode"));
    assert_eq!(doc.max_id, before);
    assert_eq!(doc.objects.len(), 4);
    let page = as_dict(get(&doc, id(2)));
    assert!(matches!(entry(page, "Contents"), PdfObject::Reference(_)));
}

#[test]
fn missing_template_page_is_an_error() {
    let mut doc = template();
    let cfg = config(vec![("label", field("Text"))]);
    let rows = vec![row(&[("label", "x")])];
    let r = create_output_pdf(&mut doc, id(9), id(1), pt(842), &rows, &cfg, None);
    assert!(matches!(r, Err(BuildError::NoPagesInTemplate)));
}

#[test]
fn wide_text_is_detected_over_placed_fields_only() {
    let cfg = config(vec![("label", field("Text"))]);
    assert!(!should_use_cid_font(&vec![row(&[("label", "abc"), ("other", "日本")])], &cfg));
    assert!(should_use_cid_font(&vec![row(&[("label", "abc")]), row(&[("label", "日本")])], &cfg));
}

#[test]
fn wide_text_embeds_a_composite_font_when_one_is_given() {
    let mut doc = template();
    let cfg = config(vec![("label", field("Text"))]);
    let rows = vec![row(&[("label", "日本")])];
    let font = (vec![0u8, 1, 2, 3], "Some Font".to_string());
    create_output_pdf(&mut doc, id(2), id(1), pt(842), &rows, &cfg, Some(font)).unwrap();
    let page = as_dict(get(&doc, id(2)));
    let res_id = match entry(page, "Resources") {
        PdfObject::Reference(r) => *r,
        _ => panic!(),
    };
    let fonts = as_dict(entry(as_dict(get(&doc, res_id)), "Font"));
    assert!(fonts.get(&b"Some-Font".to_vec()).is_some());
    let contents = match entry(page, "Contents") {
        PdfObject::Array(a) => a.clone_refs(),
        _ => panic!(),
    };
    let overlay = match get(&doc, contents[1]) {
        PdfObject::Stream(s) => String::from_utf8(s.content.clone()).unwrap(),
        _ => panic!(),
    };
    assert!(overlay.contains("/Some-Font 25 Tf"));
    assert!(overlay.contains("<65E5672C>"));
}

#[test]
fn settings_font_names_the_standard_font() {
    let mut doc = template();
    let mut cfg = config(vec![("label", field("Text"))]);
    cfg.settings.font = Some("courier".to_string());
    let rows = vec![row(&[("label", "x")])];
    let before = doc.max_id;
    create_output_pdf(&mut doc, id(2), id(1), pt(842), &rows, &cfg, None).unwrap();
    let font = as_dict(get(&doc, id(before + 1)));
    assert!(matches!(entry(font, "BaseFont"), PdfObject::Name(n) if n == b"Courier"));
    let page = as_dict(get(&doc, id(2)));
    let contents = match entry(page, "Contents") {
        PdfObject::Array(a) => a.clone_refs(),
        _ => panic!(),
    };
    let overlay = match get(&doc, contents[1]) {
        PdfObject::Stream(s) => String::from_utf8(s.content.clone()).unwrap(),
        _ => panic!(),
    };
    assert!(overlay.contains("/Courier 25 Tf"));
}

#[test]
fn ascii_rows_embed_no_composite_font_even_when_one_is_given() {
    let mut doc = template();
    let cfg = config(vec![("label", field("Text"))]);
    let rows = vec![row(&[("label", "plain")])];
    let before = doc.max_id;
    let font = (vec![0u8, 1, 2, 3], "Some Font".to_string());
    create_output_pdf(&mut doc, id(2), id(1), pt(842), &rows, &cfg, Some(font)).unwrap();
    // the standard font, the overlay stream and the page's resources
    assert_eq!(doc.max_id, before + 3);
}
