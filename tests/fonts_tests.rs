use pdfoverlay::fonts::{build_cidtogid_map, create_font, embed_cid_font, select_standard_font, StandardFont};
use pdfoverlay::object::{ObjectId, PdfObject};
use pdfoverlay::store::ObjectStore;

fn obj(doc: &ObjectStore, num: u32) -> &PdfObject {
    doc.objects.get(&((num as u64) << 16)).unwrap()
}

#[test]
fn standard_font_names() {
    assert_eq!(StandardFont::Helvetica.base_font_name(), "Helvetica");
    assert_eq!(StandardFont::TimesBoldItalic.base_font_name(), "Times-BoldItalic");
    assert_eq!(StandardFont::CourierOblique.base_font_name(), "Courier-Oblique");
}

#[test]
fn font_names_in_any_case() {
    assert_eq!(StandardFont::from_name("HELVETICA-BOLD"), Some(StandardFont::HelveticaBold));
    assert_eq!(StandardFont::from_name("times"), Some(StandardFont::TimesRoman));
    assert_eq!(StandardFont::from_name("Times-Roman"), Some(StandardFont::TimesRoman));
    assert_eq!(StandardFont::from_name("Courier-BoldOblique"), Some(StandardFont::CourierBoldOblique));
    assert_eq!(StandardFont::from_name("Arial"), None);
    assert_eq!(StandardFont::from_lowercase_name("Helvetica"), None);
}

#[test]
fn unknown_or_absent_family_falls_back_to_helvetica() {
    assert_eq!(select_standard_font(None), StandardFont::Helvetica);
    assert_eq!(select_standard_font(Some("Comic")), StandardFont::Helvetica);
    assert_eq!(select_standard_font(Some("courier")), StandardFont::Courier);
}

#[test]
fn standard_font_object() {
    let mut doc = ObjectStore::new();
    let (id, name) = create_font(&mut doc, StandardFont::TimesBold).unwrap();
    assert_eq!(id, ObjectId { num: 1, gen: 0 });
    assert_eq!(name, "Times-Bold");
    match obj(&doc, 1) {
        PdfObject::Dictionary(d) => {
            assert!(matches!(d.get(&b"BaseFont".to_vec()), Some(PdfObject::Name(n)) if n == b"Times-Bold"));
            assert!(matches!(d.get(&b"Subtype".to_vec()), Some(PdfObject::Name(n)) if n == b"Type1"));
        }
        _ => panic!(),
    }
}

#[test]
fn unparseable_font_has_no_table() {
    assert!(build_cidtogid_map(&[0, 1, 2, 3]).is_none());
}

#[test]
fn unparseable_font_falls_back_to_identity_mapping() {
    let mut doc = ObjectStore::new();
    let (id, name) = embed_cid_font(&mut doc, &[9, 9, 9], "Noto Sans JP").unwrap();
    assert_eq!(name, "Noto-Sans-JP");
    assert_eq!(id.num, 4);
    match obj(&doc, 3) {
        PdfObject::Dictionary(d) => {
            assert!(matches!(d.get(&b"CIDToGIDMap".to_vec()), Some(PdfObject::Name(n)) if n == b"Identity"));
        }
        _ => panic!(),
    }
    match obj(&doc, 1) {
        PdfObject::Stream(s) => assert_eq!(s.content, vec![9, 9, 9]),
        _ => panic!(),
    }
}

fn be16(v: u16) -> [u8; 2] {
    v.to_be_bytes()
}

/// A minimal TrueType program whose character map sends 'A' to glyph 5 and
/// 'B' to glyph 7.
fn tiny_font() -> Vec<u8> {
    let mut head = vec![0u8; 54];
    head[0..4].copy_from_slice(&[0, 1, 0, 0]);
    head[18..20].copy_from_slice(&be16(1000));
    let mut hhea = vec![0u8; 36];
    hhea[0..4].copy_from_slice(&[0, 1, 0, 0]);
    hhea[34..36].copy_from_slice(&be16(1));
    let maxp = vec![0, 0, 0x50, 0, 0, 8];
    let mut cmap = Vec::new();
    for v in [0u16, 1, 0, 3] {
        cmap.extend_from_slice(&be16(v));
    }
    cmap.extend_from_slice(&12u32.to_be_bytes());
    for v in [6u16, 14, 0, 0x41, 2, 5, 7] {
        cmap.extend_from_slice(&be16(v));
    }
    let tables: Vec<(&[u8; 4], Vec<u8>)> = vec![(b"cmap", cmap), (b"head", head), (b"hhea", hhea), (b"maxp", maxp)];
    let mut out = Vec::new();
    out.extend_from_slice(&[0, 1, 0, 0]);
    out.extend_from_slice(&be16(tables.len() as u16));
    out.extend_from_slice(&[0, 0, 0, 0, 0, 0]);
    let mut offset = 12 + 16 * tables.len();
    let mut body = Vec::new();
    for (tag, data) in &tables {
        out.extend_from_slice(*tag);
        out.extend_from_slice(&0u32.to_be_bytes());
        out.extend_from_slice(&(offset as u32).to_be_bytes());
        out.extend_from_slice(&(data.len() as u32).to_be_bytes());
        let mut padded = data.clone();
        while padded.len() % 4 != 0 {
            padded.push(0);
        }
        offset += padded.len();
        body.extend_from_slice(&padded);
    }
    out.extend_from_slice(&body);
    out
}

#[test]
fn glyph_table_follows_the_character_map() {
    let table = build_cidtogid_map(&tiny_font()).unwrap();
    assert_eq!(table.len(), 131072);
    assert_eq!(&table[0x41 * 2..0x41 * 2 + 4], &[0, 5, 0, 7]);
    assert_eq!(&table[0x40 * 2..0x40 * 2 + 2], &[0, 0]);
    assert_eq!(&table[0x3042 * 2..0x3042 * 2 + 2], &[0, 0]);
}

#[test]
fn parsed_font_gets_a_glyph_table_stream() {
    let mut doc = ObjectStore::new();
    let font = tiny_font();
    let (id, _) = embed_cid_font(&mut doc, &font, "Tiny").unwrap();
    assert_eq!(id.num, 5);
    match obj(&doc, 1) {
        PdfObject::Stream(s) => assert_eq!(s.content.len(), 131072),
        _ => panic!(),
    }
    match obj(&doc, 4) {
        PdfObject::Dictionary(d) => {
            assert!(matches!(d.get(&b"CIDToGIDMap".to_vec()), Some(PdfObject::Reference(r)) if r.num == 1));
        }
        _ => panic!(),
    }
}
