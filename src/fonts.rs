//! Font provisioning: the standard single-byte fonts and the composite font
//! with its glyph-translation table.
use vstd::prelude::*;
use crate::object::{
    dict_view, entry, int_entry, name_bytes, name_entry, obj_view, ref_entry, Obj, ObjectId,
    PdfDict, PdfObject, PdfStream,
};
use crate::store::ObjectStore;
use crate::text::push_char;

verus! {

/// The fourteen-font set's three families in four styles each.
#[derive(Debug, Clone, Copy, PartialEq, Eq, Structural)]
pub enum StandardFont {
    Helvetica,
    HelveticaBold,
    HelveticaOblique,
    HelveticaBoldOblique,
    TimesRoman,
    TimesBold,
    TimesItalic,
    TimesBoldItalic,
    Courier,
    CourierBold,
    CourierOblique,
    CourierBoldOblique,
}

pub open spec fn base_name(f: StandardFont) -> Seq<char> {
    match f {
        StandardFont::Helvetica => "Helvetica"@,
        StandardFont::HelveticaBold => "Helvetica-Bold"@,
        StandardFont::HelveticaOblique => "Helvetica-Oblique"@,
        StandardFont::HelveticaBoldOblique => "Helvetica-BoldOblique"@,
        StandardFont::TimesRoman => "Times-Roman"@,
        StandardFont::TimesBold => "Times-Bold"@,
        StandardFont::TimesItalic => "Times-Italic"@,
        StandardFont::TimesBoldItalic => "Times-BoldItalic"@,
        StandardFont::Courier => "Courier"@,
        StandardFont::CourierBold => "Courier-Bold"@,
        StandardFont::CourierOblique => "Courier-Oblique"@,
        StandardFont::CourierBoldOblique => "Courier-BoldOblique"@,
    }
}

/// The font that a lower-case family name denotes, if any.
pub open spec fn font_of_lower(s: Seq<char>) -> Option<StandardFont> {
    if s == "helvetica"@ {
        Some(StandardFont::Helvetica)
    } else if s == "helvetica-bold"@ {
        Some(StandardFont::HelveticaBold)
    } else if s == "helvetica-oblique"@ {
        Some(StandardFont::HelveticaOblique)
    } else if s == "helvetica-boldoblique"@ {
        Some(StandardFont::HelveticaBoldOblique)
    } else if s == "times"@ || s == "times-roman"@ {
        Some(StandardFont::TimesRoman)
    } else if s == "times-bold"@ {
        Some(StandardFont::TimesBold)
    } else if s == "times-italic"@ {
        Some(StandardFont::TimesItalic)
    } else if s == "times-bolditalic"@ {
        Some(StandardFont::TimesBoldItalic)
    } else if s == "courier"@ {
        Some(StandardFont::Courier)
    } else if s == "courier-bold"@ {
        Some(StandardFont::CourierBold)
    } else if s == "courier-oblique"@ {
        Some(StandardFont::CourierOblique)
    } else if s == "courier-boldoblique"@ {
        Some(StandardFont::CourierBoldOblique)
    } else {
        None
    }
}

/// What `str::to_lowercase` makes of a text.
pub uninterp spec fn lower_of(s: Seq<char>) -> Seq<char>;

/// Relies on `str::to_lowercase`: the result depends on the characters alone.
#[verifier::external_body]
pub(crate) fn to_lower(s: &str) -> (r: String)
    ensures
        r@ == lower_of(s@),
{
    s.to_lowercase()
}

/// Character-wise equality of two texts.
pub fn str_equal(a: &str, b: &str) -> (r: bool)
    ensures
        r == (a@ == b@),
{
    let n = a.unicode_len();
    let m = b.unicode_len();
    if n != m {
        return false;
    }
    let mut i: usize = 0;
    while i < n
        invariant
            i <= n,
            n == a@.len(),
            m == b@.len(),
            n == m,
            forall|j: int| 0 <= j < i ==> a@[j] == b@[j],
        decreases n - i,
    {
        if a.get_char(i) != b.get_char(i) {
            return false;
        }
        i = i + 1;
    }
    assert(a@ =~= b@);
    true
}

impl StandardFont {
    /// The `BaseFont` name of this font.
    pub fn base_font_name(&self) -> (r: &'static str)
        ensures
            r@ == base_name(*self),
    {
        match self {
            StandardFont::Helvetica => "Helvetica",
            StandardFont::HelveticaBold => "Helvetica-Bold",
            StandardFont::HelveticaOblique => "Helvetica-Oblique",
            StandardFont::HelveticaBoldOblique => "Helvetica-BoldOblique",
            StandardFont::TimesRoman => "Times-Roman",
            StandardFont::TimesBold => "Times-Bold",
            StandardFont::TimesItalic => "Times-Italic",
            StandardFont::TimesBoldItalic => "Times-BoldItalic",
            StandardFont::Courier => "Courier",
            StandardFont::CourierBold => "Courier-Bold",
            StandardFont::CourierOblique => "Courier-Oblique",
            StandardFont::CourierBoldOblique => "Courier-BoldOblique",
        }
    }

    /// Recognises a family name that is already in lower case.
    pub fn from_lowercase_name(name: &str) -> (r: Option<StandardFont>)
        ensures
            r == font_of_lower(name@),
    {
        if str_equal(name, "helvetica") {
            Some(StandardFont::Helvetica)
        } else if str_equal(name, "helvetica-bold") {
            Some(StandardFont::HelveticaBold)
        } else if str_equal(name, "helvetica-oblique") {
            Some(StandardFont::HelveticaOblique)
        } else if str_equal(name, "helvetica-boldoblique") {
            Some(StandardFont::HelveticaBoldOblique)
        } else if str_equal(name, "times") || str_equal(name, "times-roman") {
            Some(StandardFont::TimesRoman)
        } else if str_equal(name, "times-bold") {
            Some(StandardFont::TimesBold)
        } else if str_equal(name, "times-italic") {
            Some(StandardFont::TimesItalic)
        } else if str_equal(name, "times-bolditalic") {
            Some(StandardFont::TimesBoldItalic)
        } else if str_equal(name, "courier") {
            Some(StandardFont::Courier)
        } else if str_equal(name, "courier-bold") {
            Some(StandardFont::CourierBold)
        } else if str_equal(name, "courier-oblique") {
            Some(StandardFont::CourierOblique)
        } else if str_equal(name, "courier-boldoblique") {
            Some(StandardFont::CourierBoldOblique)
        } else {
            None
        }
    }

    /// Recognises a family name in any letter case.
    pub fn from_name(name: &str) -> (r: Option<StandardFont>)
        ensures
            r == font_of_lower(lower_of(name@)),
    {
        let lower = to_lower(name);
        StandardFont::from_lowercase_name(lower.as_str())
    }
}

/// The single-byte font of a run: the named one, or Helvetica when the name
/// is absent or not one of the twelve.
pub fn select_standard_font(name: Option<&str>) -> (r: StandardFont)
    ensures
        name is None ==> r == StandardFont::Helvetica,
        name is Some ==> r == (match font_of_lower(lower_of(name->0@)) {
            Some(f) => f,
            None => StandardFont::Helvetica,
        }),
{
    match name {
        Some(n) => match StandardFont::from_name(n) {
            Some(f) => f,
            None => StandardFont::Helvetica,
        },
        None => StandardFont::Helvetica,
    }
}

/// Whether `ttf_parser` reads the first face of a font program.
pub uninterp spec fn face_parses(font: Seq<u8>) -> bool;

/// The glyph that the first face of a font program maps a code point to.
pub uninterp spec fn glyph_of(font: Seq<u8>, cid: u32) -> Option<u16>;

/// Relies on `ttf_parser::Face::parse` (face 0): whether the font's tables
/// can be read.
#[verifier::external_body]
fn font_face_parses(font: &[u8]) -> (r: bool)
    ensures
        r == face_parses(font@),
{
    ttf_parser::Face::parse(font, 0).is_ok()
}

/// Relies on `ttf_parser::Face::glyph_index` of face 0: the glyph of a code
/// point; none where the face does not parse.
#[verifier::external_body]
fn glyph_index_of(font: &[u8], cid: u32) -> (r: Option<u16>)
    ensures
        r == glyph_of(font@, cid),
        !face_parses(font@) ==> r is None,
        (0xD800 <= cid <= 0xDFFF || cid > 0x10FFFF) ==> r is None,
{
    let face = ttf_parser::Face::parse(font, 0).ok()?;
    let c = char::from_u32(cid)?;
    face.glyph_index(c).map(|g| g.0)
}

/// Number of code points that the glyph-translation table covers.
pub const CID_COUNT: u32 = 0x10000;

/// The glyph of a code point, or the undefined glyph 0.
pub open spec fn gid_at(font: Seq<u8>, cid: int) -> u16 {
    match glyph_of(font, cid as u32) {
        Some(g) => g,
        None => 0,
    }
}

/// The glyph-translation table: for each code point below 0x10000 its glyph
/// as a big-endian 16-bit value.
pub open spec fn gid_table(font: Seq<u8>) -> Seq<u8> {
    Seq::new(
        2 * CID_COUNT as nat,
        |i: int|
            if i % 2 == 0 {
                (gid_at(font, i / 2) / 256) as u8
            } else {
                (gid_at(font, i / 2) % 256) as u8
            },
    )
}

/// Builds the code-point-to-glyph table of a font program; none where the
/// font cannot be parsed.
pub fn build_cidtogid_map(font: &[u8]) -> (r: Option<Vec<u8>>)
    ensures
        r is Some <==> face_parses(font@),
        r matches Some(t) ==> t@ == gid_table(font@),
{
    if !font_face_parses(font) {
        return None;
    }
    let mut table: Vec<u8> = Vec::new();
    let mut cid: u32 = 0;
    while cid < CID_COUNT
        invariant
            cid <= CID_COUNT,
            table@.len() == 2 * cid,
            forall|j: int| 0 <= j < 2 * cid ==> table@[j] == #[trigger] gid_table(font@)[j],
        decreases CID_COUNT - cid,
    {
        let gid: u16 = match glyph_index_of(font, cid) {
            Some(g) => g,
            None => 0,
        };
        table.push((gid / 256) as u8);
        table.push((gid % 256) as u8);
        proof {
            let t = gid_table(font@);
            assert(t[2 * cid as int] == (gid / 256) as u8);
            assert(t[2 * cid + 1] == (gid % 256) as u8);
        }
        cid = cid + 1;
    }
    assert(table@ =~= gid_table(font@));
    Some(table)
}

/// A standard font's dictionary.
pub open spec fn type1_view(base: Seq<char>) -> Seq<(Seq<u8>, Obj)> {
    seq![
        (name_bytes("Type"@), Obj::Name(name_bytes("Font"@))),
        (name_bytes("Subtype"@), Obj::Name(name_bytes("Type1"@))),
        (name_bytes("BaseFont"@), Obj::Name(name_bytes(base))),
    ]
}

/// Adds the (not embedded) dictionary of a standard font; its base name is
/// also the name that content streams use for it.
pub fn create_font(doc: &mut ObjectStore, font: StandardFont) -> (r: Result<
    (ObjectId, String),
    (),
>)
    requires
        old(doc).max_id < u32::MAX,
    ensures
        r matches Ok(t) ==> ({
            &&& t.0 == ObjectId { num: (old(doc).max_id + 1) as u32, gen: 0 }
            &&& final(doc).max_id == old(doc).max_id + 1
            &&& final(doc).obj(t.0) == Some(Obj::Dict(type1_view(base_name(font))))
            &&& forall|o: ObjectId| o != t.0 ==> final(doc).obj(o) == old(doc).obj(o)
            &&& t.1@ == base_name(font)
        }),
        r is Ok,
        old(doc).wf() ==> final(doc).wf(),
{
    let base = font.base_font_name();
    let d = PdfDict {
        entries: vec![
            name_entry("Type", "Font"),
            name_entry("Subtype", "Type1"),
            name_entry("BaseFont", base),
        ],
    };
    assert(dict_view(d) =~= type1_view(base_name(font)));
    let id = doc.add_object(PdfObject::Dictionary(d));
    Ok((id, String::from_str(base)))
}

/// The font name with each space made a hyphen, for use in content streams.
pub open spec fn dashed(s: Seq<char>) -> Seq<char> {
    Seq::new(s.len(), |i: int| if s[i] == ' ' { '-' } else { s[i] })
}

pub fn dashed_name(s: &str) -> (r: String)
    ensures
        r@ == dashed(s@),
{
    let n = s.unicode_len();
    let mut out = String::new();
    let mut i: usize = 0;
    while i < n
        invariant
            i <= n,
            n == s@.len(),
            out@ == dashed(s@).take(i as int),
        decreases n - i,
    {
        let c = s.get_char(i);
        push_char(&mut out, if c == ' ' { '-' } else { c });
        assert(out@ =~= dashed(s@).take(i + 1));
        i = i + 1;
    }
    assert(dashed(s@).take(n as int) =~= dashed(s@));
    out
}

/// A composite font's descriptor, with fixed placeholder metrics.
pub open spec fn descriptor_view(name: Seq<char>, file: ObjectId) -> Seq<(Seq<u8>, Obj)> {
    seq![
        (name_bytes("Type"@), Obj::Name(name_bytes("FontDescriptor"@))),
        (name_bytes("FontName"@), Obj::Name(name_bytes(name))),
        (name_bytes("Flags"@), Obj::Integer(4)),
        (
            name_bytes("FontBBox"@),
            Obj::Array(seq![Obj::Integer(0), Obj::Integer(0), Obj::Integer(1000), Obj::Integer(1000)]),
        ),
        (name_bytes("ItalicAngle"@), Obj::Integer(0)),
        (name_bytes("Ascent"@), Obj::Integer(1000)),
        (name_bytes("Descent"@), Obj::Integer(-200i64)),
        (name_bytes("CapHeight"@), Obj::Integer(700)),
        (name_bytes("StemV"@), Obj::Integer(80)),
        (name_bytes("FontFile2"@), Obj::Reference(file)),
    ]
}

pub open spec fn system_info_view() -> Seq<(Seq<u8>, Obj)> {
    seq![
        (name_bytes("Registry"@), Obj::Str(name_bytes("Adobe"@), false)),
        (name_bytes("Ordering"@), Obj::Str(name_bytes("Identity"@), false)),
        (name_bytes("Supplement"@), Obj::Integer(0)),
    ]
}

/// The descendant font: glyphs addressed through `map`.
pub open spec fn cid_font_view(name: Seq<char>, map: Obj, descriptor: ObjectId) -> Seq<
    (Seq<u8>, Obj),
> {
    seq![
        (name_bytes("Type"@), Obj::Name(name_bytes("Font"@))),
        (name_bytes("Subtype"@), Obj::Name(name_bytes("CIDFontType2"@))),
        (name_bytes("BaseFont"@), Obj::Name(name_bytes(name))),
        (name_bytes("CIDSystemInfo"@), Obj::Dict(system_info_view())),
        (name_bytes("CIDToGIDMap"@), map),
        (name_bytes("FontDescriptor"@), Obj::Reference(descriptor)),
    ]
}

/// The composite font itself, with identity encoding.
pub open spec fn type0_view(name: Seq<char>, descendant: ObjectId) -> Seq<(Seq<u8>, Obj)> {
    seq![
        (name_bytes("Type"@), Obj::Name(name_bytes("Font"@))),
        (name_bytes("Subtype"@), Obj::Name(name_bytes("Type0"@))),
        (name_bytes("BaseFont"@), Obj::Name(name_bytes(name))),
        (name_bytes("Encoding"@), Obj::Name(name_bytes("Identity-H"@))),
        (name_bytes("DescendantFonts"@), Obj::Array(seq![Obj::Reference(descendant)])),
    ]
}

pub open spec fn fresh(doc: ObjectStore, k: int) -> ObjectId {
    ObjectId { num: (doc.max_id + k) as u32, gen: 0 }
}

/// The objects of an embedded composite font, numbered from `base + 1`:
/// the glyph-translation table where the font parses, the font program,
/// its descriptor, the descendant font and the composite font.
pub open spec fn cid_font_embedded(d0: ObjectStore, d1: ObjectStore, font: Seq<u8>, name: Seq<char>, id: ObjectId) -> bool {
    let k: int = if face_parses(font) { 1 } else { 0 };
    &&& id == at(d0.max_id as int, k + 4)
    &&& d1.max_id == d0.max_id + k + 4
    &&& cid_font_objects(d0.max_id as int, d1, font, name)
    &&& forall|o: ObjectId| o.gen != 0 || o.num <= d0.max_id || o.num > d1.max_id ==> d1.obj(o) == d0.obj(o)
}

/// Generation-0 object `base + k`.
pub open spec fn at(base: int, k: int) -> ObjectId {
    ObjectId { num: (base + k) as u32, gen: 0 }
}

/// The number of objects a composite font takes.
pub open spec fn cid_font_size(font: Seq<u8>) -> int {
    if face_parses(font) { 5 } else { 4 }
}

/// The objects of a composite font in `d`, numbered from `base + 1`.
pub open spec fn cid_font_objects(base: int, d: ObjectStore, font: Seq<u8>, name: Seq<char>) -> bool {
    let k: int = if face_parses(font) { 1 } else { 0 };
    let file = at(base, k + 1);
    let descriptor = at(base, k + 2);
    let descendant = at(base, k + 3);
    let map = if face_parses(font) {
        Obj::Reference(at(base, 1))
    } else {
        Obj::Name(name_bytes("Identity"@))
    };
    &&& face_parses(font) ==> d.obj(at(base, 1)) == Some(Obj::Stream(Seq::empty(), gid_table(font)))
    &&& d.obj(file) == Some(
        Obj::Stream(seq![(name_bytes("Length1"@), Obj::Integer(font.len() as i64))], font),
    )
    &&& d.obj(descriptor) == Some(Obj::Dict(descriptor_view(name, file)))
    &&& d.obj(descendant) == Some(Obj::Dict(cid_font_view(name, map, descriptor)))
    &&& d.obj(at(base, k + 4)) == Some(Obj::Dict(type0_view(name, descendant)))
}

fn descriptor_dict(font_name: &str, file_id: ObjectId) -> (r: PdfDict)
    ensures
        dict_view(r) == descriptor_view(font_name@, file_id),
{
    let corners = vec![PdfObject::Integer(0), PdfObject::Integer(0), PdfObject::Integer(1000), PdfObject::Integer(1000)];
    assert(corners@.len() == 4);
    assert(obj_view(corners[0]) == Obj::Integer(0));
    assert(obj_view(corners[1]) == Obj::Integer(0));
    assert(obj_view(corners[2]) == Obj::Integer(1000));
    assert(obj_view(corners[3]) == Obj::Integer(1000));
    let bbox = PdfObject::Array(corners);
    assert(obj_view(bbox)->Array_0 =~= seq![Obj::Integer(0), Obj::Integer(0), Obj::Integer(1000), Obj::Integer(1000)]);
    let r = PdfDict {
        entries: vec![
            name_entry("Type", "FontDescriptor"),
            name_entry("FontName", font_name),
            int_entry("Flags", 4),
            entry("FontBBox", bbox),
            int_entry("ItalicAngle", 0),
            int_entry("Ascent", 1000),
            int_entry("Descent", -200),
            int_entry("CapHeight", 700),
            int_entry("StemV", 80),
            ref_entry("FontFile2", file_id),
        ],
    };
    assert(dict_view(r) =~= descriptor_view(font_name@, file_id));
    r
}

fn cid_font_dict(font_name: &str, map: PdfObject, descriptor_id: ObjectId) -> (r: PdfDict)
    ensures
        dict_view(r) == cid_font_view(font_name@, obj_view(map), descriptor_id),
{
    let info = PdfDict {
        entries: vec![
            entry("Registry", PdfObject::Str(crate::object::name_of("Adobe"), false)),
            entry("Ordering", PdfObject::Str(crate::object::name_of("Identity"), false)),
            int_entry("Supplement", 0),
        ],
    };
    assert(dict_view(info) =~= system_info_view());
    let ghost map_view = obj_view(map);
    let r = PdfDict {
        entries: vec![
            name_entry("Type", "Font"),
            name_entry("Subtype", "CIDFontType2"),
            name_entry("BaseFont", font_name),
            entry("CIDSystemInfo", PdfObject::Dictionary(info)),
            entry("CIDToGIDMap", map),
            ref_entry("FontDescriptor", descriptor_id),
        ],
    };
    assert(dict_view(r) =~= cid_font_view(font_name@, map_view, descriptor_id));
    r
}

fn type0_dict(font_name: &str, descendant: ObjectId) -> (r: PdfDict)
    ensures
        dict_view(r) == type0_view(font_name@, descendant),
{
    let items = vec![PdfObject::Reference(descendant)];
    assert(items@.len() == 1);
    assert(obj_view(items[0]) == Obj::Reference(descendant));
    let kids = PdfObject::Array(items);
    assert(obj_view(kids)->Array_0 =~= seq![Obj::Reference(descendant)]);
    let r = PdfDict {
        entries: vec![
            name_entry("Type", "Font"),
            name_entry("Subtype", "Type0"),
            name_entry("BaseFont", font_name),
            name_entry("Encoding", "Identity-H"),
            entry("DescendantFonts", kids),
        ],
    };
    assert(dict_view(r) =~= type0_view(font_name@, descendant));
    r
}

fn font_file(font_data: &[u8]) -> (r: PdfObject)
    requires
        font_data@.len() < 0x7fff_ffff_ffff_ffff,
    ensures
        obj_view(r) == Obj::Stream(
            seq![(name_bytes("Length1"@), Obj::Integer(font_data@.len() as i64))],
            font_data@,
        ),
{
    let d = PdfDict { entries: vec![int_entry("Length1", font_data.len() as i64)] };
    assert(dict_view(d) =~= seq![(name_bytes("Length1"@), Obj::Integer(font_data@.len() as i64))]);
    PdfObject::Stream(PdfStream { dict: d, content: vstd::slice::slice_to_vec(font_data) })
}

/// Embeds a TrueType program as a composite font with identity encoding and
/// its glyph-translation table (an identity mapping where the font's tables
/// cannot be read). Returns the composite font and its content-stream name.
pub fn embed_cid_font(doc: &mut ObjectStore, font_data: &[u8], font_name: &str) -> (r: Result<
    (ObjectId, String),
    (),
>)
    requires
        old(doc).max_id + 5 <= u32::MAX,
        font_data@.len() < 0x7fff_ffff_ffff_ffff,
    ensures
        r is Ok,
        old(doc).wf() ==> final(doc).wf(),
        r matches Ok(t) ==> cid_font_embedded(*old(doc), *final(doc), font_data@, font_name@, t.0),
        r matches Ok(t) ==> t.1@ == dashed(font_name@),
{
    let map_obj = match build_cidtogid_map(font_data) {
        Some(table) => {
            let empty = PdfDict::new();
            assert(dict_view(empty) =~= Seq::empty());
            let id = doc.add_object(PdfObject::Stream(PdfStream { dict: empty, content: table }));
            PdfObject::Reference(id)
        },
        None => PdfObject::Name(crate::object::name_of("Identity")),
    };
    let ghost map_view = obj_view(map_obj);
    let file_id = doc.add_object(font_file(font_data));
    let descriptor_id = doc.add_object(PdfObject::Dictionary(descriptor_dict(font_name, file_id)));
    let cid_font_id = doc.add_object(PdfObject::Dictionary(cid_font_dict(font_name, map_obj, descriptor_id)));
    let type0_id = doc.add_object(PdfObject::Dictionary(type0_dict(font_name, cid_font_id)));
    Ok((type0_id, dashed_name(font_name)))
}

/// A simple TrueType font's dictionary.
pub open spec fn truetype_view(name: Seq<char>, descriptor: ObjectId) -> Seq<(Seq<u8>, Obj)> {
    seq![
        (name_bytes("Type"@), Obj::Name(name_bytes("Font"@))),
        (name_bytes("Subtype"@), Obj::Name(name_bytes("TrueType"@))),
        (name_bytes("BaseFont"@), Obj::Name(name_bytes(name))),
        (name_bytes("FontDescriptor"@), Obj::Reference(descriptor)),
    ]
}

/// Embeds a TrueType program as a simple font: the program, its descriptor
/// (placeholder metrics) and the font, as the next three objects. Returns
/// the font and its name.
pub fn embed_true_type_font_data(doc: &mut ObjectStore, font_data: &[u8], font_name: &str) -> (r: Result<
    (ObjectId, String),
    (),
>)
    requires
        old(doc).max_id + 3 <= u32::MAX,
        font_data@.len() < 0x7fff_ffff_ffff_ffff,
    ensures
        r is Ok,
        old(doc).wf() ==> final(doc).wf(),
        r matches Ok(t) ==> ({
            let file = fresh(*old(doc), 1);
            let descriptor = fresh(*old(doc), 2);
            &&& t.0 == fresh(*old(doc), 3)
            &&& t.1@ == font_name@
            &&& final(doc).max_id == old(doc).max_id + 3
            &&& final(doc).obj(file) == Some(
                Obj::Stream(seq![(name_bytes("Length1"@), Obj::Integer(font_data@.len() as i64))], font_data@),
            )
            &&& final(doc).obj(descriptor) == Some(Obj::Dict(descriptor_view(font_name@, file)))
            &&& final(doc).obj(t.0) == Some(Obj::Dict(truetype_view(font_name@, descriptor)))
            &&& forall|o: ObjectId| o.gen != 0 || o.num <= old(doc).max_id || o.num > final(doc).max_id ==> final(doc).obj(o) == old(doc).obj(o)
        }),
{
    let file_id = doc.add_object(font_file(font_data));
    let descriptor_id = doc.add_object(PdfObject::Dictionary(descriptor_dict(font_name, file_id)));
    let d = PdfDict {
        entries: vec![
            name_entry("Type", "Font"),
            name_entry("Subtype", "TrueType"),
            name_entry("BaseFont", font_name),
            ref_entry("FontDescriptor", descriptor_id),
        ],
    };
    assert(dict_view(d) =~= truetype_view(font_name@, descriptor_id));
    let font_id = doc.add_object(PdfObject::Dictionary(d));
    Ok((font_id, String::from_str(font_name)))
}

} // verus!
