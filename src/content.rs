//! Content-stream generation for one page: drawing operators for codes and
//! text, and the image resources they introduce.
use vstd::prelude::*;
use qrcode::types::QrError;
use std::io::Write;
use crate::config::{field_kind, kind_of, FieldKind, FieldSpec};
use crate::dimension::{Dimension, MAX_MICRO};
use crate::numfmt::{micro_text, nat_text, push_micro, push_nat};
use crate::object::{
    dict_view, int_entry, name_bytes, name_entry, name_of, obj_view, Obj, ObjectId, PdfDict,
    PdfObject, PdfStream,
};
use crate::store::ObjectStore;
use crate::text::{cid_hex, encode_cid_text, escape_pdf_string, escaped, has_wide, needs_cid_font};

verus! {

#[verifier::external_type_specification]
#[verifier::external_body]
pub struct ExQrError(QrError);

/// Side of the square raster a code is drawn at, in pixels.
pub const QR_SIZE: u32 = 200;

/// Gray value of the code's background.
pub const BACKGROUND: u8 = 255;

/// Gray value of the code's marks.
pub const MARK: u8 = 0;

/// What `qrcode` renders for a text, as 8-bit gray pixels with width and
/// height, in the given light and dark values; none where the text cannot
/// be encoded.
pub uninterp spec fn qr_image(data: Seq<char>, light: u8, dark: u8) -> Option<(Seq<u8>, u32, u32)>;

/// Relies on `qrcode::QrCode::new` (error correction M) and its renderer for
/// `image::Luma<u8>`: every pixel is the light or the dark value.
#[verifier::external_body]
fn render_qr(data: &str, light: u8, dark: u8) -> (r: Result<(Vec<u8>, u32, u32), QrError>)
    ensures
        r is Ok <==> qr_image(data@, light, dark) is Some,
        r matches Ok(t) ==> qr_image(data@, light, dark) == Some((t.0@, t.1, t.2)),
        r matches Ok(t) ==> t.0@.len() == t.1 as int * t.2 as int,
        r matches Ok(t) ==> forall|i: int| 0 <= i < t.0@.len() ==> t.0@[i] == light || t.0@[i] == dark,
{
    let code = qrcode::QrCode::new(data.as_bytes())?;
    let img = code.render::<image::Luma<u8>>().light_color(image::Luma([light])).dark_color(
        image::Luma([dark]),
    ).build();
    let (w, h) = img.dimensions();
    Ok((img.into_raw(), w, h))
}

/// What `image::imageops::resize` with the nearest filter makes of a gray
/// raster.
pub uninterp spec fn resized(p: Seq<u8>, w: u32, h: u32, nw: u32, nh: u32) -> Seq<u8>;

/// Relies on `image::imageops::resize` (`FilterType::Nearest`) on a
/// one-channel 8-bit image; the result has the requested dimensions.
#[verifier::external_body]
fn resize_gray(p: Vec<u8>, w: u32, h: u32, nw: u32, nh: u32) -> (r: Vec<u8>)
    requires
        p@.len() == w as int * h as int,
    ensures
        r@ == resized(p@, w, h, nw, nh),
        r@.len() == nw as int * nh as int,
{
    match image::ImageBuffer::<image::Luma<u8>, Vec<u8>>::from_raw(w, h, p) {
        Some(img) => image::imageops::resize(&img, nw, nh, image::imageops::FilterType::Nearest)
            .into_raw(),
        None => Vec::new(),
    }
}

/// What `flate2`'s zlib encoder at the default level makes of some bytes.
pub uninterp spec fn zlib_of(data: Seq<u8>) -> Seq<u8>;

/// Relies on `flate2::write::ZlibEncoder` (default compression) writing
/// into a `Vec`, which cannot fail.
#[verifier::external_body]
fn zlib_compress(data: &[u8]) -> (r: Option<Vec<u8>>)
    ensures
        r is Some,
        r matches Some(c) ==> c@ == zlib_of(data@),
{
    let mut encoder = flate2::write::ZlibEncoder::new(Vec::new(), flate2::Compression::default());
    encoder.write_all(data).ok()?;
    encoder.finish().ok()
}

/// Why building a page's content failed.
#[derive(Debug)]
pub enum ContentError {
    /// The value cannot be encoded as a code.
    QrCode(QrError),
    /// The compressor reported a failure.
    Compression,
    /// A field's output type is neither `QR` nor `Text`.
    UnknownOutputType(String),
    /// The object numbers of the document are used up.
    ObjectIdsExhausted,
}

/// Compresses bytes with zlib.
pub fn compress_data(data: &[u8]) -> (r: Result<Vec<u8>, ContentError>)
    ensures
        r is Ok,
        r matches Ok(c) ==> c@ == zlib_of(data@),
{
    match zlib_compress(data) {
        Some(c) => Ok(c),
        None => Err(ContentError::Compression),
    }
}

/// The code for a text as a gray raster of the given size.
pub fn generate_qr_code(data: &str, width: u32, height: u32) -> (r: Result<Vec<u8>, ContentError>)
    ensures
        r is Ok <==> qr_image(data@, BACKGROUND, MARK) is Some,
        r matches Ok(p) ==> ({
            let q = qr_image(data@, BACKGROUND, MARK)->0;
            p@ == resized(q.0, q.1, q.2, width, height)
        }),
        r matches Ok(p) ==> p@.len() == width as int * height as int,
        r matches Err(e) ==> e is QrCode,
{
    match render_qr(data, BACKGROUND, MARK) {
        Ok(t) => {
            let (pixels, w, h) = t;
            Ok(resize_gray(pixels, w, h, width, height))
        },
        Err(e) => Err(ContentError::QrCode(e)),
    }
}

/// Half a length, rounded towards zero.
pub open spec fn half(w: int) -> int {
    if w >= 0 {
        w / 2
    } else {
        -((-w) / 2)
    }
}

/// The font size of a text field: the explicit one, else the smaller of
/// the height and half the width.
pub open spec fn font_size_of(s: FieldSpec) -> int {
    match s.font_size {
        Some(f) => f.0 as int,
        None => if s.h.0 <= half(s.w.0 as int) {
            s.h.0 as int
        } else {
            half(s.w.0 as int)
        },
    }
}

/// A text-showing operator sequence.
pub open spec fn text_op(font: Seq<char>, size: int, x: int, y: int, body: Seq<char>, hex: bool) -> Seq<
    char,
> {
    "q BT 0 g /"@ + font + " "@ + micro_text(size) + " Tf "@ + micro_text(x) + " "@ + micro_text(y)
        + if hex {
        " Td <"@ + body + "> Tj ET Q "@
    } else {
        " Td ("@ + body + ") Tj ET Q "@
    }
}

/// An image-placing operator sequence: the image is scaled to `w` by `h`
/// with its lower-left corner at (`x`, `y`).
pub open spec fn image_op(name: Seq<char>, w: int, h: int, x: int, y: int) -> Seq<char> {
    "q "@ + micro_text(w) + " 0 0 "@ + micro_text(h) + " "@ + micro_text(x) + " "@ + micro_text(y)
        + " cm /"@ + name + " Do Q "@
}

/// The resource name of the image stored as object `num`.
pub open spec fn image_name(num: u32) -> Seq<char> {
    "Im"@ + nat_text(num as nat)
}

/// The dictionary of an embedded code image.
pub open spec fn image_dict_view() -> Seq<(Seq<u8>, Obj)> {
    seq![
        (name_bytes("Type"@), Obj::Name(name_bytes("XObject"@))),
        (name_bytes("Subtype"@), Obj::Name(name_bytes("Image"@))),
        (name_bytes("Width"@), Obj::Integer(QR_SIZE as i64)),
        (name_bytes("Height"@), Obj::Integer(QR_SIZE as i64)),
        (name_bytes("ColorSpace"@), Obj::Name(name_bytes("DeviceGray"@))),
        (name_bytes("BitsPerComponent"@), Obj::Integer(8)),
        (name_bytes("Filter"@), Obj::Name(name_bytes("FlateDecode"@))),
    ]
}

/// The image object embedded for a value: the code's raster at the fixed
/// size, compressed.
pub open spec fn image_object(value: Seq<char>) -> Obj {
    let q = qr_image(value, BACKGROUND, MARK)->0;
    Obj::Stream(image_dict_view(), zlib_of(resized(q.0, q.1, q.2, QR_SIZE, QR_SIZE)))
}

pub open spec fn joined(parts: Seq<String>) -> Seq<char>
    decreases parts.len(),
{
    if parts.len() == 0 {
        Seq::empty()
    } else {
        joined(parts.drop_last()) + parts.last()@
    }
}

fn image_dict() -> (r: PdfDict)
    ensures
        dict_view(r) == image_dict_view(),
{
    let r = PdfDict {
        entries: vec![
            name_entry("Type", "XObject"),
            name_entry("Subtype", "Image"),
            int_entry("Width", QR_SIZE as i64),
            int_entry("Height", QR_SIZE as i64),
            name_entry("ColorSpace", "DeviceGray"),
            int_entry("BitsPerComponent", 8),
            name_entry("Filter", "FlateDecode"),
        ],
    };
    assert(dict_view(r) =~= image_dict_view());
    r
}

/// Builds the drawing operators of one page and collects the image
/// resources they name.
pub struct ContentBuilder {
    pub content_parts: Vec<String>,
    pub xobjects: PdfDict,
    pub font_name: String,
    pub cid_font_name: Option<String>,
}

/// Whether a value is drawn with the composite font: it holds a code point
/// above 0x7F and a composite font exists.
pub open spec fn uses_cid(b: ContentBuilder, v: Seq<char>) -> bool {
    has_wide(v) && b.cid_font_name is Some
}

/// The operators for a text field with a given value, given the standard
/// font's name and the composite font's, if any.
pub open spec fn text_op_with(font: Seq<char>, cid: Option<Seq<char>>, v: Seq<char>, s: FieldSpec, ph: int) -> Seq<char> {
    let size = font_size_of(s);
    if has_wide(v) && cid is Some {
        text_op(cid->0, size, s.x.0 as int, ph - s.y.0 - size, cid_hex(v), true)
    } else {
        text_op(font, size, s.x.0 as int, ph - s.y.0 - size, escaped(v), false)
    }
}

pub open spec fn name_view(n: Option<String>) -> Option<Seq<char>> {
    match n {
        Some(s) => Some(s@),
        None => None,
    }
}

/// The operators for a text field with a given value.
pub open spec fn text_op_for(b: ContentBuilder, v: Seq<char>, s: FieldSpec, ph: int) -> Seq<char> {
    text_op_with(b.font_name@, name_view(b.cid_font_name), v, s, ph)
}

/// The operators for a code field whose image is object `num`.
pub open spec fn image_op_for(num: u32, s: FieldSpec, ph: int) -> Seq<char> {
    image_op(image_name(num), s.w.0 as int, s.h.0 as int, s.x.0 as int, ph - s.y.0 - s.h.0)
}

/// The builder after a text field: one more operator sequence, the
/// resources and fonts as they were.
pub open spec fn text_added(b0: ContentBuilder, b1: ContentBuilder, value: Seq<char>, s: FieldSpec, ph: int) -> bool {
    &&& b1.content_parts@.drop_last() == b0.content_parts@
    &&& b1.content_parts@.len() == b0.content_parts@.len() + 1
    &&& b1.content_parts@.last()@ == text_op_for(b0, value, s, ph)
    &&& b1.xobjects == b0.xobjects
    &&& b1.font_name == b0.font_name
    &&& b1.cid_font_name == b0.cid_font_name
}

/// The builder and store after a code field: the image is the next object,
/// it is named among the image resources, and one more operator sequence
/// draws it.
pub open spec fn image_added(
    b0: ContentBuilder,
    b1: ContentBuilder,
    d0: ObjectStore,
    d1: ObjectStore,
    value: Seq<char>,
    s: FieldSpec,
    ph: int,
) -> bool {
    let id = ObjectId { num: (d0.max_id + 1) as u32, gen: 0 };
    &&& d1.max_id == d0.max_id + 1
    &&& d1.obj(id) == Some(image_object(value))
    &&& forall|o: ObjectId| o != id ==> d1.obj(o) == d0.obj(o)
    &&& b1.xobjects.get_spec(name_bytes(image_name(id.num))) == Some(Obj::Reference(id))
    &&& b0.xobjects.get_spec(name_bytes(image_name(id.num))) is None ==> b1.xobjects.entries@.len()
        == b0.xobjects.entries@.len() + 1
    &&& forall|k: Seq<u8>|
        k != name_bytes(image_name(id.num)) ==> b1.xobjects.get_spec(k) == b0.xobjects.get_spec(k)
    &&& b1.content_parts@.drop_last() == b0.content_parts@
    &&& b1.content_parts@.len() == b0.content_parts@.len() + 1
    &&& b1.content_parts@.last()@ == image_op_for(id.num, s, ph)
    &&& b1.font_name == b0.font_name
    &&& b1.cid_font_name == b0.cid_font_name
}

impl Default for ContentBuilder {
    /// A builder for the font resource named `F1`.
    fn default() -> (r: ContentBuilder)
        ensures
            r.content_parts@.len() == 0,
            r.xobjects.entries@.len() == 0,
            r.font_name@ == "F1"@,
            r.cid_font_name is None,
    {
        ContentBuilder::new(String::from_str("F1"))
    }
}

impl ContentBuilder {
    /// A builder that draws text with the named standard font only.
    pub fn new(font_name: String) -> (r: ContentBuilder)
        ensures
            r.content_parts@.len() == 0,
            r.xobjects.entries@.len() == 0,
            r.font_name == font_name,
            r.cid_font_name is None,
    {
        ContentBuilder {
            content_parts: Vec::new(),
            xobjects: PdfDict::new(),
            font_name,
            cid_font_name: None,
        }
    }

    /// A builder that draws text with wide characters in the composite font.
    pub fn new_with_cid_font(font_name: String, cid_font_name: String) -> (r: ContentBuilder)
        ensures
            r.content_parts@.len() == 0,
            r.xobjects.entries@.len() == 0,
            r.font_name == font_name,
            r.cid_font_name == Some(cid_font_name),
    {
        ContentBuilder {
            content_parts: Vec::new(),
            xobjects: PdfDict::new(),
            font_name,
            cid_font_name: Some(cid_font_name),
        }
    }

    /// Adds the operators that show a text value in one line, its baseline
    /// one font size below the field's top.
    pub fn add_text(&mut self, value: &str, spec: &FieldSpec, page_height: Dimension)
        requires
            spec.lengths_ok(),
            -MAX_MICRO < page_height.0 < MAX_MICRO,
        ensures
            text_added(*old(self), *final(self), value@, *spec, page_height.0 as int),
    {
        let size: i64 = match spec.font_size {
            Some(f) => f.0,
            None => {
                let w = spec.w.0;
                let half: i64 = if w >= 0 {
                    w / 2
                } else {
                    -((-w) / 2)
                };
                if spec.h.0 <= half {
                    spec.h.0
                } else {
                    half
                }
            },
        };
        let x = spec.x.0;
        let y = page_height.0 - spec.y.0 - size;
        let mut op = String::new();
        let wide = needs_cid_font(value);
        let use_cid = wide && self.cid_font_name.is_some();
        op.append("q BT 0 g /");
        if use_cid {
            match &self.cid_font_name {
                Some(n) => op.append(n.as_str()),
                None => {},
            }
        } else {
            op.append(self.font_name.as_str());
        }
        op.append(" ");
        push_micro(&mut op, size);
        op.append(" Tf ");
        push_micro(&mut op, x);
        op.append(" ");
        push_micro(&mut op, y);
        if use_cid {
            let body = encode_cid_text(value);
            op.append(" Td <");
            op.append(body.as_str());
            op.append("> Tj ET Q ");
        } else {
            let body = escape_pdf_string(value);
            op.append(" Td (");
            op.append(body.as_str());
            op.append(") Tj ET Q ");
        }
        assert(op@ =~= text_op_for(*old(self), value@, *spec, page_height.0 as int));
        self.content_parts.push(op);
        assert(self.content_parts@.drop_last() =~= old(self).content_parts@);
    }

    /// Embeds the code of a value as an image object, names it among the
    /// page's image resources and adds the operators that draw it over the
    /// field's box (its lower-left corner at the page height less the
    /// field's top and height).
    pub fn add_qr_code(
        &mut self,
        value: &str,
        spec: &FieldSpec,
        page_height: Dimension,
        doc: &mut ObjectStore,
    ) -> (r: Result<(), ContentError>)
        requires
            spec.lengths_ok(),
            -MAX_MICRO < page_height.0 < MAX_MICRO,
        ensures
            old(doc).wf() ==> final(doc).wf(),
            old(doc).max_id <= final(doc).max_id <= old(doc).max_id + 1,
            forall|o: ObjectId| o.num <= old(doc).max_id ==> final(doc).obj(o) == old(doc).obj(o),
            r is Err ==> *final(self) == *old(self) && *final(doc) == *old(doc),
            r is Ok <==> qr_image(value@, BACKGROUND, MARK) is Some && old(doc).max_id < u32::MAX,
            r matches Err(e) ==> e is QrCode || e is ObjectIdsExhausted,
            r is Ok ==> image_added(*old(self), *final(self), *old(doc), *final(doc), value@, *spec, page_height.0 as int),
    {
        if doc.max_id == u32::MAX {
            return Err(ContentError::ObjectIdsExhausted);
        }
        let raw = generate_qr_code(value, QR_SIZE, QR_SIZE)?;
        let compressed = compress_data(raw.as_slice())?;
        let img = PdfObject::Stream(PdfStream { dict: image_dict(), content: compressed });
        let ghost img_view = obj_view(img);
        assert(img_view == image_object(value@));
        let img_id = doc.add_object(img);
        let mut name = String::new();
        name.append("Im");
        push_nat(&mut name, img_id.num as u64);
        self.xobjects.set(name_of(name.as_str()), PdfObject::Reference(img_id));
        let x = spec.x.0;
        let y = page_height.0 - spec.y.0 - spec.h.0;
        let mut op = String::new();
        op.append("q ");
        push_micro(&mut op, spec.w.0);
        op.append(" 0 0 ");
        push_micro(&mut op, spec.h.0);
        op.append(" ");
        push_micro(&mut op, x);
        op.append(" ");
        push_micro(&mut op, y);
        op.append(" cm /");
        op.append(name.as_str());
        op.append(" Do Q ");
        self.content_parts.push(op);
        assert(self.content_parts@.drop_last() =~= old(self).content_parts@);
        Ok(())
    }

    /// Adds one field: a code image for `QR`, a text for `Text`; any other
    /// output type is refused before anything changes.
    pub fn add_field(
        &mut self,
        field_name: &str,
        value: &str,
        spec: &FieldSpec,
        page_height: Dimension,
        doc: &mut ObjectStore,
    ) -> (r: Result<(), ContentError>)
        requires
            spec.lengths_ok(),
            -MAX_MICRO < page_height.0 < MAX_MICRO,
        ensures
            old(doc).wf() ==> final(doc).wf(),
            old(doc).max_id <= final(doc).max_id <= old(doc).max_id + 1,
            forall|o: ObjectId| o.num <= old(doc).max_id ==> final(doc).obj(o) == old(doc).obj(o),
            kind_of(spec.output_type@) is None <==> r matches Err(ContentError::UnknownOutputType(_)),
            r matches Err(ContentError::UnknownOutputType(t)) ==> t@ == spec.output_type@,
            r is Err ==> *final(self) == *old(self) && *final(doc) == *old(doc),
            kind_of(spec.output_type@) == Some(FieldKind::Text) ==> r is Ok && *final(doc)
                == *old(doc) && text_added(*old(self), *final(self), value@, *spec, page_height.0 as int),
            kind_of(spec.output_type@) == Some(FieldKind::Image) ==> {
                &&& r is Ok ==> image_added(*old(self), *final(self), *old(doc), *final(doc), value@, *spec, page_height.0 as int)
                &&& r is Ok <==> qr_image(value@, BACKGROUND, MARK) is Some && old(doc).max_id < u32::MAX
                &&& r is Err ==> (r->Err_0 is QrCode || r->Err_0 is ObjectIdsExhausted)
            },
    {
        match field_kind(spec.output_type.as_str()) {
            Some(FieldKind::Image) => self.add_qr_code(value, spec, page_height, doc),
            Some(FieldKind::Text) => {
                self.add_text(value, spec, page_height);
                Ok(())
            },
            None => Err(ContentError::UnknownOutputType(spec.output_type.clone())),
        }
    }

    /// The page's operators, in the order they were added, as UTF-8 bytes.
    pub fn build_content_bytes(&self) -> (r: Vec<u8>)
        ensures
            r@ == vstd::utf8::encode_utf8(joined(self.content_parts@)),
    {
        let mut all = String::new();
        let mut i: usize = 0;
        while i < self.content_parts.len()
            invariant
                i <= self.content_parts.len(),
                all@ == joined(self.content_parts@.take(i as int)),
            decreases self.content_parts.len() - i,
        {
            assert(self.content_parts@.take(i + 1).drop_last() =~= self.content_parts@.take(
                i as int,
            ));
            all.append(self.content_parts[i].as_str());
            i = i + 1;
        }
        assert(self.content_parts@.take(i as int) =~= self.content_parts@);
        all.as_str().as_bytes_vec()
    }
}

} // verus!
