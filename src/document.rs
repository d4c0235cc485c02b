//! Page replication, page-tree registration and the run that assembles one
//! output page per table row.
use vstd::prelude::*;
use crate::config::{kind_of, row_value, DataRow, FieldKind, FieldSpec, PlaceConfig, field_kind};
use crate::content::{
    image_op_for, joined, name_view, qr_image, text_op_with, ContentBuilder, ContentError, BACKGROUND, MARK,
};
use crate::dimension::{Dimension, MAX_MICRO};
use crate::fonts::{
    at, base_name, cid_font_objects, cid_font_size, create_font, dashed, embed_cid_font, font_of_lower, lower_of,
    select_standard_font, type1_view, StandardFont,
};
use crate::object::{
    copy_dict, copy_object, dict_view, lemma_name_bytes_injective, lookup, name_bytes, name_of, obj_view, Obj, ObjectId,
    PdfDict, PdfObject, PdfStream,
};
use crate::resources::update_page_resources_with_fonts;
use crate::store::ObjectStore;
use crate::text::{has_wide, needs_cid_font};

verus! {

/// Why assembling the document failed.
#[derive(Debug)]
pub enum BuildError {
    /// A field's content could not be built.
    Content(ContentError),
    /// The template page is not a dictionary object of the document.
    NoPagesInTemplate,
    /// The page-tree root is not a dictionary object of the document.
    PageTreeMissing,
    /// A length lies outside the range that parsing produces.
    LengthOutOfRange,
    /// The document has too few free object numbers for the run.
    ObjectIdsExhausted,
    /// The composite font program is too large to embed.
    FontProgramTooLarge,
    /// A font could not be added to the document.
    FontEmbeddingFailure,
}

/// The content streams a page's `Contents` entry names.
pub open spec fn contents_list(o: Option<Obj>) -> Seq<Obj> {
    match o {
        Some(Obj::Reference(id)) => seq![Obj::Reference(id)],
        Some(Obj::Array(a)) => a,
        _ => Seq::empty(),
    }
}

/// Appends a content stream to a page: existing content stays and is drawn
/// first.
pub fn add_page_contents(doc: &mut ObjectStore, page_id: ObjectId, content: Vec<u8>) -> (r: Result<
    (),
    BuildError,
>)
    requires
        old(doc).wf(),
        old(doc).max_id < u32::MAX,
    ensures
        final(doc).wf(),
        old(doc).max_id <= final(doc).max_id <= old(doc).max_id + 1,
        forall|o: ObjectId|
            o != page_id && o.num <= old(doc).max_id ==> final(doc).obj(o) == old(doc).obj(o),
        r is Ok <==> old(doc).obj(page_id) matches Some(Obj::Dict(_)),
        r is Err ==> *final(doc) == *old(doc),
        old(doc).obj(page_id) matches Some(Obj::Dict(pd)) ==> ({
            let sid = ObjectId { num: (old(doc).max_id + 1) as u32, gen: 0 };
            let key = name_bytes("Contents"@);
            &&& final(doc).obj(sid) == Some(Obj::Stream(Seq::empty(), content@))
            &&& final(doc).obj(page_id) matches Some(Obj::Dict(np)) && lookup(np, key) == Some(
                Obj::Array(contents_list(lookup(pd, key)).push(Obj::Reference(sid))),
            ) && (forall|k: Seq<u8>| k != key ==> lookup(np, k) == lookup(pd, k))
        }),
{
    let mut page = match doc.get(page_id) {
        Some(PdfObject::Dictionary(d)) => copy_dict(d),
        _ => {
            return Err(BuildError::NoPagesInTemplate);
        },
    };
    let ghost pd = dict_view(page);
    let key = name_of("Contents");
    let mut list: Vec<PdfObject> = match page.get(&key) {
        Some(PdfObject::Reference(id)) => vec![PdfObject::Reference(*id)],
        Some(PdfObject::Array(arr)) => {
            let mut out: Vec<PdfObject> = Vec::new();
            let mut i: usize = 0;
            while i < arr.len()
                invariant
                    i <= arr.len(),
                    out.len() == i,
                    forall|j: int| 0 <= j < i ==> obj_view(#[trigger] out[j]) == obj_view(arr[j]),
                decreases arr.len() - i,
            {
                out.push(copy_object(&arr[i]));
                i = i + 1;
            }
            out
        },
        _ => Vec::new(),
    };
    let ghost old_list = contents_list(lookup(pd, key@));
    assert(list.len() == old_list.len());
    assert(forall|j: int| 0 <= j < list.len() ==> obj_view(#[trigger] list[j]) == old_list[j]);
    let empty = PdfDict::new();
    assert(dict_view(empty) =~= Seq::empty());
    let sid = doc.add_object(PdfObject::Stream(PdfStream { dict: empty, content }));
    let ghost before = list@;
    list.push(PdfObject::Reference(sid));
    let ghost want = old_list.push(Obj::Reference(sid));
    assert forall|j: int| 0 <= j < list.len() implies obj_view(#[trigger] list[j]) == want[j] by {
        if j < before.len() {
            assert(list[j] == before[j]);
        }
    }
    let arr = PdfObject::Array(list);
    assert(obj_view(arr)->Array_0 =~= old_list.push(Obj::Reference(sid)));
    page.set(key, arr);
    doc.set_object(page_id, PdfObject::Dictionary(page));
    Ok(())
}

/// References to the given objects, in order.
pub open spec fn refs(ids: Seq<ObjectId>) -> Seq<Obj> {
    Seq::new(ids.len(), |i: int| Obj::Reference(ids[i]))
}

/// The children a page-tree node lists.
pub open spec fn kids_of(node: Seq<(Seq<u8>, Obj)>) -> Seq<Obj> {
    match lookup(node, name_bytes("Kids"@)) {
        Some(Obj::Array(a)) => a,
        _ => Seq::empty(),
    }
}

/// Appends new pages to the page-tree root's children, in order, and sets
/// its count to the number of children.
pub fn update_pages_dictionary(doc: &mut ObjectStore, pages_id: ObjectId, additional_page_ids: &Vec<ObjectId>) -> (r: Result<(), BuildError>)
    requires
        old(doc).wf(),
    ensures
        final(doc).wf(),
        final(doc).max_id == old(doc).max_id,
        forall|o: ObjectId| o != pages_id ==> final(doc).obj(o) == old(doc).obj(o),
        additional_page_ids@.len() == 0 ==> r is Ok && *final(doc) == *old(doc),
        r is Err ==> *final(doc) == *old(doc),
        old(doc).obj(pages_id) matches Some(Obj::Dict(pd)) ==> additional_page_ids@.len() > 0 ==> ({
            let kids = kids_of(pd) + refs(additional_page_ids@);
            kids.len() < i64::MAX ==> {
            &&& r is Ok
            &&& final(doc).obj(pages_id) matches Some(Obj::Dict(np)) && kids_of(np) == kids && lookup(
                np,
                name_bytes("Count"@),
            ) == Some(Obj::Integer(kids.len() as i64)) && (forall|k: Seq<u8>|
                k != name_bytes("Kids"@) && k != name_bytes("Count"@) ==> lookup(np, k) == lookup(
                    pd,
                    k,
                ))
            }
        }),
{
    if additional_page_ids.len() == 0 {
        return Ok(());
    }
    let mut pages = match doc.get(pages_id) {
        Some(PdfObject::Dictionary(d)) => copy_dict(d),
        _ => {
            return Err(BuildError::PageTreeMissing);
        },
    };
    let ghost pd = dict_view(pages);
    let kids_key = name_of("Kids");
    let mut kids: Vec<PdfObject> = match pages.get(&kids_key) {
        Some(PdfObject::Array(arr)) => {
            let mut out: Vec<PdfObject> = Vec::new();
            let mut i: usize = 0;
            while i < arr.len()
                invariant
                    i <= arr.len(),
                    out.len() == i,
                    forall|j: int| 0 <= j < i ==> obj_view(#[trigger] out[j]) == obj_view(arr[j]),
                decreases arr.len() - i,
            {
                out.push(copy_object(&arr[i]));
                i = i + 1;
            }
            out
        },
        _ => Vec::new(),
    };
    let ghost old_kids = kids_of(pd);
    let ghost ids = additional_page_ids@;
    assert(kids.len() == old_kids.len());
    let mut i: usize = 0;
    while i < additional_page_ids.len()
        invariant
            i <= additional_page_ids.len(),
            ids == additional_page_ids@,
            kids.len() == old_kids.len() + i,
            forall|j: int| 0 <= j < kids.len() ==> obj_view(#[trigger] kids[j]) == (old_kids + refs(ids.take(i as int)))[j],
        decreases additional_page_ids.len() - i,
    {
        let ghost before = kids@;
        kids.push(PdfObject::Reference(additional_page_ids[i]));
        assert forall|j: int| 0 <= j < kids.len() implies obj_view(#[trigger] kids[j]) == (old_kids + refs(ids.take(i + 1)))[j] by {
            if j < before.len() {
                assert(kids[j] == before[j]);
            }
        }
        i = i + 1;
    }
    assert(ids.take(i as int) =~= ids);
    let total = kids.len();
    if total as u64 >= 0x7fff_ffff_ffff_ffff {
        return Err(BuildError::ObjectIdsExhausted);
    }
    let arr = PdfObject::Array(kids);
    assert(obj_view(arr)->Array_0 =~= old_kids + refs(ids));
    pages.set(kids_key, arr);
    pages.set(name_of("Count"), PdfObject::Integer(total as i64));
    proof {
        reveal_strlit("Kids");
        reveal_strlit("Count");
        crate::object::lemma_name_bytes_injective("Kids"@, "Count"@);
    }
    doc.set_object(pages_id, PdfObject::Dictionary(pages));
    Ok(())
}

/// True when some row has, for some placed field, a value with a code point
/// above 0x7F.
pub open spec fn wide_text_present(rows: Seq<DataRow>, fields: Seq<(String, FieldSpec)>) -> bool {
    exists|i: int, j: int|
        0 <= i < rows.len() && 0 <= j < fields.len() && has_wide(
            #[trigger] row_value(rows[i].data@, #[trigger] fields[j].0@),
        )
}

/// Whether the run needs the composite font.
pub fn should_use_cid_font(data_rows: &Vec<DataRow>, config: &PlaceConfig) -> (r: bool)
    ensures
        r == wide_text_present(data_rows@, config.fields@),
{
    let mut i: usize = 0;
    while i < data_rows.len()
        invariant
            i <= data_rows.len(),
            forall|a: int, b: int|
                0 <= a < i && 0 <= b < config.fields.len() ==> !has_wide(
                    #[trigger] row_value(data_rows@[a].data@, #[trigger] config.fields@[b].0@),
                ),
        decreases data_rows.len() - i,
    {
        let mut j: usize = 0;
        while j < config.fields.len()
            invariant
                i < data_rows.len(),
                j <= config.fields.len(),
                forall|a: int, b: int|
                    0 <= a < i && 0 <= b < config.fields.len() ==> !has_wide(
                        #[trigger] row_value(data_rows@[a].data@, #[trigger] config.fields@[b].0@),
                    ),
                forall|b: int|
                    0 <= b < j ==> !has_wide(
                        row_value(data_rows@[i as int].data@, #[trigger] config.fields@[b].0@),
                    ),
            decreases config.fields.len() - j,
        {
            let value = data_rows[i].value_of(config.fields[j].0.as_str());
            if needs_cid_font(value) {
                return true;
            }
            j = j + 1;
        }
        i = i + 1;
    }
    false
}

/// The fonts of a run: the standard font and, where one was embedded, the
/// composite font, each with the name content streams use for it.
pub struct FontRefs {
    pub regular_id: ObjectId,
    pub regular_name: String,
    pub cid: Option<(ObjectId, String)>,
}

/// Every field has a known output type and lengths in range.
pub open spec fn fields_ok(fields: Seq<(String, FieldSpec)>) -> bool {
    forall|j: int| 0 <= j < fields.len() ==> (#[trigger] fields[j]).1.lengths_ok() && kind_of(fields[j].1.output_type@) is Some
}

/// A field drawn as a code image.
pub open spec fn is_image(f: (String, FieldSpec)) -> bool {
    kind_of(f.1.output_type@) == Some(FieldKind::Image)
}

/// The number of code fields.
pub open spec fn images_in(fields: Seq<(String, FieldSpec)>) -> nat
    decreases fields.len(),
{
    if fields.len() == 0 {
        0
    } else {
        images_in(fields.drop_last()) + if is_image(fields.last()) {
            1nat
        } else {
            0nat
        }
    }
}

/// The operators a row's fields produce, in field order, when its images
/// are stored as objects numbered from `base + 1`.
pub open spec fn row_ops(
    font: Seq<char>,
    cid: Option<Seq<char>>,
    fields: Seq<(String, FieldSpec)>,
    row: Seq<(String, String)>,
    ph: int,
    base: int,
) -> Seq<Seq<char>>
    decreases fields.len(),
{
    if fields.len() == 0 {
        Seq::empty()
    } else {
        let prev = fields.drop_last();
        let f = fields.last();
        row_ops(font, cid, prev, row, ph, base).push(
            if is_image(f) {
                image_op_for((base + images_in(prev) + 1) as u32, f.1, ph)
            } else {
                text_op_with(font, cid, row_value(row, f.0@), f.1, ph)
            },
        )
    }
}

/// Operator texts one after another.
pub open spec fn ops_text(ops: Seq<Seq<char>>) -> Seq<char>
    decreases ops.len(),
{
    if ops.len() == 0 {
        Seq::empty()
    } else {
        ops_text(ops.drop_last()) + ops.last()
    }
}

/// Every code field's value in the row can be encoded.
pub open spec fn codes_ok(fields: Seq<(String, FieldSpec)>, row: Seq<(String, String)>) -> bool {
    forall|j: int|
        0 <= j < fields.len() && is_image(#[trigger] fields[j]) ==> qr_image(
            row_value(row, fields[j].0@),
            BACKGROUND,
            MARK,
        ) is Some
}

/// The composite font's content-stream name, if there is one.
pub open spec fn cid_name_of(f: FontRefs) -> Option<Seq<char>> {
    match f.cid {
        Some(c) => Some(c.1@),
        None => None,
    }
}

/// The overlay text of a row.
pub open spec fn overlay_of(f: FontRefs, fields: Seq<(String, FieldSpec)>, row: Seq<(String, String)>, ph: int, base: int) -> Seq<char> {
    ops_text(row_ops(f.regular_name@, cid_name_of(f), fields, row, ph, base))
}

/// Page `page` of `d` shows the page `base`'s entries, its content streams
/// followed by stream `sid`, which holds `overlay`; its resources may differ.
pub open spec fn page_shows(d: ObjectStore, page: ObjectId, base: Seq<(Seq<u8>, Obj)>, sid: ObjectId, overlay: Seq<char>) -> bool {
    let ck = name_bytes("Contents"@);
    let rk = name_bytes("Resources"@);
    &&& d.obj(sid) == Some(Obj::Stream(Seq::empty(), vstd::utf8::encode_utf8(overlay)))
    &&& match d.obj(page) {
        Some(Obj::Dict(np)) => {
            &&& lookup(np, ck) == Some(Obj::Array(contents_list(lookup(base, ck)).push(Obj::Reference(sid))))
            &&& forall|k: Seq<u8>| k != ck && k != rk ==> lookup(np, k) == lookup(base, k)
        },
        _ => false,
    }
}

proof fn lemma_joined_push(parts: Seq<String>, s: String)
    ensures
        joined(parts.push(s)) == joined(parts) + s@,
{
    assert(parts.push(s).drop_last() =~= parts);
}

/// Draws one row's fields onto a page and binds the fonts and images into
/// its resources. Objects numbered up to the store's `max_id`, but for the
/// page, stay as they were. Where the page is a dictionary and every code
/// value can be encoded, it succeeds: the images come first, then the
/// overlay stream, then the page's new resource dictionary.
fn apply_row(
    doc: &mut ObjectStore,
    page_id: ObjectId,
    row: &DataRow,
    config: &PlaceConfig,
    page_height: Dimension,
    fonts: &FontRefs,
) -> (r: Result<(), BuildError>)
    requires
        old(doc).wf(),
        old(doc).max_id + config.fields@.len() + 2 <= u32::MAX,
        fields_ok(config.fields@),
        -MAX_MICRO < page_height.0 < MAX_MICRO,
    ensures
        final(doc).wf(),
        old(doc).max_id <= final(doc).max_id <= old(doc).max_id + config.fields@.len() + 2,
        forall|o: ObjectId|
            o != page_id && o.num <= old(doc).max_id ==> final(doc).obj(o) == old(doc).obj(o),
        is_dict(old(doc).obj(page_id)) && codes_ok(config.fields@, row.data@) ==> {
            let k = images_in(config.fields@);
            &&& r is Ok
            &&& final(doc).max_id == old(doc).max_id + k + 2
            &&& page_shows(
                *final(doc),
                page_id,
                old(doc).obj(page_id)->0->Dict_0,
                at(old(doc).max_id as int, k + 1int),
                overlay_of(*fonts, config.fields@, row.data@, page_height.0 as int, old(doc).max_id as int),
            )
        },
{
    let mut builder = match &fonts.cid {
        Some(c) => ContentBuilder::new_with_cid_font(fonts.regular_name.clone(), c.1.clone()),
        None => ContentBuilder::new(fonts.regular_name.clone()),
    };
    let ghost start = *doc;
    let ghost good = is_dict(start.obj(page_id)) && codes_ok(config.fields@, row.data@);
    let ghost fields = config.fields@;
    let ghost font = fonts.regular_name@;
    let ghost cid = cid_name_of(*fonts);
    let ghost ph = page_height.0 as int;
    proof {
        assert(fields.take(0) =~= Seq::<(String, FieldSpec)>::empty());
        assert(builder.content_parts@ =~= Seq::<String>::empty());
    }
    let mut j: usize = 0;
    while j < config.fields.len()
        invariant
            j <= config.fields.len(),
            fields == config.fields@,
            doc.wf(),
            start.wf(),
            start == *old(doc),
            start.max_id + config.fields@.len() + 2 <= u32::MAX,
            start.max_id <= doc.max_id <= start.max_id + j,
            fields_ok(config.fields@),
            -MAX_MICRO < page_height.0 < MAX_MICRO,
            ph == page_height.0 as int,
            forall|o: ObjectId| o.num <= start.max_id ==> doc.obj(o) == start.obj(o),
            builder.font_name@ == font,
            name_view(builder.cid_font_name) == cid,
            good == (is_dict(start.obj(page_id)) && codes_ok(fields, row.data@)),
            good ==> doc.max_id == start.max_id + images_in(fields.take(j as int)),
            good ==> joined(builder.content_parts@) == ops_text(
                row_ops(font, cid, fields.take(j as int), row.data@, ph, start.max_id as int),
            ),
        decreases config.fields.len() - j,
    {
        let name = config.fields[j].0.as_str();
        let spec = &config.fields[j].1;
        assert(config.fields@[j as int].1.lengths_ok());
        let value = row.value_of(name);
        let ghost b0 = builder;
        let ghost d0 = *doc;
        proof {
            assert(fields.take(j + 1).drop_last() =~= fields.take(j as int));
            assert(fields.take(j + 1).last() == fields[j as int]);
        }
        match builder.add_field(name, value, spec, page_height, doc) {
            Ok(()) => {},
            Err(e) => {
                return Err(BuildError::Content(e));
            },
        }
        proof {
            if good {
                let prev = fields.take(j as int);
                let ops0 = row_ops(font, cid, prev, row.data@, ph, start.max_id as int);
                let ops1 = row_ops(font, cid, fields.take(j + 1), row.data@, ph, start.max_id as int);
                let f = fields[j as int];
                let op = if is_image(f) {
                    image_op_for((start.max_id + images_in(prev) + 1) as u32, f.1, ph)
                } else {
                    text_op_with(font, cid, row_value(row.data@, f.0@), f.1, ph)
                };
                assert(ops1 == ops0.push(op));
                assert(ops0.push(op).drop_last() =~= ops0);
                assert(ops_text(ops1) == ops_text(ops0) + op);
                assert(builder.content_parts@.last()@ == op);
                lemma_joined_push(b0.content_parts@, builder.content_parts@.last());
                assert(builder.content_parts@ =~= b0.content_parts@.push(builder.content_parts@.last()));
            }
        }
        j = j + 1;
    }
    proof {
        assert(fields.take(j as int) =~= fields);
    }
    let bytes = builder.build_content_bytes();
    add_page_contents(doc, page_id, bytes)?;
    let (cid_id, cid_name) = match &fonts.cid {
        Some(c) => (Some(c.0), Some(c.1.as_str())),
        None => (None, None),
    };
    update_page_resources_with_fonts(
        doc,
        page_id,
        fonts.regular_id,
        fonts.regular_name.as_str(),
        cid_id,
        cid_name,
        &builder.xobjects,
    );
    proof {
        reveal_strlit("Contents");
        reveal_strlit("Resources");
        lemma_name_bytes_injective("Contents"@, "Resources"@);
    }
    Ok(())
}

/// A new page object: a copy of the template page, so it carries the same
/// content and resources.
pub fn clone_page(doc: &mut ObjectStore, template: &PdfDict) -> (id: ObjectId)
    requires
        old(doc).wf(),
        old(doc).max_id < u32::MAX,
    ensures
        final(doc).wf(),
        id == (ObjectId { num: (old(doc).max_id + 1) as u32, gen: 0 }),
        final(doc).max_id == old(doc).max_id + 1,
        final(doc).obj(id) == Some(Obj::Dict(dict_view(*template))),
        forall|o: ObjectId| o != id ==> final(doc).obj(o) == old(doc).obj(o),
{
    doc.add_object(PdfObject::Dictionary(copy_dict(template)))
}

/// Adds a copy of the template page and draws one row onto it.
pub fn create_page_for_row(
    doc: &mut ObjectStore,
    base_page: &PdfDict,
    row: &DataRow,
    config: &PlaceConfig,
    page_height: Dimension,
    fonts: &FontRefs,
) -> (r: Result<ObjectId, BuildError>)
    requires
        old(doc).wf(),
        old(doc).max_id + config.fields@.len() + ROW_OBJECTS <= u32::MAX,
        fields_ok(config.fields@),
        -MAX_MICRO < page_height.0 < MAX_MICRO,
    ensures
        final(doc).wf(),
        old(doc).max_id <= final(doc).max_id <= old(doc).max_id + config.fields@.len() + ROW_OBJECTS,
        forall|o: ObjectId| o.num <= old(doc).max_id ==> final(doc).obj(o) == old(doc).obj(o),
        r matches Ok(id) ==> id == (ObjectId { num: (old(doc).max_id + 1) as u32, gen: 0 }),
        codes_ok(config.fields@, row.data@) ==> {
            let k = images_in(config.fields@);
            &&& r == Ok::<ObjectId, BuildError>(at(old(doc).max_id as int, 1))
            &&& final(doc).max_id == old(doc).max_id + k + 3
            &&& page_shows(
                *final(doc),
                at(old(doc).max_id as int, 1),
                dict_view(*base_page),
                at(old(doc).max_id as int, k + 2int),
                overlay_of(*fonts, config.fields@, row.data@, page_height.0 as int, old(doc).max_id + 1),
            )
        },
{
    let page_id = clone_page(doc, base_page);
    apply_row(doc, page_id, row, config, page_height, fonts)?;
    Ok(page_id)
}

/// The page tree after a run over `n` rows: with more than one row the root
/// lists the new pages after its old children and counts them all; else it
/// is as it was.
pub open spec fn page_tree_extended(pd: Seq<(Seq<u8>, Obj)>, np: Seq<(Seq<u8>, Obj)>, n: nat) -> bool {
    if n <= 1 {
        np == pd
    } else {
        &&& kids_of(np).len() == kids_of(pd).len() + n - 1
        &&& kids_of(np).take(kids_of(pd).len() as int) == kids_of(pd)
        &&& lookup(np, name_bytes("Count"@)) == Some(Obj::Integer(kids_of(np).len() as i64))
    }
}

/// Every field's lengths lie in range.
pub open spec fn all_lengths_ok(fields: Seq<(String, FieldSpec)>) -> bool {
    forall|j: int| 0 <= j < fields.len() ==> (#[trigger] fields[j]).1.lengths_ok()
}

pub open spec fn is_dict(o: Option<Obj>) -> bool {
    o is Some && o->0 is Dict
}

/// Some field's output type is neither `QR` nor `Text`.
pub open spec fn has_unknown_type(fields: Seq<(String, FieldSpec)>) -> bool {
    exists|j: int| 0 <= j < fields.len() && kind_of((#[trigger] fields[j]).1.output_type@) is None
}

/// The page-tree root is a dictionary before and after a run over `n` rows,
/// and was extended by the run.
pub open spec fn run_page_tree(d0: ObjectStore, d1: ObjectStore, pages_id: ObjectId, n: nat) -> bool {
    match d0.obj(pages_id) {
        Some(Obj::Dict(pd)) => kids_of(pd).len() < 0x4000_0000_0000_0000 ==> match d1.obj(pages_id) {
            Some(Obj::Dict(np)) => page_tree_extended(pd, np, n),
            _ => false,
        },
        _ => false,
    }
}

/// The standard font a run uses: the one the settings name, else Helvetica.
pub open spec fn chosen_font(font: Option<String>) -> StandardFont {
    match font {
        Some(n) => match font_of_lower(lower_of(n@)) {
            Some(f) => f,
            None => StandardFont::Helvetica,
        },
        None => StandardFont::Helvetica,
    }
}

/// Every row's code values can be encoded.
pub open spec fn all_codes_ok(fields: Seq<(String, FieldSpec)>, rows: Seq<DataRow>) -> bool {
    forall|i: int| 0 <= i < rows.len() ==> codes_ok(fields, (#[trigger] rows[i]).data@)
}

/// A composite font is embedded: some placed value is wide and a font was
/// given.
pub open spec fn embeds_cid(rows: Seq<DataRow>, fields: Seq<(String, FieldSpec)>, wide_font: Option<(Vec<u8>, String)>) -> bool {
    wide_text_present(rows, fields) && wide_font is Some
}

/// The content-stream name of the composite font a run embeds, if any.
pub open spec fn run_cid_name(rows: Seq<DataRow>, fields: Seq<(String, FieldSpec)>, wide_font: Option<(Vec<u8>, String)>) -> Option<Seq<char>> {
    if embeds_cid(rows, fields, wide_font) {
        Some(dashed((wide_font->0).1@))
    } else {
        None
    }
}

/// The inputs on which a run succeeds: valid fields and page height, a
/// template page and page-tree root that are distinct dictionaries, enough
/// free object numbers, encodable code values and a font program of
/// representable size.
pub open spec fn run_can_succeed(
    d0: ObjectStore,
    template_page: ObjectId,
    pages_id: ObjectId,
    ph: int,
    rows: Seq<DataRow>,
    fields: Seq<(String, FieldSpec)>,
    wide_font: Option<(Vec<u8>, String)>,
) -> bool {
    &&& fields_ok(fields)
    &&& -MAX_MICRO < ph < MAX_MICRO
    &&& is_dict(d0.obj(template_page))
    &&& is_dict(d0.obj(pages_id))
    &&& pages_id != template_page
    &&& kids_of(d0.obj(pages_id)->0->Dict_0).len() < 0x4000_0000_0000_0000
    &&& rows.len() <= 0x4000_0000
    &&& fields.len() <= 0x4000_0000
    &&& d0.max_id + FONT_OBJECTS + rows.len() * (fields.len() + ROW_OBJECTS) <= u32::MAX
    &&& all_codes_ok(fields, rows)
    &&& (wide_font matches Some(w) ==> w.0@.len() < 0x7fff_ffff_ffff_ffff)
}

/// Where a run put each row: `pages[i]` shows the template's entries with
/// row `i`'s overlay in stream `sids[i]`, its images numbered from
/// `bases[i] + 1`; page 0 is the template page, the others are new, in
/// increasing number, and the page tree lists them after its old children.
pub open spec fn run_layout(
    d0: ObjectStore,
    d: ObjectStore,
    template_page: ObjectId,
    pages_id: ObjectId,
    rows: Seq<DataRow>,
    fields: Seq<(String, FieldSpec)>,
    ph: int,
    font: Seq<char>,
    cid: Option<Seq<char>>,
    pages: Seq<ObjectId>,
    sids: Seq<ObjectId>,
    bases: Seq<int>,
) -> bool {
    let n = rows.len();
    let te = d0.obj(template_page)->0->Dict_0;
    &&& pages.len() == n && sids.len() == n && bases.len() == n
    &&& n > 0 ==> pages[0] == template_page
    &&& forall|i: int| 1 <= i < n ==> (#[trigger] pages[i]).num > d0.max_id
    &&& forall|i: int, j: int| 1 <= i < j < n ==> (#[trigger] pages[i]).num < (#[trigger] pages[j]).num
    &&& forall|i: int|
        0 <= i < n ==> page_shows(
            d,
            #[trigger] pages[i],
            te,
            sids[i],
            ops_text(row_ops(font, cid, fields, rows[i].data@, ph, bases[i])),
        )
    &&& match d.obj(pages_id) {
        Some(Obj::Dict(np)) => {
            let pd = d0.obj(pages_id)->0->Dict_0;
            if n <= 1 {
                np == pd
            } else {
                &&& kids_of(np) == kids_of(pd) + refs(pages.drop_first())
                &&& lookup(np, name_bytes("Count"@)) == Some(Obj::Integer(kids_of(np).len() as i64))
            }
        },
        _ => false,
    }
}

/// Objects added per row beyond its fields: the page copy, its content
/// stream and its resource dictionary.
pub const ROW_OBJECTS: u64 = 3;

/// Objects the fonts of a run add at most.
pub const FONT_OBJECTS: u64 = 6;

/// Assembles the output: the template page shows the first row, and each
/// further row gets a copy of the template page, registered in the page
/// tree in row order. Any unknown output type is refused before the store
/// changes.
#[verifier::rlimit(100)]
pub fn create_output_pdf(
    doc: &mut ObjectStore,
    template_page: ObjectId,
    pages_id: ObjectId,
    page_height: Dimension,
    data_rows: &Vec<DataRow>,
    config: &PlaceConfig,
    wide_font: Option<(Vec<u8>, String)>,
) -> (r: Result<(), BuildError>)
    requires
        old(doc).wf(),
    ensures
        has_unknown_type(config.fields@) ==> r is Err && r->Err_0 is Content
            && r->Err_0->Content_0 is UnknownOutputType && *final(doc) == *old(doc),
        !has_unknown_type(config.fields@) && !all_lengths_ok(config.fields@) ==> r is Err
            && r->Err_0 is LengthOutOfRange && *final(doc) == *old(doc),
        fields_ok(config.fields@) && !(-MAX_MICRO < page_height.0 < MAX_MICRO) ==> r is Err
            && r->Err_0 is LengthOutOfRange && *final(doc) == *old(doc),
        fields_ok(config.fields@) && -MAX_MICRO < page_height.0 < MAX_MICRO && !is_dict(
            old(doc).obj(template_page),
        ) ==> r is Err && r->Err_0 is NoPagesInTemplate && *final(doc) == *old(doc),
        r is Ok ==> final(doc).wf(),
        r is Ok ==> run_page_tree(*old(doc), *final(doc), pages_id, data_rows@.len()),
        run_can_succeed(*old(doc), template_page, pages_id, page_height.0 as int, data_rows@, config.fields@, wide_font) ==> {
            let embedded = embeds_cid(data_rows@, config.fields@, wide_font);
            let font = base_name(chosen_font(config.settings.font));
            let cid = run_cid_name(data_rows@, config.fields@, wide_font);
            &&& r is Ok
            &&& final(doc).obj(at(old(doc).max_id as int, 1)) == Some(Obj::Dict(type1_view(font)))
            &&& embedded ==> cid_font_objects(old(doc).max_id + 1, *final(doc), (wide_font->0).0@, (wide_font->0).1@)
            &&& exists|pages: Seq<ObjectId>, sids: Seq<ObjectId>, bases: Seq<int>|
                #[trigger] run_layout(*old(doc), *final(doc), template_page, pages_id, data_rows@, config.fields@,
                    page_height.0 as int, font, cid, pages, sids, bases)
                && (data_rows@.len() > 0 ==> bases[0] == old(doc).max_id + 1 + if embedded {
                    cid_font_size((wide_font->0).0@)
                } else {
                    0
                })
        },
{
    let mut j: usize = 0;
    while j < config.fields.len()
        invariant
            j <= config.fields.len(),
            forall|a: int| 0 <= a < j ==> kind_of((#[trigger] config.fields@[a]).1.output_type@) is Some,
        decreases config.fields.len() - j,
    {
        let t = config.fields[j].1.output_type.as_str();
        match field_kind(t) {
            Some(_) => {},
            None => {
                return Err(
                    BuildError::Content(ContentError::UnknownOutputType(config.fields[j].1.output_type.clone())),
                );
            },
        }
        j = j + 1;
    }
    let mut j: usize = 0;
    while j < config.fields.len()
        invariant
            j <= config.fields.len(),
            forall|a: int| 0 <= a < config.fields.len() ==> kind_of((#[trigger] config.fields@[a]).1.output_type@) is Some,
            forall|a: int| 0 <= a < j ==> (#[trigger] config.fields@[a]).1.lengths_ok(),
        decreases config.fields.len() - j,
    {
        if !config.fields[j].1.lengths_in_range() {
            return Err(BuildError::LengthOutOfRange);
        }
        j = j + 1;
    }
    assert(fields_ok(config.fields@));
    if !(-MAX_MICRO < page_height.0 && page_height.0 < MAX_MICRO) {
        return Err(BuildError::LengthOutOfRange);
    }
    let base = match doc.get(template_page) {
        Some(PdfObject::Dictionary(d)) => copy_dict(d),
        _ => {
            return Err(BuildError::NoPagesInTemplate);
        },
    };
    match doc.get(pages_id) {
        Some(PdfObject::Dictionary(_)) => {},
        _ => {
            return Err(BuildError::PageTreeMissing);
        },
    }
    if pages_id == template_page {
        return Err(BuildError::PageTreeMissing);
    }
    let n_rows = data_rows.len();
    let n_fields = config.fields.len();
    if n_rows as u64 > 0x4000_0000 || n_fields as u64 > 0x4000_0000 {
        return Err(BuildError::ObjectIdsExhausted);
    }
    let per_row: u64 = n_fields as u64 + ROW_OBJECTS;
    assert(n_rows as u64 * per_row <= 0x4000_0000 * 0x4000_0003) by (nonlinear_arith)
        requires n_rows as u64 <= 0x4000_0000, per_row <= 0x4000_0003;
    let need: u64 = FONT_OBJECTS + n_rows as u64 * per_row;
    if doc.max_id as u64 + need > u32::MAX as u64 {
        return Err(BuildError::ObjectIdsExhausted);
    }
    let ghost d0 = *doc;
    let ghost good = run_can_succeed(d0, template_page, pages_id, page_height.0 as int, data_rows@, config.fields@, wide_font);
    let ghost embedded = embeds_cid(data_rows@, config.fields@, wide_font);
    let font_choice = match &config.settings.font {
        Some(s) => Some(s.as_str()),
        None => None,
    };
    let (regular_id, regular_name) = match create_font(doc, select_standard_font(font_choice)) {
        Ok(t) => t,
        Err(_) => {
            return Err(BuildError::FontEmbeddingFailure);
        },
    };
    assert(regular_name@ == base_name(chosen_font(config.settings.font)));
    let mut cid: Option<(ObjectId, String)> = None;
    if should_use_cid_font(data_rows, config) {
        match wide_font {
            Some(w) => {
                let (data, family) = w;
                if data.len() as u64 >= 0x7fff_ffff_ffff_ffff {
                    return Err(BuildError::FontProgramTooLarge);
                }
                match embed_cid_font(doc, data.as_slice(), family.as_str()) {
                    Ok(t) => {
                        cid = Some(t);
                    },
                    Err(_) => {
                        return Err(BuildError::FontEmbeddingFailure);
                    },
                }
            },
            None => {},
        }
    }
    let fonts = FontRefs { regular_id, regular_name, cid };
    let ghost d1 = *doc;
    let ghost font = fonts.regular_name@;
    let ghost cidn = cid_name_of(fonts);
    let ghost fields = config.fields@;
    let ghost ph = page_height.0 as int;
    let ghost te = d0.obj(template_page)->0->Dict_0;
    proof {
        assert(embedded ==> cidn == Some(dashed((wide_font->0).1@)));
        assert(!embedded ==> cidn is None);
        assert(d1.max_id == d0.max_id + 1 + if embedded { cid_font_size((wide_font->0).0@) } else { 0 });
    }
    assert(d1.max_id <= d0.max_id + FONT_OBJECTS);
    let mut additional: Vec<ObjectId> = Vec::new();
    let ghost mut gp: Seq<ObjectId> = Seq::empty();
    let ghost mut gs: Seq<ObjectId> = Seq::empty();
    let ghost mut gb: Seq<int> = Seq::empty();
    let mut i: usize = 0;
    while i < n_rows
        invariant
            i <= n_rows,
            n_rows == data_rows.len(),
            n_fields == config.fields.len(),
            fields == config.fields@,
            per_row == n_fields + ROW_OBJECTS,
            d1.max_id + n_rows * per_row <= u32::MAX,
            doc.wf(),
            d1.max_id <= doc.max_id <= d1.max_id + i * per_row,
            d0.max_id < d1.max_id,
            fields_ok(config.fields@),
            -MAX_MICRO < page_height.0 < MAX_MICRO,
            ph == page_height.0 as int,
            pages_id.num <= d0.max_id,
            template_page.num <= d0.max_id,
            pages_id != template_page,
            d0 == *old(doc),
            is_dict(d0.obj(template_page)),
            te == d0.obj(template_page)->0->Dict_0,
            dict_view(base) == te,
            d1.obj(template_page) == d0.obj(template_page),
            i == 0 ==> *doc == d1,
            doc.obj(pages_id) == d0.obj(pages_id),
            font == fonts.regular_name@,
            cidn == cid_name_of(fonts),
            forall|o: ObjectId| o.num <= d1.max_id && o != template_page ==> doc.obj(o) == d1.obj(o),
            good == run_can_succeed(d0, template_page, pages_id, ph, data_rows@, fields, wide_font),
            good ==> gp.len() == i && gs.len() == i && gb.len() == i,
            good ==> (i > 0 ==> gp[0] == template_page && gb[0] == d1.max_id),
            good ==> forall|k: int| 1 <= k < i ==> d1.max_id < (#[trigger] gp[k]).num <= doc.max_id,
            good ==> forall|k: int, m: int| 1 <= k < m < i ==> (#[trigger] gp[k]).num < (#[trigger] gp[m]).num,
            good ==> forall|k: int| 0 <= k < i ==> d1.max_id < (#[trigger] gs[k]).num <= doc.max_id,
            good ==> forall|k: int|
                0 <= k < i ==> page_shows(
                    *doc,
                    #[trigger] gp[k],
                    te,
                    gs[k],
                    ops_text(row_ops(font, cidn, fields, data_rows@[k].data@, ph, gb[k])),
                ),
            good ==> additional@ == if i == 0 { Seq::<ObjectId>::empty() } else { gp.drop_first() },
            !good ==> additional@.len() == if i == 0 { 0 } else { i - 1 },
        decreases n_rows - i,
    {
        proof {
            assert((i + 1) * per_row == i * per_row + per_row) by (nonlinear_arith);
            assert(i * per_row + per_row <= n_rows * per_row) by (nonlinear_arith)
                requires i < n_rows;
        }
        let ghost prev = *doc;
        let ghost row_k = data_rows@[i as int].data@;
        proof {
            if good {
                assert(codes_ok(fields, row_k));
            }
        }
        if i == 0 {
            apply_row(doc, template_page, &data_rows[i], config, page_height, &fonts)?;
            proof {
                if good {
                    let k = images_in(fields);
                    gp = seq![template_page];
                    gs = seq![at(prev.max_id as int, k + 1int)];
                    gb = seq![prev.max_id as int];
                    assert(prev.obj(template_page) == d0.obj(template_page));
                }
            }
        } else {
            let id = create_page_for_row(doc, &base, &data_rows[i], config, page_height, &fonts)?;
            additional.push(id);
            proof {
                if good {
                    let k = images_in(fields);
                    assert forall|m: int| 0 <= m < i implies page_shows(
                        *doc,
                        #[trigger] gp[m],
                        te,
                        gs[m],
                        ops_text(row_ops(font, cidn, fields, data_rows@[m].data@, ph, gb[m])),
                    ) by {
                        assert(doc.obj(gp[m]) == prev.obj(gp[m]));
                        assert(doc.obj(gs[m]) == prev.obj(gs[m]));
                    }
                    gp = gp.push(id);
                    gs = gs.push(at(prev.max_id as int, k + 2int));
                    gb = gb.push(prev.max_id + 1);
                    assert(additional@ =~= gp.drop_first());
                }
            }
        }
        i = i + 1;
    }
    let ghost d2 = *doc;
    update_pages_dictionary(doc, pages_id, &additional)?;
    proof {
        assert(d0 == *old(doc));
        assert(d2.obj(pages_id) == d0.obj(pages_id));
        let pd = d0.obj(pages_id)->0->Dict_0;
        if n_rows > 1 {
            assert(refs(additional@).len() == n_rows - 1);
            assert((kids_of(pd) + refs(additional@)).take(kids_of(pd).len() as int) =~= kids_of(pd));
            if kids_of(pd).len() < 0x4000_0000_0000_0000 {
                assert((kids_of(pd) + refs(additional@)).len() < i64::MAX);
                assert(doc.obj(pages_id) is Some);
                let np = doc.obj(pages_id)->0->Dict_0;
                assert(kids_of(np) == kids_of(pd) + refs(additional@));
                assert(page_tree_extended(pd, np, n_rows as nat));
            }
        } else {
            assert(additional@.len() == 0);
            assert(*doc == d2);
        }
        assert(run_page_tree(d0, *doc, pages_id, n_rows as nat));
        if good {
            assert forall|m: int| 0 <= m < n_rows implies page_shows(
                *doc,
                #[trigger] gp[m],
                te,
                gs[m],
                ops_text(row_ops(font, cidn, fields, data_rows@[m].data@, ph, gb[m])),
            ) by {
                assert(doc.obj(gp[m]) == d2.obj(gp[m]));
                assert(doc.obj(gs[m]) == d2.obj(gs[m]));
            }
            assert forall|o: ObjectId| o.num <= d1.max_id && o.num > d0.max_id implies doc.obj(o) == d1.obj(o) by {
                assert(doc.obj(o) == d2.obj(o));
            }
            assert(doc.obj(at(d0.max_id as int, 1)) == d1.obj(at(d0.max_id as int, 1)));
            assert(d1.obj(at(d0.max_id as int, 1)) == Some(Obj::Dict(type1_view(font))));
            if embedded {
                assert(cid_font_objects(d0.max_id + 1, d1, (wide_font->0).0@, (wide_font->0).1@));
                assert(cid_font_objects(d0.max_id + 1, *doc, (wide_font->0).0@, (wide_font->0).1@));
            }
            assert(run_layout(d0, *doc, template_page, pages_id, data_rows@, fields, ph, font, cidn, gp, gs, gb));
            let fnt = base_name(chosen_font(config.settings.font));
            let cd = run_cid_name(data_rows@, config.fields@, wide_font);
            assert(fnt == font);
            assert(cd == cidn);
            assert(run_layout(d0, *doc, template_page, pages_id, data_rows@, config.fields@, page_height.0 as int, fnt, cd, gp, gs, gb));
            assert(data_rows@.len() > 0 ==> gb[0] == d0.max_id + 1 + if embedded { cid_font_size((wide_font->0).0@) } else { 0 });
            assert(exists|pages: Seq<ObjectId>, sids: Seq<ObjectId>, bases: Seq<int>|
                #[trigger] run_layout(d0, *doc, template_page, pages_id, data_rows@, config.fields@,
                    page_height.0 as int, fnt, cd, pages, sids, bases)
                && (data_rows@.len() > 0 ==> bases[0] == d0.max_id + 1 + if embedded {
                    cid_font_size((wide_font->0).0@)
                } else {
                    0
                }));
        }
    }
    Ok(())
}

} // verus!
