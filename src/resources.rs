//! Merging new fonts and images into one page's resources. The page gets a
//! resource dictionary of its own (a copy of what it had, with the
//! additions), so a sibling page that shared the old one never sees them.
use vstd::prelude::*;
use crate::object::{
    copy_dict, dict_view, distinct_keys, lemma_lookup_none, lemma_name_bytes_injective, lookup, name_bytes, name_of, obj_view, Obj, ObjectId, PdfDict,
    PdfObject, copy_bytes, copy_object,
};
use crate::store::ObjectStore;

verus! {

/// The dictionary an entry stands for: its own, or the dictionary object it
/// refers to; empty for anything else.
pub open spec fn resolved_dict(doc: ObjectStore, o: Option<Obj>) -> Seq<(Seq<u8>, Obj)> {
    match o {
        Some(Obj::Dict(d)) => d,
        Some(Obj::Reference(id)) => match doc.obj(id) {
            Some(Obj::Dict(d)) => d,
            _ => Seq::empty(),
        },
        _ => Seq::empty(),
    }
}

pub open spec fn opt_view(o: Option<&PdfObject>) -> Option<Obj> {
    match o {
        Some(x) => Some(obj_view(*x)),
        None => None,
    }
}

/// A copy of the dictionary an entry stands for.
pub fn resolve_dict(doc: &ObjectStore, o: Option<&PdfObject>) -> (r: PdfDict)
    ensures
        dict_view(r) == resolved_dict(*doc, opt_view(o)),
{
    match o {
        Some(PdfObject::Dictionary(d)) => copy_dict(d),
        Some(PdfObject::Reference(id)) => match doc.get(*id) {
            Some(PdfObject::Dictionary(d)) => copy_dict(d),
            _ => {
                let r = PdfDict::new();
                assert(dict_view(r) =~= Seq::empty());
                r
            },
        },
        _ => {
            let r = PdfDict::new();
            assert(dict_view(r) =~= Seq::empty());
            r
        },
    }
}

/// `merged` holds every entry of `added`, and for other keys what `base` held.
pub open spec fn overlaid(
    merged: Seq<(Seq<u8>, Obj)>,
    base: Seq<(Seq<u8>, Obj)>,
    added: Seq<(Seq<u8>, Obj)>,
) -> bool {
    forall|k: Seq<u8>|
        #[trigger] lookup(merged, k) == if lookup(added, k) is Some {
            lookup(added, k)
        } else {
            lookup(base, k)
        }
}

/// Sets every entry of `added` in `target`.
/// New entries: distinct keys, none of which the base has.
pub open spec fn fresh_entries(base: Seq<(Seq<u8>, Obj)>, added: Seq<(Seq<u8>, Obj)>) -> bool {
    &&& distinct_keys(added)
    &&& forall|i: int| 0 <= i < added.len() ==> lookup(base, (#[trigger] added[i]).0) is None
}

/// Sets every entry of `added` in `target`; where the entries are new, the
/// table grows by exactly their number.
pub fn merge_entries(target: &mut PdfDict, added: &PdfDict)
    ensures
        overlaid(dict_view(*final(target)), dict_view(*old(target)), dict_view(*added)),
        fresh_entries(dict_view(*old(target)), dict_view(*added)) ==> final(target).entries@.len()
            == old(target).entries@.len() + added.entries@.len(),
{
    let ghost base = dict_view(*target);
    let ghost a = dict_view(*added);
    let mut i: usize = 0;
    assert(a.take(0) =~= Seq::<(Seq<u8>, Obj)>::empty());
    while i < added.entries.len()
        invariant
            i <= added.entries.len(),
            a == dict_view(*added),
            overlaid(dict_view(*target), base, a.take(i as int)),
            fresh_entries(base, a) ==> target.entries@.len() == base.len() + i,
            base.len() == old(target).entries@.len(),
        decreases added.entries.len() - i,
    {
        proof {
            if fresh_entries(base, a) {
                let k0 = a[i as int].0;
                lemma_lookup_none(a.take(i as int), k0);
                assert forall|m: int| 0 <= m < a.take(i as int).len() implies (#[trigger] a.take(i as int)[m]).0 != k0 by {
                    assert(a.take(i as int)[m] == a[m]);
                }
                assert(lookup(dict_view(*target), k0) is None);
            }
        }
        assert(a.take(i + 1).drop_last() =~= a.take(i as int));
        assert(a.take(i + 1).last() == a[i as int]);
        let k = copy_bytes(&added.entries[i].0);
        let v = copy_object(&added.entries[i].1);
        assert(a[i as int].0 == k@);
        assert(a[i as int].1 == obj_view(v));
        let ghost before = dict_view(*target);
        let ghost before_d = *target;
        let ghost kv = k@;
        target.set(k, v);
        assert forall|key: Seq<u8>| #[trigger]
            lookup(dict_view(*target), key) == if lookup(a.take(i + 1), key) is Some {
                lookup(a.take(i + 1), key)
            } else {
                lookup(base, key)
            } by {
            assert(lookup(before, key) == if lookup(a.take(i as int), key) is Some {
                lookup(a.take(i as int), key)
            } else {
                lookup(base, key)
            });
            if key == kv {
                assert(target.get_spec(key) == Some(a[i as int].1));
                assert(lookup(a.take(i + 1), key) == Some(a[i as int].1));
            } else {
                assert(target.get_spec(key) == before_d.get_spec(key));
                assert(lookup(a.take(i + 1), key) == lookup(a.take(i as int), key));
            }
        }
        i = i + 1;
    }
    assert(a.take(i as int) =~= a);
}

/// The font table after the merge: the standard font and, where given, the
/// composite font bound to their names; other names as before.
pub open spec fn fonts_bound(
    f: Seq<(Seq<u8>, Obj)>,
    base: Seq<(Seq<u8>, Obj)>,
    regular_name: Seq<char>,
    regular_id: ObjectId,
    cid: Option<(ObjectId, Seq<char>)>,
) -> bool {
    &&& !(cid is Some && name_bytes((cid->0).1) == name_bytes(regular_name)) ==> lookup(
        f,
        name_bytes(regular_name),
    ) == Some(Obj::Reference(regular_id))
    &&& cid is Some ==> lookup(f, name_bytes((cid->0).1)) == Some(Obj::Reference((cid->0).0))
    &&& forall|k: Seq<u8>|
        k != name_bytes(regular_name) && !(cid is Some && k == name_bytes((cid->0).1)) ==> lookup(f, k)
            == lookup(base, k)
}

pub open spec fn cid_pair(id: Option<ObjectId>, name: Option<&str>) -> Option<(ObjectId, Seq<char>)> {
    match (id, name) {
        (Some(i), Some(n)) => Some((i, n@)),
        _ => None,
    }
}

/// The page's resources after the merge (`res`), against the resources it
/// had (`old_res`, looked up in `doc`).
pub open spec fn resources_merged(
    doc: ObjectStore,
    res: Seq<(Seq<u8>, Obj)>,
    old_res: Seq<(Seq<u8>, Obj)>,
    regular_name: Seq<char>,
    regular_id: ObjectId,
    cid: Option<(ObjectId, Seq<char>)>,
    images: Seq<(Seq<u8>, Obj)>,
) -> bool {
    let font_key = name_bytes("Font"@);
    let xo_key = name_bytes("XObject"@);
    &&& lookup(res, font_key) matches Some(Obj::Dict(f)) && fonts_bound(
        f,
        resolved_dict(doc, lookup(old_res, font_key)),
        regular_name,
        regular_id,
        cid,
    )
    &&& images.len() > 0 ==> (lookup(res, xo_key) matches Some(Obj::Dict(x)) && overlaid(
        x,
        resolved_dict(doc, lookup(old_res, xo_key)),
        images,
    ) && (fresh_entries(resolved_dict(doc, lookup(old_res, xo_key)), images) ==> x.len()
        == resolved_dict(doc, lookup(old_res, xo_key)).len() + images.len()))
    &&& images.len() == 0 ==> lookup(res, xo_key) == lookup(old_res, xo_key)
    &&& forall|k: Seq<u8>| k != font_key && k != xo_key ==> lookup(res, k) == lookup(old_res, k)
}

/// Binds the standard font, the composite font (where both its id and name
/// are given) and the new images into the page's resources. The page's
/// resource dictionary is copied into a new object with the additions and
/// the page refers to that copy; nothing else changes. A page object that
/// is not a dictionary is left alone.
pub fn update_page_resources_with_fonts(
    doc: &mut ObjectStore,
    page_id: ObjectId,
    regular_font_id: ObjectId,
    regular_font_name: &str,
    cid_font_id: Option<ObjectId>,
    cid_font_name: Option<&str>,
    xobject_dict: &PdfDict,
)
    requires
        old(doc).wf(),
        old(doc).max_id < u32::MAX,
    ensures
        final(doc).wf(),
        old(doc).max_id <= final(doc).max_id <= old(doc).max_id + 1,
        forall|o: ObjectId|
            o != page_id && o.num <= old(doc).max_id ==> final(doc).obj(o) == old(doc).obj(o),
        !(old(doc).obj(page_id) matches Some(Obj::Dict(_))) ==> *final(doc) == *old(doc),
        old(doc).obj(page_id) matches Some(Obj::Dict(pd)) ==> ({
            let res_id = ObjectId { num: (old(doc).max_id + 1) as u32, gen: 0 };
            let res_key = name_bytes("Resources"@);
            &&& final(doc).max_id == old(doc).max_id + 1
            &&& final(doc).obj(res_id) matches Some(Obj::Dict(res)) && resources_merged(
                *old(doc),
                res,
                resolved_dict(*old(doc), lookup(pd, res_key)),
                regular_font_name@,
                regular_font_id,
                cid_pair(cid_font_id, cid_font_name),
                dict_view(*xobject_dict),
            )
            &&& final(doc).obj(page_id) matches Some(Obj::Dict(np)) && lookup(np, res_key) == Some(
                Obj::Reference(res_id),
            ) && (forall|k: Seq<u8>| k != res_key ==> lookup(np, k) == lookup(pd, k))
            &&& forall|o: ObjectId| o != page_id && o != res_id ==> final(doc).obj(o) == old(doc).obj(o)
        }),
{
    let mut page = match doc.get(page_id) {
        Some(PdfObject::Dictionary(d)) => copy_dict(d),
        _ => {
            return;
        },
    };
    let ghost pd = dict_view(page);
    let res_key = name_of("Resources");
    let mut res = resolve_dict(doc, page.get(&res_key));
    let ghost old_res = dict_view(res);
    let font_key = name_of("Font");
    let mut fonts = resolve_dict(doc, res.get(&font_key));
    let ghost old_fonts = dict_view(fonts);
    let ghost f0 = fonts;
    fonts.set(name_of(regular_font_name), PdfObject::Reference(regular_font_id));
    let ghost f1 = fonts;
    match (cid_font_id, cid_font_name) {
        (Some(id), Some(n)) => {
            fonts.set(name_of(n), PdfObject::Reference(id));
            assert(cid_pair(cid_font_id, cid_font_name) == Some((id, n@)));
            assert forall|k: Seq<u8>| k != name_bytes(regular_font_name@) && k != name_bytes(n@) implies lookup(dict_view(fonts), k) == lookup(old_fonts, k) by {
                assert(fonts.get_spec(k) == f1.get_spec(k));
                assert(f1.get_spec(k) == f0.get_spec(k));
            }
            assert(dict_view(fonts) == fonts.view());
            assert(fonts.get_spec(name_bytes(n@)) == Some(Obj::Reference(id)));
            assert(lookup(dict_view(fonts), name_bytes(n@)) == Some(Obj::Reference(id)));
            proof {
                if name_bytes(n@) != name_bytes(regular_font_name@) {
                    assert(fonts.get_spec(name_bytes(regular_font_name@)) == f1.get_spec(name_bytes(regular_font_name@)));
                }
            }
        },
        _ => {
            assert(cid_pair(cid_font_id, cid_font_name) is None);
            assert forall|k: Seq<u8>| k != name_bytes(regular_font_name@) implies lookup(dict_view(fonts), k) == lookup(old_fonts, k) by {
                assert(f1.get_spec(k) == f0.get_spec(k));
            }
            assert(fonts_bound(dict_view(fonts), old_fonts, regular_font_name@, regular_font_id, None));
        },
    }
    let ghost fv = dict_view(fonts);
    assert(fonts_bound(fv, old_fonts, regular_font_name@, regular_font_id, cid_pair(cid_font_id, cid_font_name)));
    res.set(font_key, PdfObject::Dictionary(fonts));
    if !xobject_dict.is_empty() {
        let xo_key = name_of("XObject");
        let mut xo = resolve_dict(doc, res.get(&xo_key));
        merge_entries(&mut xo, xobject_dict);
        res.set(xo_key, PdfObject::Dictionary(xo));
    } else {
        assert(dict_view(*xobject_dict) =~= Seq::empty());
    }
    let ghost rv = dict_view(res);
    proof {
        reveal_strlit("Font");
        reveal_strlit("XObject");
        assert("Font"@.len() != "XObject"@.len());
        lemma_name_bytes_injective("Font"@, "XObject"@);
    }
    assert(resources_merged(*old(doc), rv, old_res, regular_font_name@, regular_font_id, cid_pair(cid_font_id, cid_font_name), dict_view(*xobject_dict)));
    let res_id = doc.add_object(PdfObject::Dictionary(res));
    page.set(res_key, PdfObject::Reference(res_id));
    doc.set_object(page_id, PdfObject::Dictionary(page));
}

/// Binds one font and the new images into the page's resources.
pub fn update_page_resources(
    doc: &mut ObjectStore,
    page_id: ObjectId,
    font_id: ObjectId,
    font_name: &str,
    xobject_dict: &PdfDict,
)
    requires
        old(doc).wf(),
        old(doc).max_id < u32::MAX,
    ensures
        final(doc).wf(),
        !(old(doc).obj(page_id) matches Some(Obj::Dict(_))) ==> *final(doc) == *old(doc),
        old(doc).obj(page_id) matches Some(Obj::Dict(pd)) ==> ({
            let res_id = ObjectId { num: (old(doc).max_id + 1) as u32, gen: 0 };
            let res_key = name_bytes("Resources"@);
            &&& final(doc).max_id == old(doc).max_id + 1
            &&& final(doc).obj(res_id) matches Some(Obj::Dict(res)) && resources_merged(
                *old(doc),
                res,
                resolved_dict(*old(doc), lookup(pd, res_key)),
                font_name@,
                font_id,
                None,
                dict_view(*xobject_dict),
            )
            &&& final(doc).obj(page_id) matches Some(Obj::Dict(np)) && lookup(np, res_key) == Some(
                Obj::Reference(res_id),
            ) && (forall|k: Seq<u8>| k != res_key ==> lookup(np, k) == lookup(pd, k))
            &&& forall|o: ObjectId| o != page_id && o != res_id ==> final(doc).obj(o) == old(doc).obj(o)
        }),
{
    update_page_resources_with_fonts(doc, page_id, font_id, font_name, None, None, xobject_dict);
}

} // verus!
