//! Properties that relate several operations, proved over their contracts.
use vstd::prelude::*;
use crate::content::{image_added, image_name, text_op, text_op_for, uses_cid, font_size_of, ContentBuilder};
use crate::config::FieldSpec;
use crate::document::{kids_of, page_tree_extended};
use crate::numfmt::{digit_char, nat_text};
use crate::object::{lemma_name_bytes_injective, lookup, name_bytes, Obj, ObjectId};
use crate::store::ObjectStore;
use crate::text::{be_bytes, cid_hex, escaped, has_wide, lemma_cid_hex_length, unit_count, utf16_units};

verus! {

/// A value without code points above 0x7F is drawn with the standard font
/// as an escaped literal string, whether or not a composite font exists.
pub proof fn lemma_ascii_value_uses_standard_font(b: ContentBuilder, v: Seq<char>, s: FieldSpec, ph: int)
    requires
        !has_wide(v),
    ensures
        !uses_cid(b, v),
        text_op_for(b, v, s, ph) == text_op(
            b.font_name@,
            font_size_of(s),
            s.x.0 as int,
            ph - s.y.0 - font_size_of(s),
            escaped(v),
            false,
        ),
{
}

/// A value with a code point above 0x7F, given a composite font, is drawn
/// with that font as hex text whose byte count is even: two bytes for each
/// 16-bit unit, a code point above 0xFFFF taking two units.
pub proof fn lemma_wide_value_hex_encoded(b: ContentBuilder, v: Seq<char>, s: FieldSpec, ph: int)
    requires
        has_wide(v),
        b.cid_font_name is Some,
    ensures
        uses_cid(b, v),
        text_op_for(b, v, s, ph) == text_op(
            b.cid_font_name->0@,
            font_size_of(s),
            s.x.0 as int,
            ph - s.y.0 - font_size_of(s),
            cid_hex(v),
            true,
        ),
        be_bytes(utf16_units(v)).len() == 2 * unit_count(v),
        be_bytes(utf16_units(v)).len() % 2 == 0,
        cid_hex(v).len() == 2 * be_bytes(utf16_units(v)).len(),
{
    lemma_cid_hex_length(v);
}

/// Characters other than the six escaped ones pass through unchanged.
pub proof fn lemma_plain_text_unescaped(s: Seq<char>)
    requires
        forall|i: int|
            0 <= i < s.len() ==> {
                let c = #[trigger] s[i];
                c != '(' && c != ')' && c != '\\' && c != '\n' && c != '\r' && c != '\t'
            },
    ensures
        escaped(s) == s,
    decreases s.len(),
{
    if s.len() > 0 {
        let t = s.drop_last();
        assert forall|i: int| 0 <= i < t.len() implies {
            let c = #[trigger] t[i];
            c != '(' && c != ')' && c != '\\' && c != '\n' && c != '\r' && c != '\t'
        } by {
            assert(t[i] == s[i]);
        }
        lemma_plain_text_unescaped(t);
        assert(s.last() == s[s.len() - 1]);
        assert(t.push(s.last()) =~= s);
    }
}

/// Escaping a concatenation escapes each part.
pub proof fn lemma_escape_concat(a: Seq<char>, b: Seq<char>)
    ensures
        escaped(a + b) == escaped(a) + escaped(b),
    decreases b.len(),
{
    if b.len() == 0 {
        assert(a + b =~= a);
        assert(escaped(a) + escaped(b) =~= escaped(a));
    } else {
        lemma_escape_concat(a, b.drop_last());
        assert((a + b).drop_last() =~= a + b.drop_last());
        assert((a + b).last() == b.last());
        assert(escaped(a + b) =~= escaped(a) + escaped(b));
    }
}

/// With a template whose page tree lists one page and counts one, a run
/// over at least one row leaves exactly one page per row.
pub proof fn lemma_one_page_per_row(pd: Seq<(Seq<u8>, Obj)>, np: Seq<(Seq<u8>, Obj)>, n: nat)
    requires
        n >= 1,
        n < 0x4000_0000,
        kids_of(pd).len() == 1,
        lookup(pd, name_bytes("Count"@)) == Some(Obj::Integer(1)),
        page_tree_extended(pd, np, n),
    ensures
        kids_of(np).len() == n,
        lookup(np, name_bytes("Count"@)) == Some(Obj::Integer(n as i64)),
{
}

proof fn lemma_nat_text_len(n: nat)
    ensures
        nat_text(n).len() >= 1,
        n >= 10 ==> nat_text(n).len() >= 2,
    decreases n,
{
    if n >= 10 {
        lemma_nat_text_len(n / 10);
    }
}

proof fn lemma_digit_char_injective(a: nat, b: nat)
    requires
        a < 10,
        b < 10,
        digit_char(a) == digit_char(b),
    ensures
        a == b,
{
    assert((digit_char(a) as u32) == a + 48);
    assert((digit_char(b) as u32) == b + 48);
}

/// Different numbers have different decimal texts.
pub proof fn lemma_nat_text_injective(a: nat, b: nat)
    requires
        nat_text(a) == nat_text(b),
    ensures
        a == b,
    decreases a,
{
    lemma_nat_text_len(a);
    lemma_nat_text_len(b);
    if a < 10 && b < 10 {
        assert(nat_text(a)[0] == digit_char(a));
        assert(nat_text(b)[0] == digit_char(b));
        lemma_digit_char_injective(a, b);
    } else if a >= 10 && b >= 10 {
        let ta = nat_text(a);
        let tb = nat_text(b);
        assert(ta.last() == digit_char(a % 10));
        assert(tb.last() == digit_char(b % 10));
        lemma_digit_char_injective(a % 10, b % 10);
        assert(ta.drop_last() =~= nat_text(a / 10));
        assert(tb.drop_last() =~= nat_text(b / 10));
        lemma_nat_text_injective(a / 10, b / 10);
    } else {
        assert(nat_text(a).len() != nat_text(b).len());
    }
}

/// Images stored as different objects get different resource names.
pub proof fn lemma_image_names_distinct(a: u32, b: u32)
    requires
        a != b,
    ensures
        name_bytes(image_name(a)) != name_bytes(image_name(b)),
{
    if name_bytes(image_name(a)) == name_bytes(image_name(b)) {
        lemma_name_bytes_injective(image_name(a), image_name(b));
        let p = "Im"@;
        assert(image_name(a).subrange(p.len() as int, image_name(a).len() as int) =~= nat_text(a as nat));
        assert(image_name(b).subrange(p.len() as int, image_name(b).len() as int) =~= nat_text(b as nat));
        lemma_nat_text_injective(a as nat, b as nat);
    }
}

/// Two code fields drawn on the same page, even at the same position, get
/// image resources under different names, and both stay in the page's
/// resource table.
pub proof fn lemma_two_images_both_named(
    b0: ContentBuilder,
    b1: ContentBuilder,
    b2: ContentBuilder,
    d0: ObjectStore,
    d1: ObjectStore,
    d2: ObjectStore,
    v1: Seq<char>,
    v2: Seq<char>,
    s1: FieldSpec,
    s2: FieldSpec,
    ph: int,
)
    requires
        image_added(b0, b1, d0, d1, v1, s1, ph),
        image_added(b1, b2, d1, d2, v2, s2, ph),
    ensures
        ({
            let id1 = ObjectId { num: (d0.max_id + 1) as u32, gen: 0 };
            let id2 = ObjectId { num: (d1.max_id + 1) as u32, gen: 0 };
            &&& name_bytes(image_name(id1.num)) != name_bytes(image_name(id2.num))
            &&& b2.xobjects.get_spec(name_bytes(image_name(id1.num))) == Some(Obj::Reference(id1))
            &&& b2.xobjects.get_spec(name_bytes(image_name(id2.num))) == Some(Obj::Reference(id2))
            &&& b0.xobjects.get_spec(name_bytes(image_name(id1.num))) is None
                && b0.xobjects.get_spec(name_bytes(image_name(id2.num))) is None
                ==> b2.xobjects.entries@.len() == b0.xobjects.entries@.len() + 2
        }),
{
    let id1 = ObjectId { num: (d0.max_id + 1) as u32, gen: 0 };
    let id2 = ObjectId { num: (d1.max_id + 1) as u32, gen: 0 };
    assert(id1.num != id2.num);
    lemma_image_names_distinct(id1.num, id2.num);
}

} // verus!
