//! The document's object graph: objects, dictionaries and the store that
//! addresses them by number and generation.
use vstd::prelude::*;

verus! {

/// An object's number and generation.
#[derive(Debug, Clone, Copy, PartialEq, Eq, Structural)]
pub struct ObjectId {
    pub num: u32,
    pub gen: u16,
}

/// A dictionary key or name, as the bytes of its text.
pub type NameBytes = Vec<u8>;

/// An object of the document graph. A real number is held as the bits of
/// its single-precision form.
#[derive(Debug)]
pub enum PdfObject {
    Null,
    Boolean(bool),
    Integer(i64),
    Real(u32),
    Name(NameBytes),
    Str(Vec<u8>, bool),
    Array(Vec<PdfObject>),
    Dictionary(PdfDict),
    Stream(PdfStream),
    Reference(ObjectId),
}

/// Key-value entries; where a key repeats, the last entry counts.
#[derive(Debug)]
pub struct PdfDict {
    pub entries: Vec<(NameBytes, PdfObject)>,
}

/// A stream: its dictionary and its (possibly encoded) bytes.
#[derive(Debug)]
pub struct PdfStream {
    pub dict: PdfDict,
    pub content: Vec<u8>,
}

/// The mathematical value of an object: sequences in place of vectors.
pub enum Obj {
    Null,
    Boolean(bool),
    Integer(i64),
    Real(u32),
    Name(Seq<u8>),
    Str(Seq<u8>, bool),
    Array(Seq<Obj>),
    Dict(Seq<(Seq<u8>, Obj)>),
    Stream(Seq<(Seq<u8>, Obj)>, Seq<u8>),
    Reference(ObjectId),
}

pub open spec fn obj_view(o: PdfObject) -> Obj
    decreases o,
{
    match o {
        PdfObject::Null => Obj::Null,
        PdfObject::Boolean(b) => Obj::Boolean(b),
        PdfObject::Integer(i) => Obj::Integer(i),
        PdfObject::Real(bits) => Obj::Real(bits),
        PdfObject::Name(n) => Obj::Name(n@),
        PdfObject::Str(t, hex) => Obj::Str(t@, hex),
        PdfObject::Array(items) => Obj::Array(
            Seq::new(
                items.len() as nat,
                |i: int|
                    if 0 <= i < items.len() {
                        obj_view(items[i])
                    } else {
                        Obj::Null
                    },
            ),
        ),
        PdfObject::Dictionary(d) => Obj::Dict(dict_view(d)),
        PdfObject::Stream(st) => Obj::Stream(dict_view(st.dict), st.content@),
        PdfObject::Reference(id) => Obj::Reference(id),
    }
}

pub open spec fn dict_view(d: PdfDict) -> Seq<(Seq<u8>, Obj)>
    decreases d,
{
    Seq::new(
        d.entries.len() as nat,
        |i: int|
            if 0 <= i < d.entries.len() {
                (d.entries[i].0@, obj_view(d.entries[i].1))
            } else {
                (Seq::empty(), Obj::Null)
            },
    )
}

/// The value that a key has in a list of entries: its last occurrence.
pub open spec fn lookup(e: Seq<(Seq<u8>, Obj)>, k: Seq<u8>) -> Option<Obj>
    decreases e.len(),
{
    if e.len() == 0 {
        None
    } else if e.last().0 == k {
        Some(e.last().1)
    } else {
        lookup(e.drop_last(), k)
    }
}

/// The bytes of a name or key: the UTF-8 form of its text.
pub open spec fn name_bytes(s: Seq<char>) -> Seq<u8> {
    vstd::utf8::encode_utf8(s)
}

/// Different texts have different UTF-8 forms.
pub proof fn lemma_name_bytes_injective(a: Seq<char>, b: Seq<char>)
    ensures
        name_bytes(a) == name_bytes(b) ==> a == b,
{
    vstd::utf8::encode_utf8_decode_utf8(a);
    vstd::utf8::encode_utf8_decode_utf8(b);
}

/// The bytes of a text, as a key or name.
pub fn name_of(s: &str) -> (r: NameBytes)
    ensures
        r@ == name_bytes(s@),
{
    s.as_bytes_vec()
}

/// A dictionary entry whose value is a name.
pub fn name_entry(key: &str, value: &str) -> (r: (NameBytes, PdfObject))
    ensures
        r.0@ == name_bytes(key@),
        obj_view(r.1) == Obj::Name(name_bytes(value@)),
{
    (name_of(key), PdfObject::Name(name_of(value)))
}

/// A dictionary entry whose value is an integer.
pub fn int_entry(key: &str, value: i64) -> (r: (NameBytes, PdfObject))
    ensures
        r.0@ == name_bytes(key@),
        obj_view(r.1) == Obj::Integer(value),
{
    (name_of(key), PdfObject::Integer(value))
}

/// A dictionary entry whose value is a reference.
pub fn ref_entry(key: &str, id: ObjectId) -> (r: (NameBytes, PdfObject))
    ensures
        r.0@ == name_bytes(key@),
        obj_view(r.1) == Obj::Reference(id),
{
    (name_of(key), PdfObject::Reference(id))
}

/// A dictionary entry with any value.
pub fn entry(key: &str, value: PdfObject) -> (r: (NameBytes, PdfObject))
    ensures
        r.0@ == name_bytes(key@),
        r.1 == value,
{
    (name_of(key), value)
}

pub fn bytes_equal(a: &Vec<u8>, b: &Vec<u8>) -> (r: bool)
    ensures
        r == (a@ == b@),
{
    if a.len() != b.len() {
        return false;
    }
    let mut i: usize = 0;
    while i < a.len()
        invariant
            i <= a.len(),
            a.len() == b.len(),
            forall|j: int| 0 <= j < i ==> a@[j] == b@[j],
        decreases a.len() - i,
    {
        if a[i] != b[i] {
            return false;
        }
        i = i + 1;
    }
    assert(a@ =~= b@);
    true
}

pub fn copy_bytes(a: &Vec<u8>) -> (r: Vec<u8>)
    ensures
        r@ == a@,
{
    let mut out: Vec<u8> = Vec::new();
    let mut i: usize = 0;
    while i < a.len()
        invariant
            i <= a.len(),
            out@ == a@.take(i as int),
        decreases a.len() - i,
    {
        out.push(a[i]);
        assert(out@ =~= a@.take(i + 1));
        i = i + 1;
    }
    assert(a@.take(a.len() as int) =~= a@);
    out
}

/// A copy of an object, equal to it.
pub fn copy_object(o: &PdfObject) -> (r: PdfObject)
    ensures
        obj_view(r) == obj_view(*o),
    decreases o,
{
    match o {
        PdfObject::Null => PdfObject::Null,
        PdfObject::Boolean(b) => PdfObject::Boolean(*b),
        PdfObject::Integer(i) => PdfObject::Integer(*i),
        PdfObject::Real(bits) => PdfObject::Real(*bits),
        PdfObject::Name(n) => PdfObject::Name(copy_bytes(n)),
        PdfObject::Str(s, hex) => PdfObject::Str(copy_bytes(s), *hex),
        PdfObject::Array(items) => {
            let mut out: Vec<PdfObject> = Vec::new();
            let mut i: usize = 0;
            while i < items.len()
                invariant
                    i <= items.len(),
                    out.len() == i,
                    *o == PdfObject::Array(*items),
                    forall|j: int| 0 <= j < i ==> obj_view(#[trigger] out[j]) == obj_view(items[j]),
                decreases items.len() - i,
            {
                proof {
                    vstd::std_specs::vec::axiom_vec_index_decreases(*items, i as int);
                    assert(decreases_to!(*o => (*o)->Array_0));
                    assert(decreases_to!(*items => items[i as int]));
                }
                out.push(copy_object(&items[i]));
                i = i + 1;
            }
            let r = PdfObject::Array(out);
            assert(obj_view(r)->Array_0 =~= obj_view(*o)->Array_0);
            r
        },
        PdfObject::Dictionary(d) => PdfObject::Dictionary(copy_dict(d)),
        PdfObject::Stream(s) => PdfObject::Stream(
            PdfStream { dict: copy_dict(&s.dict), content: copy_bytes(&s.content) },
        ),
        PdfObject::Reference(id) => PdfObject::Reference(*id),
    }
}

/// A copy of a dictionary, equal to it.
pub fn copy_dict(d: &PdfDict) -> (r: PdfDict)
    ensures
        dict_view(r) == dict_view(*d),
    decreases d,
{
    let mut out: Vec<(NameBytes, PdfObject)> = Vec::new();
    let mut i: usize = 0;
    while i < d.entries.len()
        invariant
            i <= d.entries.len(),
            out.len() == i,
            forall|j: int|
                0 <= j < i ==> (#[trigger] out[j]).0@ == d.entries[j].0@ && obj_view(out[j].1)
                    == obj_view(d.entries[j].1),
        decreases d.entries.len() - i,
    {
        proof {
            vstd::std_specs::vec::axiom_vec_index_decreases(d.entries, i as int);
        }
        let k = copy_bytes(&d.entries[i].0);
        let v = copy_object(&d.entries[i].1);
        out.push((k, v));
        i = i + 1;
    }
    let r = PdfDict { entries: out };
    assert(dict_view(r) =~= dict_view(*d));
    r
}

/// A key has no value exactly when no entry has it.
pub proof fn lemma_lookup_none(e: Seq<(Seq<u8>, Obj)>, k: Seq<u8>)
    ensures
        lookup(e, k) is None <==> forall|i: int| 0 <= i < e.len() ==> (#[trigger] e[i]).0 != k,
    decreases e.len(),
{
    if e.len() > 0 {
        let d = e.drop_last();
        lemma_lookup_none(d, k);
        if e.last().0 == k {
            assert(e[e.len() - 1].0 == k);
        } else {
            if forall|i: int| 0 <= i < d.len() ==> (#[trigger] d[i]).0 != k {
                assert forall|i: int| 0 <= i < e.len() implies (#[trigger] e[i]).0 != k by {
                    if i < d.len() {
                        assert(d[i] == e[i]);
                    }
                }
            } else {
                let w = choose|i: int| 0 <= i < d.len() && (#[trigger] d[i]).0 == k;
                assert(e[w] == d[w]);
            }
        }
    }
}

/// Keys that occur once each.
pub open spec fn distinct_keys(e: Seq<(Seq<u8>, Obj)>) -> bool {
    forall|i: int, j: int| 0 <= i < j < e.len() ==> (#[trigger] e[i]).0 != (#[trigger] e[j]).0
}

proof fn lemma_lookup_push(e: Seq<(Seq<u8>, Obj)>, x: (Seq<u8>, Obj), k: Seq<u8>)
    ensures
        lookup(e.push(x), k) == if x.0 == k {
            Some(x.1)
        } else {
            lookup(e, k)
        },
{
    assert(e.push(x).drop_last() =~= e);
}

proof fn lemma_dict_view_push(v: Vec<(NameBytes, PdfObject)>, x: (NameBytes, PdfObject), w: Vec<
    (NameBytes, PdfObject),
>)
    requires
        w@ == v@.push(x),
    ensures
        dict_view(PdfDict { entries: w }) =~= dict_view(PdfDict { entries: v }).push(
            (x.0@, obj_view(x.1)),
        ),
{
}

impl PdfDict {
    /// The entries as keys and object values.
    pub open spec fn view(&self) -> Seq<(Seq<u8>, Obj)> {
        dict_view(*self)
    }

    /// What a key maps to.
    pub open spec fn get_spec(&self, k: Seq<u8>) -> Option<Obj> {
        lookup(dict_view(*self), k)
    }

    pub fn new() -> (r: PdfDict)
        ensures
            r.entries@.len() == 0,
            forall|k: Seq<u8>| r.get_spec(k) is None,
    {
        PdfDict { entries: Vec::new() }
    }

    pub fn is_empty(&self) -> (r: bool)
        ensures
            r == (self.entries@.len() == 0),
    {
        self.entries.len() == 0
    }

    /// The value of a key: its last entry.
    pub fn get(&self, key: &Vec<u8>) -> (r: Option<&PdfObject>)
        ensures
            r matches Some(v) ==> lookup(dict_view(*self), key@) == Some(obj_view(*v)),
            r is None ==> lookup(dict_view(*self), key@) is None,
    {
        let ghost e = dict_view(*self);
        let mut i = self.entries.len();
        assert(e.take(i as int) =~= e);
        while i > 0
            invariant
                i <= self.entries.len(),
                e == dict_view(*self),
                lookup(e, key@) == lookup(e.take(i as int), key@),
            decreases i,
        {
            assert(e.take(i as int).drop_last() =~= e.take(i - 1));
            if bytes_equal(&self.entries[i - 1].0, key) {
                return Some(&self.entries[i - 1].1);
            }
            i = i - 1;
        }
        None
    }

    /// Gives `key` the value `value`, dropping any earlier entry of it.
    pub fn set(&mut self, key: Vec<u8>, value: PdfObject)
        ensures
            lookup(dict_view(*old(self)), key@) is None ==> final(self).entries@.len()
                == old(self).entries@.len() + 1,
            lookup(dict_view(*final(self)), key@) == Some(obj_view(value)),
            forall|k: Seq<u8>|
                k != key@ ==> #[trigger] lookup(dict_view(*final(self)), k) == lookup(
                    dict_view(*old(self)),
                    k,
                ),
    {
        let ghost e = dict_view(*self);
        proof {
            lemma_lookup_none(e, key@);
        }
        let mut out: Vec<(NameBytes, PdfObject)> = Vec::new();
        let mut i: usize = 0;
        while i < self.entries.len()
            invariant
                i <= self.entries.len(),
                e == dict_view(*self),
                lookup(e, key@) is None ==> out.len() == i,
                lookup(e, key@) is None <==> forall|m: int| 0 <= m < e.len() ==> (#[trigger] e[m]).0 != key@,
                lookup(dict_view(PdfDict { entries: out }), key@) is None,
                forall|k: Seq<u8>|
                    k != key@ ==> lookup(dict_view(PdfDict { entries: out }), k) == lookup(
                        e.take(i as int),
                        k,
                    ),
            decreases self.entries.len() - i,
        {
            assert(e.take(i + 1).drop_last() =~= e.take(i as int));
            assert(e.take(i + 1).last() == e[i as int]);
            if !bytes_equal(&self.entries[i].0, &key) {
                let ghost before = out;
                let entry = (copy_bytes(&self.entries[i].0), copy_object(&self.entries[i].1));
                out.push(entry);
                proof {
                    lemma_dict_view_push(before, entry, out);
                    let x = (entry.0@, obj_view(entry.1));
                    assert forall|k: Seq<u8>| k != key@ implies lookup(
                        dict_view(PdfDict { entries: out }),
                        k,
                    ) == lookup(e.take(i + 1), k) by {
                        lemma_lookup_push(dict_view(PdfDict { entries: before }), x, k);
                    }
                    lemma_lookup_push(dict_view(PdfDict { entries: before }), x, key@);
                }
            }
            i = i + 1;
        }
        assert(e.take(i as int) =~= e);
        let ghost before = out;
        let ghost vv = obj_view(value);
        let ghost kk = key@;
        let entry = (key, value);
        out.push(entry);
        proof {
            lemma_dict_view_push(before, entry, out);
            assert forall|k: Seq<u8>| k != kk implies lookup(dict_view(PdfDict { entries: out }), k)
                == lookup(e, k) by {
                lemma_lookup_push(dict_view(PdfDict { entries: before }), (kk, vv), k);
            }
            lemma_lookup_push(dict_view(PdfDict { entries: before }), (kk, vv), kk);
        }
        self.entries = out;
    }
}

} // verus!
