//! Encoding of field values for content streams.
use vstd::prelude::*;

verus! {

/// Relies on `String::push`: the character is appended at the end.
#[verifier::external_body]
pub(crate) fn push_char(s: &mut String, c: char)
    ensures
        final(s)@ == old(s)@.push(c),
{
    s.push(c)
}

/// The characters that `escape_pdf_string` writes for one input character.
pub open spec fn escape_char(c: char) -> Seq<char> {
    if c == '(' {
        seq!['\\', '(']
    } else if c == ')' {
        seq!['\\', ')']
    } else if c == '\\' {
        seq!['\\', '\\']
    } else if c == '\n' {
        seq!['\\', 'n']
    } else if c == '\r' {
        seq!['\\', 'r']
    } else if c == '\t' {
        seq!['\\', 't']
    } else {
        seq![c]
    }
}

/// A literal-string body: each character escaped in turn.
pub open spec fn escaped(s: Seq<char>) -> Seq<char>
    decreases s.len(),
{
    if s.len() == 0 {
        Seq::empty()
    } else {
        escaped(s.drop_last()) + escape_char(s.last())
    }
}

/// Escapes parentheses, backslashes, newlines, carriage returns and tabs
/// for use inside a `( ... )` literal string.
pub fn escape_pdf_string(s: &str) -> (r: String)
    ensures
        r@ == escaped(s@),
{
    let mut result = String::new();
    let n = s.unicode_len();
    let mut i: usize = 0;
    while i < n
        invariant
            i <= n,
            n == s@.len(),
            result@ == escaped(s@.take(i as int)),
        decreases n - i,
    {
        let c = s.get_char(i);
        assert(s@.take(i + 1).drop_last() == s@.take(i as int));
        if c == '(' {
            push_char(&mut result, '\\');
            push_char(&mut result, '(');
        } else if c == ')' {
            push_char(&mut result, '\\');
            push_char(&mut result, ')');
        } else if c == '\\' {
            push_char(&mut result, '\\');
            push_char(&mut result, '\\');
        } else if c == '\n' {
            push_char(&mut result, '\\');
            push_char(&mut result, 'n');
        } else if c == '\r' {
            push_char(&mut result, '\\');
            push_char(&mut result, 'r');
        } else if c == '\t' {
            push_char(&mut result, '\\');
            push_char(&mut result, 't');
        } else {
            push_char(&mut result, c);
        }
        i = i + 1;
    }
    assert(s@.take(n as int) == s@);
    result
}

/// Whether a character lies outside the single-byte ASCII range.
pub open spec fn is_wide(c: char) -> bool {
    (c as u32) > 0x7F
}

pub open spec fn has_wide(s: Seq<char>) -> bool {
    exists|i: int| 0 <= i < s.len() && is_wide(#[trigger] s[i])
}

/// True when the text holds a code point above 0x7F.
pub fn needs_cid_font(text: &str) -> (r: bool)
    ensures
        r == has_wide(text@),
{
    let n = text.unicode_len();
    let mut i: usize = 0;
    while i < n
        invariant
            i <= n,
            n == text@.len(),
            forall|j: int| 0 <= j < i ==> !is_wide(#[trigger] text@[j]),
        decreases n - i,
    {
        let c = text.get_char(i);
        if (c as u32) > 0x7F {
            return true;
        }
        i = i + 1;
    }
    false
}

/// The 16-bit units of one character: itself below 0x10000, else a
/// surrogate pair.
pub open spec fn char_units(c: char) -> Seq<u16> {
    let v = c as u32;
    if v <= 0xFFFF {
        seq![v as u16]
    } else {
        let w = (v - 0x10000) as int;
        seq![(0xD800 + w / 1024) as u16, (0xDC00 + w % 1024) as u16]
    }
}

pub open spec fn utf16_units(s: Seq<char>) -> Seq<u16>
    decreases s.len(),
{
    if s.len() == 0 {
        Seq::empty()
    } else {
        utf16_units(s.drop_last()) + char_units(s.last())
    }
}

/// Number of 16-bit units a text needs: two for a code point above 0xFFFF,
/// one for any other.
pub open spec fn unit_count(s: Seq<char>) -> nat
    decreases s.len(),
{
    if s.len() == 0 {
        0
    } else {
        unit_count(s.drop_last()) + if (s.last() as u32) > 0xFFFF { 2nat } else { 1nat }
    }
}

/// Big-endian bytes of 16-bit units.
pub open spec fn be_bytes(u: Seq<u16>) -> Seq<u8>
    decreases u.len(),
{
    if u.len() == 0 {
        Seq::empty()
    } else {
        be_bytes(u.drop_last()) + seq![(u.last() / 256) as u8, (u.last() % 256) as u8]
    }
}

/// Upper-case hexadecimal digit of a value below 16.
pub open spec fn hex_digit(n: u8) -> char {
    if n < 10 {
        ((n + 48) as u8) as char
    } else {
        ((n + 55) as u8) as char
    }
}

pub open spec fn hex_upper(b: Seq<u8>) -> Seq<char>
    decreases b.len(),
{
    if b.len() == 0 {
        Seq::empty()
    } else {
        hex_upper(b.drop_last()) + seq![hex_digit(b.last() / 16), hex_digit(b.last() % 16)]
    }
}

/// The hex text that a composite font with identity encoding receives.
pub open spec fn cid_hex(s: Seq<char>) -> Seq<char> {
    hex_upper(be_bytes(utf16_units(s)))
}

fn hex_char(n: u8) -> (c: char)
    requires
        n < 16,
    ensures
        c == hex_digit(n),
{
    if n < 10 {
        (n + 48) as char
    } else {
        (n + 55) as char
    }
}

proof fn lemma_hex_upper_append(a: Seq<u8>, b: Seq<u8>)
    ensures
        hex_upper(a + b) == hex_upper(a) + hex_upper(b),
    decreases b.len(),
{
    if b.len() == 0 {
        assert(a + b == a);
        assert(hex_upper(b) == Seq::<char>::empty());
        assert(hex_upper(a) + hex_upper(b) == hex_upper(a));
    } else {
        lemma_hex_upper_append(a, b.drop_last());
        assert((a + b).drop_last() == a + b.drop_last());
        assert((a + b).last() == b.last());
        assert(hex_upper(a) + hex_upper(b.drop_last()) + seq![hex_digit(b.last() / 16), hex_digit(b.last() % 16)]
            == hex_upper(a) + (hex_upper(b.drop_last()) + seq![hex_digit(b.last() / 16), hex_digit(b.last() % 16)]));
    }
}

proof fn lemma_be_bytes_append(a: Seq<u16>, b: Seq<u16>)
    ensures
        be_bytes(a + b) == be_bytes(a) + be_bytes(b),
    decreases b.len(),
{
    if b.len() == 0 {
        assert(a + b == a);
        assert(be_bytes(a) + be_bytes(b) == be_bytes(a));
    } else {
        lemma_be_bytes_append(a, b.drop_last());
        assert((a + b).drop_last() == a + b.drop_last());
        assert((a + b).last() == b.last());
        assert(be_bytes(a) + be_bytes(b.drop_last()) + seq![(b.last() / 256) as u8, (b.last() % 256) as u8]
            == be_bytes(a) + (be_bytes(b.drop_last()) + seq![(b.last() / 256) as u8, (b.last() % 256) as u8]));
    }
}

/// Appends the four hex digits of one 16-bit unit.
fn push_unit_hex(out: &mut String, u: u16)
    ensures
        final(out)@ == old(out)@ + hex_upper(be_bytes(seq![u])),
{
    let hi = (u / 256) as u8;
    let lo = (u % 256) as u8;
    push_char(out, hex_char(hi / 16));
    push_char(out, hex_char(hi % 16));
    push_char(out, hex_char(lo / 16));
    push_char(out, hex_char(lo % 16));
    proof {
        let e = Seq::<u16>::empty();
        assert(seq![u].drop_last() == e);
        assert(be_bytes(e) == Seq::<u8>::empty());
        assert(be_bytes(seq![u]) =~= seq![hi, lo]);
        let b1 = seq![hi];
        assert(seq![hi, lo].drop_last() =~= b1);
        assert(b1.drop_last() =~= Seq::<u8>::empty());
        assert(hex_upper(Seq::<u8>::empty()) == Seq::<char>::empty());
        assert(hex_upper(b1) =~= seq![hex_digit(hi / 16), hex_digit(hi % 16)]);
        assert(hex_upper(seq![hi, lo]) =~= seq![hex_digit(hi / 16), hex_digit(hi % 16), hex_digit(lo / 16), hex_digit(lo % 16)]);
    }
}

/// Encodes text as upper-case hex of its UTF-16 big-endian form, for a
/// composite font with identity encoding.
pub fn encode_cid_text(s: &str) -> (r: String)
    ensures
        r@ == cid_hex(s@),
{
    let mut result = String::new();
    let n = s.unicode_len();
    let mut i: usize = 0;
    while i < n
        invariant
            i <= n,
            n == s@.len(),
            result@ == cid_hex(s@.take(i as int)),
        decreases n - i,
    {
        let c = s.get_char(i);
        let ghost prefix = s@.take(i as int);
        assert(s@.take(i + 1).drop_last() == prefix);
        assert(s@.take(i + 1).last() == c);
        let code = c as u32;
        proof {
            lemma_be_bytes_append(utf16_units(prefix), char_units(c));
            lemma_hex_upper_append(be_bytes(utf16_units(prefix)), be_bytes(char_units(c)));
        }
        if code <= 0xFFFF {
            push_unit_hex(&mut result, code as u16);
        } else {
            let v = code - 0x10000;
            let high = (0xD800 + v / 1024) as u16;
            let low = (0xDC00 + v % 1024) as u16;
            push_unit_hex(&mut result, high);
            push_unit_hex(&mut result, low);
            proof {
                lemma_be_bytes_append(seq![high], seq![low]);
                lemma_hex_upper_append(be_bytes(seq![high]), be_bytes(seq![low]));
                assert(seq![high] + seq![low] == seq![high, low]);
            }
        }
        i = i + 1;
    }
    assert(s@.take(n as int) == s@);
    result
}

proof fn lemma_be_bytes_len(u: Seq<u16>)
    ensures
        be_bytes(u).len() == 2 * u.len(),
    decreases u.len(),
{
    if u.len() > 0 {
        lemma_be_bytes_len(u.drop_last());
    }
}

proof fn lemma_hex_upper_len(b: Seq<u8>)
    ensures
        hex_upper(b).len() == 2 * b.len(),
    decreases b.len(),
{
    if b.len() > 0 {
        lemma_hex_upper_len(b.drop_last());
    }
}

proof fn lemma_units_len(s: Seq<char>)
    ensures
        utf16_units(s).len() == unit_count(s),
    decreases s.len(),
{
    if s.len() > 0 {
        lemma_units_len(s.drop_last());
    }
}

/// The UTF-16 big-endian form of a text has two bytes per 16-bit unit, where
/// a code point above 0xFFFF takes two units and any other one; its hex text
/// has two digits per byte, so the byte count is even.
pub proof fn lemma_cid_hex_length(s: Seq<char>)
    ensures
        be_bytes(utf16_units(s)).len() == 2 * unit_count(s),
        cid_hex(s).len() == 2 * be_bytes(utf16_units(s)).len(),
        be_bytes(utf16_units(s)).len() % 2 == 0,
{
    lemma_units_len(s);
    lemma_be_bytes_len(utf16_units(s));
    lemma_hex_upper_len(be_bytes(utf16_units(s)));
}

} // verus!
