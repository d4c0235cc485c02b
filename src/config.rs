//! Field placements, settings and table rows, as the assembly reads them.
use vstd::prelude::*;
use crate::dimension::{Dimension, MAX_MICRO};
use crate::fonts::str_equal;

verus! {

/// Where and how one field is drawn: top-left-relative position and size,
/// the output type (`QR` or `Text`) and an optional font size.
#[derive(Debug)]
pub struct FieldSpec {
    pub x: Dimension,
    pub y: Dimension,
    pub w: Dimension,
    pub h: Dimension,
    pub output_type: String,
    pub font_size: Option<Dimension>,
}

pub open spec fn in_range(d: Dimension) -> bool {
    -MAX_MICRO < d.0 < MAX_MICRO
}

impl FieldSpec {
    /// Every length lies within the range that parsing produces.
    pub open spec fn lengths_ok(&self) -> bool {
        &&& in_range(self.x)
        &&& in_range(self.y)
        &&& in_range(self.w)
        &&& in_range(self.h)
        &&& (self.font_size matches Some(f) ==> in_range(f))
    }

    /// Tests `lengths_ok`.
    pub fn lengths_in_range(&self) -> (r: bool)
        ensures
            r == self.lengths_ok(),
    {
        let fs_ok = match self.font_size {
            Some(f) => -MAX_MICRO < f.0 && f.0 < MAX_MICRO,
            None => true,
        };
        -MAX_MICRO < self.x.0 && self.x.0 < MAX_MICRO && -MAX_MICRO < self.y.0 && self.y.0
            < MAX_MICRO && -MAX_MICRO < self.w.0 && self.w.0 < MAX_MICRO && -MAX_MICRO < self.h.0
            && self.h.0 < MAX_MICRO && fs_ok
    }
}

/// The two kinds of output a field can have.
#[derive(Debug, Clone, Copy, PartialEq, Eq, Structural)]
pub enum FieldKind {
    /// A two-dimensional code drawn as an image.
    Image,
    /// A single line of text.
    Text,
}

pub open spec fn kind_of(t: Seq<char>) -> Option<FieldKind> {
    if t == "QR"@ {
        Some(FieldKind::Image)
    } else if t == "Text"@ {
        Some(FieldKind::Text)
    } else {
        None
    }
}

/// The kind that an output-type tag names; none for any other tag.
pub fn field_kind(t: &str) -> (r: Option<FieldKind>)
    ensures
        r == kind_of(t@),
{
    if str_equal(t, "QR") {
        Some(FieldKind::Image)
    } else if str_equal(t, "Text") {
        Some(FieldKind::Text)
    } else {
        None
    }
}

/// Document-wide settings.
#[derive(Debug)]
pub struct SettingsSection {
    /// The preferred standard font family.
    pub font: Option<String>,
}

/// The field placements by name, and the settings.
#[derive(Debug)]
pub struct PlaceConfig {
    pub fields: Vec<(String, FieldSpec)>,
    pub settings: SettingsSection,
}

/// One row of the table: field name to value.
#[derive(Debug)]
pub struct DataRow {
    pub data: Vec<(String, String)>,
}

/// The value of a name in a row: its last entry, or the empty text.
pub open spec fn row_value(d: Seq<(String, String)>, name: Seq<char>) -> Seq<char>
    decreases d.len(),
{
    if d.len() == 0 {
        Seq::empty()
    } else if d.last().0@ == name {
        d.last().1@
    } else {
        row_value(d.drop_last(), name)
    }
}

impl DataRow {
    /// The value of a field in this row; the empty text where it is absent.
    pub fn value_of(&self, name: &str) -> (r: &str)
        ensures
            r@ == row_value(self.data@, name@),
    {
        let mut i = self.data.len();
        assert(self.data@.take(i as int) =~= self.data@);
        while i > 0
            invariant
                i <= self.data.len(),
                row_value(self.data@, name@) == row_value(self.data@.take(i as int), name@),
            decreases i,
        {
            assert(self.data@.take(i as int).drop_last() =~= self.data@.take(i - 1));
            if str_equal(self.data[i - 1].0.as_str(), name) {
                return self.data[i - 1].1.as_str();
            }
            i = i - 1;
        }
        proof {
            reveal_strlit("");
            assert(self.data@.take(0) =~= Seq::<(String, String)>::empty());
        }
        let empty = "";
        assert(empty@ =~= Seq::<char>::empty());
        empty
    }
}

} // verus!
