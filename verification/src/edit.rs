use vstd::prelude::*;
use vstd::utf8::encode_utf8;

verus! {

/// The mathematical content of a resolved edit: a half-open byte interval of
/// the source and the UTF-8 bytes that replace it.
pub struct EditView {
    pub start: int,
    pub end: int,
    pub bytes: Seq<u8>,
}

/// A text edit produced by a pass.
///
/// A resolved edit (`Edit<()>`, the default) carries the final `content` that
/// replaces the byte `range` of the current source. A structured pass first
/// produces targets that carry `items` of its own type `T` in place of
/// content; `with_content` resolves such a target once the items have been
/// rendered.
#[derive(Debug)]
pub struct Edit<T = ()> {
    /// The half-open byte range `(start, end)` of the source to replace.
    pub range: (usize, usize),
    /// The replacement text of a resolved edit.
    pub content: Option<String>,
    /// The items found within the range of an unresolved target.
    pub items: Vec<T>,
}

/// An unresolved edit of a structured pass: a range plus the items found in it.
pub type EditTarget<T> = Edit<T>;

impl View for Edit {
    type V = EditView;

    open spec fn view(&self) -> EditView {
        EditView {
            start: self.range.0 as int,
            end: self.range.1 as int,
            bytes: match self.content {
                Some(c) => encode_utf8(c@),
                None => Seq::empty(),
            },
        }
    }
}

/// The views of a sequence of resolved edits.
pub open spec fn edit_views(s: Seq<Edit>) -> Seq<EditView> {
    s.map_values(|e: Edit| e@)
}

impl Edit<()> {
    /// A resolved edit replacing `range` with `content`.
    pub fn new(range: (usize, usize), content: String) -> (r: Self)
        ensures
            r.range == range,
            r.content == Some(content),
            r.items@.len() == 0,
    {
        Edit { range, content: Some(content), items: Vec::new() }
    }
}

impl<T> Edit<T> {
    /// An unresolved target covering `range` and carrying `items`.
    pub fn with_items(range: (usize, usize), items: Vec<T>) -> (r: Self)
        ensures
            r.range == range,
            r.content is None,
            r.items == items,
    {
        Edit { range, content: None, items }
    }

    /// Resolve this target into an edit with the given replacement text.
    pub fn with_content(self, content: String) -> (r: Edit<()>)
        ensures
            r.range == self.range,
            r.content == Some(content),
            r.items@.len() == 0,
    {
        Edit { range: self.range, content: Some(content), items: Vec::new() }
    }
}

impl PartialEq for Edit<()> {
    /// Two resolved edits are equal when they cover the same range with the
    /// same replacement text.
    fn eq(&self, other: &Self) -> (r: bool) {
        let ranges_eq = self.range.0 == other.range.0 && self.range.1 == other.range.1;
        let contents_eq = match (&self.content, &other.content) {
            (None, None) => true,
            (Some(a), Some(b)) => *a == *b,
            _ => false,
        };
        ranges_eq && contents_eq
    }
}

impl vstd::std_specs::cmp::PartialEqSpecImpl for Edit<()> {
    open spec fn obeys_eq_spec() -> bool {
        true
    }

    open spec fn eq_spec(&self, other: &Self) -> bool {
        &&& self.range.0 == other.range.0
        &&& self.range.1 == other.range.1
        &&& match (self.content, other.content) {
            (None, None) => true,
            (Some(a), Some(b)) => a@ == b@,
            _ => false,
        }
    }
}

} // verus!
