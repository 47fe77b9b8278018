use crate::text::{
    bytes_as_str, compute_line_starts, lemma_line_starts_props, line_starts, offsets_view,
    push_byte_range, push_bytes, splice_bytes,
};
use vstd::prelude::*;
use vstd::string::StrSliceExecFns;
use vstd::utf8::{encode_utf8, encode_utf8_valid_utf8, valid_utf8};

verus! {

/// The live text of one file under formatting: the current UTF-8 source
/// bytes, the current parse tree when one exists, and the line-offset index
/// of the current source.
pub struct ParseState {
    pub source: Vec<u8>,
    pub line_offsets: Vec<usize>,
    pub tree: Option<tree_sitter::Tree>,
}

impl ParseState {
    /// The current source bytes.
    pub open spec fn src(&self) -> Seq<u8> {
        self.source@
    }

    /// The state is well formed: the source is valid UTF-8 and the
    /// line-offset index is the canonical recomputation from the source.
    pub open spec fn wf(&self) -> bool {
        &&& valid_utf8(self.source@)
        &&& offsets_view(self.line_offsets@) == line_starts(self.source@)
    }

    /// A fresh state over the given text, with no tree.
    pub fn new(source: String) -> (r: Self)
        ensures
            r.wf(),
            r.src() == encode_utf8(source@),
            offsets_view(r.line_offsets@) == line_starts(r.src()),
            r.tree is None,
    {
        proof {
            encode_utf8_valid_utf8(source@);
        }
        let bytes = source.as_str().as_bytes_vec();
        let offsets = compute_line_starts(&bytes);
        ParseState { source: bytes, line_offsets: offsets, tree: None }
    }

    /// The current source text.
    pub fn source(&self) -> (r: &str)
        requires
            self.wf(),
        ensures
            encode_utf8(r@) == self.src(),
    {
        bytes_as_str(&self.source)
    }

    /// The current source bytes.
    pub fn source_bytes(&self) -> (r: &Vec<u8>)
        ensures
            r@ == self.src(),
    {
        &self.source
    }

    /// The current tree, when one exists.
    pub fn tree(&self) -> (r: Option<&tree_sitter::Tree>)
        ensures
            r is Some <==> self.tree is Some,
    {
        self.tree.as_ref()
    }

    /// True when a tree describing the current source is present.
    pub fn has_tree(&self) -> (r: bool)
        ensures
            r == (self.tree is Some),
    {
        self.tree.is_some()
    }

    /// Map a byte offset to a zero-based `(row, column)` pair: `row` is the
    /// greatest line index whose first byte is at or before the offset, and
    /// `column` is the distance from that line's first byte. An offset past
    /// the end of the source is clamped to the end.
    pub fn byte_to_point(&self, byte: usize) -> (p: (usize, usize))
        requires
            self.wf(),
        ensures
            ({
                let b = if byte <= self.src().len() {
                    byte as int
                } else {
                    self.src().len() as int
                };
                let ls = line_starts(self.src());
                &&& 0 <= p.0 < ls.len()
                &&& ls[p.0 as int] <= b
                &&& p.1 == b - ls[p.0 as int]
                &&& (p.0 + 1 < ls.len() ==> ls[p.0 as int + 1] > b)
            }),
    {
        proof {
            lemma_line_starts_props(self.src());
        }
        let b = if byte <= self.source.len() {
            byte
        } else {
            self.source.len()
        };
        let ghost ls = line_starts(self.src());
        let mut lo: usize = 0;
        let mut hi: usize = self.line_offsets.len();
        assert(hi == ls.len());
        assert(self.line_offsets@[0] == 0);
        while hi - lo > 1
            invariant
                0 <= lo < hi <= self.line_offsets@.len(),
                self.wf(),
                ls == line_starts(self.src()),
                ls.len() == self.line_offsets@.len(),
                ls[lo as int] <= b as int,
                hi < ls.len() ==> ls[hi as int] > b as int,
                b <= self.src().len(),
            decreases hi - lo,
        {
            let mid = lo + (hi - lo) / 2;
            assert(lo < mid < hi);
            if self.line_offsets[mid] <= b {
                lo = mid;
            } else {
                hi = mid;
            }
        }
        let row = lo;
        let column = b - self.line_offsets[row];
        (row, column)
    }

    /// Splice `replacement` over the byte range `[start, end)` of the source
    /// and rebuild the line-offset index from the new text. The tree is not
    /// touched; the text may mutate only through this method.
    pub fn replace_range(&mut self, start: usize, end: usize, replacement: &Vec<u8>)
        requires
            old(self).wf(),
            start <= end <= old(self).src().len(),
            valid_utf8(splice_bytes(old(self).src(), start as int, end as int, replacement@)),
        ensures
            final(self).wf(),
            final(self).src() == splice_bytes(
                old(self).src(),
                start as int,
                end as int,
                replacement@,
            ),
            offsets_view(final(self).line_offsets@) == line_starts(final(self).src()),
            final(self).tree == old(self).tree,
    {
        let mut out: Vec<u8> = Vec::new();
        push_byte_range(&mut out, &self.source, 0, start);
        push_bytes(&mut out, replacement);
        push_byte_range(&mut out, &self.source, end, self.source.len());
        assert(out@ =~= splice_bytes(self.src(), start as int, end as int, replacement@));
        let offsets = compute_line_starts(&out);
        self.source = out;
        self.line_offsets = offsets;
    }
}

} // verus!
