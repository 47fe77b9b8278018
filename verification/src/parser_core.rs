use crate::language_provider::LanguageProvider;
use crate::parse_state::ParseState;
use crate::text::splice_bytes;
use vstd::prelude::*;
use vstd::string::StrSliceExecFns;
use vstd::utf8::{encode_utf8, encode_utf8_valid_utf8, valid_utf8};

verus! {

/// An incremental parser bound to one language's grammar.
pub struct Parser<Language: LanguageProvider> {
    ts: tree_sitter::Parser,
    marker: core::marker::PhantomData<Language>,
}

impl<Language: LanguageProvider> Parser<Language> {
    /// A parser configured with the language's grammar, or `None` when the
    /// grammar cannot be loaded (a version mismatch between the grammar and
    /// the parsing library).
    ///
    /// Relies on tree_sitter::Parser::new and Parser::set_language: after a
    /// successful set_language the parser has a language assigned.
    #[verifier::external_body]
    pub fn new() -> (r: Option<Self>) {
        let mut ts = tree_sitter::Parser::new();
        match ts.set_language(&Language::language()) {
            Ok(()) => Some(Parser { ts, marker: core::marker::PhantomData }),
            Err(_) => None,
        }
    }

    /// Relies on tree_sitter::Parser::parse. Without an old tree it returns
    /// `None` only when the parser has no language assigned, and every
    /// `Parser` of this library is constructed with one. With an old tree it
    /// may also return `None` when that tree was produced under a different
    /// language, so nothing is promised then; the caller falls back to a
    /// parse from scratch. Nothing is claimed about the tree itself.
    #[verifier::external_body]
    fn ts_parse(&mut self, text: &Vec<u8>, old_tree: Option<&tree_sitter::Tree>) -> (r: Option<
        tree_sitter::Tree,
    >)
        requires
            valid_utf8(text@),
        ensures
            old_tree is None ==> r is Some,
    {
        self.ts.parse(text.as_slice(), old_tree)
    }

    /// Parse the state's source from scratch and store the resulting tree.
    pub fn parse(&mut self, state: &mut ParseState)
        requires
            old(state).wf(),
        ensures
            final(state).wf(),
            final(state).src() == old(state).src(),
            final(state).tree is Some,
    {
        let tree = self.ts_parse(&state.source, None);
        state.tree = tree;
    }

    /// Parse the state's source incrementally against the current tree when
    /// one exists, and store the resulting tree. When the incremental parse
    /// yields nothing — the held tree came from another language's parser —
    /// fall back to a parse from scratch.
    pub fn reparse(&mut self, state: &mut ParseState)
        requires
            old(state).wf(),
        ensures
            final(state).wf(),
            final(state).src() == old(state).src(),
            final(state).tree is Some,
    {
        let tree = self.ts_parse(&state.source, state.tree.as_ref());
        match tree {
            Some(t) => {
                state.tree = Some(t);
            },
            None => {
                let fresh = self.ts_parse(&state.source, None);
                state.tree = fresh;
            },
        }
    }

    /// Replace the byte range `[start_byte, old_end_byte)` of the state's
    /// source with `new_text`, and notify the current tree of the edit with
    /// both endpoints' byte and row/column coordinates, the old ones computed
    /// before the splice and the new end after it, so that the next `reparse`
    /// runs incrementally.
    pub fn apply_edit(
        &mut self,
        state: &mut ParseState,
        start_byte: usize,
        old_end_byte: usize,
        new_text: &String,
    )
        requires
            old(state).wf(),
            start_byte <= old_end_byte <= old(state).src().len(),
            valid_utf8(
                splice_bytes(
                    old(state).src(),
                    start_byte as int,
                    old_end_byte as int,
                    encode_utf8(new_text@),
                ),
            ),
        ensures
            final(state).wf(),
            final(state).src() == splice_bytes(
                old(state).src(),
                start_byte as int,
                old_end_byte as int,
                encode_utf8(new_text@),
            ),
            final(state).tree is Some <==> old(state).tree is Some,
    {
        let start_point = state.byte_to_point(start_byte);
        let old_end_point = state.byte_to_point(old_end_byte);
        proof {
            encode_utf8_valid_utf8(new_text@);
        }
        let bytes = new_text.as_str().as_bytes_vec();
        let content_len = bytes.len();
        state.replace_range(start_byte, old_end_byte, &bytes);
        let new_len = state.source.len();
        assert(start_byte + content_len <= new_len);
        let new_end_byte = start_byte + content_len;
        let new_end_point = state.byte_to_point(new_end_byte);
        match &mut state.tree {
            Some(tree) => {
                crate::bindings::ts_tree_edit(
                    tree,
                    start_byte,
                    old_end_byte,
                    new_end_byte,
                    start_point,
                    old_end_point,
                    new_end_point,
                );
            },
            None => {},
        }
    }
}

} // verus!
