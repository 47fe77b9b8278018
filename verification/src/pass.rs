use crate::context::FormatterContext;
use crate::edit::{edit_views, Edit, EditTarget};
use crate::normalize::edits_wf_for;
use vstd::prelude::*;
use vstd::utf8::{encode_utf8, is_char_boundary, valid_utf8};

verus! {

/// True when the byte range cuts `src` within bounds and at character
/// boundaries.
pub open spec fn range_wf_for(range: (usize, usize), src: Seq<u8>) -> bool {
    &&& range.0 <= range.1 <= src.len()
    &&& is_char_boundary(src, range.0 as int)
    &&& is_char_boundary(src, range.1 as int)
}

/// One transformation step: it reads the configuration, the tree and the
/// source from the context, may emit diagnostics into it, and returns the
/// edits to apply. The edits need not be sorted and may be empty; the engine
/// normalizes them. Every edit must lie within the context's source and cut
/// it at character boundaries — an edit outside the source is a bug in the
/// pass, not a runtime condition.
pub trait Pass {
    /// The configuration type this pass reads.
    type Config;

    /// Run the pass over the context's snapshot of the file.
    fn run(&self, ctx: &mut FormatterContext<Self::Config>) -> (edits: Vec<Edit>)
        ensures
            edits_wf_for(edit_views(edits@), old(ctx).src_bytes()),
    ;
}

/// The type-erased form of `Pass` under which the pipeline stores passes:
/// the associated configuration type is fixed at the storage boundary.
pub trait ErasedPass<Config> {
    /// Run the pass over the context's snapshot of the file.
    fn run(&self, ctx: &mut FormatterContext<Config>) -> (edits: Vec<Edit>)
        ensures
            edits_wf_for(edit_views(edits@), old(ctx).src_bytes()),
    ;
}

impl<T: Pass> ErasedPass<<T as Pass>::Config> for T {
    fn run(&self, ctx: &mut FormatterContext<<T as Pass>::Config>) -> (edits: Vec<Edit>) {
        <T as Pass>::run(self, ctx)
    }
}

/// A pass that works region by region: it locates regions and the items in
/// them, transforms the item list, and renders the items back to text. The
/// blanket `Pass` implementation sequences the three steps. Every extracted
/// target must lie within the source and cut it at character boundaries.
pub trait StructuredPass {
    /// The configuration type this pass reads.
    type Config;

    /// The items this pass formats.
    type Item;

    /// Locate every region to rewrite, with the items found in it.
    fn extract(&self, root: tree_sitter::Node<'_>, source: &str) -> (targets: Vec<
        EditTarget<Self::Item>,
    >)
        ensures
            forall|i: int|
                0 <= i < targets@.len() ==> range_wf_for(
                    (#[trigger] targets@[i]).range,
                    encode_utf8(source@),
                ),
    ;

    /// Rework the item list before rendering; an error drops the region and
    /// is reported as a diagnostic. The default leaves the items as they are.
    fn transform(
        &self,
        _root: tree_sitter::Node<'_>,
        _source: &str,
        _config: &Self::Config,
        _items: &mut Vec<Self::Item>,
    ) -> Result<(), String> {
        Ok(())
    }

    /// Render the items into the text that replaces the region.
    fn build(&self, config: &Self::Config, items: &Vec<Self::Item>) -> String;
}

impl<T: StructuredPass> Pass for T {
    type Config = <T as StructuredPass>::Config;

    /// Adapt the structured steps into one pass run: extract the targets,
    /// skip those without items, transform each (reporting a failure as an
    /// error diagnostic and dropping the target), and render the rest.
    fn run(&self, ctx: &mut FormatterContext<Self::Config>) -> (edits: Vec<Edit>) {
        let root = ctx.root();
        let source = ctx.source();
        let config = ctx.config();
        let ghost src = encode_utf8(source@);
        let mut targets = self.extract(root, source);
        let mut edits: Vec<Edit> = Vec::new();
        while targets.len() > 0
            invariant
                forall|i: int|
                    0 <= i < targets@.len() ==> range_wf_for((#[trigger] targets@[i]).range, src),
                edits_wf_for(edit_views(edits@), src),
                src == old(ctx).src_bytes(),
                ctx.source == old(ctx).source,
            decreases targets@.len(),
        {
            let ghost targets_before = targets@;
            let mut target = targets.remove(0);
            proof {
                assert(range_wf_for(target.range, src));
                assert(forall|i: int|
                    0 <= i < targets@.len() ==> targets@[i] == targets_before[i + 1]);
            }
            if target.items.len() > 0 {
                match self.transform(root, source, config, &mut target.items) {
                    Ok(()) => {
                        let content = self.build(config, &target.items);
                        let ghost range = target.range;
                        let resolved = target.with_content(content);
                        let ghost before = edit_views(edits@);
                        edits.push(resolved);
                        proof {
                            assert(edit_views(edits@) =~= before.push(resolved@));
                            assert(valid_utf8(resolved@.bytes)) by {
                                vstd::utf8::encode_utf8_valid_utf8(content@);
                            }
                            assert(resolved@.start == range.0 as int && resolved@.end
                                == range.1 as int);
                            assert(edits_wf_for(edit_views(edits@), src)) by {
                                assert(forall|i: int|
                                    0 <= i < before.len() ==> edit_views(edits@)[i] == before[i]);
                                assert(edit_views(edits@).last() == resolved@);
                            }
                        }
                    },
                    Err(message) => {
                        ctx.error(message, Some(target.range));
                    },
                }
            }
        }
        edits
    }
}

} // verus!
