use tree_sitter::Parser as TsParser;
use vstd::prelude::*;

verus! {

#[verifier::external_type_specification]
#[verifier::external_body]
pub struct ExTsLanguage(tree_sitter::Language);

#[verifier::external_type_specification]
#[verifier::external_body]
pub struct ExTsParser(TsParser);

#[verifier::external_type_specification]
#[verifier::external_body]
pub struct ExTsTree(tree_sitter::Tree);

#[verifier::external_type_specification]
#[verifier::external_body]
pub struct ExTsNode<'tree>(tree_sitter::Node<'tree>);

/// Relies on tree_sitter::Tree::root_node: yields the root of the tree.
#[verifier::external_body]
pub fn ts_root_node<'t>(tree: &'t tree_sitter::Tree) -> (n: tree_sitter::Node<'t>) {
    tree.root_node()
}

/// Relies on tree_sitter::Tree::edit: records a text edit, given in bytes and
/// in row/column points for both endpoints before and after the change, so
/// that the next parse of this tree runs incrementally.
#[verifier::external_body]
pub fn ts_tree_edit(
    tree: &mut tree_sitter::Tree,
    start_byte: usize,
    old_end_byte: usize,
    new_end_byte: usize,
    start_point: (usize, usize),
    old_end_point: (usize, usize),
    new_end_point: (usize, usize),
) {
    tree.edit(
        &tree_sitter::InputEdit {
            start_byte,
            old_end_byte,
            new_end_byte,
            start_position: tree_sitter::Point { row: start_point.0, column: start_point.1 },
            old_end_position: tree_sitter::Point { row: old_end_point.0, column: old_end_point.1 },
            new_end_position: tree_sitter::Point { row: new_end_point.0, column: new_end_point.1 },
        },
    );
}

} // verus!
