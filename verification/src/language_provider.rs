use crate::supported_extension::SupportedExtension;
use vstd::prelude::*;

verus! {

/// A grammar binding for one language. Implementors hand the engine the
/// tree-sitter grammar to parse with and the file extensions the language's
/// formatter accepts. Typically implemented on a zero-sized type.
pub trait LanguageProvider {
    /// The tree-sitter grammar for this language.
    fn language() -> tree_sitter::Language;

    /// The file extensions this language's formatter accepts.
    fn supported_extension() -> SupportedExtension;
}

} // verus!
