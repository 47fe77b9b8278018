pub mod bindings;
pub mod cli_entry;
pub mod context;
pub mod diff;
pub mod edit;
pub mod engine;
pub mod language_provider;
pub mod normalize;
pub mod outcome;
pub mod parse_state;
pub mod parser_core;
pub mod pass;
pub mod pipeline_core;
pub mod supported_extension;
pub mod text;

pub use cli_entry::CliCommand;
pub use context::FormatterContext;
pub use edit::{Edit, EditTarget};
pub use engine::Engine;
pub use language_provider::LanguageProvider;
pub use outcome::{Diagnostic, DiagnosticSeverity, FileFormatOutcome};
pub use parse_state::ParseState;
pub use parser_core::Parser;
pub use pass::{ErasedPass, Pass, StructuredPass};
pub use pipeline_core::Pipeline;
pub use supported_extension::SupportedExtension;
