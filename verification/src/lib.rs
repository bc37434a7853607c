//! Heuristic cross-language class-link scanner.
//!
//! The crate scans source text in four languages (Markdown, Python,
//! TypeScript, C#) for class and interface declarations and for shallow
//! lexical references between them, and computes connectivity statistics
//! (degrees, isolated names, hubs) over the aggregated directed graph.
//!
//! Each scanner's exact behaviour is written down as spec functions over the
//! text's characters, in `parser` (Markdown), `python_parser`,
//! `typescript_parser` and `csharp_parser`; `file_analyzer` classifies a
//! path and routes to the right scanner, and `analyzer` computes the
//! statistics, with the graph laws (degree conservation, the isolation
//! characterisation, the zero-edge case, determinism) proved beside it.
//! `text`, `scan` and `names` hold the character-level machinery, the
//! reference patterns shared between languages, and the declaration set.

pub mod analyzer;
pub mod csharp_parser;
pub mod file_analyzer;
pub mod names;
pub mod parser;
pub mod python_parser;
pub mod scan;
pub mod typescript_parser;
pub mod text;

pub use analyzer::{LinkAnalyzer, LinkStatistics, ClassLinkCount};
pub use csharp_parser::CSharpParser;
pub use file_analyzer::{UnifiedAnalyzer, FileType, FileAnalyzer, AnalysisResult};
pub use names::NameSet;
pub use parser::{ClassLink, MarkdownParser};
pub use python_parser::PythonParser;
pub use typescript_parser::TypeScriptParser;
