//! The types that most users of the source-position model need, under one import.

pub use crate::diag::{Diagnostic, Diagnostics, Severity};
pub use crate::source::{FileId, LineCol, ResolvedSpan, SourceFile, SourceMap, SourceName};
pub use crate::span::Span;
