pub mod common;
pub mod header;
pub mod text;

pub use common::Section;
pub use header::{RelocationTableHeader, SectionHeader, SymbolTableHeader, TextSectionHeader};
pub use text::TextSection;
