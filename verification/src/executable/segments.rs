pub mod common;
pub mod flags;
pub mod header;

pub use common::Segment;
pub use flags::SegmentFlags;
pub use header::{SegmentHeader, SegmentType};
