//! Containers and a linker core for small instruction-set architectures
//! whose code is addressed in bits.
//!
//! An [`ObjectFile`] holds relocatable sections with their symbols and
//! relocations; an [`Executable`] holds loadable segments. Both have a byte
//! encoding that is read back exactly. Linking places the sections of an
//! object file, resolves every relocation against the placed symbols, and
//! patches the 16-bit fields that the relocations name.
//!
//! Every function is verified against a contract over the views of its
//! arguments; the modules named `laws` hold what is proved of the library as
//! a whole.

pub mod address;
pub mod bit_buffer;
pub mod codec;
pub mod definition;
pub mod executable;
pub mod object_file;
pub mod sequence;
pub mod serializable;
pub mod strings;
pub mod symbols;

pub use address::Address;
pub use bit_buffer::BitBuffer;
pub use executable::Executable;
pub use object_file::ObjectFile;
pub use serializable::{Architecture, Serializable, SerializationError};
pub use symbols::{Symbol, SymbolTable};

use executable::ExecutableView;
use object_file::placed::{
    LinkerError, LinkerErrorView, PlacedSection, PlacedSectionView, Placement, PlacementView,
};
use object_file::sections::common::SectionView;
use object_file::ObjectFileView;
use vstd::prelude::*;

verus! {

/// The sections of an object file before they are placed: each at offset 0.
pub open spec fn unplaced(object: ObjectFileView) -> PlacementView {
    PlacementView {
        sections: object.sections.map_values(
            |section: SectionView| PlacedSectionView { section, offset: 0 },
        ),
        architecture: object.architecture,
    }
}

/// The executable that linking makes of an object file: the sections are
/// placed, then each becomes a segment in its place; the entry point is 0.
/// The first relocation that cannot be applied, in the order of the
/// sections, ends the linking with its error.
pub open spec fn linked(object: ObjectFileView) -> Result<ExecutableView, LinkerErrorView> {
    let placement = unplaced(object).placed();
    match placement.segments(placement.sections.len()) {
        Err(e) => Err(e),
        Ok(segments) => Ok(
            ExecutableView { architecture: object.architecture, entry_point: 0, segments },
        ),
    }
}

impl TryFrom<ObjectFile> for Executable {
    type Error = LinkerError;

    /// Links the object file into an executable.
    fn try_from(object: ObjectFile) -> (result: Result<Self, LinkerError>)
        ensures
            match linked(object@) {
                Ok(view) => result matches Ok(executable) && executable@ == view,
                Err(e) => result matches Err(error) && error@ == e,
            },
    {
        let architecture = object.architecture();
        let ghost views = object@.sections;
        let sections = object.sections();
        let ghost elements = sections@;
        let mut placed: Vec<PlacedSection> = Vec::new();
        for section in it: sections
            invariant
                it.seq() == elements,
                placed@.len() == it.index(),
                forall|k: int|
                    0 <= k < placed@.len() ==> (#[trigger] placed@[k])@ == (PlacedSectionView {
                        section: elements[k]@,
                        offset: 0,
                    }),
        {
            placed.push(PlacedSection::new(section));
        }
        assert(object_file::placed::placed_views(placed@) =~= unplaced(object@).sections);
        let mut placement = Placement::new(placed, architecture);
        placement.place();
        match placement.as_segments() {
            Ok(segments) => Ok(Executable::new(architecture, segments)),
            Err(e) => Err(e),
        }
    }
}

impl vstd::std_specs::convert::TryFromSpecImpl<ObjectFile> for Executable {
    open spec fn obeys_try_from_spec() -> bool {
        false
    }

    open spec fn try_from_spec(object: ObjectFile) -> Result<Self, LinkerError> {
        arbitrary()
    }
}

} // verus!
