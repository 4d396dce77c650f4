pub mod laws;

use super::relocations::RelocationView;
use super::sections::common::{Section, SectionView};
use crate::address::{read16, write16, Address};
use crate::executable::segments::common::{Segment, SegmentView};
use crate::executable::segments::flags::SegmentFlags;
use crate::serializable::Architecture;
use crate::sequence::map_values_push;
use crate::symbols::SymbolView;
use crate::strings::same_text;
use vstd::prelude::*;

verus! {

/// Why sections could not be linked. Each error carries the name of the
/// symbol that a relocation asked for.
#[derive(Debug)]
pub enum LinkerError {
    SymbolNotFound(String),
    RelocationOutOfRange(String),
}

/// What a linker error is: its kind and the characters of the name.
pub ghost enum LinkerErrorView {
    SymbolNotFound(Seq<char>),
    RelocationOutOfRange(Seq<char>),
}

impl View for LinkerError {
    type V = LinkerErrorView;

    open spec fn view(&self) -> LinkerErrorView {
        match self {
            LinkerError::SymbolNotFound(name) => LinkerErrorView::SymbolNotFound(name@),
            LinkerError::RelocationOutOfRange(name) => LinkerErrorView::RelocationOutOfRange(name@),
        }
    }
}

/// The address spaces in which a section can be placed. Sections of one
/// space are laid out one behind the other; spaces do not interfere.
#[derive(Debug, Clone, Copy, PartialEq, Eq, Structural)]
pub enum SectionType {
    TextSpace,
    DataSpace,
    Unified,
}

/// The address space that a section declares.
pub open spec fn space_of(section: SectionView) -> SectionType {
    SectionType::Unified
}

/// A section together with the place it has been given: the offset of its
/// first bit in its address space, in bits.
#[derive(Debug)]
pub struct PlacedSection {
    section: Section,
    offset: usize,
}

/// What a placed section is.
pub ghost struct PlacedSectionView {
    pub section: SectionView,
    pub offset: usize,
}

impl View for PlacedSection {
    type V = PlacedSectionView;

    closed spec fn view(&self) -> PlacedSectionView {
        PlacedSectionView { section: self.section@, offset: self.offset }
    }
}

/// What each of some placed sections is, in order.
pub open spec fn placed_views(sections: Seq<PlacedSection>) -> Seq<PlacedSectionView> {
    sections.map_values(|s: PlacedSection| s@)
}

/// The number of text-bytes of `width` bits that `bit_len` bits take.
pub open spec fn text_bytes(bit_len: nat, width: nat) -> nat {
    if width == 0 {
        0
    } else {
        (bit_len + width - 1) as nat / width
    }
}

/// `value`, or the largest `usize` when `value` is larger.
pub open spec fn capped(value: nat) -> usize {
    if value <= usize::MAX {
        value as usize
    } else {
        usize::MAX
    }
}

/// The address of the first symbol named `name` among `symbols`, if any.
pub open spec fn named(symbols: Seq<SymbolView>, name: Seq<char>) -> Option<usize>
    decreases symbols.len(),
{
    if symbols.len() == 0 {
        None
    } else if symbols[0].name == name {
        Some(symbols[0].address)
    } else {
        named(symbols.drop_first(), name)
    }
}

/// The address that `name` has by the first of `sections` that defines it:
/// the symbol's address in its section moved on by the section's offset.
pub open spec fn resolved(sections: Seq<PlacedSectionView>, name: Seq<char>) -> Option<Address>
    decreases sections.len(),
{
    if sections.len() == 0 {
        None
    } else {
        match sections[0].resolve(name) {
            Some(address) => Some(address),
            None => resolved(sections.drop_first(), name),
        }
    }
}

/// The bits that the sections of address space `space` among the first
/// `count` sections take, each section filled up to whole text-bytes.
pub open spec fn space_used(
    sections: Seq<PlacedSectionView>,
    space: SectionType,
    width: nat,
    count: nat,
) -> nat
    decreases count,
{
    if count == 0 {
        0
    } else {
        let section = sections[count - 1].section;
        space_used(sections, space, width, (count - 1) as nat) + if space_of(section) == space {
            text_bytes(section.bits().len(), width) * width
        } else {
            0
        }
    }
}

/// The distance in bits that a relocation asks for: from the field to the
/// symbol when it is relative, else the symbol's address.
pub open spec fn displacement(symbol: Address, relocation: RelocationView) -> int {
    if relocation.relative {
        symbol.0 - relocation.address
    } else {
        symbol.0 as int
    }
}

/// `distance` bits in text-bytes of `width` bits, rounded towards zero.
pub open spec fn in_text_bytes(distance: int, width: nat) -> int {
    if distance >= 0 {
        distance / (width as int)
    } else {
        -((-distance) / (width as int))
    }
}

/// The field `before` after `offset` is added to it, wrapping at 16 bits.
pub open spec fn patched_field(before: u16, offset: int) -> u16 {
    ((before + offset) % 65536) as u16
}

/// `bits` after one relocation is applied against the placed `sections`:
/// the symbol is looked up, the distance is counted in text-bytes and added
/// to the field. The relocation fails when no section defines the symbol,
/// or when the distance is beyond 65536 text-bytes either way.
pub open spec fn relocated(
    bits: Seq<bool>,
    relocation: RelocationView,
    sections: Seq<PlacedSectionView>,
    width: nat,
) -> Result<Seq<bool>, LinkerErrorView> {
    match resolved(sections, relocation.symbol) {
        None => Err(LinkerErrorView::SymbolNotFound(relocation.symbol)),
        Some(symbol) => {
            let offset = in_text_bytes(displacement(symbol, relocation), width);
            if offset > 65536 || offset < -65536 {
                Err(LinkerErrorView::RelocationOutOfRange(relocation.symbol))
            } else {
                Ok(
                    write16(
                        bits,
                        relocation.address as int,
                        patched_field(read16(bits, relocation.address as int), offset),
                    ),
                )
            }
        },
    }
}

/// `bits` after the first `count` of `relocations` are applied in order, or
/// the error of the first that fails.
pub open spec fn relocated_all(
    bits: Seq<bool>,
    relocations: Seq<RelocationView>,
    sections: Seq<PlacedSectionView>,
    width: nat,
    count: nat,
) -> Result<Seq<bool>, LinkerErrorView>
    decreases count,
{
    if count == 0 {
        Ok(bits)
    } else {
        match relocated_all(bits, relocations, sections, width, (count - 1) as nat) {
            Err(e) => Err(e),
            Ok(patched) => relocated(patched, relocations[count - 1], sections, width),
        }
    }
}

impl PlacedSectionView {
    /// The address that `name` has by this section, if the section defines
    /// it.
    pub open spec fn resolve(self, name: Seq<char>) -> Option<Address> {
        match named(self.section.symbols(), name) {
            Some(address) => Some(Address(address).spec_offset_by(self.offset)),
            None => None,
        }
    }
}

/// Sections of one architecture with the places they have been given.
#[derive(Debug)]
pub struct Placement {
    sections: Vec<PlacedSection>,
    architecture: Architecture,
}

/// What a placement is.
pub ghost struct PlacementView {
    pub sections: Seq<PlacedSectionView>,
    pub architecture: Architecture,
}

impl View for Placement {
    type V = PlacementView;

    closed spec fn view(&self) -> PlacementView {
        PlacementView { sections: placed_views(self.sections@), architecture: self.architecture }
    }
}

impl PlacementView {
    /// The width of a text-byte in bits.
    pub open spec fn width(self) -> nat {
        self.architecture.spec_text_byte_width()
    }

    /// The offset in bits that placing gives to section `j`: behind all
    /// earlier sections of its address space, each filled up to whole
    /// text-bytes, and no further than the largest `usize`.
    pub open spec fn placed_offset(self, j: int) -> usize {
        capped(space_used(self.sections, space_of(self.sections[j].section), self.width(), j as nat))
    }

    /// The placement after placing: the same sections, each at its offset.
    pub open spec fn placed(self) -> PlacementView {
        PlacementView {
            sections: Seq::new(
                self.sections.len(),
                |j: int|
                    PlacedSectionView {
                        section: self.sections[j].section,
                        offset: self.placed_offset(j),
                    },
            ),
            architecture: self.architecture,
        }
    }

    /// The segment that `section` becomes when it is linked against this
    /// placement and put at `offset` bits.
    pub open spec fn linked(self, section: SectionView, offset: usize) -> Result<
        SegmentView,
        LinkerErrorView,
    > {
        match relocated_all(
            section.bits(),
            section.relocations(),
            self.sections,
            self.width(),
            section.relocations().len(),
        ) {
            Err(e) => Err(e),
            Ok(bits) => Ok(
                SegmentView {
                    address_space_start: (offset as nat / self.width()) as u64,
                    address_space_size: text_bytes(bits.len(), self.width()) as u64,
                    disk_bit_count: bits.len() as usize,
                    flags: SegmentFlags {
                        executable: true,
                        writable: false,
                        readable: true,
                        special: false,
                    },
                    bits,
                    symbols: section.symbols(),
                },
            ),
        }
    }

    /// The segments that the first `count` sections become, or the error of
    /// the first section that cannot be linked.
    pub open spec fn segments(self, count: nat) -> Result<Seq<SegmentView>, LinkerErrorView>
        decreases count,
    {
        if count == 0 {
            Ok(Seq::empty())
        } else {
            match self.segments((count - 1) as nat) {
                Err(e) => Err(e),
                Ok(segments) => match self.linked(
                    self.sections[count - 1].section,
                    self.sections[count - 1].offset,
                ) {
                    Ok(segment) => Ok(segments.push(segment)),
                    Err(e) => Err(e),
                },
            }
        }
    }
}

impl PlacementView {
    /// An error among the first sections is the error of any longer run of
    /// sections.
    pub proof fn segments_error_stays(self, bad: nat, count: nat)
        requires
            bad <= count,
            self.segments(bad) is Err,
        ensures
            self.segments(count) == self.segments(bad),
        decreases count,
    {
        if bad < count {
            self.segments_error_stays(bad, (count - 1) as nat);
        }
    }
}

/// An error among the first relocations is the error of any longer run of
/// relocations.
pub proof fn relocated_all_error_stays(
    bits: Seq<bool>,
    relocations: Seq<RelocationView>,
    sections: Seq<PlacedSectionView>,
    width: nat,
    bad: nat,
    count: nat,
)
    requires
        bad <= count,
        relocated_all(bits, relocations, sections, width, bad) is Err,
    ensures
        relocated_all(bits, relocations, sections, width, count) == relocated_all(
            bits,
            relocations,
            sections,
            width,
            bad,
        ),
    decreases count,
{
    if bad < count {
        relocated_all_error_stays(bits, relocations, sections, width, bad, (count - 1) as nat);
    }
}

impl PlacedSection {
    /// `section` at offset 0.
    pub fn new(section: Section) -> (placed: Self)
        ensures
            placed@ == (PlacedSectionView { section: section@, offset: 0 }),
    {
        PlacedSection { section, offset: 0 }
    }

    pub fn section(&self) -> (section: &Section)
        ensures
            section@ == self@.section,
    {
        &self.section
    }

    /// The address space that the section declares.
    pub fn section_type(&self) -> (space: SectionType)
        ensures
            space == space_of(self@.section),
    {
        SectionType::Unified
    }

    /// The offset of the section's first bit in its address space, in bits.
    pub fn offset(&self) -> (offset: usize)
        ensures
            offset == self@.offset,
    {
        self.offset
    }

    /// The offset of the section's first bit in its address space, in whole
    /// text-bytes.
    pub fn text_byte_offset(&self, architecture: Architecture) -> (offset: usize)
        ensures
            offset == self@.offset as nat / architecture.spec_text_byte_width(),
    {
        self.offset / architecture.text_byte_width()
    }

    /// The number of text-bytes that the section takes.
    pub fn size(&self, architecture: Architecture) -> (size: usize)
        ensures
            size == text_bytes(self@.section.bits().len(), architecture.spec_text_byte_width()),
    {
        let width = architecture.text_byte_width();
        match &self.section {
            Section::Text(text) => {
                let len = text.data.len();
                len / width + if len % width != 0 { 1 } else { 0 }
            },
        }
    }

    /// The address of the first symbol of the section named `name`, moved
    /// on by the section's offset.
    pub fn find_symbol(&self, name: &str) -> (address: Option<Address>)
        ensures
            address == self@.resolve(name@),
    {
        match &self.section {
            Section::Text(text) => {
                let ghost symbols = self@.section.symbols();
                let mut i: usize = 0;
                assert(symbols.skip(0) =~= symbols);
                while i < text.symbols.len()
                    invariant
                        i <= text.symbols@.len(),
                        symbols == self@.section.symbols(),
                        self.offset == self@.offset,
                        symbols == crate::symbols::symbol_views(text.symbols@),
                        named(symbols, name@) == named(symbols.skip(i as int), name@),
                    decreases text.symbols@.len() - i,
                {
                    let symbol = &text.symbols[i];
                    proof {
                        assert(symbols.skip(i as int)[0] == symbol@);
                        assert(symbols.skip(i as int).drop_first() =~= symbols.skip(i + 1));
                    }
                    if same_text(symbol.name.as_str(), name) {
                        return Some(symbol.address + self.offset);
                    }
                    i = i + 1;
                }
                None
            },
        }
    }

    /// Puts the section at `offset` bits.
    pub fn to(&mut self, offset: usize)
        ensures
            final(self)@ == (PlacedSectionView { section: old(self)@.section, offset }),
    {
        self.offset = offset;
    }
}

/// A distance is more than `words` text-bytes exactly when it reaches the
/// first bit of the text-byte after them.
pub proof fn beyond_text_bytes(distance: int, width: int, words: int)
    by (nonlinear_arith)
    requires
        distance >= 0,
        width > 0,
        words >= 0,
    ensures
        (distance / width > words) == (distance >= (words + 1) * width),
{
}

/// The distance that a relocation at `site` asks for to `symbol`, counted in
/// text-bytes of `architecture`, or `None` when it is beyond 65536
/// text-bytes either way.
pub fn distance_in_text_bytes(
    symbol: Address,
    site: Address,
    relative: bool,
    architecture: Architecture,
) -> (offset: Option<i64>)
    ensures
        ({
            let exact = in_text_bytes(
                if relative {
                    symbol.0 - site.0
                } else {
                    symbol.0 as int
                },
                architecture.spec_text_byte_width(),
            );
            match offset {
                Some(offset) => offset == exact && -65536 <= exact <= 65536,
                None => exact > 65536 || exact < -65536,
            }
        }),
{
    let width = architecture.text_byte_width();
    let limit: i64 = 65537 * (width as i64);
    let distance: i64 = if relative {
        symbol - site
    } else if symbol.0 > 0x1000_0000 {
        0x1000_0000
    } else {
        symbol.0 as i64
    };
    let ghost exact: int = if relative {
        symbol.0 - site.0
    } else {
        symbol.0 as int
    };
    proof {
        if exact >= 0 {
            beyond_text_bytes(exact, width as int, 65536);
        } else {
            beyond_text_bytes(-exact, width as int, 65536);
        }
    }
    if distance >= limit || distance <= -limit {
        return None;
    }
    assert(distance == exact);
    if distance >= 0 {
        Some(((distance as u64) / (width as u64)) as i64)
    } else {
        Some(-((((-distance) as u64) / (width as u64)) as i64))
    }
}

/// Adds `offset` to a 16-bit field, wrapping at 16 bits.
pub fn patch_field(before: u16, offset: i64) -> (after: u16)
    ensures
        after == patched_field(before, offset as int),
{
    let wide: i128 = offset as i128;
    let addend: u16 = if wide >= 0 {
        ((wide as u128) % 65536) as u16
    } else {
        let back: u128 = ((-wide) as u128) % 65536;
        ((65536 - back) % 65536) as u16
    };
    before.wrapping_add(addend)
}

/// The bits that earlier sections take do not depend on where the sections
/// are.
pub proof fn space_used_by_sections(
    a: Seq<PlacedSectionView>,
    b: Seq<PlacedSectionView>,
    space: SectionType,
    width: nat,
    count: nat,
)
    requires
        count <= a.len(),
        count <= b.len(),
        forall|k: int| 0 <= k < count ==> (#[trigger] a[k]).section == b[k].section,
    ensures
        space_used(a, space, width, count) == space_used(b, space, width, count),
    decreases count,
{
    if count > 0 {
        space_used_by_sections(a, b, space, width, (count - 1) as nat);
        assert(a[count - 1].section == b[count - 1].section);
    }
}

impl Placement {
    pub fn new(sections: Vec<PlacedSection>, architecture: Architecture) -> (placement: Self)
        ensures
            placement@ == (PlacementView { sections: placed_views(sections@), architecture }),
    {
        Placement { sections, architecture }
    }

    pub fn architecture(&self) -> (architecture: Architecture)
        ensures
            architecture == self@.architecture,
    {
        self.architecture
    }

    /// The address that `name` has by the first section that defines it.
    pub fn find_symbol(&self, name: &str) -> (address: Option<Address>)
        ensures
            address == resolved(self@.sections, name@),
    {
        let ghost sections = self@.sections;
        let mut i: usize = 0;
        assert(sections.skip(0) =~= sections);
        while i < self.sections.len()
            invariant
                i <= self.sections@.len(),
                sections == self@.sections,
                sections == placed_views(self.sections@),
                resolved(sections, name@) == resolved(sections.skip(i as int), name@),
            decreases self.sections@.len() - i,
        {
            proof {
                assert(sections.skip(i as int)[0] == self.sections@[i as int]@);
                assert(sections.skip(i as int).drop_first() =~= sections.skip(i + 1));
            }
            match self.sections[i].find_symbol(name) {
                Some(address) => {
                    return Some(address);
                },
                None => {},
            }
            i = i + 1;
        }
        None
    }

    /// The segments that the sections become at their places, in order, or
    /// the error of the first section that cannot be linked.
    pub fn as_segments(&self) -> (result: Result<Vec<Segment>, LinkerError>)
        ensures
            match self@.segments(self@.sections.len()) {
                Ok(segments) => result matches Ok(linked)
                    && crate::executable::segment_views(linked@) == segments,
                Err(e) => result matches Err(error) && error@ == e,
            },
    {
        let mut segments: Vec<Segment> = Vec::new();
        let mut i: usize = 0;
        assert(crate::executable::segment_views(segments@) =~= Seq::empty());
        while i < self.sections.len()
            invariant
                i <= self.sections@.len(),
                self@.sections == placed_views(self.sections@),
                self@.segments(i as nat) == Ok::<Seq<SegmentView>, LinkerErrorView>(
                    crate::executable::segment_views(segments@),
                ),
            decreases self.sections@.len() - i,
        {
            let placed = &self.sections[i];
            assert(self@.sections[i as int] == placed@);
            match placed.section().to_segment(self, placed.offset()) {
                Ok(segment) => {
                    proof {
                        map_values_push(segments@, segment, |s: Segment| s@);
                    }
                    segments.push(segment);
                },
                Err(e) => {
                    proof {
                        self@.segments_error_stays((i + 1) as nat, self@.sections.len());
                    }
                    return Err(e);
                },
            }
            i = i + 1;
        }
        Ok(segments)
    }

    /// Places the sections of address space `space` one behind the other
    /// from offset 0 on, and leaves the other sections where they are.
    fn place_space(&mut self, space: SectionType)
        ensures
            final(self)@.architecture == old(self)@.architecture,
            final(self)@.sections.len() == old(self)@.sections.len(),
            forall|j: int|
                0 <= j < old(self)@.sections.len() ==> (#[trigger] final(self)@.sections[j])
                    == (PlacedSectionView {
                    section: old(self)@.sections[j].section,
                    offset: if space_of(old(self)@.sections[j].section) == space {
                        capped(space_used(old(self)@.sections, space, old(self)@.width(), j as nat))
                    } else {
                        old(self)@.sections[j].offset
                    },
                }),
    {
        let width = self.architecture.text_byte_width();
        let ghost before = self@.sections;
        let mut last_end: usize = 0;
        let mut i: usize = 0;
        while i < self.sections.len()
            invariant
                i <= self.sections@.len(),
                self.architecture == old(self).architecture,
                width == self.architecture.spec_text_byte_width(),
                before == old(self)@.sections,
                self.sections@.len() == before.len(),
                last_end == capped(space_used(before, space, width as nat, i as nat)),
                forall|j: int|
                    0 <= j < before.len() ==> (#[trigger] self.sections@[j])@ == (PlacedSectionView {
                        section: before[j].section,
                        offset: if j < i && space_of(before[j].section) == space {
                            capped(space_used(before, space, width as nat, j as nat))
                        } else {
                            before[j].offset
                        },
                    }),
            decreases self.sections@.len() - i,
        {
            if self.sections[i].section_type() == space {
                self.sections[i].to(last_end);
                let size = self.sections[i].size(self.architecture);
                let padded = match size.checked_mul(width) {
                    Some(padded) => padded,
                    None => usize::MAX,
                };
                last_end = last_end.saturating_add(padded);
            }
            i = i + 1;
        }
        assert forall|j: int| 0 <= j < before.len() implies (#[trigger] self@.sections[j])
            == (PlacedSectionView {
            section: before[j].section,
            offset: if space_of(before[j].section) == space {
                capped(space_used(before, space, old(self)@.width(), j as nat))
            } else {
                before[j].offset
            },
        }) by {
            assert(self@.sections[j] == self.sections@[j]@);
        }
    }

    /// Gives every section its place: the sections of each address space
    /// lie one behind the other from offset 0 on, in the order they have
    /// here, each filled up to whole text-bytes.
    pub fn place(&mut self)
        ensures
            final(self)@ == old(self)@.placed(),
    {
        self.place_space(SectionType::TextSpace);
        let ghost first = self@.sections;
        self.place_space(SectionType::DataSpace);
        let ghost second = self@.sections;
        self.place_space(SectionType::Unified);
        proof {
            let before = old(self)@;
            let width = before.width();
            assert forall|j: int| 0 <= j < before.sections.len() implies (
            #[trigger] self@.sections[j]) == before.placed().sections[j] by {
                let space = space_of(before.sections[j].section);
                space_used_by_sections(first, before.sections, space, width, j as nat);
                space_used_by_sections(second, before.sections, space, width, j as nat);
                assert(first[j].section == before.sections[j].section);
                assert(second[j].section == before.sections[j].section);
            }
            assert(self@.sections =~= before.placed().sections);
        }
    }
}

} // verus!
