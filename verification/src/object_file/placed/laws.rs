use super::{
    displacement, in_text_bytes, named, relocated_all,
    relocated_all_error_stays, resolved, space_of, space_used, text_bytes, LinkerErrorView,
    PlacedSectionView, PlacementView, SectionType,
};
use crate::address::Address;
use crate::object_file::sections::common::SectionView;
use crate::symbols::SymbolView;
use vstd::prelude::*;

verus! {

/// Whether one of `symbols` is named `name`.
pub open spec fn names(symbols: Seq<SymbolView>, name: Seq<char>) -> bool {
    exists|k: int| 0 <= k < symbols.len() && (#[trigger] symbols[k]).name == name
}

/// Whether symbol `k` is the first of `symbols` that is named `name`.
pub open spec fn first_named(symbols: Seq<SymbolView>, name: Seq<char>, k: int) -> bool {
    &&& 0 <= k < symbols.len()
    &&& symbols[k].name == name
    &&& forall|m: int| 0 <= m < k ==> (#[trigger] symbols[m]).name != name
}

/// Whether section `s` is the first of `sections` that defines `name`.
pub open spec fn first_defining(sections: Seq<PlacedSectionView>, name: Seq<char>, s: int) -> bool {
    &&& 0 <= s < sections.len()
    &&& names(sections[s].section.symbols(), name)
    &&& forall|t: int| 0 <= t < s ==> !names((#[trigger] sections[t]).section.symbols(), name)
}

/// Looking a name up among symbols gives the address of the first symbol
/// with that name, and nothing exactly when no symbol has it.
pub proof fn named_is_first(symbols: Seq<SymbolView>, name: Seq<char>)
    ensures
        match named(symbols, name) {
            Some(address) => exists|k: int|
                first_named(symbols, name, k) && address == (#[trigger] symbols[k]).address,
            None => !names(symbols, name),
        },
    decreases symbols.len(),
{
    if symbols.len() > 0 {
        if symbols[0].name == name {
            assert(first_named(symbols, name, 0));
        } else {
            let rest = symbols.drop_first();
            named_is_first(rest, name);
            match named(rest, name) {
                Some(address) => {
                    let k = choose|k: int|
                        first_named(rest, name, k) && address == (#[trigger] rest[k]).address;
                    assert(rest[k] == symbols[k + 1]);
                    assert forall|m: int| 0 <= m < k + 1 implies (#[trigger] symbols[m]).name
                        != name by {
                        if m > 0 {
                            assert(rest[m - 1] == symbols[m]);
                        }
                    }
                    assert(first_named(symbols, name, k + 1));
                },
                None => {
                    assert forall|k: int| 0 <= k < symbols.len() implies (#[trigger] symbols[k]).name
                        != name by {
                        if k > 0 {
                            assert(rest[k - 1] == symbols[k]);
                        }
                    }
                },
            }
        }
    }
}

/// A section resolves a name exactly when it defines a symbol of that name.
pub proof fn resolves_when_names(section: PlacedSectionView, name: Seq<char>)
    ensures
        section.resolve(name) is Some <==> names(section.section.symbols(), name),
{
    named_is_first(section.section.symbols(), name);
}

/// Resolving a name among placed sections gives what the first section that
/// defines the name resolves it to: the address of the first symbol of
/// that name in that section, moved on by the offset of the section. It
/// gives nothing exactly when no section defines the name.
pub proof fn resolved_is_first(sections: Seq<PlacedSectionView>, name: Seq<char>)
    ensures
        match resolved(sections, name) {
            Some(address) => exists|s: int, k: int|
                first_defining(sections, name, s) && first_named(
                    sections[s].section.symbols(),
                    name,
                    k,
                ) && address == Address(
                    (#[trigger] sections[s].section.symbols()[k]).address,
                ).spec_offset_by(sections[s].offset),
            None => forall|t: int|
                0 <= t < sections.len() ==> !names((#[trigger] sections[t]).section.symbols(), name),
        },
    decreases sections.len(),
{
    if sections.len() > 0 {
        let head = sections[0];
        named_is_first(head.section.symbols(), name);
        match head.resolve(name) {
            Some(address) => {
                let k = choose|k: int|
                    first_named(head.section.symbols(), name, k) && named(
                        head.section.symbols(),
                        name,
                    )->0 == (#[trigger] head.section.symbols()[k]).address;
                assert(first_defining(sections, name, 0));
                assert(first_named(sections[0].section.symbols(), name, k));
            },
            None => {
                let rest = sections.drop_first();
                resolved_is_first(rest, name);
                match resolved(rest, name) {
                    Some(address) => {
                        let (s, k) = choose|s: int, k: int|
                            first_defining(rest, name, s) && first_named(
                                rest[s].section.symbols(),
                                name,
                                k,
                            ) && address == Address(
                                (#[trigger] rest[s].section.symbols()[k]).address,
                            ).spec_offset_by(rest[s].offset);
                        assert(rest[s] == sections[s + 1]);
                        assert forall|t: int| 0 <= t < s + 1 implies !names(
                            (#[trigger] sections[t]).section.symbols(),
                            name,
                        ) by {
                            if t > 0 {
                                assert(rest[t - 1] == sections[t]);
                            }
                        }
                        assert(first_defining(sections, name, s + 1));
                        assert(first_named(sections[s + 1].section.symbols(), name, k));
                    },
                    None => {
                        assert forall|t: int| 0 <= t < sections.len() implies !names(
                            (#[trigger] sections[t]).section.symbols(),
                            name,
                        ) by {
                            if t > 0 {
                                assert(rest[t - 1] == sections[t]);
                            }
                        }
                    },
                }
            },
        }
    }
}

/// The bits that the sections of an address space take grow with the
/// number of sections, and by the bits of each section of that space.
pub proof fn space_used_grows(
    sections: Seq<PlacedSectionView>,
    space: SectionType,
    width: nat,
    i: int,
    j: int,
)
    requires
        0 <= i < j <= sections.len(),
        space_of(sections[i].section) == space,
    ensures
        space_used(sections, space, width, i as nat) + text_bytes(
            sections[i].section.bits().len(),
            width,
        ) * width <= space_used(sections, space, width, j as nat),
    decreases j - i,
{
    if i + 1 < j {
        space_used_grows(sections, space, width, i, j - 1);
    }
}

/// The bits that the sections of an address space take are whole
/// text-bytes.
pub proof fn space_used_whole(
    sections: Seq<PlacedSectionView>,
    space: SectionType,
    width: nat,
    count: nat,
) -> (text_bytes_used: nat)
    requires
        width > 0,
    ensures
        space_used(sections, space, width, count) == text_bytes_used * width,
    decreases count,
{
    if count == 0 {
        0
    } else {
        let before = space_used_whole(sections, space, width, (count - 1) as nat);
        let section = sections[count - 1].section;
        let more = if space_of(section) == space {
            text_bytes(section.bits().len(), width)
        } else {
            0
        };
        assert((before + more) * width == before * width + more * width) by (nonlinear_arith);
        before + more
    }
}

/// Dividing whole text-bytes by the width of a text-byte gives their
/// number.
proof fn whole_text_bytes(count: nat, width: nat)
    by (nonlinear_arith)
    requires
        width > 0,
    ensures
        (count * width) / width == count,
{
}

/// Placed sections of one address space do not overlap: a later section
/// starts no earlier than where an earlier section ends, counted in bits
/// and counted in text-bytes. This holds wherever the later section's place
/// is within the range of `usize`.
pub proof fn placed_apart(placement: PlacementView, i: int, j: int)
    requires
        0 <= i < j < placement.sections.len(),
        space_of(placement.sections[i].section) == space_of(placement.sections[j].section),
        space_used(
            placement.sections,
            space_of(placement.sections[j].section),
            placement.width(),
            j as nat,
        ) <= usize::MAX,
    ensures
        placement.placed().sections[j].offset >= placement.placed().sections[i].offset
            + text_bytes(placement.sections[i].section.bits().len(), placement.width())
            * placement.width(),
        placement.placed().sections[j].offset as int / placement.width() as int
            >= placement.placed().sections[i].offset as int / placement.width() as int
            + text_bytes(placement.sections[i].section.bits().len(), placement.width()),
{
    let sections = placement.sections;
    let space = space_of(sections[j].section);
    let width = placement.width();
    space_used_grows(sections, space, width, i, j);
    let at_i = space_used_whole(sections, space, width, i as nat);
    let at_j = space_used_whole(sections, space, width, j as nat);
    let size_i = text_bytes(sections[i].section.bits().len(), width);
    whole_text_bytes(at_i, width);
    whole_text_bytes(at_j, width);
    assert((at_i + size_i) * width == at_i * width + size_i * width) by (nonlinear_arith);
    assert(at_i + size_i <= at_j) by (nonlinear_arith)
        requires
            (at_i + size_i) * width <= at_j * width,
            width > 0,
    ;
}

/// A relocation that names a symbol that no section defines ends the
/// linking of its section: with the error that the symbol was not found,
/// when every relocation before it can be applied.
pub proof fn undefined_symbol_fails(
    placement: PlacementView,
    section: SectionView,
    offset: usize,
    k: int,
)
    requires
        0 <= k < section.relocations().len(),
        forall|t: int|
            0 <= t < placement.sections.len() ==> !names(
                (#[trigger] placement.sections[t]).section.symbols(),
                section.relocations()[k].symbol,
            ),
    ensures
        placement.linked(section, offset) is Err,
        relocated_all(
            section.bits(),
            section.relocations(),
            placement.sections,
            placement.width(),
            k as nat,
        ) is Ok ==> placement.linked(section, offset) == Err::<
            crate::executable::segments::common::SegmentView,
            LinkerErrorView,
        >(LinkerErrorView::SymbolNotFound(section.relocations()[k].symbol)),
{
    let relocations = section.relocations();
    let name = relocations[k].symbol;
    resolved_is_first(placement.sections, name);
    if resolved(placement.sections, name) is Some {
        let (s, m) = choose|s: int, m: int|
            first_defining(placement.sections, name, s) && first_named(
                placement.sections[s].section.symbols(),
                name,
                m,
            ) && resolved(placement.sections, name)->0 == Address(
                (#[trigger] placement.sections[s].section.symbols()[m]).address,
            ).spec_offset_by(placement.sections[s].offset);
        assert(names(placement.sections[s].section.symbols(), name));
    }
    let before = relocated_all(
        section.bits(),
        relocations,
        placement.sections,
        placement.width(),
        k as nat,
    );
    if before is Err {
        relocated_all_error_stays(
            section.bits(),
            relocations,
            placement.sections,
            placement.width(),
            k as nat,
            relocations.len(),
        );
    } else {
        relocated_all_error_stays(
            section.bits(),
            relocations,
            placement.sections,
            placement.width(),
            (k + 1) as nat,
            relocations.len(),
        );
    }
}

/// A relocation whose symbol lies more than 65536 text-bytes away, either
/// way, ends the linking of its section: with the error that the relocation
/// is out of range, when every relocation before it can be applied.
pub proof fn far_symbol_fails(
    placement: PlacementView,
    section: SectionView,
    offset: usize,
    k: int,
    symbol: Address,
)
    requires
        0 <= k < section.relocations().len(),
        resolved(placement.sections, section.relocations()[k].symbol) == Some(symbol),
        in_text_bytes(displacement(symbol, section.relocations()[k]), placement.width()) > 65536
            || in_text_bytes(displacement(symbol, section.relocations()[k]), placement.width())
            < -65536,
    ensures
        placement.linked(section, offset) is Err,
        relocated_all(
            section.bits(),
            section.relocations(),
            placement.sections,
            placement.width(),
            k as nat,
        ) is Ok ==> placement.linked(section, offset) == Err::<
            crate::executable::segments::common::SegmentView,
            LinkerErrorView,
        >(LinkerErrorView::RelocationOutOfRange(section.relocations()[k].symbol)),
{
    let relocations = section.relocations();
    let before = relocated_all(
        section.bits(),
        relocations,
        placement.sections,
        placement.width(),
        k as nat,
    );
    if before is Err {
        relocated_all_error_stays(
            section.bits(),
            relocations,
            placement.sections,
            placement.width(),
            k as nat,
            relocations.len(),
        );
    } else {
        relocated_all_error_stays(
            section.bits(),
            relocations,
            placement.sections,
            placement.width(),
            (k + 1) as nat,
            relocations.len(),
        );
    }
}

/// When a section cannot be linked, the sections cannot be turned into
/// segments.
pub proof fn failed_section_fails(placement: PlacementView, s: int)
    requires
        0 <= s < placement.sections.len(),
        placement.linked(placement.sections[s].section, placement.sections[s].offset) is Err,
    ensures
        placement.segments(placement.sections.len()) is Err,
{
    if placement.segments(s as nat) is Err {
        placement.segments_error_stays(s as nat, placement.sections.len());
    } else {
        placement.segments_error_stays((s + 1) as nat, placement.sections.len());
    }
}

} // verus!
