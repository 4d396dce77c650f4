use super::{
    distinct_names, arguments_mismatch, commands_mismatch, duplicate_opcode,
    fills_text_bytes, group_named, indivisible_command, mnemonic_of, resolved_argument,
    ArgumentView, CommandView, DefinitionView, RawDefinitionView, RegisterGroupView,
};
use vstd::prelude::*;

verus! {

/// Whether an argument is no address or an address of `size` bits.
pub open spec fn address_fits(argument: ArgumentView, size: u8) -> bool {
    match argument {
        ArgumentView::DataAddress { bits } => bits == size,
        ArgumentView::TextAddress { bits } => bits == size,
        _ => true,
    }
}

/// Whether an argument is no register or a register of one of `groups`.
pub open spec fn group_known(
    argument: ArgumentView,
    groups: Seq<(Seq<char>, RegisterGroupView)>,
) -> bool {
    match argument {
        ArgumentView::Register { group } => exists|i: int|
            0 <= i < groups.len() && (#[trigger] groups[i]).1 == group,
        _ => true,
    }
}

impl DefinitionView {
    /// What holds of every checked definition: every address argument has
    /// the address size, every register argument has a group of the
    /// definition, no two commands share an opcode, and the opcode and the
    /// arguments of every command fill whole text-bytes.
    pub open spec fn valid(self) -> bool {
        &&& forall|i: int, k: int|
            0 <= i < self.commands.len() && 0 <= k < self.commands[i].arguments.len()
                ==> address_fits(#[trigger] self.commands[i].arguments[k], self.address_size)
        &&& forall|i: int, k: int|
            0 <= i < self.commands.len() && 0 <= k < self.commands[i].arguments.len()
                ==> group_known(#[trigger] self.commands[i].arguments[k], self.register_groups)
        &&& forall|i: int, j: int|
            0 <= i < j < self.commands.len() ==> (#[trigger] self.commands[i]).opcode != (
            #[trigger] self.commands[j]).opcode
        &&& forall|i: int|
            0 <= i < self.commands.len() ==> fills_text_bytes(
                self.opcode_length as nat + (#[trigger] self.commands[i]).arguments_size(),
                self.text_byte_length,
            )
    }
}

/// Arguments without a mismatch are all no addresses or addresses of the
/// given size.
pub proof fn no_arguments_mismatch(arguments: Seq<ArgumentView>, size: u8)
    requires
        arguments_mismatch(arguments, size) is None,
    ensures
        forall|k: int| 0 <= k < arguments.len() ==> address_fits(#[trigger] arguments[k], size),
    decreases arguments.len(),
{
    if arguments.len() > 0 {
        no_arguments_mismatch(arguments.drop_first(), size);
        assert forall|k: int| 0 <= k < arguments.len() implies address_fits(
            #[trigger] arguments[k],
            size,
        ) by {
            if k > 0 {
                assert(arguments.drop_first()[k - 1] == arguments[k]);
            }
        }
    }
}

/// Commands without a mismatch have only arguments that are no addresses
/// or addresses of the given size.
pub proof fn no_commands_mismatch(commands: Seq<CommandView>, size: u8)
    requires
        commands_mismatch(commands, size) is None,
    ensures
        forall|i: int, k: int|
            0 <= i < commands.len() && 0 <= k < commands[i].arguments.len() ==> address_fits(
                #[trigger] commands[i].arguments[k],
                size,
            ),
    decreases commands.len(),
{
    if commands.len() > 0 {
        no_commands_mismatch(commands.drop_first(), size);
        no_arguments_mismatch(commands[0].arguments, size);
        assert forall|i: int, k: int|
            0 <= i < commands.len() && 0 <= k < commands[i].arguments.len() implies address_fits(
            #[trigger] commands[i].arguments[k],
            size,
        ) by {
            if i > 0 {
                assert(commands.drop_first()[i - 1] == commands[i]);
            }
        }
    }
}

/// When no command has the opcode, no command has it.
pub proof fn no_mnemonic(commands: Seq<CommandView>, opcode: u8)
    requires
        mnemonic_of(commands, opcode) is None,
    ensures
        forall|i: int| 0 <= i < commands.len() ==> (#[trigger] commands[i]).opcode != opcode,
    decreases commands.len(),
{
    if commands.len() > 0 {
        no_mnemonic(commands.drop_first(), opcode);
        assert forall|i: int| 0 <= i < commands.len() implies (#[trigger] commands[i]).opcode
            != opcode by {
            if i > 0 {
                assert(commands.drop_first()[i - 1] == commands[i]);
            }
        }
    }
}

/// Commands without a duplicate opcode have opcodes that differ from each
/// other.
pub proof fn no_duplicate_opcode(commands: Seq<CommandView>, count: nat)
    requires
        count <= commands.len(),
        duplicate_opcode(commands, count) is None,
    ensures
        forall|i: int, j: int|
            0 <= i < j < count ==> (#[trigger] commands[i]).opcode != (#[trigger] commands[j]).opcode,
    decreases count,
{
    if count > 0 {
        no_duplicate_opcode(commands, (count - 1) as nat);
        no_mnemonic(commands.take(count - 1), commands[count - 1].opcode);
        assert forall|i: int, j: int| 0 <= i < j < count implies (#[trigger] commands[i]).opcode
            != (#[trigger] commands[j]).opcode by {
            if j == count - 1 {
                assert(commands.take(count - 1)[i] == commands[i]);
            }
        }
    }
}

/// Commands of which none is indivisible all fill whole text-bytes.
pub proof fn no_indivisible_command(
    commands: Seq<CommandView>,
    opcode_length: u8,
    text_byte_length: u8,
)
    requires
        indivisible_command(commands, opcode_length, text_byte_length) is None,
    ensures
        forall|i: int|
            0 <= i < commands.len() ==> fills_text_bytes(
                opcode_length as nat + (#[trigger] commands[i]).arguments_size(),
                text_byte_length,
            ),
    decreases commands.len(),
{
    if commands.len() > 0 {
        no_indivisible_command(commands.drop_first(), opcode_length, text_byte_length);
        assert forall|i: int| 0 <= i < commands.len() implies fills_text_bytes(
            opcode_length as nat + (#[trigger] commands[i]).arguments_size(),
            text_byte_length,
        ) by {
            if i > 0 {
                assert(commands.drop_first()[i - 1] == commands[i]);
            }
        }
    }
}

/// A group that is found by name is one of the groups.
pub proof fn named_group_is_known(groups: Seq<(Seq<char>, RegisterGroupView)>, name: Seq<char>)
    requires
        group_named(groups, name) is Some,
    ensures
        exists|i: int| 0 <= i < groups.len() && (#[trigger] groups[i]).1 == group_named(
            groups,
            name,
        )->0,
    decreases groups.len(),
{
    if groups[0].0 == name {
        assert(groups[0].1 == group_named(groups, name)->0);
    } else {
        named_group_is_known(groups.drop_first(), name);
        let i = choose|i: int|
            0 <= i < groups.drop_first().len() && (#[trigger] groups.drop_first()[i]).1
                == group_named(groups.drop_first(), name)->0;
        assert(groups[i + 1] == groups.drop_first()[i]);
    }
}

/// Among groups with distinct names, every group is found by its name.
pub proof fn distinct_group_is_found(groups: Seq<(Seq<char>, RegisterGroupView)>, i: int)
    requires
        distinct_names(groups),
        0 <= i < groups.len(),
    ensures
        group_named(groups, groups[i].0) == Some(groups[i].1),
    decreases groups.len(),
{
    if i > 0 {
        let rest = groups.drop_first();
        assert(groups[0].0 != groups[i].0);
        assert forall|a: int, b: int| 0 <= a < b < rest.len() implies (#[trigger] rest[a]).0 != (
        #[trigger] rest[b]).0 by {
            assert(rest[a] == groups[a + 1]);
            assert(rest[b] == groups[b + 1]);
        }
        assert(rest[i - 1] == groups[i]);
        distinct_group_is_found(rest, i - 1);
    }
}

/// Checking a definition keeps its register groups, and with them the
/// distinctness of their names.
pub proof fn checked_keeps_groups(raw: RawDefinitionView)
    ensures
        raw.checked() matches Ok(definition) ==> definition.register_groups
            == raw.register_groups && (distinct_names(raw.register_groups) ==> distinct_names(
            definition.register_groups,
        )),
{
}

/// Every definition that passes the check is valid.
pub proof fn checked_is_valid(raw: RawDefinitionView)
    ensures
        raw.checked() matches Ok(definition) ==> definition.valid(),
{
    if raw.checked() is Ok {
        let definition = raw.checked()->Ok_0;
        let commands = definition.commands;
        no_commands_mismatch(commands, definition.address_size);
        no_duplicate_opcode(commands, commands.len());
        no_indivisible_command(commands, definition.opcode_length, definition.text_byte_length);
        assert forall|i: int, k: int|
            0 <= i < commands.len() && 0 <= k < commands[i].arguments.len() implies group_known(
            #[trigger] commands[i].arguments[k],
            definition.register_groups,
        ) by {
            let written = raw.commands[i];
            assert(super::resolved_command(written, raw.register_groups) is Some);
            let argument = written.arguments[k];
            assert(resolved_argument(argument, raw.register_groups) is Some);
            assert(commands[i].arguments[k] == resolved_argument(
                argument,
                raw.register_groups,
            )->0);
            match argument {
                super::RawArgumentView::Register { group } => {
                    named_group_is_known(raw.register_groups, group);
                },
                _ => {},
            }
        }
    }
}

} // verus!
