pub mod laws;

use crate::strings::{decimal, push_decimal, same_text, texts, clone_texts};
use vstd::prelude::*;
use vstd::std_specs::convert::{FromSpecImpl, TryFromSpecImpl};
use vstd::string::StringExecFns;

verus! {

/// A group of registers as it is written in a definition: the number of
/// bits that names one of them, and their names.
#[derive(Debug)]
pub struct RawRegisterGroup {
    pub length: u8,
    pub registers: Vec<String>,
}

/// A group of registers: the number of bits that names one of them, and
/// their names.
#[derive(Debug)]
pub struct RegisterGroup {
    pub length: u8,
    pub registers: Vec<String>,
}

/// Register groups by name, in the order in which they are written. The
/// list stands for a map from names to groups: it is meant to hold every
/// name once (see `distinct_names`), and then a group is found by its name
/// wherever it stands. A group is always found by the first entry of its
/// name.
pub type RegisterGroups = Vec<(String, RegisterGroup)>;

/// Written register groups by name.
pub type RawRegisterGroups = Vec<(String, RawRegisterGroup)>;

/// What a register group is.
pub ghost struct RegisterGroupView {
    pub length: u8,
    pub registers: Seq<Seq<char>>,
}

impl View for RawRegisterGroup {
    type V = RegisterGroupView;

    open spec fn view(&self) -> RegisterGroupView {
        RegisterGroupView { length: self.length, registers: texts(self.registers@) }
    }
}

impl View for RegisterGroup {
    type V = RegisterGroupView;

    open spec fn view(&self) -> RegisterGroupView {
        RegisterGroupView { length: self.length, registers: texts(self.registers@) }
    }
}

impl Clone for RegisterGroup {
    fn clone(&self) -> (copy: Self)
        ensures
            copy@ == self@,
    {
        RegisterGroup { length: self.length, registers: clone_texts(&self.registers) }
    }
}

impl From<RawRegisterGroup> for RegisterGroup {
    /// The group that is written: the same length and the same registers.
    fn from(raw: RawRegisterGroup) -> (group: Self)
        ensures
            group@ == raw@,
    {
        RegisterGroup { length: raw.length, registers: raw.registers }
    }
}

impl FromSpecImpl<RawRegisterGroup> for RegisterGroup {
    open spec fn obeys_from_spec() -> bool {
        true
    }

    open spec fn from_spec(raw: RawRegisterGroup) -> RegisterGroup {
        RegisterGroup { length: raw.length, registers: raw.registers }
    }
}

/// One argument of a command as it is written in a definition. A register
/// argument names its group; every other argument gives its bits.
#[derive(Debug)]
pub enum RawArgumentDefinition {
    Register { group: String },
    DataAddress { bits: u8 },
    TextAddress { bits: u8 },
    Padding { bits: u8 },
    Immediate { bits: u8 },
}

/// What a written argument is.
pub ghost enum RawArgumentView {
    Register { group: Seq<char> },
    DataAddress { bits: u8 },
    TextAddress { bits: u8 },
    Padding { bits: u8 },
    Immediate { bits: u8 },
}

impl View for RawArgumentDefinition {
    type V = RawArgumentView;

    open spec fn view(&self) -> RawArgumentView {
        match self {
            RawArgumentDefinition::Register { group } => RawArgumentView::Register { group: group@ },
            RawArgumentDefinition::DataAddress { bits } => RawArgumentView::DataAddress {
                bits: *bits,
            },
            RawArgumentDefinition::TextAddress { bits } => RawArgumentView::TextAddress {
                bits: *bits,
            },
            RawArgumentDefinition::Padding { bits } => RawArgumentView::Padding { bits: *bits },
            RawArgumentDefinition::Immediate { bits } => RawArgumentView::Immediate { bits: *bits },
        }
    }
}

/// One argument of a command. A register argument holds its group.
#[derive(Debug)]
pub enum ArgumentDefinition {
    Register { group: RegisterGroup },
    DataAddress { bits: u8 },
    TextAddress { bits: u8 },
    Padding { bits: u8 },
    Immediate { bits: u8 },
}

/// What an argument is.
pub ghost enum ArgumentView {
    Register { group: RegisterGroupView },
    DataAddress { bits: u8 },
    TextAddress { bits: u8 },
    Padding { bits: u8 },
    Immediate { bits: u8 },
}

impl View for ArgumentDefinition {
    type V = ArgumentView;

    open spec fn view(&self) -> ArgumentView {
        match self {
            ArgumentDefinition::Register { group } => ArgumentView::Register { group: group@ },
            ArgumentDefinition::DataAddress { bits } => ArgumentView::DataAddress { bits: *bits },
            ArgumentDefinition::TextAddress { bits } => ArgumentView::TextAddress { bits: *bits },
            ArgumentDefinition::Padding { bits } => ArgumentView::Padding { bits: *bits },
            ArgumentDefinition::Immediate { bits } => ArgumentView::Immediate { bits: *bits },
        }
    }
}

impl ArgumentView {
    /// The number of bits that the argument takes in an encoded command.
    pub open spec fn size(self) -> u8 {
        match self {
            ArgumentView::Register { group } => group.length,
            ArgumentView::DataAddress { bits } => bits,
            ArgumentView::TextAddress { bits } => bits,
            ArgumentView::Padding { bits } => bits,
            ArgumentView::Immediate { bits } => bits,
        }
    }
}

/// What each of some named register groups is, in order.
pub open spec fn group_views(groups: Seq<(String, RegisterGroup)>) -> Seq<
    (Seq<char>, RegisterGroupView),
> {
    groups.map_values(|g: (String, RegisterGroup)| (g.0@, g.1@))
}

/// What each of some named, written register groups is, in order.
pub open spec fn raw_group_views(groups: Seq<(String, RawRegisterGroup)>) -> Seq<
    (Seq<char>, RegisterGroupView),
> {
    groups.map_values(|g: (String, RawRegisterGroup)| (g.0@, g.1@))
}

/// The first group named `name` among `groups`, if any.
pub open spec fn group_named(groups: Seq<(Seq<char>, RegisterGroupView)>, name: Seq<char>)
    -> Option<RegisterGroupView>
    decreases groups.len(),
{
    if groups.len() == 0 {
        None
    } else if groups[0].0 == name {
        Some(groups[0].1)
    } else {
        group_named(groups.drop_first(), name)
    }
}

/// Whether no two groups have the same name, so that the list is a map from
/// names to groups.
pub open spec fn distinct_names(groups: Seq<(Seq<char>, RegisterGroupView)>) -> bool {
    forall|i: int, j: int|
        0 <= i < j < groups.len() ==> (#[trigger] groups[i]).0 != (#[trigger] groups[j]).0
}

/// The argument that a written argument stands for among `groups`, or
/// `None` when it names a register group that is not among them.
pub open spec fn resolved_argument(
    raw: RawArgumentView,
    groups: Seq<(Seq<char>, RegisterGroupView)>,
) -> Option<ArgumentView> {
    match raw {
        RawArgumentView::Register { group } => match group_named(groups, group) {
            Some(found) => Some(ArgumentView::Register { group: found }),
            None => None,
        },
        RawArgumentView::DataAddress { bits } => Some(ArgumentView::DataAddress { bits }),
        RawArgumentView::TextAddress { bits } => Some(ArgumentView::TextAddress { bits }),
        RawArgumentView::Padding { bits } => Some(ArgumentView::Padding { bits }),
        RawArgumentView::Immediate { bits } => Some(ArgumentView::Immediate { bits }),
    }
}

/// Finds the first group named `name`.
pub fn find_group<'a>(groups: &'a RegisterGroups, name: &str) -> (found: Option<
    &'a RegisterGroup,
>)
    ensures
        match group_named(group_views(groups@), name@) {
            Some(view) => found matches Some(group) && group@ == view,
            None => found is None,
        },
{
    let ghost views = group_views(groups@);
    let mut i: usize = 0;
    assert(views.skip(0) =~= views);
    while i < groups.len()
        invariant
            i <= groups@.len(),
            views == group_views(groups@),
            group_named(views, name@) == group_named(views.skip(i as int), name@),
        decreases groups@.len() - i,
    {
        proof {
            assert(views.skip(i as int)[0] == (groups@[i as int].0@, groups@[i as int].1@));
            assert(views.skip(i as int).drop_first() =~= views.skip(i + 1));
        }
        if same_text(groups[i].0.as_str(), name) {
            return Some(&groups[i].1);
        }
        i = i + 1;
    }
    None
}

impl ArgumentDefinition {
    /// The number of bits that the argument takes in an encoded command.
    pub fn size(&self) -> (size: u8)
        ensures
            size == self@.size(),
    {
        match self {
            ArgumentDefinition::Register { group } => group.length,
            ArgumentDefinition::DataAddress { bits } => *bits,
            ArgumentDefinition::TextAddress { bits } => *bits,
            ArgumentDefinition::Padding { bits } => *bits,
            ArgumentDefinition::Immediate { bits } => *bits,
        }
    }
}

impl TryFrom<(RawArgumentDefinition, RegisterGroups)> for ArgumentDefinition {
    type Error = &'static str;

    /// Resolves a written argument among the given register groups.
    fn try_from(raw: (RawArgumentDefinition, RegisterGroups)) -> (result: Result<
        Self,
        &'static str,
    >)
        ensures
            match resolved_argument(raw.0@, group_views(raw.1@)) {
                Some(view) => result matches Ok(argument) && argument@ == view,
                None => result matches Err(message) && message@ == "Register group not found"@,
            },
    {
        ArgumentDefinition::resolve(&raw.0, &raw.1)
    }
}

impl TryFromSpecImpl<(RawArgumentDefinition, RegisterGroups)> for ArgumentDefinition {
    open spec fn obeys_try_from_spec() -> bool {
        false
    }

    open spec fn try_from_spec(raw: (RawArgumentDefinition, RegisterGroups)) -> Result<
        Self,
        &'static str,
    > {
        arbitrary()
    }
}

impl ArgumentDefinition {
    /// Resolves a written argument among the given register groups.
    pub fn resolve(raw: &RawArgumentDefinition, groups: &RegisterGroups) -> (result:
        Result<Self, &'static str>)
        ensures
            match resolved_argument(raw@, group_views(groups@)) {
                Some(view) => result matches Ok(argument) && argument@ == view,
                None => result matches Err(message) && message@ == "Register group not found"@,
            },
    {
        match raw {
            RawArgumentDefinition::Register { group } => match find_group(groups, group.as_str()) {
                Some(found) => Ok(ArgumentDefinition::Register { group: found.clone() }),
                None => Err("Register group not found"),
            },
            RawArgumentDefinition::DataAddress { bits } => Ok(
                ArgumentDefinition::DataAddress { bits: *bits },
            ),
            RawArgumentDefinition::TextAddress { bits } => Ok(
                ArgumentDefinition::TextAddress { bits: *bits },
            ),
            RawArgumentDefinition::Padding { bits } => Ok(
                ArgumentDefinition::Padding { bits: *bits },
            ),
            RawArgumentDefinition::Immediate { bits } => Ok(
                ArgumentDefinition::Immediate { bits: *bits },
            ),
        }
    }
}

/// A command as it is written in a definition.
#[derive(Debug)]
pub struct RawCommandDefinition {
    pub mnemonic: String,
    pub opcode: u8,
    pub arguments: Vec<RawArgumentDefinition>,
}

/// What a written command is.
pub ghost struct RawCommandView {
    pub mnemonic: Seq<char>,
    pub opcode: u8,
    pub arguments: Seq<RawArgumentView>,
}

/// What each of some written arguments is, in order.
pub open spec fn raw_argument_views(arguments: Seq<RawArgumentDefinition>) -> Seq<RawArgumentView> {
    arguments.map_values(|a: RawArgumentDefinition| a@)
}

impl View for RawCommandDefinition {
    type V = RawCommandView;

    open spec fn view(&self) -> RawCommandView {
        RawCommandView {
            mnemonic: self.mnemonic@,
            opcode: self.opcode,
            arguments: raw_argument_views(self.arguments@),
        }
    }
}

/// A command: its name, its opcode, and its arguments in the order in which
/// they are encoded.
#[derive(Debug)]
pub struct CommandDefinition {
    pub mnemonic: String,
    pub opcode: u8,
    pub arguments: Vec<ArgumentDefinition>,
}

/// What a command is.
pub ghost struct CommandView {
    pub mnemonic: Seq<char>,
    pub opcode: u8,
    pub arguments: Seq<ArgumentView>,
}

/// What each of some arguments is, in order.
pub open spec fn argument_views(arguments: Seq<ArgumentDefinition>) -> Seq<ArgumentView> {
    arguments.map_values(|a: ArgumentDefinition| a@)
}

impl View for CommandDefinition {
    type V = CommandView;

    open spec fn view(&self) -> CommandView {
        CommandView {
            mnemonic: self.mnemonic@,
            opcode: self.opcode,
            arguments: argument_views(self.arguments@),
        }
    }
}

/// The number of bits that the first `count` arguments take together.
pub open spec fn arguments_bits(arguments: Seq<ArgumentView>, count: nat) -> nat
    decreases count,
{
    if count == 0 {
        0
    } else {
        arguments_bits(arguments, (count - 1) as nat) + arguments[count - 1].size() as nat
    }
}

/// Whether every written argument stands for an argument among `groups`.
pub open spec fn all_resolve(
    arguments: Seq<RawArgumentView>,
    groups: Seq<(Seq<char>, RegisterGroupView)>,
) -> bool {
    forall|i: int|
        0 <= i < arguments.len() ==> resolved_argument(#[trigger] arguments[i], groups) is Some
}

/// The command that a written command stands for among `groups`, or `None`
/// when one of its arguments names a register group that is not among them.
pub open spec fn resolved_command(
    raw: RawCommandView,
    groups: Seq<(Seq<char>, RegisterGroupView)>,
) -> Option<CommandView> {
    if all_resolve(raw.arguments, groups) {
        Some(
            CommandView {
                mnemonic: raw.mnemonic,
                opcode: raw.opcode,
                arguments: raw.arguments.map_values(
                    |a: RawArgumentView| resolved_argument(a, groups)->0,
                ),
            },
        )
    } else {
        None
    }
}

impl CommandView {
    /// The number of bits that the arguments take together.
    pub open spec fn arguments_size(self) -> nat {
        arguments_bits(self.arguments, self.arguments.len())
    }
}

impl CommandDefinition {
    /// The number of bits that the arguments take together.
    pub fn total_bits(&self) -> (bits: u128)
        ensures
            bits == self@.arguments_size(),
            bits <= 255 * usize::MAX,
    {
        let ghost views = self@.arguments;
        let mut bits: u128 = 0;
        let mut i: usize = 0;
        while i < self.arguments.len()
            invariant
                i <= self.arguments@.len(),
                views == argument_views(self.arguments@),
                bits == arguments_bits(views, i as nat),
                bits <= 255 * i,
            decreases self.arguments@.len() - i,
        {
            bits = bits + self.arguments[i].size() as u128;
            i = i + 1;
        }
        bits
    }

    /// The number of bits that the arguments take together, which is no
    /// more than 255.
    pub fn arguments_size(&self) -> (size: u8)
        requires
            self@.arguments_size() <= 255,
        ensures
            size == self@.arguments_size(),
    {
        self.total_bits() as u8
    }

    /// Resolves a written command among the given register groups.
    pub fn resolve(raw: RawCommandDefinition, groups: &RegisterGroups) -> (result:
        Result<Self, &'static str>)
        ensures
            match resolved_command(raw@, group_views(groups@)) {
                Some(view) => result matches Ok(command) && command@ == view,
                None => result matches Err(message) && message@ == "Register group not found"@,
            },
    {
        let ghost wanted = raw@.arguments;
        let ghost known = group_views(groups@);
        let mut arguments: Vec<ArgumentDefinition> = Vec::new();
        let mut i: usize = 0;
        while i < raw.arguments.len()
            invariant
                i <= raw.arguments@.len(),
                wanted == raw_argument_views(raw.arguments@),
                known == group_views(groups@),
                arguments@.len() == i,
                forall|k: int|
                    0 <= k < i ==> resolved_argument(#[trigger] wanted[k], known) == Some(
                        arguments@[k]@,
                    ),
            decreases raw.arguments@.len() - i,
        {
            match ArgumentDefinition::resolve(&raw.arguments[i], groups) {
                Ok(argument) => {
                    arguments.push(argument);
                },
                Err(message) => {
                    assert(resolved_argument(wanted[i as int], known) is None);
                    return Err(message);
                },
            }
            i = i + 1;
        }
        assert(argument_views(arguments@) =~= wanted.map_values(
            |a: RawArgumentView| resolved_argument(a, known)->0,
        ));
        Ok(CommandDefinition { mnemonic: raw.mnemonic, opcode: raw.opcode, arguments })
    }
}

impl TryFrom<(RawCommandDefinition, RegisterGroups)> for CommandDefinition {
    type Error = &'static str;

    /// Resolves a written command among the given register groups.
    fn try_from(raw: (RawCommandDefinition, RegisterGroups)) -> (result: Result<
        Self,
        &'static str,
    >)
        ensures
            match resolved_command(raw.0@, group_views(raw.1@)) {
                Some(view) => result matches Ok(command) && command@ == view,
                None => result matches Err(message) && message@ == "Register group not found"@,
            },
    {
        CommandDefinition::resolve(raw.0, &raw.1)
    }
}

impl TryFromSpecImpl<(RawCommandDefinition, RegisterGroups)> for CommandDefinition {
    open spec fn obeys_try_from_spec() -> bool {
        false
    }

    open spec fn try_from_spec(raw: (RawCommandDefinition, RegisterGroups)) -> Result<
        Self,
        &'static str,
    > {
        arbitrary()
    }
}

/// An instruction-set definition as it is written: sizes in bits, the
/// register groups by name, and the commands.
#[derive(Debug)]
pub struct RawDefinition {
    pub opcode_length: u8,
    pub opcode_offset: u8,
    pub text_byte_length: u8,
    pub data_byte_length: u8,
    pub text_address_size: u8,
    pub data_address_size: u8,
    pub register_groups: RawRegisterGroups,
    pub commands: Vec<RawCommandDefinition>,
}

/// What a written definition is.
pub ghost struct RawDefinitionView {
    pub opcode_length: u8,
    pub opcode_offset: u8,
    pub text_byte_length: u8,
    pub data_byte_length: u8,
    pub text_address_size: u8,
    pub data_address_size: u8,
    pub register_groups: Seq<(Seq<char>, RegisterGroupView)>,
    pub commands: Seq<RawCommandView>,
}

/// What each of some written commands is, in order.
pub open spec fn raw_command_views(commands: Seq<RawCommandDefinition>) -> Seq<RawCommandView> {
    commands.map_values(|c: RawCommandDefinition| c@)
}

impl View for RawDefinition {
    type V = RawDefinitionView;

    open spec fn view(&self) -> RawDefinitionView {
        RawDefinitionView {
            opcode_length: self.opcode_length,
            opcode_offset: self.opcode_offset,
            text_byte_length: self.text_byte_length,
            data_byte_length: self.data_byte_length,
            text_address_size: self.text_address_size,
            data_address_size: self.data_address_size,
            register_groups: raw_group_views(self.register_groups@),
            commands: raw_command_views(self.commands@),
        }
    }
}

/// A checked instruction-set definition: text and data addresses have one
/// size, every address argument has that size, no two commands share an
/// opcode, and every command fills whole text-bytes.
#[derive(Debug)]
pub struct Definition {
    pub opcode_length: u8,
    pub opcode_offset: u8,
    pub text_byte_length: u8,
    pub data_byte_length: u8,
    pub address_size: u8,
    pub register_groups: RegisterGroups,
    pub commands: Vec<CommandDefinition>,
}

/// What a definition is.
pub ghost struct DefinitionView {
    pub opcode_length: u8,
    pub opcode_offset: u8,
    pub text_byte_length: u8,
    pub data_byte_length: u8,
    pub address_size: u8,
    pub register_groups: Seq<(Seq<char>, RegisterGroupView)>,
    pub commands: Seq<CommandView>,
}

/// What each of some commands is, in order.
pub open spec fn command_views(commands: Seq<CommandDefinition>) -> Seq<CommandView> {
    commands.map_values(|c: CommandDefinition| c@)
}

impl View for Definition {
    type V = DefinitionView;

    open spec fn view(&self) -> DefinitionView {
        DefinitionView {
            opcode_length: self.opcode_length,
            opcode_offset: self.opcode_offset,
            text_byte_length: self.text_byte_length,
            data_byte_length: self.data_byte_length,
            address_size: self.address_size,
            register_groups: group_views(self.register_groups@),
            commands: command_views(self.commands@),
        }
    }
}

/// Why a written definition was turned down.
#[derive(Debug)]
pub enum DefinitionError {
    DifferingAddressSizes,
    RegisterGroupNotFound,
    DataAddressSizeMismatch,
    TextAddressSizeMismatch,
    DuplicateOpcode { opcode: u8, first: String, second: String },
    CommandSizeNotDivisible { mnemonic: String, bits: u128 },
}

/// What a definition error is.
pub ghost enum DefinitionErrorView {
    DifferingAddressSizes,
    RegisterGroupNotFound,
    DataAddressSizeMismatch,
    TextAddressSizeMismatch,
    DuplicateOpcode { opcode: u8, first: Seq<char>, second: Seq<char> },
    CommandSizeNotDivisible { mnemonic: Seq<char>, bits: nat },
}

impl View for DefinitionError {
    type V = DefinitionErrorView;

    open spec fn view(&self) -> DefinitionErrorView {
        match self {
            DefinitionError::DifferingAddressSizes => DefinitionErrorView::DifferingAddressSizes,
            DefinitionError::RegisterGroupNotFound => DefinitionErrorView::RegisterGroupNotFound,
            DefinitionError::DataAddressSizeMismatch => DefinitionErrorView::DataAddressSizeMismatch,
            DefinitionError::TextAddressSizeMismatch => DefinitionErrorView::TextAddressSizeMismatch,
            DefinitionError::DuplicateOpcode { opcode, first, second } => {
                DefinitionErrorView::DuplicateOpcode {
                    opcode: *opcode,
                    first: first@,
                    second: second@,
                }
            },
            DefinitionError::CommandSizeNotDivisible { mnemonic, bits } => {
                DefinitionErrorView::CommandSizeNotDivisible {
                    mnemonic: mnemonic@,
                    bits: *bits as nat,
                }
            },
        }
    }
}

impl DefinitionErrorView {
    /// The error in words.
    pub open spec fn message(self) -> Seq<char> {
        match self {
            DefinitionErrorView::DifferingAddressSizes => {
                "Differing text and data address sizes are not supported"@
            },
            DefinitionErrorView::RegisterGroupNotFound => "Register group not found"@,
            DefinitionErrorView::DataAddressSizeMismatch => "Data address size mismatch"@,
            DefinitionErrorView::TextAddressSizeMismatch => "Text address size mismatch"@,
            DefinitionErrorView::DuplicateOpcode { opcode, first, second } => {
                "Duplicate opcode: "@ + decimal(opcode as nat) + ", both for "@ + first + " and "@
                    + second
            },
            DefinitionErrorView::CommandSizeNotDivisible { mnemonic, bits } => {
                "Command size not divisible by text byte length: "@ + mnemonic + " ("@ + decimal(
                    bits,
                ) + " bits)"@
            },
        }
    }
}

impl DefinitionError {
    /// The error in words.
    pub fn message(&self) -> (text: String)
        ensures
            text@ == self@.message(),
    {
        match self {
            DefinitionError::DifferingAddressSizes => String::from_str(
                "Differing text and data address sizes are not supported",
            ),
            DefinitionError::RegisterGroupNotFound => String::from_str("Register group not found"),
            DefinitionError::DataAddressSizeMismatch => String::from_str(
                "Data address size mismatch",
            ),
            DefinitionError::TextAddressSizeMismatch => String::from_str(
                "Text address size mismatch",
            ),
            DefinitionError::DuplicateOpcode { opcode, first, second } => {
                let mut text = String::from_str("Duplicate opcode: ");
                push_decimal(&mut text, *opcode as u128);
                text.append(", both for ");
                text.append(first.as_str());
                text.append(" and ");
                text.append(second.as_str());
                text
            },
            DefinitionError::CommandSizeNotDivisible { mnemonic, bits } => {
                let mut text = String::from_str("Command size not divisible by text byte length: ");
                text.append(mnemonic.as_str());
                text.append(" (");
                push_decimal(&mut text, *bits);
                text.append(" bits)");
                text
            },
        }
    }
}

/// The error that an argument gives when it is an address of another size
/// than `size`.
pub open spec fn argument_mismatch(argument: ArgumentView, size: u8) -> Option<DefinitionErrorView> {
    match argument {
        ArgumentView::DataAddress { bits } => if bits != size {
            Some(DefinitionErrorView::DataAddressSizeMismatch)
        } else {
            None
        },
        ArgumentView::TextAddress { bits } => if bits != size {
            Some(DefinitionErrorView::TextAddressSizeMismatch)
        } else {
            None
        },
        _ => None,
    }
}

/// The error of the first argument that is an address of another size than
/// `size`.
pub open spec fn arguments_mismatch(arguments: Seq<ArgumentView>, size: u8) -> Option<
    DefinitionErrorView,
>
    decreases arguments.len(),
{
    if arguments.len() == 0 {
        None
    } else {
        match argument_mismatch(arguments[0], size) {
            Some(e) => Some(e),
            None => arguments_mismatch(arguments.drop_first(), size),
        }
    }
}

/// The error of the first command with an address argument of another size
/// than `size`.
pub open spec fn commands_mismatch(commands: Seq<CommandView>, size: u8) -> Option<
    DefinitionErrorView,
>
    decreases commands.len(),
{
    if commands.len() == 0 {
        None
    } else {
        match arguments_mismatch(commands[0].arguments, size) {
            Some(e) => Some(e),
            None => commands_mismatch(commands.drop_first(), size),
        }
    }
}

/// The name of the first command with opcode `opcode`, if any.
pub open spec fn mnemonic_of(commands: Seq<CommandView>, opcode: u8) -> Option<Seq<char>>
    decreases commands.len(),
{
    if commands.len() == 0 {
        None
    } else if commands[0].opcode == opcode {
        Some(commands[0].mnemonic)
    } else {
        mnemonic_of(commands.drop_first(), opcode)
    }
}

/// The error of the first among the first `count` commands whose opcode an
/// earlier command has: it names that opcode, the first command with it, and
/// the command itself.
pub open spec fn duplicate_opcode(commands: Seq<CommandView>, count: nat) -> Option<
    DefinitionErrorView,
>
    decreases count,
{
    if count == 0 {
        None
    } else {
        match duplicate_opcode(commands, (count - 1) as nat) {
            Some(e) => Some(e),
            None => match mnemonic_of(commands.take(count - 1), commands[count - 1].opcode) {
                Some(first) => Some(
                    DefinitionErrorView::DuplicateOpcode {
                        opcode: commands[count - 1].opcode,
                        first,
                        second: commands[count - 1].mnemonic,
                    },
                ),
                None => None,
            },
        }
    }
}

/// Whether `bits` bits fill whole text-bytes of `text_byte_length` bits.
pub open spec fn fills_text_bytes(bits: nat, text_byte_length: u8) -> bool {
    text_byte_length != 0 && bits % (text_byte_length as nat) == 0
}

/// The error of the first command whose opcode and arguments together do
/// not fill whole text-bytes: it names the command and its size in bits.
pub open spec fn indivisible_command(
    commands: Seq<CommandView>,
    opcode_length: u8,
    text_byte_length: u8,
) -> Option<DefinitionErrorView>
    decreases commands.len(),
{
    if commands.len() == 0 {
        None
    } else {
        let bits = opcode_length as nat + commands[0].arguments_size();
        if !fills_text_bytes(bits, text_byte_length) {
            Some(
                DefinitionErrorView::CommandSizeNotDivisible {
                    mnemonic: commands[0].mnemonic,
                    bits,
                },
            )
        } else {
            indivisible_command(commands.drop_first(), opcode_length, text_byte_length)
        }
    }
}

/// Whether every written command stands for a command among `groups`.
pub open spec fn all_commands_resolve(
    commands: Seq<RawCommandView>,
    groups: Seq<(Seq<char>, RegisterGroupView)>,
) -> bool {
    forall|i: int|
        0 <= i < commands.len() ==> resolved_command(#[trigger] commands[i], groups) is Some
}

impl RawDefinitionView {
    /// The commands that the written commands stand for.
    pub open spec fn resolved_commands(self) -> Seq<CommandView> {
        self.commands.map_values(
            |c: RawCommandView| resolved_command(c, self.register_groups)->0,
        )
    }

    /// What checking makes of the written definition. The checks come in
    /// this order, and the first that fails gives the error: the two address
    /// sizes are equal; every register argument names a known group; every
    /// address argument has the address size; no opcode occurs twice; every
    /// command fills whole text-bytes.
    pub open spec fn checked(self) -> Result<DefinitionView, DefinitionErrorView> {
        let commands = self.resolved_commands();
        if self.text_address_size != self.data_address_size {
            Err(DefinitionErrorView::DifferingAddressSizes)
        } else if !all_commands_resolve(self.commands, self.register_groups) {
            Err(DefinitionErrorView::RegisterGroupNotFound)
        } else if commands_mismatch(commands, self.text_address_size) is Some {
            Err(commands_mismatch(commands, self.text_address_size)->0)
        } else if duplicate_opcode(commands, commands.len()) is Some {
            Err(duplicate_opcode(commands, commands.len())->0)
        } else if indivisible_command(commands, self.opcode_length, self.text_byte_length) is Some {
            Err(indivisible_command(commands, self.opcode_length, self.text_byte_length)->0)
        } else {
            Ok(
                DefinitionView {
                    opcode_length: self.opcode_length,
                    opcode_offset: self.opcode_offset,
                    text_byte_length: self.text_byte_length,
                    data_byte_length: self.data_byte_length,
                    address_size: self.text_address_size,
                    register_groups: self.register_groups,
                    commands,
                },
            )
        }
    }
}

/// Finds the first argument that is an address of another size than `size`.
fn find_argument_mismatch(arguments: &Vec<ArgumentDefinition>, size: u8) -> (error: Option<
    DefinitionError,
>)
    ensures
        match arguments_mismatch(argument_views(arguments@), size) {
            Some(e) => error matches Some(found) && found@ == e,
            None => error is None,
        },
{
    let ghost views = argument_views(arguments@);
    let mut i: usize = 0;
    assert(views.skip(0) =~= views);
    while i < arguments.len()
        invariant
            i <= arguments@.len(),
            views == argument_views(arguments@),
            arguments_mismatch(views, size) == arguments_mismatch(views.skip(i as int), size),
        decreases arguments@.len() - i,
    {
        proof {
            assert(views.skip(i as int)[0] == arguments@[i as int]@);
            assert(views.skip(i as int).drop_first() =~= views.skip(i + 1));
        }
        match &arguments[i] {
            ArgumentDefinition::DataAddress { bits } => {
                if *bits != size {
                    return Some(DefinitionError::DataAddressSizeMismatch);
                }
            },
            ArgumentDefinition::TextAddress { bits } => {
                if *bits != size {
                    return Some(DefinitionError::TextAddressSizeMismatch);
                }
            },
            _ => {},
        }
        i = i + 1;
    }
    None
}

/// Finds the first command with an address argument of another size than
/// `size`.
fn find_commands_mismatch(commands: &Vec<CommandDefinition>, size: u8) -> (error: Option<
    DefinitionError,
>)
    ensures
        match commands_mismatch(command_views(commands@), size) {
            Some(e) => error matches Some(found) && found@ == e,
            None => error is None,
        },
{
    let ghost views = command_views(commands@);
    let mut i: usize = 0;
    assert(views.skip(0) =~= views);
    while i < commands.len()
        invariant
            i <= commands@.len(),
            views == command_views(commands@),
            commands_mismatch(views, size) == commands_mismatch(views.skip(i as int), size),
        decreases commands@.len() - i,
    {
        proof {
            assert(views.skip(i as int)[0] == commands@[i as int]@);
            assert(views.skip(i as int).drop_first() =~= views.skip(i + 1));
        }
        match find_argument_mismatch(&commands[i].arguments, size) {
            Some(e) => {
                return Some(e);
            },
            None => {},
        }
        i = i + 1;
    }
    None
}

/// Finds the first among the first `limit` commands that has `opcode`.
fn find_opcode(commands: &Vec<CommandDefinition>, limit: usize, opcode: u8) -> (found: Option<
    usize,
>)
    requires
        limit <= commands@.len(),
    ensures
        match mnemonic_of(command_views(commands@).take(limit as int), opcode) {
            Some(mnemonic) => found matches Some(i) && i < limit && commands@[i as int].mnemonic@
                == mnemonic,
            None => found is None,
        },
{
    let ghost views = command_views(commands@).take(limit as int);
    let mut i: usize = 0;
    assert(views.skip(0) =~= views);
    while i < limit
        invariant
            i <= limit,
            limit <= commands@.len(),
            views == command_views(commands@).take(limit as int),
            mnemonic_of(views, opcode) == mnemonic_of(views.skip(i as int), opcode),
        decreases limit - i,
    {
        proof {
            assert(views.skip(i as int)[0] == commands@[i as int]@);
            assert(views.skip(i as int).drop_first() =~= views.skip(i + 1));
        }
        if commands[i].opcode == opcode {
            return Some(i);
        }
        i = i + 1;
    }
    None
}

/// Finds the first command whose opcode an earlier command has.
fn find_duplicate_opcode(commands: &Vec<CommandDefinition>) -> (error: Option<DefinitionError>)
    ensures
        match duplicate_opcode(command_views(commands@), commands@.len()) {
            Some(e) => error matches Some(found) && found@ == e,
            None => error is None,
        },
{
    let ghost views = command_views(commands@);
    let mut j: usize = 0;
    while j < commands.len()
        invariant
            j <= commands@.len(),
            views == command_views(commands@),
            duplicate_opcode(views, j as nat) is None,
        decreases commands@.len() - j,
    {
        assert(views[j as int] == commands@[j as int]@);
        match find_opcode(commands, j, commands[j].opcode) {
            Some(i) => {
                proof {
                    duplicate_opcode_stays(views, (j + 1) as nat, views.len());
                }
                return Some(
                    DefinitionError::DuplicateOpcode {
                        opcode: commands[j].opcode,
                        first: commands[i].mnemonic.clone(),
                        second: commands[j].mnemonic.clone(),
                    },
                );
            },
            None => {},
        }
        j = j + 1;
    }
    None
}

/// A duplicate among the first commands is the duplicate of any longer run
/// of commands.
pub proof fn duplicate_opcode_stays(commands: Seq<CommandView>, found: nat, count: nat)
    requires
        found <= count,
        duplicate_opcode(commands, found) is Some,
    ensures
        duplicate_opcode(commands, count) == duplicate_opcode(commands, found),
    decreases count,
{
    if found < count {
        duplicate_opcode_stays(commands, found, (count - 1) as nat);
    }
}

/// Finds the first command whose opcode and arguments together do not fill
/// whole text-bytes.
fn find_indivisible_command(
    commands: &Vec<CommandDefinition>,
    opcode_length: u8,
    text_byte_length: u8,
) -> (error: Option<DefinitionError>)
    ensures
        match indivisible_command(command_views(commands@), opcode_length, text_byte_length) {
            Some(e) => error matches Some(found) && found@ == e,
            None => error is None,
        },
{
    let ghost views = command_views(commands@);
    let mut i: usize = 0;
    assert(views.skip(0) =~= views);
    while i < commands.len()
        invariant
            i <= commands@.len(),
            views == command_views(commands@),
            indivisible_command(views, opcode_length, text_byte_length) == indivisible_command(
                views.skip(i as int),
                opcode_length,
                text_byte_length,
            ),
        decreases commands@.len() - i,
    {
        proof {
            assert(views.skip(i as int)[0] == commands@[i as int]@);
            assert(views.skip(i as int).drop_first() =~= views.skip(i + 1));
        }
        let arguments = commands[i].total_bits();
        let bits: u128 = opcode_length as u128 + arguments;
        if text_byte_length == 0 || bits % (text_byte_length as u128) != 0 {
            return Some(
                DefinitionError::CommandSizeNotDivisible {
                    mnemonic: commands[i].mnemonic.clone(),
                    bits,
                },
            );
        }
        i = i + 1;
    }
    None
}

impl Definition {
    /// Checks a written definition and turns it into a definition, which is
    /// valid.
    pub fn check(raw: RawDefinition) -> (result: Result<Self, DefinitionError>)
        ensures
            match raw@.checked() {
                Ok(view) => result matches Ok(definition) && definition@ == view,
                Err(e) => result matches Err(error) && error@ == e,
            },
            result matches Ok(definition) ==> definition@.valid(),
    {
        proof {
            laws::checked_is_valid(raw@);
        }
        let ghost written = raw@;
        let ghost raw_groups = raw.register_groups@;
        let mut register_groups: RegisterGroups = Vec::new();
        for named in it: raw.register_groups
            invariant
                it.seq() == raw_groups,
                register_groups@.len() == it.index(),
                forall|k: int|
                    0 <= k < register_groups@.len() ==> (#[trigger] register_groups@[k]).0@
                        == raw_groups[k].0@ && register_groups@[k].1@ == raw_groups[k].1@,
        {
            let (name, group) = named;
            register_groups.push((name, RegisterGroup::from(group)));
        }
        assert(group_views(register_groups@) =~= written.register_groups);
        if raw.text_address_size != raw.data_address_size {
            return Err(DefinitionError::DifferingAddressSizes);
        }
        let ghost raw_commands = raw.commands@;
        let mut commands: Vec<CommandDefinition> = Vec::new();
        for command in it: raw.commands
            invariant
                it.seq() == raw_commands,
                written == raw@,
                written.text_address_size == written.data_address_size,
                written.commands == raw_command_views(raw_commands),
                written.register_groups == group_views(register_groups@),
                commands@.len() == it.index(),
                forall|k: int|
                    0 <= k < commands@.len() ==> resolved_command(
                        #[trigger] written.commands[k],
                        written.register_groups,
                    ) == Some(commands@[k]@),
        {
            match CommandDefinition::resolve(command, &register_groups) {
                Ok(resolved) => {
                    commands.push(resolved);
                },
                Err(_) => {
                    assert(resolved_command(
                        written.commands[it.index() as int],
                        written.register_groups,
                    ) is None);
                    return Err(DefinitionError::RegisterGroupNotFound);
                },
            }
        }
        assert(command_views(commands@) =~= written.resolved_commands());
        match find_commands_mismatch(&commands, raw.text_address_size) {
            Some(e) => {
                return Err(e);
            },
            None => {},
        }
        match find_duplicate_opcode(&commands) {
            Some(e) => {
                return Err(e);
            },
            None => {},
        }
        match find_indivisible_command(&commands, raw.opcode_length, raw.text_byte_length) {
            Some(e) => {
                return Err(e);
            },
            None => {},
        }
        Ok(
            Definition {
                opcode_length: raw.opcode_length,
                opcode_offset: raw.opcode_offset,
                text_byte_length: raw.text_byte_length,
                data_byte_length: raw.data_byte_length,
                address_size: raw.text_address_size,
                register_groups,
                commands,
            },
        )
    }
}

impl TryFrom<RawDefinition> for Definition {
    type Error = String;

    /// Checks a written definition and turns it into a definition, which is
    /// valid, or says in words why it was turned down.
    fn try_from(raw: RawDefinition) -> (result: Result<Self, String>)
        ensures
            match raw@.checked() {
                Ok(view) => result matches Ok(definition) && definition@ == view,
                Err(e) => result matches Err(message) && message@ == e.message(),
            },
            result matches Ok(definition) ==> definition@.valid(),
    {
        match Definition::check(raw) {
            Ok(definition) => Ok(definition),
            Err(e) => Err(e.message()),
        }
    }
}

impl TryFromSpecImpl<RawDefinition> for Definition {
    open spec fn obeys_try_from_spec() -> bool {
        false
    }

    open spec fn try_from_spec(raw: RawDefinition) -> Result<Self, String> {
        arbitrary()
    }
}

} // verus!
