use bitlink::definition::{
    find_group, ArgumentDefinition, CommandDefinition, Definition, DefinitionError,
    RawArgumentDefinition, RawCommandDefinition, RawDefinition, RawRegisterGroup, RegisterGroup,
};
use bitlink::strings::{clone_texts, push_decimal};

fn group(length: u8, registers: &[&str]) -> RawRegisterGroup {
    RawRegisterGroup { length, registers: registers.iter().map(|r| r.to_string()).collect() }
}

fn command(mnemonic: &str, opcode: u8, arguments: Vec<RawArgumentDefinition>) -> RawCommandDefinition {
    RawCommandDefinition { mnemonic: mnemonic.to_string(), opcode, arguments }
}

fn register(group: &str) -> RawArgumentDefinition {
    RawArgumentDefinition::Register { group: group.to_string() }
}

fn written(commands: Vec<RawCommandDefinition>) -> RawDefinition {
    RawDefinition {
        opcode_length: 4,
        opcode_offset: 0,
        text_byte_length: 6,
        data_byte_length: 8,
        text_address_size: 10,
        data_address_size: 10,
        register_groups: vec![
            ("general".to_string(), group(2, &["a", "b", "c", "d"])),
            ("index".to_string(), group(1, &["x", "y"])),
        ],
        commands,
    }
}

fn message_of(raw: RawDefinition) -> String {
    match Definition::try_from(raw) {
        Ok(definition) => panic!("{:?}", definition),
        Err(message) => message,
    }
}

#[test]
fn a_sound_definition_is_accepted() {
    let raw = written(vec![
        command("nop", 0, vec![RawArgumentDefinition::Padding { bits: 2 }]),
        command("load", 1, vec![register("general"), RawArgumentDefinition::DataAddress { bits: 10 }, register("general")]),
        command("jump", 2, vec![RawArgumentDefinition::TextAddress { bits: 10 }, RawArgumentDefinition::Immediate { bits: 4 }]),
        command("inc", 3, vec![register("index"), register("index")]),
    ]);
    let definition = Definition::try_from(raw).unwrap();
    assert_eq!(definition.opcode_length, 4);
    assert_eq!(definition.opcode_offset, 0);
    assert_eq!(definition.text_byte_length, 6);
    assert_eq!(definition.data_byte_length, 8);
    assert_eq!(definition.address_size, 10);
    assert_eq!(definition.register_groups.len(), 2);
    assert_eq!(definition.register_groups[0].0, "general");
    assert_eq!(definition.register_groups[1].1.registers, vec!["x", "y"]);
    assert_eq!(definition.commands.len(), 4);
    assert_eq!(definition.commands[1].mnemonic, "load");
    assert_eq!(definition.commands[1].opcode, 1);
    assert_eq!(definition.commands[1].arguments_size(), 14);
    assert_eq!(definition.commands[1].total_bits(), 14);
    match &definition.commands[1].arguments[0] {
        ArgumentDefinition::Register { group } => {
            assert_eq!(group.length, 2);
            assert_eq!(group.registers, vec!["a", "b", "c", "d"]);
        }
        other => panic!("{:?}", other),
    }
    assert_eq!(definition.commands[3].arguments_size(), 2);
    assert_eq!(definition.commands[0].arguments[0].size(), 2);
}

#[test]
fn a_definition_without_commands_is_accepted() {
    let mut raw = written(vec![]);
    raw.text_byte_length = 0;
    assert!(Definition::try_from(raw).is_ok());
}

#[test]
fn two_commands_with_one_opcode_are_rejected() {
    let raw = written(vec![
        command("add", 1, vec![RawArgumentDefinition::Padding { bits: 2 }]),
        command("sub", 1, vec![RawArgumentDefinition::Padding { bits: 2 }]),
    ]);
    assert_eq!(message_of(raw), "Duplicate opcode: 1, both for add and sub");
}

#[test]
fn duplicate_opcode_names_the_first_command_with_the_opcode_and_the_first_repeat() {
    let padded = |name: &str, opcode| command(name, opcode, vec![RawArgumentDefinition::Padding { bits: 2 }]);
    let raw = written(vec![
        padded("a", 200),
        padded("b", 7),
        padded("c", 9),
        padded("d", 7),
        padded("e", 200),
        padded("f", 7),
    ]);
    assert_eq!(message_of(raw), "Duplicate opcode: 7, both for b and d");
    match Definition::check(written(vec![padded("x", 255), padded("y", 255)])) {
        Err(DefinitionError::DuplicateOpcode { opcode, first, second }) => {
            assert_eq!((opcode, first.as_str(), second.as_str()), (255, "x", "y"));
        }
        other => panic!("{:?}", other),
    }
}

#[test]
fn a_command_of_13_bits_does_not_fill_text_bytes_of_6_bits() {
    let mut raw = written(vec![command("odd", 1, vec![RawArgumentDefinition::Immediate { bits: 8 }])]);
    raw.opcode_length = 5;
    assert_eq!(
        message_of(raw),
        "Command size not divisible by text byte length: odd (13 bits)"
    );
}

#[test]
fn the_first_command_that_does_not_fill_text_bytes_is_named() {
    let raw = written(vec![
        command("fine", 0, vec![RawArgumentDefinition::Padding { bits: 8 }]),
        command("bare", 1, vec![]),
        command("worse", 2, vec![RawArgumentDefinition::Padding { bits: 1 }]),
    ]);
    assert_eq!(
        message_of(raw),
        "Command size not divisible by text byte length: bare (4 bits)"
    );
}

#[test]
fn command_sizes_are_not_cut_down_to_eight_bits() {
    let wide = |bits| RawArgumentDefinition::Padding { bits };
    // 4 + 255 + 255 + 2 = 516 = 86 * 6
    let raw = written(vec![command("wide", 0, vec![wide(255), wide(255), wide(2)])]);
    let definition = Definition::try_from(raw).unwrap();
    assert_eq!(definition.commands[0].total_bits(), 512);
    let raw = written(vec![command("wide", 0, vec![wide(255), wide(255), wide(3)])]);
    assert_eq!(
        message_of(raw),
        "Command size not divisible by text byte length: wide (517 bits)"
    );
}

#[test]
fn text_bytes_of_no_bits_are_filled_by_no_command() {
    let mut raw = written(vec![command("nop", 0, vec![RawArgumentDefinition::Padding { bits: 2 }])]);
    raw.text_byte_length = 0;
    assert_eq!(
        message_of(raw),
        "Command size not divisible by text byte length: nop (6 bits)"
    );
}

#[test]
fn differing_address_sizes_are_rejected() {
    let mut raw = written(vec![]);
    raw.text_address_size = 10;
    raw.data_address_size = 12;
    assert_eq!(message_of(raw), "Differing text and data address sizes are not supported");
}

#[test]
fn differing_address_sizes_are_found_before_anything_else() {
    let mut raw = written(vec![
        command("a", 1, vec![register("nowhere")]),
        command("b", 1, vec![]),
    ]);
    raw.data_address_size = 11;
    match Definition::check(raw) {
        Err(DefinitionError::DifferingAddressSizes) => {}
        other => panic!("{:?}", other),
    }
}

#[test]
fn an_unknown_register_group_is_rejected() {
    let raw = written(vec![
        command("a", 1, vec![register("general"), RawArgumentDefinition::DataAddress { bits: 3 }]),
        command("b", 1, vec![register("genera")]),
    ]);
    assert_eq!(message_of(raw), "Register group not found");
}

#[test]
fn an_address_argument_of_another_size_is_rejected() {
    let data = written(vec![
        command("a", 1, vec![RawArgumentDefinition::TextAddress { bits: 10 }, RawArgumentDefinition::DataAddress { bits: 9 }]),
        command("b", 1, vec![RawArgumentDefinition::TextAddress { bits: 11 }]),
    ]);
    assert_eq!(message_of(data), "Data address size mismatch");
    let text = written(vec![
        command("a", 1, vec![RawArgumentDefinition::Immediate { bits: 9 }]),
        command("b", 1, vec![RawArgumentDefinition::TextAddress { bits: 11 }, RawArgumentDefinition::DataAddress { bits: 9 }]),
    ]);
    assert_eq!(message_of(text), "Text address size mismatch");
}

#[test]
fn every_error_has_its_words() {
    assert_eq!(
        DefinitionError::DifferingAddressSizes.message(),
        "Differing text and data address sizes are not supported"
    );
    assert_eq!(DefinitionError::RegisterGroupNotFound.message(), "Register group not found");
    assert_eq!(DefinitionError::DataAddressSizeMismatch.message(), "Data address size mismatch");
    assert_eq!(DefinitionError::TextAddressSizeMismatch.message(), "Text address size mismatch");
    let duplicate = DefinitionError::DuplicateOpcode {
        opcode: 0,
        first: "one".to_string(),
        second: "two".to_string(),
    };
    assert_eq!(duplicate.message(), "Duplicate opcode: 0, both for one and two");
    let size = DefinitionError::CommandSizeNotDivisible { mnemonic: "m".to_string(), bits: 1000 };
    assert_eq!(size.message(), "Command size not divisible by text byte length: m (1000 bits)");
}

#[test]
fn push_decimal_writes_decimal_digits() {
    for value in [0u128, 1, 9, 10, 11, 99, 100, 255, 256, 1000, 65536, 1234567890, u128::MAX] {
        let mut text = String::from("n=");
        push_decimal(&mut text, value);
        assert_eq!(text, format!("n={}", value));
    }
}

#[test]
fn arguments_have_the_size_of_their_bits_or_of_their_group() {
    let groups = vec![("g".to_string(), RegisterGroup::from(group(3, &["r0", "r1"])))];
    let sizes: Vec<u8> = vec![
        register("g"),
        RawArgumentDefinition::DataAddress { bits: 10 },
        RawArgumentDefinition::TextAddress { bits: 11 },
        RawArgumentDefinition::Padding { bits: 12 },
        RawArgumentDefinition::Immediate { bits: 255 },
    ]
    .into_iter()
    .map(|raw| ArgumentDefinition::try_from((raw, groups.clone())).unwrap().size())
    .collect();
    assert_eq!(sizes, vec![3, 10, 11, 12, 255]);
    let missing = ArgumentDefinition::try_from((register("h"), groups.clone()));
    assert_eq!(missing.err(), Some("Register group not found"));
    let missing = ArgumentDefinition::resolve(&register(""), &groups);
    assert_eq!(missing.err(), Some("Register group not found"));
}

#[test]
fn commands_are_resolved_argument_by_argument() {
    let groups = vec![
        ("g".to_string(), RegisterGroup::from(group(3, &["r0"]))),
        ("h".to_string(), RegisterGroup::from(group(5, &["s0"]))),
        ("g".to_string(), RegisterGroup::from(group(7, &["t0"]))),
    ];
    let raw = command("mix", 9, vec![register("h"), register("g"), RawArgumentDefinition::Padding { bits: 1 }]);
    let resolved = CommandDefinition::try_from((raw, groups.clone())).unwrap();
    assert_eq!(resolved.mnemonic, "mix");
    assert_eq!(resolved.opcode, 9);
    // the first group of a name is the one that is found
    assert_eq!(resolved.arguments_size(), 5 + 3 + 1);
    let empty = CommandDefinition::resolve(command("none", 1, vec![]), &groups).unwrap();
    assert_eq!(empty.arguments_size(), 0);
    let broken = CommandDefinition::try_from((command("b", 1, vec![register("g"), register("i")]), groups));
    assert_eq!(broken.err(), Some("Register group not found"));
}

#[test]
fn find_group_finds_the_first_group_of_a_name() {
    let groups = vec![
        ("a".to_string(), RegisterGroup::from(group(1, &[]))),
        ("b".to_string(), RegisterGroup::from(group(2, &[]))),
        ("a".to_string(), RegisterGroup::from(group(3, &[]))),
    ];
    assert_eq!(find_group(&groups, "a").map(|g| g.length), Some(1));
    assert_eq!(find_group(&groups, "b").map(|g| g.length), Some(2));
    assert!(find_group(&groups, "c").is_none());
    assert!(find_group(&vec![], "a").is_none());
}

#[test]
fn register_groups_are_copied_with_their_registers() {
    let source = RegisterGroup::from(group(4, &["r0", "r1", "r2"]));
    let copy = source.clone();
    assert_eq!(copy.length, 4);
    assert_eq!(copy.registers, vec!["r0", "r1", "r2"]);
    assert_eq!(clone_texts(&vec!["x".to_string(), "".to_string()]), vec!["x", ""]);
}
