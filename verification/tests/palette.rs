use vilmos_assembler::color::Color;
use vilmos_assembler::error::ConfigError;
use vilmos_assembler::instructions::{Instruction, DEFAULT_COLORS, PLAIN_COUNT};
use vilmos_assembler::params::{Palette, Params};

fn settings() -> Params {
    Params {
        custom_colors: Default::default(),
        pixel_size: 3,
        input_path: "in".to_string(),
        output_path: "out".to_string(),
        ini_path: Some("conf".to_string()),
        max_width: 7,
        is_random: false,
    }
}

fn entry(name: &str, value: &str) -> (String, Option<String>) {
    (name.to_string(), Some(value.to_string()))
}

#[test]
fn new_palette_gives_no_color() {
    let palette = Palette::new();
    assert_eq!(None, palette.get(&Instruction::Sum));
    assert!(palette.values().is_empty());
    assert_eq!(Color::from(0x00ced1u32), palette.color_of(&Instruction::Sum));
}

#[test]
fn insert_gives_and_replaces() {
    let mut palette = Palette::new();
    assert!(palette.insert(&Instruction::Quit, Color::new(1, 2, 3)));
    assert_eq!(Some(Color::new(1, 2, 3)), palette.get(&Instruction::Quit));
    assert_eq!(None, palette.get(&Instruction::Sum));
    assert!(palette.insert(&Instruction::Quit, Color::new(4, 5, 6)));
    assert_eq!(Some(Color::new(4, 5, 6)), palette.get(&Instruction::Quit));
    assert_eq!(vec![Color::new(4, 5, 6)], palette.values());
    assert_eq!(Color::new(4, 5, 6), palette.color_of(&Instruction::Quit));
}

#[test]
fn payload_takes_no_color() {
    let mut palette = Palette::new();
    assert!(!palette.insert(&Instruction::RawInt(3), Color::new(1, 2, 3)));
    assert!(!palette.insert(&Instruction::RawString("x".to_string()), Color::new(1, 2, 3)));
    assert!(!palette.insert(&Instruction::RawColor(1, 2, 3), Color::new(1, 2, 3)));
    assert!(palette.values().is_empty());
    assert_eq!(None, palette.get(&Instruction::RawInt(3)));
}

#[test]
fn two_operations_may_share_a_color() {
    let mut palette = Palette::new();
    palette.insert(&Instruction::Sum, Color::new(9, 9, 9));
    palette.insert(&Instruction::Sub, Color::new(9, 9, 9));
    assert_eq!(vec![Color::new(9, 9, 9), Color::new(9, 9, 9)], palette.values());
}

#[test]
fn defaults_cover_every_plain_operation() {
    let palette = Palette::defaults();
    assert_eq!(PLAIN_COUNT, palette.values().len());
    for place in 0..PLAIN_COUNT {
        let op = Instruction::at(place);
        assert_eq!(Some(Color::from(DEFAULT_COLORS[place])), palette.get(&op));
    }
    assert_eq!(None, palette.get(&Instruction::RawColor(0, 0, 0)));
}

#[test]
fn read_colors_without_entries_sets_the_defaults() {
    let mut conf = settings();
    conf.custom_colors.insert(&Instruction::Sum, Color::new(1, 1, 1));
    assert_eq!(Ok(()), conf.read_colors(&vec![]));
    assert_eq!(Some(Color::from(0x00ced1u32)), conf.custom_colors.get(&Instruction::Sum));
    assert_eq!(Some(Color::from(0x2fed23u32)), conf.custom_colors.get(&Instruction::FileClose));
    assert_eq!(28, conf.custom_colors.values().len());
    assert_eq!(3, conf.pixel_size);
    assert_eq!(7, conf.max_width);
    assert_eq!("in", conf.input_path);
    assert_eq!(Some("conf".to_string()), conf.ini_path);
}

#[test]
fn names_are_matched_in_any_case() {
    let mut conf = settings();
    let entries = vec![entry("sum", "010203"), entry("While_End", "0a0b0c"), entry("QUIT", "fff")];
    assert_eq!(Ok(()), conf.read_colors(&entries));
    assert_eq!(Some(Color::new(1, 2, 3)), conf.custom_colors.get(&Instruction::Sum));
    assert_eq!(Some(Color::new(10, 11, 12)), conf.custom_colors.get(&Instruction::WhileEnd));
    assert_eq!(Some(Color::new(255, 255, 255)), conf.custom_colors.get(&Instruction::Quit));
    assert_eq!(Some(Color::from(0xffa500u32)), conf.custom_colors.get(&Instruction::Sub));
}

#[test]
fn short_color_is_accepted_in_the_configuration() {
    let mut conf = settings();
    assert_eq!(Ok(()), conf.read_colors(&vec![entry("dup", "abc")]));
    assert_eq!(Some(Color::new(0xaa, 0xbb, 0xcc)), conf.custom_colors.get(&Instruction::Dup));
}

#[test]
fn payload_names_are_refused() {
    for name in ["RAW_INT", "raw_int", "RAW_STRING", "Raw_Color"] {
        let mut conf = settings();
        assert_eq!(Err(ConfigError::PayloadOverride), conf.read_colors(&vec![entry(name, "abc")]));
    }
}

#[test]
fn unknown_names_are_refused() {
    for name in ["", "SUMM", "RAWX", "R_SHIFT", "SUM "] {
        let mut conf = settings();
        assert_eq!(Err(ConfigError::UnknownOpcode), conf.read_colors(&vec![entry(name, "abc")]));
    }
}

#[test]
fn malformed_colors_are_refused() {
    for value in ["ab", "abcd", "ggg", "#ffffff", "1234567"] {
        let mut conf = settings();
        assert_eq!(Err(ConfigError::MalformedColor), conf.read_colors(&vec![entry("sum", value)]));
    }
}

#[test]
fn the_name_is_judged_before_the_color() {
    let mut conf = settings();
    assert_eq!(Err(ConfigError::UnknownOpcode), conf.read_colors(&vec![entry("nope", "zz")]));
    assert_eq!(Err(ConfigError::PayloadOverride), conf.read_colors(&vec![entry("raw_int", "zz")]));
}

#[test]
fn entries_without_value_are_skipped() {
    let mut conf = settings();
    let entries = vec![
        ("raw_int".to_string(), None),
        ("no such thing".to_string(), Some("".to_string())),
        entry("sub", "123"),
    ];
    assert_eq!(Ok(()), conf.read_colors(&entries));
    assert_eq!(Some(Color::new(0x11, 0x22, 0x33)), conf.custom_colors.get(&Instruction::Sub));
}

#[test]
fn a_refused_entry_changes_nothing() {
    let mut conf = settings();
    conf.custom_colors.insert(&Instruction::Sum, Color::new(1, 1, 1));
    let entries = vec![entry("sub", "123"), entry("bad", "123"), entry("raw_int", "123")];
    assert_eq!(Err(ConfigError::UnknownOpcode), conf.read_colors(&entries));
    assert_eq!(Some(Color::new(1, 1, 1)), conf.custom_colors.get(&Instruction::Sum));
    assert_eq!(None, conf.custom_colors.get(&Instruction::Sub));
}

#[test]
fn the_last_entry_for_an_operation_wins() {
    let mut conf = settings();
    let entries = vec![entry("sub", "111"), entry("SUB", "222222")];
    assert_eq!(Ok(()), conf.read_colors(&entries));
    assert_eq!(Some(Color::new(0x22, 0x22, 0x22)), conf.custom_colors.get(&Instruction::Sub));
}

#[test]
fn set_color_takes_the_name_as_written() {
    let mut palette = Palette::new();
    assert_eq!(Ok(()), palette.set_color("SUM", "010203"));
    assert_eq!(Some(Color::new(1, 2, 3)), palette.get(&Instruction::Sum));
    assert_eq!(Err(ConfigError::UnknownOpcode), palette.set_color("sum", "010203"));
    assert_eq!(Err(ConfigError::PayloadOverride), palette.set_color("RAW_COLOR", "010203"));
    assert_eq!(Err(ConfigError::MalformedColor), palette.set_color("SUM", "01020"));
    assert_eq!(Some(Color::new(1, 2, 3)), palette.get(&Instruction::Sum));
}

#[test]
fn get_color_prefers_the_palette() {
    let mut conf = settings();
    assert_eq!(vec![Color::from(0xffa500u32)], conf.get_color(Instruction::Sub).unwrap());
    conf.custom_colors.insert(&Instruction::Sub, Color::new(1, 2, 3));
    assert_eq!(vec![Color::new(1, 2, 3)], conf.get_color(Instruction::Sub).unwrap());
    assert_eq!(vec![Color::from(0xffa500u32)], Instruction::Sub.get_default_colors(&conf).unwrap());
    assert_eq!(vec![Color::new(7, 8, 9)], conf.get_color(Instruction::RawColor(7, 8, 9)).unwrap());
    assert_eq!(vec![Color::new(5, 0, 0)], conf.get_color(Instruction::RawInt(5)).unwrap());
}

#[test]
fn every_plain_name_resolves_to_its_operation() {
    for place in 0..PLAIN_COUNT {
        let op = Instruction::at(place);
        assert_eq!(place, op.position());
        assert_eq!(Some(op.clone()), Instruction::find_name(op.name()));
        assert!(DEFAULT_COLORS[place] <= 0xFF_FFFF);
        assert_eq!(DEFAULT_COLORS[place], Color::from(DEFAULT_COLORS[place]).to_packed());
        assert_eq!(0, op.get_param_count());
    }
}

#[test]
fn payload_names_resolve_to_blank_payloads() {
    assert_eq!(Some(Instruction::RawString(String::new())), Instruction::find_name("RAW_STRING"));
    assert_eq!(Some(Instruction::RawInt(0)), Instruction::find_name("RAW_INT"));
    assert_eq!(Some(Instruction::RawColor(0, 0, 0)), Instruction::find_name("RAW_COLOR"));
    assert_eq!(None, Instruction::find_name("raw_int"));
    assert_eq!(None, Instruction::find_name(""));
    assert_eq!(1, Instruction::RawString("x".to_string()).get_param_count());
    assert_eq!(1, Instruction::RawInt(9).get_param_count());
    assert_eq!(3, Instruction::RawColor(1, 2, 3).get_param_count());
    assert_eq!("RSHIFT", Instruction::RShift.name());
    assert_eq!("LSHIFT", Instruction::Lshift.name());
}
