use vilmos_assembler::color::Color;
use vilmos_assembler::instructions::{Instruction, CATALOG_SIZE};
use vilmos_assembler::params::Params;

#[test]
fn wrong_instruction() {
    assert!(Instruction::from_command("ciao").is_err())
}

#[test]
fn correct_normal_instruction() {
    assert_eq!(Instruction::And, Instruction::from_command("AND").unwrap().unwrap());
    assert_eq!(Instruction::Cycle, Instruction::from_command("CYCLE").unwrap().unwrap());
    assert_eq!(Instruction::Div, Instruction::from_command("DIV").unwrap().unwrap());
    assert_eq!(Instruction::Dup, Instruction::from_command("DUP").unwrap().unwrap());
    assert_eq!(Instruction::FileClose, Instruction::from_command("FILE_CLOSE").unwrap().unwrap());
    assert_eq!(Instruction::FileOpen, Instruction::from_command("FILE_OPEN").unwrap().unwrap());
    assert_eq!(Instruction::InputAscii, Instruction::from_command("INPUT_ASCII").unwrap().unwrap());
    assert_eq!(Instruction::InputInt, Instruction::from_command("INPUT_INT").unwrap().unwrap());
    assert_eq!(Instruction::Mod, Instruction::from_command("MOD").unwrap().unwrap());
    assert_eq!(Instruction::Mul, Instruction::from_command("MUL").unwrap().unwrap());
    assert_eq!(Instruction::Nand, Instruction::from_command("NAND").unwrap().unwrap());
    assert_eq!(Instruction::Not, Instruction::from_command("NOT").unwrap().unwrap());
    assert_eq!(Instruction::Or, Instruction::from_command("OR").unwrap().unwrap());
    assert_eq!(Instruction::Output, Instruction::from_command("OUTPUT").unwrap().unwrap());
    assert_eq!(Instruction::OutputAscii, Instruction::from_command("OUTPUT_ASCII").unwrap().unwrap());
    assert_eq!(Instruction::OutputInt, Instruction::from_command("OUTPUT_INT").unwrap().unwrap());
    assert_eq!(Instruction::Pop, Instruction::from_command("POP").unwrap().unwrap());
    assert_eq!(Instruction::Quit, Instruction::from_command("QUIT").unwrap().unwrap());
    assert_eq!(Instruction::Rcycle, Instruction::from_command("RCYCLE").unwrap().unwrap());
    assert_eq!(Instruction::Reverse, Instruction::from_command("REVERSE").unwrap().unwrap());
    assert!(Instruction::from_command("RND").is_err());
    assert_eq!(Instruction::Sub, Instruction::from_command("SUB").unwrap().unwrap());
    assert_eq!(Instruction::Sum, Instruction::from_command("SUM").unwrap().unwrap());
    assert_eq!(Instruction::Swap, Instruction::from_command("SWAP").unwrap().unwrap());
    assert_eq!(Instruction::While, Instruction::from_command("WHILE").unwrap().unwrap());
    assert_eq!(Instruction::WhileEnd, Instruction::from_command("WHILE_END").unwrap().unwrap());
    assert_eq!(Instruction::Xor, Instruction::from_command("XOR").unwrap().unwrap());
}

#[test]
fn correct_raw_int_instruction() {
    assert_eq!(Instruction::RawInt(0), Instruction::from_command("RAW_INT 0").unwrap().unwrap());
    assert_eq!(Instruction::RawInt(10), Instruction::from_command("RAW_INT \"10\"").unwrap().unwrap());
    assert_eq!(Instruction::RawInt(-1), Instruction::from_command("RAW_INT -1").unwrap().unwrap());
    assert_eq!(Instruction::RawInt(i32::MAX), Instruction::from_command("RAW_INT 2147483647").unwrap().unwrap());
    assert_eq!(Instruction::RawInt(i32::MIN), Instruction::from_command("RAW_INT -2147483648").unwrap().unwrap());
}

#[test]
fn empty_string() {
    assert!(Instruction::from_command("    ").unwrap().is_none());
    assert!(Instruction::from_command("").unwrap().is_none());
}

#[test]
fn raw_instruction_with_no_param() {
    assert!(Instruction::from_command("RAW_STRING").is_err());
    assert!(Instruction::from_command("RAW_INT").is_err());
}

#[test]
fn normal_instruction_with_param() {
    assert!(Instruction::from_command("SUM 0").is_err());
}

#[test]
fn instruction_with_param() {
    assert!(Instruction::from_command("RAW_STRING").is_err());
    assert!(Instruction::from_command("RAW_INT").is_err());
}

#[test]
fn instruction_raw_int_wrong_integer() {
    assert!(Instruction::from_command("RAW_INT x").is_err());
}

#[test]
fn instruction_two_params() {
    assert!(Instruction::from_command("RAW_STRING 0 1").is_err());
    assert!(Instruction::from_command("OUTPUT 0 1").is_err());
}

#[test]
fn instruction_escape_string() {
    match Instruction::from_command("RAW_STRING X\\n\\r\\t\\\"\\\\\0X").unwrap().unwrap() {
        Instruction::RawString(str) => {
            assert_eq!("X\n\r\t\"\\\0X", str);
        }
        _ => { panic!() }
    }
}

#[test]
fn instruction_quote_space_check() {
    match Instruction::from_command("RAW_STRING \"Hello world! \"").unwrap().unwrap() {
        Instruction::RawString(str) => {
            assert_eq!("Hello world! ", str);
        }
        _ => { panic!() }
    }
}

#[test]
fn invalid_unescape() {
    assert!(Instruction::from_command("RAW_STRING \\K").is_err());
    assert!(Instruction::from_command("RAW_STRING \\").is_err());
}

#[test]
fn not_ended_quote() {
    assert!(Instruction::from_command("RAW_STRING \"").is_err());
}

#[test]
fn instruction_comment_check() {
    assert_eq!(Instruction::Sub, Instruction::from_command("SUB #Comment").unwrap().unwrap());
    // `#` ends an unquoted token wherever it stands, so the comment starts
    // right behind the name.
    assert_eq!(Instruction::Sub, Instruction::from_command("SUB#Comment").unwrap().unwrap());
    assert_eq!(Instruction::RawString("X".parse().unwrap()), Instruction::from_command("RAW_STRING X #Comment").unwrap().unwrap())
}

fn get_default_map() -> Params {
    Params {
        custom_colors: Default::default(),
        pixel_size: 1,
        input_path: "".to_string(),
        output_path: "".to_string(),
        ini_path: None,
        max_width: 30,
        is_random: false,
    }
}

fn default_hex(instruction: &Instruction) -> Option<&'static str> {
    Some(match instruction {
        Instruction::Lshift => "2d6a7d",
        Instruction::RShift => "439dba",
        Instruction::InputInt => "ffffff",
        Instruction::OutputInt => "000001",
        Instruction::Sum => "00ced1",
        Instruction::Sub => "ffa500",
        Instruction::Div => "8a2be2",
        Instruction::Mul => "8b0000",
        Instruction::Mod => "ffdab9",
        Instruction::And => "ecf3dc",
        Instruction::Or => "b7c6e6",
        Instruction::Xor => "f5e3d7",
        Instruction::Nand => "e1d3ef",
        Instruction::Not => "ff9aa2",
        Instruction::InputAscii => "e3e3e3",
        Instruction::OutputAscii => "4b4b4b",
        Instruction::Pop => "cc9e06",
        Instruction::Swap => "ffbd4a",
        Instruction::Cycle => "e37f9d",
        Instruction::Rcycle => "e994ae",
        Instruction::Dup => "006994",
        Instruction::Reverse => "a5a58d",
        Instruction::Quit => "b7e4c7",
        Instruction::Output => "9B2242",
        Instruction::While => "2e1a47",
        Instruction::WhileEnd => "68478d",
        Instruction::FileOpen => "91f68b",
        Instruction::FileClose => "2fed23",
        _ => return None,
    })
}

#[test]
fn simple_parse() {
    let params = get_default_map();
    let mut seen = 0;
    for place in 0..CATALOG_SIZE {
        let instruction = Instruction::at(place);
        match instruction {
            Instruction::RawInt(_) | Instruction::RawString(_) | Instruction::RawColor(_, _, _) => continue,
            _ => {}
        }
        let inst = instruction.get_default_colors(&params).unwrap();
        let color = u32::from_str_radix(default_hex(&instruction).unwrap(), 16).unwrap();
        assert_eq!(vec![Color::from(color)], inst);
        seen += 1;
    }
    assert_eq!(28, seen);
}

#[test]
fn parse_instant_int() {
    let params = get_default_map();
    let instr = Instruction::RawInt(0).get_default_colors(&params).unwrap();
    assert_eq!(vec![Color::from(0)], instr);
    let instr = Instruction::RawInt(1).get_default_colors(&params).unwrap();
    assert_eq!(vec![Color::from(0x010000)], instr);
    let instr = Instruction::RawInt(750).get_default_colors(&params).unwrap();
    assert_eq!(vec![Color::from(0xfffff0)], instr);
}

#[test]
fn parse_ascii_string() {
    let params = get_default_map();
    let s = "TEEST".to_string();
    let output = vec![
        Color::not_random('\0' as i32),
        Color::not_random('T' as i32),
        Color::not_random('E' as i32),
        Instruction::Dup.get_default_colors(&params).unwrap()[0],
        Color::not_random('S' as i32),
        Color::not_random('T' as i32),
    ];
    assert_eq!(output, Instruction::RawString(s).get_default_colors(&params).unwrap());
}
