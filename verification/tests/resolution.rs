use vilmos_assembler::error::{CommandError, ResolutionError, SyntaxError};
use vilmos_assembler::instructions::Instruction;

fn refused(line: &str) -> CommandError {
    Instruction::from_command(line).unwrap_err()
}

#[test]
fn unknown_names_are_reported() {
    assert_eq!(CommandError::Resolution(ResolutionError::UnknownOpcode), refused("ciao"));
    assert_eq!(CommandError::Resolution(ResolutionError::UnknownOpcode), refused("sum"));
    assert_eq!(CommandError::Resolution(ResolutionError::UnknownOpcode), refused("RND"));
    assert_eq!(CommandError::Resolution(ResolutionError::UnknownOpcode), refused("R_SHIFT"));
    assert_eq!(CommandError::Resolution(ResolutionError::UnknownOpcode), refused("\"\""));
}

#[test]
fn operand_counts_are_checked() {
    assert_eq!(CommandError::Resolution(ResolutionError::WrongOperandCount), refused("SUM 0"));
    assert_eq!(CommandError::Resolution(ResolutionError::WrongOperandCount), refused("RAW_INT"));
    assert_eq!(CommandError::Resolution(ResolutionError::WrongOperandCount), refused("RAW_INT 1 2"));
    assert_eq!(CommandError::Resolution(ResolutionError::WrongOperandCount), refused("RAW_STRING"));
    assert_eq!(CommandError::Resolution(ResolutionError::WrongOperandCount), refused("RAW_COLOR 1 2"));
    assert_eq!(CommandError::Resolution(ResolutionError::WrongOperandCount), refused("RAW_COLOR 1 2 3 4"));
}

#[test]
fn operands_must_be_numbers_that_fit() {
    assert_eq!(CommandError::Resolution(ResolutionError::InvalidOperand), refused("RAW_INT x"));
    assert_eq!(CommandError::Resolution(ResolutionError::InvalidOperand), refused("RAW_INT 2147483648"));
    assert_eq!(CommandError::Resolution(ResolutionError::InvalidOperand), refused("RAW_INT \"\""));
    assert_eq!(CommandError::Resolution(ResolutionError::InvalidOperand), refused("RAW_COLOR 1 2 256"));
    assert_eq!(CommandError::Resolution(ResolutionError::InvalidOperand), refused("RAW_COLOR -1 2 3"));
    assert_eq!(CommandError::Resolution(ResolutionError::InvalidOperand), refused("RAW_COLOR a 2 3"));
    assert_eq!(CommandError::Resolution(ResolutionError::InvalidOperand), refused("RAW_COLOR ++1 2 3"));
    assert_eq!(CommandError::Resolution(ResolutionError::InvalidOperand), refused("RAW_COLOR + 2 3"));
    assert_eq!(CommandError::Resolution(ResolutionError::InvalidOperand), refused("RAW_INT +1"));
}

#[test]
fn syntax_errors_come_first() {
    assert_eq!(CommandError::Syntax(SyntaxError::UnterminatedQuote), refused("ciao \"x"));
    assert_eq!(CommandError::Syntax(SyntaxError::InvalidEscapeSequence), refused("SUM \\z"));
}

#[test]
fn raw_color_takes_three_bytes() {
    assert_eq!(Some(Instruction::RawColor(0, 128, 255)), Instruction::from_command("RAW_COLOR 0 128 255").unwrap());
    assert_eq!(Some(Instruction::RawColor(1, 2, 3)), Instruction::from_command("  RAW_COLOR \"1\" +2 003 # c").unwrap());
}

#[test]
fn raw_string_takes_its_operand_as_it_is() {
    assert_eq!(Some(Instruction::RawString("".to_string())), Instruction::from_command("RAW_STRING \"\"").unwrap());
    assert_eq!(Some(Instruction::RawString("12".to_string())), Instruction::from_command("RAW_STRING 12").unwrap());
    assert_eq!(Some(Instruction::RawString("SUM".to_string())), Instruction::from_command("RAW_STRING SUM").unwrap());
}

#[test]
fn shifts_are_named_alike() {
    assert_eq!(Some(Instruction::Lshift), Instruction::from_command("LSHIFT").unwrap());
    assert_eq!(Some(Instruction::RShift), Instruction::from_command("RSHIFT").unwrap());
}

#[test]
fn lines_without_tokens_hold_no_instruction() {
    assert_eq!(None, Instruction::from_command("# RAW_INT x").unwrap());
    assert_eq!(None, Instruction::from_command("\t").unwrap());
}
