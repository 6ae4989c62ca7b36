//! The catalog of operations and the resolution of a source line to one of
//! them.

use vstd::prelude::*;
use crate::color::Color;
use crate::error::{CommandError, ResolutionError};
use crate::parser;
use crate::parser::tokenize;
use crate::text::{i32_of, parse_i32, parse_u8, str_eq, u8_of};

verus! {

/// Number of operations in the catalog.
pub const CATALOG_SIZE: usize = 31;

/// Number of operations without operands. They come first in the catalog, and
/// they are the ones that have a color of their own.
pub const PLAIN_COUNT: usize = 28;

/// The name of each operation as it is written in a source line, in catalog
/// order.
pub const NAMES: [&'static str; 31] = [
    "LSHIFT",
    "RSHIFT",
    "INPUT_INT",
    "OUTPUT_INT",
    "SUM",
    "SUB",
    "DIV",
    "MUL",
    "MOD",
    "AND",
    "OR",
    "XOR",
    "NAND",
    "NOT",
    "INPUT_ASCII",
    "OUTPUT_ASCII",
    "POP",
    "SWAP",
    "CYCLE",
    "RCYCLE",
    "DUP",
    "REVERSE",
    "QUIT",
    "OUTPUT",
    "WHILE",
    "WHILE_END",
    "FILE_OPEN",
    "FILE_CLOSE",
    "RAW_STRING",
    "RAW_INT",
    "RAW_COLOR",
];

/// The color, as a 24-bit identifier, that each operation without operands has
/// unless the configuration gives it another, in catalog order.
pub const DEFAULT_COLORS: [u32; 28] = [
    0x2d6a7d,
    0x439dba,
    0xffffff,
    0x000001,
    0x00ced1,
    0xffa500,
    0x8a2be2,
    0x8b0000,
    0xffdab9,
    0xecf3dc,
    0xb7c6e6,
    0xf5e3d7,
    0xe1d3ef,
    0xff9aa2,
    0xe3e3e3,
    0x4b4b4b,
    0xcc9e06,
    0xffbd4a,
    0xe37f9d,
    0xe994ae,
    0x006994,
    0xa5a58d,
    0xb7e4c7,
    0x9b2242,
    0x2e1a47,
    0x68478d,
    0x91f68b,
    0x2fed23,
];

/// One operation of the stack machine.
///
/// The first 28 carry nothing but their identity. The last three carry a
/// payload: a text, an integer, or a color given channel by channel.
#[derive(Clone, Debug, Hash, Eq, PartialEq)]
pub enum Instruction {
    Lshift,
    RShift,
    InputInt,
    OutputInt,
    Sum,
    Sub,
    Div,
    Mul,
    Mod,
    And,
    Or,
    Xor,
    Nand,
    Not,
    InputAscii,
    OutputAscii,
    Pop,
    Swap,
    Cycle,
    Rcycle,
    Dup,
    Reverse,
    Quit,
    Output,
    While,
    WhileEnd,
    FileOpen,
    FileClose,
    RawString(String),
    RawInt(i32),
    RawColor(u8, u8, u8),
}

/// An instruction as a value: the same operations, a text being the sequence
/// of its characters.
pub enum InstructionView {
    Lshift,
    RShift,
    InputInt,
    OutputInt,
    Sum,
    Sub,
    Div,
    Mul,
    Mod,
    And,
    Or,
    Xor,
    Nand,
    Not,
    InputAscii,
    OutputAscii,
    Pop,
    Swap,
    Cycle,
    Rcycle,
    Dup,
    Reverse,
    Quit,
    Output,
    While,
    WhileEnd,
    FileOpen,
    FileClose,
    RawString(Seq<char>),
    RawInt(i32),
    RawColor(u8, u8, u8),
}

impl View for Instruction {
    type V = InstructionView;

    open spec fn view(&self) -> InstructionView {
        match *self {
            Instruction::Lshift => InstructionView::Lshift,
            Instruction::RShift => InstructionView::RShift,
            Instruction::InputInt => InstructionView::InputInt,
            Instruction::OutputInt => InstructionView::OutputInt,
            Instruction::Sum => InstructionView::Sum,
            Instruction::Sub => InstructionView::Sub,
            Instruction::Div => InstructionView::Div,
            Instruction::Mul => InstructionView::Mul,
            Instruction::Mod => InstructionView::Mod,
            Instruction::And => InstructionView::And,
            Instruction::Or => InstructionView::Or,
            Instruction::Xor => InstructionView::Xor,
            Instruction::Nand => InstructionView::Nand,
            Instruction::Not => InstructionView::Not,
            Instruction::InputAscii => InstructionView::InputAscii,
            Instruction::OutputAscii => InstructionView::OutputAscii,
            Instruction::Pop => InstructionView::Pop,
            Instruction::Swap => InstructionView::Swap,
            Instruction::Cycle => InstructionView::Cycle,
            Instruction::Rcycle => InstructionView::Rcycle,
            Instruction::Dup => InstructionView::Dup,
            Instruction::Reverse => InstructionView::Reverse,
            Instruction::Quit => InstructionView::Quit,
            Instruction::Output => InstructionView::Output,
            Instruction::While => InstructionView::While,
            Instruction::WhileEnd => InstructionView::WhileEnd,
            Instruction::FileOpen => InstructionView::FileOpen,
            Instruction::FileClose => InstructionView::FileClose,
            Instruction::RawString(text) => InstructionView::RawString(text@),
            Instruction::RawInt(value) => InstructionView::RawInt(value),
            Instruction::RawColor(r, g, b) => InstructionView::RawColor(r, g, b),
        }
    }
}

impl InstructionView {
    /// Place of the operation in the catalog.
    pub open spec fn position(self) -> int {
        match self {
            InstructionView::Lshift => 0,
            InstructionView::RShift => 1,
            InstructionView::InputInt => 2,
            InstructionView::OutputInt => 3,
            InstructionView::Sum => 4,
            InstructionView::Sub => 5,
            InstructionView::Div => 6,
            InstructionView::Mul => 7,
            InstructionView::Mod => 8,
            InstructionView::And => 9,
            InstructionView::Or => 10,
            InstructionView::Xor => 11,
            InstructionView::Nand => 12,
            InstructionView::Not => 13,
            InstructionView::InputAscii => 14,
            InstructionView::OutputAscii => 15,
            InstructionView::Pop => 16,
            InstructionView::Swap => 17,
            InstructionView::Cycle => 18,
            InstructionView::Rcycle => 19,
            InstructionView::Dup => 20,
            InstructionView::Reverse => 21,
            InstructionView::Quit => 22,
            InstructionView::Output => 23,
            InstructionView::While => 24,
            InstructionView::WhileEnd => 25,
            InstructionView::FileOpen => 26,
            InstructionView::FileClose => 27,
            InstructionView::RawString(_) => 28,
            InstructionView::RawInt(_) => 29,
            InstructionView::RawColor(_, _, _) => 30,
        }
    }

    /// The operation at place `i` of the catalog; one with a payload carries
    /// the empty text, zero, or black.
    pub open spec fn at(i: int) -> InstructionView {
        if i == 0 {
            InstructionView::Lshift
        } else if i == 1 {
            InstructionView::RShift
        } else if i == 2 {
            InstructionView::InputInt
        } else if i == 3 {
            InstructionView::OutputInt
        } else if i == 4 {
            InstructionView::Sum
        } else if i == 5 {
            InstructionView::Sub
        } else if i == 6 {
            InstructionView::Div
        } else if i == 7 {
            InstructionView::Mul
        } else if i == 8 {
            InstructionView::Mod
        } else if i == 9 {
            InstructionView::And
        } else if i == 10 {
            InstructionView::Or
        } else if i == 11 {
            InstructionView::Xor
        } else if i == 12 {
            InstructionView::Nand
        } else if i == 13 {
            InstructionView::Not
        } else if i == 14 {
            InstructionView::InputAscii
        } else if i == 15 {
            InstructionView::OutputAscii
        } else if i == 16 {
            InstructionView::Pop
        } else if i == 17 {
            InstructionView::Swap
        } else if i == 18 {
            InstructionView::Cycle
        } else if i == 19 {
            InstructionView::Rcycle
        } else if i == 20 {
            InstructionView::Dup
        } else if i == 21 {
            InstructionView::Reverse
        } else if i == 22 {
            InstructionView::Quit
        } else if i == 23 {
            InstructionView::Output
        } else if i == 24 {
            InstructionView::While
        } else if i == 25 {
            InstructionView::WhileEnd
        } else if i == 26 {
            InstructionView::FileOpen
        } else if i == 27 {
            InstructionView::FileClose
        } else if i == 28 {
            InstructionView::RawString(Seq::empty())
        } else if i == 29 {
            InstructionView::RawInt(0)
        } else {
            InstructionView::RawColor(0, 0, 0)
        }
    }

    /// Whether the operation carries a payload, and so has no color of its own.
    pub open spec fn is_payload(self) -> bool {
        self.position() >= PLAIN_COUNT
    }

    /// The name of the operation in source text.
    pub open spec fn name(self) -> Seq<char> {
        NAMES[self.position()]@
    }

    /// Number of operands the operation takes in a source line.
    pub open spec fn param_count(self) -> int {
        match self {
            InstructionView::RawString(_) => 1,
            InstructionView::RawInt(_) => 1,
            InstructionView::RawColor(_, _, _) => 3,
            _ => 0,
        }
    }

    /// The 24-bit identifier of the color an operation without operands has by
    /// default.
    pub open spec fn default_packed(self) -> int
        recommends
            !self.is_payload(),
    {
        DEFAULT_COLORS[self.position()] as int
    }
}

impl Instruction {
    /// Place of the operation in the catalog.
    pub fn position(&self) -> (i: usize)
        ensures
            i == self@.position(),
            i < CATALOG_SIZE,
    {
        match self {
            Instruction::Lshift => 0,
            Instruction::RShift => 1,
            Instruction::InputInt => 2,
            Instruction::OutputInt => 3,
            Instruction::Sum => 4,
            Instruction::Sub => 5,
            Instruction::Div => 6,
            Instruction::Mul => 7,
            Instruction::Mod => 8,
            Instruction::And => 9,
            Instruction::Or => 10,
            Instruction::Xor => 11,
            Instruction::Nand => 12,
            Instruction::Not => 13,
            Instruction::InputAscii => 14,
            Instruction::OutputAscii => 15,
            Instruction::Pop => 16,
            Instruction::Swap => 17,
            Instruction::Cycle => 18,
            Instruction::Rcycle => 19,
            Instruction::Dup => 20,
            Instruction::Reverse => 21,
            Instruction::Quit => 22,
            Instruction::Output => 23,
            Instruction::While => 24,
            Instruction::WhileEnd => 25,
            Instruction::FileOpen => 26,
            Instruction::FileClose => 27,
            Instruction::RawString(_) => 28,
            Instruction::RawInt(_) => 29,
            Instruction::RawColor(_, _, _) => 30,
        }
    }

    /// The operation at place `i` of the catalog; one with a payload carries
    /// the empty text, zero, or black.
    pub fn at(i: usize) -> (op: Instruction)
        requires
            i < CATALOG_SIZE,
        ensures
            op@ == InstructionView::at(i as int),
            op@.position() == i,
    {
        if i == 0 {
            Instruction::Lshift
        } else if i == 1 {
            Instruction::RShift
        } else if i == 2 {
            Instruction::InputInt
        } else if i == 3 {
            Instruction::OutputInt
        } else if i == 4 {
            Instruction::Sum
        } else if i == 5 {
            Instruction::Sub
        } else if i == 6 {
            Instruction::Div
        } else if i == 7 {
            Instruction::Mul
        } else if i == 8 {
            Instruction::Mod
        } else if i == 9 {
            Instruction::And
        } else if i == 10 {
            Instruction::Or
        } else if i == 11 {
            Instruction::Xor
        } else if i == 12 {
            Instruction::Nand
        } else if i == 13 {
            Instruction::Not
        } else if i == 14 {
            Instruction::InputAscii
        } else if i == 15 {
            Instruction::OutputAscii
        } else if i == 16 {
            Instruction::Pop
        } else if i == 17 {
            Instruction::Swap
        } else if i == 18 {
            Instruction::Cycle
        } else if i == 19 {
            Instruction::Rcycle
        } else if i == 20 {
            Instruction::Dup
        } else if i == 21 {
            Instruction::Reverse
        } else if i == 22 {
            Instruction::Quit
        } else if i == 23 {
            Instruction::Output
        } else if i == 24 {
            Instruction::While
        } else if i == 25 {
            Instruction::WhileEnd
        } else if i == 26 {
            Instruction::FileOpen
        } else if i == 27 {
            Instruction::FileClose
        } else if i == 28 {
            Instruction::RawString(String::new())
        } else if i == 29 {
            Instruction::RawInt(0)
        } else {
            Instruction::RawColor(0, 0, 0)
        }
    }
}

/// Place in the catalog of the first operation from place `from` on that is
/// called `name`, or the size of the catalog where there is none.
pub open spec fn place_of(name: Seq<char>, from: int) -> int
    decreases CATALOG_SIZE - from,
{
    if from < 0 || from >= CATALOG_SIZE {
        CATALOG_SIZE as int
    } else if NAMES[from]@ == name {
        from
    } else {
        place_of(name, from + 1)
    }
}

/// The operation called `name`, exactly as written; one with a payload
/// carries the empty text, zero, or black.
pub open spec fn find(name: Seq<char>) -> Option<InstructionView> {
    let place = place_of(name, 0);
    if place < CATALOG_SIZE {
        Some(InstructionView::at(place))
    } else {
        None
    }
}

/// The instruction that the tokens of a line stand for; `None` where the line
/// has no tokens.
pub open spec fn resolve(tokens: Seq<Seq<char>>) -> Result<
    Option<InstructionView>,
    ResolutionError,
> {
    if tokens.len() == 0 {
        Ok(None)
    } else {
        match find(tokens[0]) {
            None => Err(ResolutionError::UnknownOpcode),
            Some(op) => if tokens.len() - 1 != op.param_count() {
                Err(ResolutionError::WrongOperandCount)
            } else {
                match op {
                    InstructionView::RawString(_) => Ok(Some(InstructionView::RawString(tokens[1]))),
                    InstructionView::RawInt(_) => match i32_of(tokens[1]) {
                        Some(value) => Ok(Some(InstructionView::RawInt(value))),
                        None => Err(ResolutionError::InvalidOperand),
                    },
                    InstructionView::RawColor(_, _, _) => match (
                        u8_of(tokens[1]),
                        u8_of(tokens[2]),
                        u8_of(tokens[3]),
                    ) {
                        (Some(r), Some(g), Some(b)) => Ok(Some(InstructionView::RawColor(r, g, b))),
                        _ => Err(ResolutionError::InvalidOperand),
                    },
                    _ => Ok(Some(op)),
                }
            },
        }
    }
}

/// The instruction that a source line stands for; `None` where the line is
/// blank or holds a comment only.
pub open spec fn command(line: Seq<char>) -> Result<Option<InstructionView>, CommandError> {
    match tokenize(line) {
        Err(e) => Err(CommandError::Syntax(e)),
        Ok(tokens) => match resolve(tokens) {
            Err(e) => Err(CommandError::Resolution(e)),
            Ok(found) => Ok(found),
        },
    }
}

impl Instruction {
    /// The name of the operation in source text.
    pub fn name(&self) -> (name: &'static str)
        ensures
            name@ == self@.name(),
    {
        NAMES[self.position()]
    }

    /// Looks an operation up by its name, which is matched exactly as
    /// written. An operation with a payload comes back carrying the empty
    /// text, zero, or black.
    pub fn find_name(name: &str) -> (found: Option<Instruction>)
        ensures
            match find(name@) {
                Some(op) => found matches Some(i) && i@ == op,
                None => found is None,
            },
    {
        let mut place: usize = 0;
        while place < CATALOG_SIZE
            invariant
                place <= CATALOG_SIZE,
                place_of(name@, 0) == place_of(name@, place as int),
            decreases CATALOG_SIZE - place,
        {
            if str_eq(name, NAMES[place]) {
                return Some(Instruction::at(place));
            }
            place = place + 1;
        }
        None
    }

    /// Number of operands the operation takes in a source line.
    pub fn get_param_count(&self) -> (count: u8)
        ensures
            count == self@.param_count(),
    {
        match self {
            Instruction::RawString(_) => 1,
            Instruction::RawInt(_) => 1,
            Instruction::RawColor(_, _, _) => 3,
            _ => 0,
        }
    }

    /// Reads one source line.
    ///
    /// The first token names the operation; the rest are its operands, of
    /// which an operation without payload takes none, `RAW_STRING` one text,
    /// `RAW_INT` one integer and `RAW_COLOR` three bytes. A line without
    /// tokens holds no instruction.
    pub fn from_command(command: &str) -> (r: Result<Option<Instruction>, CommandError>)
        ensures
            match self::command(command@) {
                Ok(Some(op)) => r matches Ok(Some(instruction)) && instruction@ == op,
                Ok(None) => r matches Ok(None),
                Err(e) => r matches Err(error) && error == e,
            },
    {
        let tokens = match parser::parse(command) {
            Err(e) => {
                return Err(CommandError::Syntax(e));
            },
            Ok(tokens) => tokens,
        };
        if tokens.len() == 0 {
            return Ok(None);
        }
        assert(forall|i: int| 0 <= i < tokens.len() ==> tokens[i]@ == #[trigger] tokens.deep_view()[i]);
        let instruction = match Instruction::find_name(tokens[0].as_str()) {
            None => {
                return Err(CommandError::Resolution(ResolutionError::UnknownOpcode));
            },
            Some(instruction) => instruction,
        };
        if tokens.len() - 1 != instruction.get_param_count() as usize {
            return Err(CommandError::Resolution(ResolutionError::WrongOperandCount));
        }
        match instruction {
            Instruction::RawString(_) => Ok(Some(Instruction::RawString(tokens[1].clone()))),
            Instruction::RawInt(_) => match parse_i32(tokens[1].as_str()) {
                Some(value) => Ok(Some(Instruction::RawInt(value))),
                None => Err(CommandError::Resolution(ResolutionError::InvalidOperand)),
            },
            Instruction::RawColor(_, _, _) => {
                let r = parse_u8(tokens[1].as_str());
                let g = parse_u8(tokens[2].as_str());
                let b = parse_u8(tokens[3].as_str());
                match (r, g, b) {
                    (Some(r), Some(g), Some(b)) => Ok(Some(Instruction::RawColor(r, g, b))),
                    _ => Err(CommandError::Resolution(ResolutionError::InvalidOperand)),
                }
            },
            _ => Ok(Some(instruction)),
        }
    }
}

/// What the names of the catalog are made of: each is known character by
/// character.
proof fn lemma_names()
    ensures
        forall|i: int, j: int| 0 <= i < j < CATALOG_SIZE ==> NAMES[i]@ != NAMES[j]@,
{
    reveal_strlit("LSHIFT");
    reveal_strlit("RSHIFT");
    reveal_strlit("INPUT_INT");
    reveal_strlit("OUTPUT_INT");
    reveal_strlit("SUM");
    reveal_strlit("SUB");
    reveal_strlit("DIV");
    reveal_strlit("MUL");
    reveal_strlit("MOD");
    reveal_strlit("AND");
    reveal_strlit("OR");
    reveal_strlit("XOR");
    reveal_strlit("NAND");
    reveal_strlit("NOT");
    reveal_strlit("INPUT_ASCII");
    reveal_strlit("OUTPUT_ASCII");
    reveal_strlit("POP");
    reveal_strlit("SWAP");
    reveal_strlit("CYCLE");
    reveal_strlit("RCYCLE");
    reveal_strlit("DUP");
    reveal_strlit("REVERSE");
    reveal_strlit("QUIT");
    reveal_strlit("OUTPUT");
    reveal_strlit("WHILE");
    reveal_strlit("WHILE_END");
    reveal_strlit("FILE_OPEN");
    reveal_strlit("FILE_CLOSE");
    reveal_strlit("RAW_STRING");
    reveal_strlit("RAW_INT");
    reveal_strlit("RAW_COLOR");
    assert forall|i: int, j: int| 0 <= i < j < CATALOG_SIZE implies NAMES[i]@ != NAMES[j]@ by {
        let a = NAMES[i]@;
        let b = NAMES[j]@;
        if a.len() == b.len() {
            assert(a[0] != b[0] || a[1] != b[1] || a[2] != b[2] || a[a.len() - 1] != b[b.len() - 1]
                || a[a.len() - 3] != b[b.len() - 3]);
        }
    }
}

/// No name is found before its own place in the catalog.
proof fn lemma_place_of(name: Seq<char>, place: int, from: int)
    requires
        0 <= from <= place < CATALOG_SIZE,
        NAMES[place]@ == name,
        forall|i: int| from <= i < place ==> NAMES[i]@ != name,
    ensures
        place_of(name, from) == place,
    decreases place - from,
{
    if from < place {
        lemma_place_of(name, place, from + 1);
    }
}

/// Every operation is found under its own name: looking up the name of an
/// operation gives the operation at its place in the catalog, which for an
/// operation without payload is the operation itself. The default color of
/// such an operation is a 24-bit identifier, and the color made from it has
/// that identifier.
pub proof fn lemma_catalog_round_trip(op: InstructionView)
    ensures
        find(op.name()) == Some(InstructionView::at(op.position())),
        !op.is_payload() ==> find(op.name()) == Some(op),
        !op.is_payload() ==> 0 <= op.default_packed() <= 0xFF_FFFF,
        !op.is_payload() ==> Color::unpack(op.default_packed()).packed() == op.default_packed(),
{
    lemma_names();
    lemma_place_of(op.name(), op.position(), 0);
}

} // verus!
