//! From source lines to the pixels of the program, and from the pixels to the
//! bytes of a raster.

use vstd::prelude::*;
use crate::color::{Color, COLOR_COMPONENTS};
use crate::encoder::{drawing_free, drawing_sure, fixed_pixels, is_pixels, MAX_DETOURS};
use crate::error::{AllocationError, CommandError};
use crate::instructions::{command, Instruction, InstructionView};
use crate::params::{color_in, Params};

verus! {

/// Widest image, in raster pixels, where the settings name no width.
pub const MAX_IMAGE_WIDTH: u32 = 1_000_000u32;

/// Why a line was not compiled.
#[derive(Debug, Copy, Clone, PartialEq, Eq, Hash, Structural)]
pub enum CompileError {
    /// The line stands for no instruction.
    Command(CommandError),
    /// No pixels were found for the literal of the line.
    Allocation(AllocationError),
}

/// The line at which compiling stopped, counted from 0, and why.
#[derive(Debug, Copy, Clone, PartialEq, Eq, Hash, Structural)]
pub struct AssemblyError {
    pub line: usize,
    pub error: CompileError,
}

/// The pixels of one line where nothing is left to chance; a line without
/// instruction has none.
pub open spec fn fixed_line(line: Seq<char>, palette: Map<InstructionView, Color>) -> Result<
    Seq<Color>,
    CompileError,
> {
    match command(line) {
        Err(e) => Err(CompileError::Command(e)),
        Ok(None) => Ok(Seq::empty()),
        Ok(Some(op)) => match fixed_pixels(op, palette, MAX_DETOURS as nat) {
            Err(e) => Err(CompileError::Allocation(e)),
            Ok(pixels) => Ok(pixels),
        },
    }
}

/// Whether `pixels` stand for the line, with at most `depth` nested detours
/// for any magnitude.
pub open spec fn is_line(
    pixels: Seq<Color>,
    line: Seq<char>,
    palette: Map<InstructionView, Color>,
    depth: nat,
) -> bool {
    match command(line) {
        Err(_) => false,
        Ok(None) => pixels.len() == 0,
        Ok(Some(op)) => is_pixels(pixels, op, palette, depth),
    }
}

/// Whether the line holds a text or an integer, whose pixels may be left to
/// chance.
pub open spec fn has_literal(line: Seq<char>) -> bool {
    command(line) matches Ok(Some(op)) && (op is RawString || op is RawInt)
}

/// Whether the line stands for an instruction, or none, and every magnitude
/// that it calls for is unclaimed, so that each is drawn as one pixel.
pub open spec fn line_free(line: Seq<char>, palette: Map<InstructionView, Color>) -> bool {
    match command(line) {
        Err(_) => false,
        Ok(None) => true,
        Ok(Some(op)) => drawing_free(op, palette),
    }
}

/// Whether the line stands for an instruction, or none, and its pixels are
/// surely found, whatever is drawn.
pub open spec fn line_sure(line: Seq<char>, palette: Map<InstructionView, Color>) -> bool {
    match command(line) {
        Err(_) => false,
        Ok(None) => true,
        Ok(Some(op)) => drawing_sure(op, palette, MAX_DETOURS as nat),
    }
}

/// The pixels of a program where nothing is left to chance: those of its
/// lines in order, or the first line that cannot be compiled, and why.
pub open spec fn fixed_program(lines: Seq<Seq<char>>, palette: Map<InstructionView, Color>)
    -> Result<Seq<Color>, AssemblyError>
    decreases lines.len(),
{
    if lines.len() == 0 {
        Ok(Seq::empty())
    } else {
        match fixed_program(lines.drop_last(), palette) {
            Err(e) => Err(e),
            Ok(before) => match fixed_line(lines.last(), palette) {
                Err(error) => Err(AssemblyError { line: (lines.len() - 1) as usize, error }),
                Ok(pixels) => Ok(before + pixels),
            },
        }
    }
}

/// Whether `pixels` stand for the program: the pixels of its lines, in
/// order, with at most `depth` nested detours for any magnitude.
pub open spec fn is_program(
    pixels: Seq<Color>,
    lines: Seq<Seq<char>>,
    palette: Map<InstructionView, Color>,
    depth: nat,
) -> bool
    decreases lines.len(),
{
    if lines.len() == 0 {
        pixels.len() == 0
    } else {
        exists|cut: int|
            {
                &&& 0 <= cut <= pixels.len()
                &&& is_program(
                    #[trigger] pixels.subrange(0, cut),
                    lines.drop_last(),
                    palette,
                    depth,
                )
                &&& is_line(
                    pixels.subrange(cut, pixels.len() as int),
                    lines.last(),
                    palette,
                    depth,
                )
            }
    }
}

/// Whether every line of the program is free.
pub open spec fn program_free(lines: Seq<Seq<char>>, palette: Map<InstructionView, Color>)
    -> bool {
    forall|j: int| 0 <= j < lines.len() ==> line_free(#[trigger] lines[j], palette)
}

/// Whether every line of the program is sure.
pub open spec fn program_sure(lines: Seq<Seq<char>>, palette: Map<InstructionView, Color>)
    -> bool {
    forall|j: int| 0 <= j < lines.len() ==> line_sure(#[trigger] lines[j], palette)
}

/// Whether compiling may have stopped with `e`: at a line of the program,
/// with every line before it standing for an instruction or none, and for
/// the reason that the line gives, which is its own where it stands for no
/// instruction and a failed allocation else.
pub open spec fn stopped_at(e: AssemblyError, lines: Seq<Seq<char>>) -> bool {
    &&& e.line < lines.len()
    &&& forall|j: int| 0 <= j < e.line ==> command(#[trigger] lines[j]) is Ok
    &&& match command(lines[e.line as int]) {
        Err(c) => e.error == CompileError::Command(c),
        Ok(_) => e.error is Allocation,
    }
}

/// The pixels of a program followed by those of its next line stand for the
/// longer program.
pub proof fn lemma_program_push(
    before: Seq<Color>,
    last: Seq<Color>,
    lines: Seq<Seq<char>>,
    palette: Map<InstructionView, Color>,
    depth: nat,
)
    requires
        lines.len() > 0,
        is_program(before, lines.drop_last(), palette, depth),
        is_line(last, lines.last(), palette, depth),
    ensures
        is_program(before + last, lines, palette, depth),
{
    let pixels = before + last;
    assert(pixels.subrange(0, before.len() as int) =~= before);
    assert(pixels.subrange(before.len() as int, pixels.len() as int) =~= last);
}

/// Once a line cannot be compiled, no later line changes that.
pub proof fn lemma_program_error_stays(
    lines: Seq<Seq<char>>,
    k: int,
    palette: Map<InstructionView, Color>,
)
    requires
        0 <= k <= lines.len(),
        fixed_program(lines.take(k), palette) is Err,
    ensures
        fixed_program(lines, palette) == fixed_program(lines.take(k), palette),
    decreases lines.len() - k,
{
    if k < lines.len() {
        assert(lines.take(k + 1).drop_last() =~= lines.take(k));
        lemma_program_error_stays(lines, k + 1, palette);
    } else {
        assert(lines.take(k) =~= lines);
    }
}

/// Compiles one source line, given without its line terminator, into the
/// pixels of its instruction; a blank or all-comment line gives none.
pub fn compile_line(line: &str, conf: &Params) -> (r: Result<Vec<Color>, CompileError>)
    ensures
        r matches Ok(pixels) ==> is_line(
            pixels@,
            line@,
            conf.custom_colors@,
            MAX_DETOURS as nat,
        ),
        !conf.is_random || !has_literal(line@) ==> match r {
            Ok(pixels) => fixed_line(line@, conf.custom_colors@) == Ok::<Seq<Color>, CompileError>(
                pixels@,
            ),
            Err(e) => fixed_line(line@, conf.custom_colors@) == Err::<Seq<Color>, CompileError>(e),
        },
        match command(line@) {
            Err(c) => r == Err::<Vec<Color>, CompileError>(CompileError::Command(c)),
            Ok(_) => r matches Err(e) ==> e is Allocation,
        },
        line_free(line@, conf.custom_colors@) ==> (r matches Ok(pixels) && is_line(
            pixels@,
            line@,
            conf.custom_colors@,
            0,
        )),
        line_sure(line@, conf.custom_colors@) ==> r is Ok,
{
    match Instruction::from_command(line) {
        Err(e) => Err(CompileError::Command(e)),
        Ok(None) => Ok(Vec::new()),
        Ok(Some(instruction)) => match conf.get_color(instruction) {
            Err(e) => Err(CompileError::Allocation(e)),
            Ok(pixels) => Ok(pixels),
        },
    }
}

/// Compiles a program, given line by line without line terminators, into
/// its pixels: those of each line, in the order of the lines. The first line
/// that cannot be compiled stops the work, and nothing is handed out.
pub fn parse(conf: &Params, lines: &Vec<String>) -> (r: Result<Vec<Color>, AssemblyError>)
    ensures
        r matches Ok(pixels) ==> is_program(
            pixels@,
            lines.deep_view(),
            conf.custom_colors@,
            MAX_DETOURS as nat,
        ),
        r matches Err(e) ==> stopped_at(e, lines.deep_view()),
        !conf.is_random ==> match r {
            Ok(pixels) => fixed_program(lines.deep_view(), conf.custom_colors@) == Ok::<
                Seq<Color>,
                AssemblyError,
            >(pixels@),
            Err(e) => fixed_program(lines.deep_view(), conf.custom_colors@) == Err::<
                Seq<Color>,
                AssemblyError,
            >(e),
        },
        program_free(lines.deep_view(), conf.custom_colors@) ==> (r matches Ok(pixels)
            && is_program(pixels@, lines.deep_view(), conf.custom_colors@, 0)),
        program_sure(lines.deep_view(), conf.custom_colors@) ==> r is Ok,
{
    let ghost all = lines.deep_view();
    let mut colors: Vec<Color> = Vec::new();
    let mut i: usize = 0;
    assert(all.take(0) =~= Seq::<Seq<char>>::empty());
    while i < lines.len()
        invariant
            i <= lines.len(),
            all == lines.deep_view(),
            forall|j: int| 0 <= j < i ==> command(#[trigger] all[j]) is Ok,
            is_program(colors@, all.take(i as int), conf.custom_colors@, MAX_DETOURS as nat),
            program_free(all, conf.custom_colors@) ==> is_program(
                colors@,
                all.take(i as int),
                conf.custom_colors@,
                0,
            ),
            !conf.is_random ==> fixed_program(all.take(i as int), conf.custom_colors@) == Ok::<
                Seq<Color>,
                AssemblyError,
            >(colors@),
        decreases lines.len() - i,
    {
        let ghost longer = all.take(i + 1);
        assert(longer.drop_last() =~= all.take(i as int));
        assert(longer.last() == all[i as int]);
        assert(all[i as int] == lines[i as int]@);
        let mut pixels = match compile_line(lines[i].as_str(), conf) {
            Err(error) => {
                proof {
                    if !conf.is_random {
                        lemma_program_error_stays(all, i + 1, conf.custom_colors@);
                    }
                }
                return Err(AssemblyError { line: i, error });
            },
            Ok(pixels) => pixels,
        };
        proof {
            lemma_program_push(
                colors@,
                pixels@,
                longer,
                conf.custom_colors@,
                MAX_DETOURS as nat,
            );
            if program_free(all, conf.custom_colors@) {
                lemma_program_push(colors@, pixels@, longer, conf.custom_colors@, 0);
            }
        }
        colors.append(&mut pixels);
        i = i + 1;
    }
    assert(all.take(i as int) =~= all);
    Ok(colors)
}

/// The three bytes of a color in a raster.
pub open spec fn bytes_of(color: Color) -> Seq<u8> {
    seq![color.r, color.g, color.b]
}

/// The bytes of `n` raster pixels of one color, side by side.
pub open spec fn repeated(color: Color, n: nat) -> Seq<u8>
    decreases n,
{
    if n == 0 {
        Seq::empty()
    } else {
        repeated(color, (n - 1) as nat) + bytes_of(color)
    }
}

/// The color at place `i` of an image of the program `colors`: the pixel of
/// the program, or `filler` behind its end.
pub open spec fn pixel_at(colors: Seq<Color>, i: int, filler: Color) -> Color {
    if 0 <= i < colors.len() {
        colors[i]
    } else {
        filler
    }
}

/// The bytes of one raster line that shows the `count` pixels of the program
/// from place `start` on, each `size` raster pixels wide.
pub open spec fn row(colors: Seq<Color>, start: int, count: nat, size: nat, filler: Color) -> Seq<
    u8,
>
    decreases count,
{
    if count == 0 {
        Seq::empty()
    } else {
        row(colors, start, (count - 1) as nat, size, filler) + repeated(
            pixel_at(colors, start + count - 1, filler),
            size,
        )
    }
}

/// Appends to `buffer` one raster line of the image: the `count` pixels of
/// the program from place `start_index` on, each `conf.pixel_size` raster
/// pixels wide. Behind the end of the program the line is filled with the
/// color of `QUIT`.
pub fn fill_row(
    start_index: u32,
    count: u32,
    conf: &Params,
    colors: &Vec<Color>,
    buffer: &mut Vec<u8>,
)
    requires
        start_index + count <= u32::MAX,
    ensures
        final(buffer)@ == old(buffer)@ + row(
            colors@,
            start_index as int,
            count as nat,
            conf.pixel_size as nat,
            color_in(conf.custom_colors@, InstructionView::Quit),
        ),
{
    let filler = conf.custom_colors.color_of(&Instruction::Quit);
    let ghost first = buffer@;
    let mut i: u32 = start_index;
    assert(buffer@ =~= first + Seq::<u8>::empty());
    while i < start_index + count
        invariant
            start_index <= i <= start_index + count <= u32::MAX,
            filler == color_in(conf.custom_colors@, InstructionView::Quit),
            buffer@ == first + row(
                colors@,
                start_index as int,
                (i - start_index) as nat,
                conf.pixel_size as nat,
                filler,
            ),
        decreases start_index + count - i,
    {
        let color = if (i as usize) < colors.len() {
            colors[i as usize]
        } else {
            filler
        };
        assert(color == pixel_at(colors@, i as int, filler));
        let ghost line = buffer@;
        let mut k: u16 = 0;
        assert(buffer@ =~= line + Seq::<u8>::empty());
        while k < conf.pixel_size
            invariant
                k <= conf.pixel_size,
                buffer@ == line + repeated(color, k as nat),
            decreases conf.pixel_size - k,
        {
            let ghost before = buffer@;
            color.write_data(buffer);
            assert(buffer@ =~= line + (repeated(color, k as nat) + bytes_of(color)));
            k = k + 1;
        }
        assert(buffer@ =~= first + (row(
            colors@,
            start_index as int,
            (i - start_index) as nat,
            conf.pixel_size as nat,
            filler,
        ) + repeated(color, conf.pixel_size as nat)));
        i = i + 1;
    }
}

/// How the pixels of a program are laid out in an image.
#[derive(Debug, Copy, Clone, PartialEq, Eq, Hash, Structural)]
pub struct Layout {
    /// Pixels of the program in one row.
    pub pixel_per_row: u32,
    /// Rows of program pixels.
    pub height: u32,
    /// Width of the image in raster pixels.
    pub raster_width: u32,
    /// Height of the image in raster pixels.
    pub raster_height: u32,
}

/// The most program pixels that the settings allow in one row: the width
/// they name, or, where they name -1, as many as fit in 1,000,000 raster
/// pixels. Any other negative width stands for its 32-bit pattern read as an
/// unsigned number, which is above every count of pixels.
pub open spec fn row_limit(max_width: int, pixel_size: int) -> int {
    if max_width == -1 {
        MAX_IMAGE_WIDTH as int / pixel_size
    } else if max_width < 0 {
        max_width + 0x1_0000_0000
    } else {
        max_width
    }
}

/// The layout of `size` program pixels under the given settings: rows as long
/// as the settings allow and no longer than the program, and as many rows as
/// it takes. There is none where `pixel_size` is 0, where a row would hold no
/// pixel, or where the image would be too large for its sides to be counted
/// in 32 bits.
pub open spec fn layout_of(size: int, max_width: int, pixel_size: int) -> Option<Layout> {
    if pixel_size <= 0 {
        None
    } else {
        let limit = row_limit(max_width, pixel_size);
        let per_row = if limit < size {
            limit
        } else {
            size
        };
        if per_row <= 0 {
            None
        } else {
            let height = size / per_row + if size % per_row != 0 {
                1int
            } else {
                0int
            };
            if per_row * pixel_size > u32::MAX || height * pixel_size > u32::MAX {
                None
            } else {
                Some(
                    Layout {
                        pixel_per_row: per_row as u32,
                        height: height as u32,
                        raster_width: (per_row * pixel_size) as u32,
                        raster_height: (height * pixel_size) as u32,
                    },
                )
            }
        }
    }
}

/// The layout of an image of `size` program pixels.
pub fn layout(conf: &Params, size: u32) -> (r: Option<Layout>)
    ensures
        r == layout_of(size as int, conf.max_width as int, conf.pixel_size as int),
{
    if conf.pixel_size == 0 {
        return None;
    }
    let pixel_size: u64 = conf.pixel_size as u64;
    let limit: u64 = if conf.max_width == -1 {
        MAX_IMAGE_WIDTH as u64 / pixel_size
    } else if conf.max_width < 0 {
        (conf.max_width as i64 + 0x1_0000_0000) as u64
    } else {
        conf.max_width as u64
    };
    let per_row: u64 = if limit < size as u64 {
        limit
    } else {
        size as u64
    };
    if per_row == 0 {
        return None;
    }
    let extra: u64 = if size as u64 % per_row != 0 {
        1
    } else {
        0
    };
    let height: u64 = size as u64 / per_row + extra;
    assert(per_row <= u32::MAX && height <= 0x1_0000_0000 && pixel_size <= u16::MAX);
    assert(per_row * pixel_size <= 0xFFFF_FFFF * 0xFFFF) by (nonlinear_arith)
        requires
            per_row <= 0xFFFF_FFFF,
            pixel_size <= 0xFFFF,
    ;
    assert(height * pixel_size <= 0x1_0000_0000 * 0xFFFF) by (nonlinear_arith)
        requires
            height <= 0x1_0000_0000,
            pixel_size <= 0xFFFF,
    ;
    let raster_width: u64 = per_row * pixel_size;
    let raster_height: u64 = height * pixel_size;
    if raster_width > u32::MAX as u64 || raster_height > u32::MAX as u64 {
        return None;
    }
    assert(height <= raster_height) by (nonlinear_arith)
        requires
            raster_height == height * pixel_size,
            pixel_size >= 1,
            height >= 0,
    ;
    Some(
        Layout {
            pixel_per_row: per_row as u32,
            height: height as u32,
            raster_width: raster_width as u32,
            raster_height: raster_height as u32,
        },
    )
}

/// Number of bytes in one raster line of an image with rows of `per_row`
/// program pixels.
pub fn row_bytes(conf: &Params, per_row: u32) -> (n: u64)
    ensures
        n == per_row * conf.pixel_size * COLOR_COMPONENTS,
{
    assert(per_row * conf.pixel_size <= 0xFFFF_FFFF * 0xFFFF) by (nonlinear_arith)
        requires
            per_row <= 0xFFFF_FFFF,
            conf.pixel_size <= 0xFFFF,
    ;
    per_row as u64 * conf.pixel_size as u64 * COLOR_COMPONENTS as u64
}

} // verus!
