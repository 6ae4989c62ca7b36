use vilmos_assembler::assembler::{
    compile_line, fill_row, layout, parse, row_bytes, AssemblyError, CompileError, Layout,
};
use vilmos_assembler::color::Color;
use vilmos_assembler::error::{AllocationError, CommandError, ResolutionError, SyntaxError};
use vilmos_assembler::instructions::Instruction;
use vilmos_assembler::params::{Palette, Params};

fn settings(pixel_size: u16, max_width: i16) -> Params {
    Params {
        custom_colors: Palette::defaults(),
        pixel_size,
        input_path: String::new(),
        output_path: String::new(),
        ini_path: None,
        max_width,
        is_random: false,
    }
}

fn lines(text: &[&str]) -> Vec<String> {
    text.iter().map(|line| line.to_string()).collect()
}

#[test]
fn line_is_compiled_to_the_pixels_of_its_instruction() {
    let conf = settings(1, -1);
    assert_eq!(Ok(vec![Color::from(0x00ced1u32)]), compile_line("SUM", &conf));
    assert_eq!(Ok(vec![Color::new(5, 0, 0)]), compile_line("RAW_INT 5 # five", &conf));
    assert_eq!(Ok(vec![Color::new(1, 2, 3)]), compile_line("RAW_COLOR 1 2 3", &conf));
    assert_eq!(Ok(vec![]), compile_line("   # nothing", &conf));
}

#[test]
fn line_errors_say_why() {
    let conf = settings(1, -1);
    assert_eq!(
        Err(CompileError::Command(CommandError::Syntax(SyntaxError::UnterminatedQuote))),
        compile_line("RAW_STRING \"x", &conf)
    );
    assert_eq!(
        Err(CompileError::Command(CommandError::Resolution(ResolutionError::UnknownOpcode))),
        compile_line("JUMP", &conf)
    );
    assert_eq!(
        Err(CompileError::Allocation(AllocationError::OutOfRange)),
        compile_line("RAW_INT 420", &conf)
    );
}

#[test]
fn program_is_compiled_line_by_line() {
    let mut conf = settings(1, -1);
    conf.custom_colors.insert(&Instruction::Quit, Color::new(9, 9, 9));
    let program = lines(&["RAW_INT 2", "", "RAW_INT 3 # three", "SUM", "# done", "OUTPUT_INT", "QUIT"]);
    assert_eq!(
        Ok(vec![
            Color::new(2, 0, 0),
            Color::new(3, 0, 0),
            Color::from(0x00ced1u32),
            Color::from(0x000001u32),
            Color::new(9, 9, 9),
        ]),
        parse(&conf, &program)
    );
    assert_eq!(Ok(vec![]), parse(&conf, &vec![]));
}

#[test]
fn program_stops_at_the_first_bad_line() {
    let conf = settings(1, -1);
    let program = lines(&["SUM", "RAW_INT 1", "RAW_INT one", "JUMP"]);
    assert_eq!(
        Err(AssemblyError {
            line: 2,
            error: CompileError::Command(CommandError::Resolution(ResolutionError::InvalidOperand)),
        }),
        parse(&conf, &program)
    );
    let program = lines(&["RAW_INT 420"]);
    assert_eq!(
        Err(AssemblyError { line: 0, error: CompileError::Allocation(AllocationError::OutOfRange) }),
        parse(&conf, &program)
    );
}

#[test]
fn program_by_chance_holds_as_many_pixels() {
    let mut conf = settings(1, -1);
    conf.is_random = true;
    let program = lines(&["RAW_INT 420", "RAW_STRING \"aab\"", "QUIT"]);
    let pixels = parse(&conf, &program).unwrap();
    assert_eq!(1 + 4 + 1, pixels.len());
    assert_eq!(420, pixels[0].channel_sum());
    assert_eq!(Color::from(0xb7e4c7u32), pixels[5]);
}

#[test]
fn row_shows_pixels_and_fills_with_quit() {
    let mut conf = settings(2, -1);
    conf.custom_colors.insert(&Instruction::Quit, Color::new(7, 8, 9));
    let colors = vec![Color::new(1, 2, 3), Color::new(4, 5, 6), Color::new(10, 11, 12)];
    let mut buffer = vec![0u8];
    fill_row(1, 3, &conf, &colors, &mut buffer);
    assert_eq!(
        vec![0, 4, 5, 6, 4, 5, 6, 10, 11, 12, 10, 11, 12, 7, 8, 9, 7, 8, 9],
        buffer
    );
    let mut buffer = Vec::new();
    fill_row(0, 0, &conf, &colors, &mut buffer);
    assert!(buffer.is_empty());
    conf.pixel_size = 0;
    fill_row(0, 3, &conf, &colors, &mut buffer);
    assert!(buffer.is_empty());
}

#[test]
fn row_without_palette_fills_with_the_default_of_quit() {
    let mut conf = settings(1, -1);
    conf.custom_colors = Palette::new();
    let mut buffer = Vec::new();
    fill_row(5, 1, &conf, &vec![], &mut buffer);
    assert_eq!(vec![0xb7, 0xe4, 0xc7], buffer);
}

#[test]
fn layout_without_width_is_one_row() {
    assert_eq!(
        Some(Layout { pixel_per_row: 10, height: 1, raster_width: 10, raster_height: 1 }),
        layout(&settings(1, -1), 10)
    );
    assert_eq!(
        Some(Layout { pixel_per_row: 10, height: 1, raster_width: 30, raster_height: 3 }),
        layout(&settings(3, -1), 10)
    );
}

#[test]
fn layout_is_bounded_by_the_widest_image() {
    // 1,000,000 / 3 pixels in a row
    assert_eq!(
        Some(Layout { pixel_per_row: 333_333, height: 4, raster_width: 999_999, raster_height: 12 }),
        layout(&settings(3, -1), 1_000_000)
    );
    assert_eq!(
        Some(Layout { pixel_per_row: 1_000_000, height: 2, raster_width: 1_000_000, raster_height: 2 }),
        layout(&settings(1, -1), 1_000_001)
    );
}

#[test]
fn layout_with_width_rounds_the_height_up() {
    assert_eq!(
        Some(Layout { pixel_per_row: 3, height: 4, raster_width: 6, raster_height: 8 }),
        layout(&settings(2, 3), 10)
    );
    assert_eq!(
        Some(Layout { pixel_per_row: 5, height: 2, raster_width: 5, raster_height: 2 }),
        layout(&settings(1, 5), 10)
    );
    assert_eq!(
        Some(Layout { pixel_per_row: 4, height: 1, raster_width: 4, raster_height: 1 }),
        layout(&settings(1, 30), 4)
    );
}

#[test]
fn layout_with_another_negative_width_is_one_row() {
    assert_eq!(
        Some(Layout { pixel_per_row: 2_000_000, height: 1, raster_width: 2_000_000, raster_height: 1 }),
        layout(&settings(1, -2), 2_000_000)
    );
}

#[test]
fn no_layout_for_no_image() {
    assert_eq!(None, layout(&settings(1, -1), 0));
    assert_eq!(None, layout(&settings(0, -1), 10));
    assert_eq!(None, layout(&settings(0, 5), 10));
    assert_eq!(None, layout(&settings(1, 0), 10));
    // 65535 rows of raster pixels for each of 4294967295 rows do not fit
    assert_eq!(None, layout(&settings(65535, 1), u32::MAX));
}

#[test]
fn row_bytes_counts_three_per_raster_pixel() {
    assert_eq!(3 * 2 * 5, row_bytes(&settings(2, -1), 5));
    assert_eq!(0, row_bytes(&settings(0, -1), 5));
    assert_eq!(3 * 65535 * 4294967295u64, row_bytes(&settings(65535, -1), u32::MAX));
}

#[test]
fn free_lines_are_drawn_directly_whatever_is_drawn() {
    let mut conf = settings(1, -1);
    conf.is_random = true;
    let sum_of = |c: &Color| c.r as i32 + c.g as i32 + c.b as i32;
    for _ in 0..20 {
        let pixels = compile_line("RAW_INT 5", &conf).unwrap();
        assert_eq!(1, pixels.len());
        assert_eq!(5, sum_of(&pixels[0]));
        assert_eq!(Ok(vec![]), compile_line("# nothing", &conf));
        let program = lines(&["RAW_INT 2", "RAW_STRING \"AA\"", "", "SUM", "QUIT"]);
        let pixels = parse(&conf, &program).unwrap();
        assert_eq!(6, pixels.len());
        assert_eq!(vec![2, 0, 65], pixels[..3].iter().map(sum_of).collect::<Vec<i32>>());
        assert_eq!(
            vec![Color::from(0x006994u32), Color::from(0x00ced1u32), Color::from(0xb7e4c7u32)],
            pixels[3..].to_vec()
        );
    }
}

#[test]
fn lines_with_a_free_detour_are_compiled_whatever_is_drawn() {
    let mut conf = settings(1, -1);
    conf.is_random = true;
    for _ in 0..20 {
        // 1 is the magnitude of a default color, 381 and 380 are of none
        let pixels = compile_line("RAW_INT 1", &conf).unwrap();
        assert!(pixels.len() == 1 || pixels.len() == 3);
        assert!(parse(&conf, &lines(&["RAW_INT 1", "RAW_INT 139", "POP"])).is_ok());
    }
}
