use chip8::{Chip8, Chip8Error, SCREEN_HEIGHT, SCREEN_PIXELS, SCREEN_WIDTH};

fn machine_with(program: &[u8]) -> Chip8 {
    let mut c = Chip8::new();
    c.load_rom(program).expect("the program fits");
    c
}

fn run(c: &mut Chip8, cycles: usize) {
    for _ in 0..cycles {
        c.execute_with(0).expect("the cycle succeeds");
    }
}

fn lit(c: &Chip8) -> Vec<(usize, usize)> {
    let pixels = c.frame_buffer();
    let mut on = Vec::new();
    for y in 0..SCREEN_HEIGHT {
        for x in 0..SCREEN_WIDTH {
            if pixels[y * SCREEN_WIDTH + x] {
                on.push((x, y));
            }
        }
    }
    on
}

/// The pixels on which the set bits of `rows` land when drawn at (`ox`, `oy`).
fn landing(rows: &[u8], ox: usize, oy: usize) -> Vec<(usize, usize)> {
    let mut on = Vec::new();
    for (r, byte) in rows.iter().enumerate() {
        for col in 0..8 {
            if byte & (0x80 >> col) != 0 {
                on.push(((ox + col) % 64, (oy + r) % 32));
            }
        }
    }
    on.sort_by_key(|(x, y)| (*y, *x));
    on
}

#[test]
fn the_screen_is_64_by_32() {
    assert_eq!(SCREEN_WIDTH, 64);
    assert_eq!(SCREEN_HEIGHT, 32);
    assert_eq!(SCREEN_PIXELS, 2048);
    assert_eq!(Chip8::new().frame_buffer().len(), 2048);
}

#[test]
fn a_new_screen_is_dark() {
    assert!(Chip8::new().frame_buffer().iter().all(|pixel| !*pixel));
}

#[test]
fn draw_after_clear_lights_exactly_the_sprite() {
    // V0 = 10, V1 = 5, I = glyph of 0xA (at 50), clear, draw 5 rows.
    let mut c = machine_with(&[0x60, 10, 0x61, 5, 0xA0, 50, 0x00, 0xE0, 0xD0, 0x15]);
    run(&mut c, 5);
    // The glyph of A: F0 90 F0 90 90.
    assert_eq!(lit(&c), landing(&[0xF0, 0x90, 0xF0, 0x90, 0x90], 10, 5));
    assert_eq!(lit(&c).len(), 4 + 2 + 4 + 2 + 2);
    assert_eq!(c.register(0xF), 0);
    assert_eq!(c.program_counter(), 0x20A);
}

#[test]
fn draw_reads_the_bits_most_significant_first() {
    // A sprite of one row, 0b1000_0001, at (0, 0).
    let mut c = machine_with(&[0xA2, 0x04, 0xD0, 0x01, 0x81]);
    run(&mut c, 2);
    assert_eq!(lit(&c), vec![(0, 0), (7, 0)]);
    let mut c = machine_with(&[0xA2, 0x04, 0xD0, 0x01, 0x40]);
    run(&mut c, 2);
    assert_eq!(lit(&c), vec![(1, 0)]);
}

#[test]
fn clear_screen_after_a_draw_darkens_every_pixel() {
    let mut c = machine_with(&[0xA0, 0x00, 0xD0, 0x05, 0x00, 0xE0]);
    run(&mut c, 2);
    assert!(!lit(&c).is_empty());
    run(&mut c, 1);
    assert!(lit(&c).is_empty());
    assert_eq!(c.program_counter(), 0x206);
}

#[test]
fn drawing_twice_restores_the_screen_and_sets_the_flag() {
    let mut c = machine_with(&[0x60, 20, 0x61, 9, 0xA0, 25, 0xD0, 0x15, 0xD0, 0x15]);
    run(&mut c, 4);
    assert!(!lit(&c).is_empty());
    assert_eq!(c.register(0xF), 0);
    run(&mut c, 1);
    assert!(lit(&c).is_empty());
    assert_eq!(c.register(0xF), 1);
}

#[test]
fn drawing_twice_restores_a_screen_that_was_not_dark() {
    // Glyph 0 at (0, 0); then glyph 1 at (2, 1), twice.
    let program = [0xA0, 0, 0xD0, 0x05, 0x60, 2, 0x61, 1, 0xA0, 5, 0xD0, 0x15, 0xD0, 0x15];
    let mut c = machine_with(&program);
    run(&mut c, 2);
    let first = lit(&c);
    assert_eq!(first, landing(&[0xF0, 0x90, 0x90, 0x90, 0xF0], 0, 0));
    run(&mut c, 4);
    assert_ne!(lit(&c), first);
    run(&mut c, 1);
    assert_eq!(lit(&c), first);
}

#[test]
fn a_sprite_at_column_63_wraps_to_column_0() {
    // One row, 0b1100_0000, at (63, 0).
    let mut c = machine_with(&[0x60, 63, 0x61, 0, 0xA2, 0x08, 0xD0, 0x11, 0xC0]);
    run(&mut c, 4);
    assert_eq!(lit(&c), vec![(0, 0), (63, 0)]);
    assert!(c.frame_buffer()[0]);
    assert!(c.frame_buffer()[63]);
    assert!(!c.frame_buffer()[64]);
    assert_eq!(c.register(0xF), 0);
}

#[test]
fn a_sprite_at_row_31_wraps_to_row_0() {
    // Two rows, 0x80 and 0x80, at (5, 31).
    let mut c = machine_with(&[0x60, 5, 0x61, 31, 0xA2, 0x08, 0xD0, 0x12, 0x80, 0x80]);
    run(&mut c, 4);
    assert_eq!(lit(&c), vec![(5, 0), (5, 31)]);
}

#[test]
fn coordinates_wrap_before_the_sprite_is_placed() {
    // (64 + 3, 32 + 2) is (3, 2).
    let mut c = machine_with(&[0x60, 67, 0x61, 34, 0xA2, 0x08, 0xD0, 0x11, 0xFF]);
    run(&mut c, 4);
    assert_eq!(lit(&c), landing(&[0xFF], 3, 2));
    let mut c = machine_with(&[0x60, 255, 0x61, 255, 0xA2, 0x08, 0xD0, 0x11, 0xFF]);
    run(&mut c, 4);
    assert_eq!(lit(&c), landing(&[0xFF], 63, 31));
    assert_eq!(lit(&c).len(), 8);
}

#[test]
fn a_collision_is_a_lit_pixel_that_goes_off() {
    // Row 0b1111_0000 at (0, 0), then row 0b0001_1000 at (0, 0): column 3 collides.
    let program = [0xA2, 0x0A, 0xD0, 0x01, 0xA2, 0x0B, 0xD0, 0x01, 0x00, 0x00, 0xF0, 0x18];
    let mut c = machine_with(&program);
    run(&mut c, 2);
    assert_eq!(c.register(0xF), 0);
    run(&mut c, 2);
    assert_eq!(lit(&c), vec![(0, 0), (1, 0), (2, 0), (4, 0)]);
    assert_eq!(c.register(0xF), 1);
}

#[test]
fn sprites_side_by_side_do_not_collide() {
    // Row 0b1111_0000 at (0, 0), then register 0 = 4 and the same row at (4, 0).
    let program = [0xA2, 0x08, 0xD0, 0x11, 0x60, 4, 0xD0, 0x11, 0xF0];
    let mut c = machine_with(&program);
    run(&mut c, 2);
    assert_eq!(c.register(0xF), 0);
    run(&mut c, 2);
    assert_eq!(lit(&c).len(), 8);
    assert_eq!(c.register(0xF), 0);
}

#[test]
fn draw_clears_a_flag_left_by_an_earlier_collision() {
    let program = [0xA0, 0, 0xD0, 0x05, 0xD0, 0x05, 0xD0, 0x05];
    let mut c = machine_with(&program);
    run(&mut c, 3);
    assert_eq!(c.register(0xF), 1);
    run(&mut c, 1);
    assert_eq!(c.register(0xF), 0);
}

#[test]
fn draw_of_no_rows_changes_no_pixel_and_clears_the_flag() {
    let mut c = machine_with(&[0x6F, 1, 0xA0, 0, 0xD0, 0x00]);
    run(&mut c, 3);
    assert!(lit(&c).is_empty());
    assert_eq!(c.register(0xF), 0);
    assert_eq!(c.program_counter(), 0x206);
}

#[test]
fn draw_of_no_rows_reads_no_memory() {
    // With the address register beyond memory a draw of no rows still succeeds.
    let mut program = vec![0xAF, 0xFF, 0x60, 0xFF];
    for _ in 0..2 {
        program.extend_from_slice(&[0xF0, 0x1E]);
    }
    program.extend_from_slice(&[0xD0, 0x00]);
    let mut c = machine_with(&program);
    run(&mut c, 4);
    assert_eq!(c.index(), 0xFFF + 2 * 0xFF);
    assert_eq!(c.execute_with(0), Ok(()));
    assert!(lit(&c).is_empty());
}

#[test]
fn draw_reads_its_coordinates_before_it_writes_the_flag() {
    // The flag register holds the column 9; the draw lands at column 9.
    let mut c = machine_with(&[0x6F, 9, 0x61, 3, 0xA2, 0x08, 0xDF, 0x11, 0x80]);
    run(&mut c, 4);
    assert_eq!(lit(&c), vec![(9, 3)]);
    assert_eq!(c.register(0xF), 0);
}

#[test]
fn draw_of_fifteen_rows_reaches_the_last_cell() {
    // Fifteen rows from 0xFF1 to 0xFFF, all zero: nothing lit, no error.
    let mut c = machine_with(&[0xAF, 0xF1, 0xD0, 0x0F]);
    run(&mut c, 2);
    assert!(lit(&c).is_empty());
}

#[test]
fn draw_beyond_memory_is_refused_and_changes_nothing() {
    let mut c = machine_with(&[0x6F, 7, 0xA0, 0, 0xD0, 0x05, 0xAF, 0xF2, 0xD0, 0x0F]);
    run(&mut c, 4);
    let before = lit(&c);
    assert_eq!(c.execute_with(0), Err(Chip8Error::AddressOutOfBounds));
    assert_eq!(lit(&c), before);
    assert_eq!(c.register(0xF), 0);
    assert_eq!(c.program_counter(), 0x208);
    assert_eq!(c.index(), 0xFF2);
}

#[test]
fn every_glyph_draws_as_its_five_rows() {
    for digit in 0..16u8 {
        let mut c = machine_with(&[0x62, digit, 0xF2, 0x29, 0xD0, 0x05]);
        run(&mut c, 3);
        let at = digit as usize * 5;
        assert_eq!(lit(&c), landing(&chip8::GLYPHS[at..at + 5], 0, 0), "glyph {:x}", digit);
    }
}
