use chip8::{Chip8, GLYPHS, MAX_ROM_SIZE, MEMORY_SIZE, PROGRAM_START, STACK_DEPTH};

#[test]
fn a_new_machine_is_zero_but_for_glyphs_and_program_counter() {
    let c = Chip8::new();
    for a in 0..4096u16 {
        let expected = if a < 80 { GLYPHS[a as usize] } else { 0 };
        assert_eq!(c.memory_at(a), expected, "address {:#x}", a);
    }
    for x in 0..16 {
        assert_eq!(c.register(x), 0);
        assert!(!c.key_is_down(x));
    }
    assert_eq!(c.index(), 0);
    assert_eq!(c.program_counter(), 0x200);
    assert_eq!(c.stack_depth(), 0);
    assert_eq!(c.delay_timer(), 0);
    assert_eq!(c.sound_timer(), 0);
}

#[test]
fn the_constants_describe_the_memory() {
    assert_eq!(MEMORY_SIZE, 4096);
    assert_eq!(PROGRAM_START, 0x200);
    assert_eq!(MAX_ROM_SIZE, 4096 - 0x200);
    assert_eq!(STACK_DEPTH, 16);
    assert_eq!(GLYPHS.len(), 80);
    assert_eq!(&GLYPHS[0..5], &[0xF0, 0x90, 0x90, 0x90, 0xF0]);
    assert_eq!(&GLYPHS[75..80], &[0xF0, 0x80, 0xF0, 0x80, 0x80]);
}

#[test]
fn load_rom_copies_the_image_to_0x200() {
    let rom: Vec<u8> = (0..200u16).map(|k| (k * 7 % 251) as u8 + 1).collect();
    let mut c = Chip8::new();
    c.load_rom(&rom).unwrap();
    for a in 0..4096usize {
        let expected = if a < 80 {
            GLYPHS[a]
        } else if (0x200..0x200 + rom.len()).contains(&a) {
            rom[a - 0x200]
        } else {
            0
        };
        assert_eq!(c.memory_at(a as u16), expected, "address {:#x}", a);
    }
    assert_eq!(c.program_counter(), 0x200);
}

#[test]
fn a_second_load_overwrites_only_its_own_length() {
    let mut c = Chip8::new();
    c.load_rom(&[1, 2, 3, 4]).unwrap();
    c.load_rom(&[9, 8]).unwrap();
    let got: Vec<u8> = (0x200..0x205u16).map(|a| c.memory_at(a)).collect();
    assert_eq!(got, vec![9, 8, 3, 4, 0]);
}

#[test]
fn timers_count_down_once_per_tick() {
    // delay = 3, sound = 2
    let mut c = Chip8::new();
    c.load_rom(&[0x60, 3, 0xF0, 0x15, 0x61, 2, 0xF1, 0x18]).unwrap();
    for _ in 0..4 {
        c.execute().unwrap();
    }
    let mut seen = Vec::new();
    for _ in 0..5 {
        c.tick_timers();
        seen.push((c.delay_timer(), c.sound_timer()));
    }
    assert_eq!(seen, vec![(2, 1), (1, 0), (0, 0), (0, 0), (0, 0)]);
}

#[test]
fn a_timer_at_255_takes_255_ticks() {
    let mut c = Chip8::new();
    c.load_rom(&[0x60, 255, 0xF0, 0x15]).unwrap();
    c.execute().unwrap();
    c.execute().unwrap();
    for expected in (0..255u8).rev() {
        c.tick_timers();
        assert_eq!(c.delay_timer(), expected);
    }
    c.tick_timers();
    assert_eq!(c.delay_timer(), 0);
}

#[test]
fn ticks_touch_nothing_but_the_timers() {
    let mut c = Chip8::new();
    c.load_rom(&[0x60, 9, 0xF0, 0x15, 0xA1, 0x23]).unwrap();
    for _ in 0..3 {
        c.execute().unwrap();
    }
    c.key_down(4);
    c.tick_timers();
    assert_eq!(c.register(0), 9);
    assert_eq!(c.index(), 0x123);
    assert_eq!(c.program_counter(), 0x206);
    assert!(c.key_is_down(4));
    assert_eq!(c.delay_timer(), 8);
}

#[test]
fn cycles_do_not_count_the_timers_down() {
    let mut c = Chip8::new();
    c.load_rom(&[0x60, 9, 0xF0, 0x15, 0x12, 0x04]).unwrap();
    for _ in 0..50 {
        c.execute().unwrap();
    }
    assert_eq!(c.delay_timer(), 9);
}

#[test]
fn keys_go_down_and_up() {
    let mut c = Chip8::new();
    c.key_down(0);
    c.key_down(15);
    let down: Vec<bool> = (0..16).map(|k| c.key_is_down(k)).collect();
    let mut expected = vec![false; 16];
    expected[0] = true;
    expected[15] = true;
    assert_eq!(down, expected);
    c.key_up(0);
    assert!(!c.key_is_down(0));
    assert!(c.key_is_down(15));
    c.key_up(15);
    c.key_up(15);
    assert!(!c.key_is_down(15));
}

#[test]
fn set_key_does_what_key_down_and_key_up_do() {
    let mut c = Chip8::new();
    c.set_key(6, true);
    assert!(c.key_is_down(6));
    c.set_key(6, false);
    assert!(!c.key_is_down(6));
}

#[test]
fn no_key_has_an_index_above_fifteen() {
    let mut c = Chip8::new();
    for k in 0..16 {
        c.key_down(k);
    }
    assert!(!c.key_is_down(16));
    assert!(!c.key_is_down(255));
}
