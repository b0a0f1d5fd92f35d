//! Whole-machine scenarios: power-on state, program loading, the call
//! stack, display composition and the wait-for-key busy poll.

use chip8::machine::{Chip8, Fault};

fn loaded(rom: &[u8]) -> Chip8 {
    let mut c = Chip8::new();
    c.load_rom(rom).unwrap();
    c
}

fn cycles(c: &mut Chip8, n: usize) {
    for _ in 0..n {
        c.emulate_cycle().unwrap();
    }
}

#[test]
fn power_on_state() {
    let c = Chip8::new();
    assert_eq!(c.program_counter(), 0x200);
    assert_eq!(c.index_register(), 0);
    assert_eq!(c.stack_depth(), 0);
    assert_eq!(c.delay_timer(), 0);
    assert_eq!(c.sound_timer(), 0);
    assert!(!c.draw_flag());
    for x in 0..16 {
        assert_eq!(c.v_reg(x), 0);
    }
    // The font: glyph 0 starts with 0xF0, glyph F ends with 0x80.
    assert_eq!(c.mem_byte(0), 0xF0);
    assert_eq!(c.mem_byte(79), 0x80);
    assert_eq!(c.mem_byte(80), 0);
    assert_eq!(c.mem_byte(0x200), 0);
}

#[test]
fn load_rom_copies_bytes() {
    let c = loaded(&[1, 2, 3]);
    assert_eq!(c.mem_byte(0x200), 1);
    assert_eq!(c.mem_byte(0x201), 2);
    assert_eq!(c.mem_byte(0x202), 3);
    assert_eq!(c.mem_byte(0x203), 0);
}

#[test]
fn load_rom_exactly_full_memory() {
    let rom = vec![0xAB; 3584];
    let mut c = Chip8::new();
    assert_eq!(c.load_rom(&rom), Ok(()));
    assert_eq!(c.mem_byte(0x200), 0xAB);
    assert_eq!(c.mem_byte(4095), 0xAB);
}

#[test]
fn load_rom_one_byte_too_many() {
    let rom = vec![0xAB; 3585];
    let mut c = Chip8::new();
    assert_eq!(c.load_rom(&rom), Err(Fault::RomTooLarge));
    // Nothing was copied.
    assert_eq!(c.mem_byte(0x200), 0);
    assert_eq!(c.mem_byte(4095), 0);
}

#[test]
fn call_then_return_restores_pc() {
    // A call to 0x208, where a return instruction waits.
    let mut c = loaded(&[0x22, 0x08, 0, 0, 0, 0, 0, 0, 0x00, 0xEE]);
    cycles(&mut c, 1);
    assert_eq!(c.program_counter(), 0x208);
    assert_eq!(c.stack_depth(), 1);
    cycles(&mut c, 1);
    assert_eq!(c.program_counter(), 0x202);
    assert_eq!(c.stack_depth(), 0);
}

#[test]
fn return_with_empty_stack_faults() {
    let mut c = loaded(&[0x00, 0xEE]);
    assert_eq!(c.emulate_cycle(), Err(Fault::StackUnderflow));
    assert_eq!(c.program_counter(), 0x200);
}

#[test]
fn seventeenth_nested_call_overflows() {
    // 0x2200 at 0x200 calls itself forever; each cycle pushes a frame.
    let mut c = loaded(&[0x22, 0x00]);
    for _ in 0..16 {
        assert_eq!(c.emulate_cycle(), Ok(()));
    }
    assert_eq!(c.stack_depth(), 16);
    assert_eq!(c.emulate_cycle(), Err(Fault::StackOverflow));
    assert_eq!(c.stack_depth(), 16);
    assert_eq!(c.program_counter(), 0x200);
}

#[test]
fn draw_glyph_zero_at_origin() {
    // I := 0 (glyph 0 lives at address 0), V0 := 0, V1 := 0, draw 5 rows.
    let mut c = loaded(&[0xA0, 0x00, 0x60, 0x00, 0x61, 0x00, 0xD0, 0x15]);
    cycles(&mut c, 4);
    let glyph: [u8; 5] = [0xF0, 0x90, 0x90, 0x90, 0xF0];
    for y in 0..5 {
        for x in 0..8 {
            let expected = (glyph[y] >> (7 - x)) & 1 == 1;
            assert_eq!(c.pixel(x, y), expected, "pixel ({}, {})", x, y);
        }
    }
    assert_eq!(c.v_reg(15), 0);
    assert!(c.draw_flag());
    assert_eq!(c.program_counter(), 0x208);
}

#[test]
fn draw_same_sprite_twice_restores_display() {
    let mut c = loaded(&[0xA0, 0x00, 0x60, 0x00, 0x61, 0x00, 0xD0, 0x15, 0xD0, 0x15]);
    cycles(&mut c, 5);
    for y in 0..32 {
        for x in 0..64 {
            assert!(!c.pixel(x, y), "pixel ({}, {}) should be dark again", x, y);
        }
    }
    // The second draw hit every cell the first draw lit.
    assert_eq!(c.v_reg(15), 1);
}

#[test]
fn draw_wraps_horizontally() {
    // Draw glyph 0 at x = 62: its first row 0xF0 lights columns
    // 62, 63, 0 and 1 of row 0.
    let mut c = loaded(&[0xA0, 0x00, 0x60, 62, 0x61, 0x00, 0xD0, 0x15]);
    cycles(&mut c, 4);
    assert!(c.pixel(62, 0));
    assert!(c.pixel(63, 0));
    assert!(c.pixel(0, 0));
    assert!(c.pixel(1, 0));
    assert!(!c.pixel(2, 0));
}

#[test]
fn clear_screen_blanks_every_cell() {
    let mut c = loaded(&[0xA0, 0x00, 0x60, 0x00, 0x61, 0x00, 0xD0, 0x15, 0x00, 0xE0]);
    cycles(&mut c, 4);
    c.clear_draw_flag();
    cycles(&mut c, 1);
    for y in 0..32 {
        for x in 0..64 {
            assert!(!c.pixel(x, y));
        }
    }
    assert!(c.draw_flag());
}

#[test]
fn draw_past_end_of_memory_faults() {
    let mut c = loaded(&[0xAF, 0xFF, 0xD0, 0x05]);
    cycles(&mut c, 1);
    assert_eq!(c.emulate_cycle(), Err(Fault::AddressOutOfBounds));
    assert_eq!(c.program_counter(), 0x202);
    assert_eq!(c.v_reg(15), 0);
}

#[test]
fn register_store_past_end_of_memory_faults() {
    let mut c = loaded(&[0xAF, 0xFF, 0xF1, 0x55]);
    cycles(&mut c, 1);
    assert_eq!(c.emulate_cycle(), Err(Fault::AddressOutOfBounds));
    assert_eq!(c.program_counter(), 0x202);
}

#[test]
fn decimal_store_past_end_of_memory_faults() {
    let mut c = loaded(&[0xAF, 0xFE, 0xF0, 0x33]);
    cycles(&mut c, 1);
    assert_eq!(c.emulate_cycle(), Err(Fault::AddressOutOfBounds));
    assert_eq!(c.program_counter(), 0x202);
}

#[test]
fn fetch_past_end_of_memory_faults() {
    // Jump to 0xFFE: that fetch still works (two zero bytes, an
    // unknown instruction), after which the program counter stands at
    // 0x1000 and the next fetch is out of bounds.
    let mut c = loaded(&[0x1F, 0xFE]);
    cycles(&mut c, 1);
    assert_eq!(c.program_counter(), 0xFFE);
    assert_eq!(c.emulate_cycle(), Err(Fault::UnknownOpcode(0)));
    assert_eq!(c.program_counter(), 0x1000);
    assert_eq!(c.emulate_cycle(), Err(Fault::AddressOutOfBounds));
    assert_eq!(c.program_counter(), 0x1000);
}

#[test]
fn wait_for_key_blocks_until_a_key_is_held() {
    let mut c = loaded(&[0xF0, 0x0A]);
    for _ in 0..3 {
        assert_eq!(c.emulate_cycle(), Ok(()));
        assert_eq!(c.program_counter(), 0x200);
    }
    c.set_key(7, true);
    assert_eq!(c.emulate_cycle(), Ok(()));
    assert_eq!(c.program_counter(), 0x202);
    assert_eq!(c.v_reg(0), 7);
}

#[test]
fn wait_for_key_takes_lowest_held_index() {
    let mut c = loaded(&[0xF0, 0x0A]);
    c.set_key(11, true);
    c.set_key(4, true);
    assert_eq!(c.emulate_cycle(), Ok(()));
    assert_eq!(c.v_reg(0), 4);
}

#[test]
fn key_release_observed_between_cycles() {
    let mut c = loaded(&[0xF0, 0x0A]);
    c.set_key(5, true);
    c.set_key(5, false);
    assert_eq!(c.emulate_cycle(), Ok(()));
    assert_eq!(c.program_counter(), 0x200);
}
