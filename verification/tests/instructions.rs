//! Per-instruction behaviour, driven through programs loaded at 0x200.

use chip8::machine::{Chip8, Fault};

fn machine_with(rom: &[u8]) -> Chip8 {
    let mut c = Chip8::new();
    c.load_rom(rom).unwrap();
    c
}

fn run(c: &mut Chip8, cycles: usize) {
    for _ in 0..cycles {
        c.emulate_cycle().unwrap();
    }
}

#[test]
fn set_register_idempotent() {
    let mut c = machine_with(&[0x62, 0xAB]);
    run(&mut c, 1);
    assert_eq!(c.v_reg(2), 0xAB);
    assert_eq!(c.program_counter(), 0x202);
}

#[test]
fn add_immediate_wraps_without_flag() {
    let mut c = machine_with(&[0x60, 0xFF, 0x70, 0x02]);
    run(&mut c, 2);
    assert_eq!(c.v_reg(0), 1);
    assert_eq!(c.v_reg(15), 0);
}

#[test]
fn alu_move_or_and_xor() {
    let mut c = machine_with(&[0x60, 0x0C, 0x61, 0x0A, 0x82, 0x00, 0x80, 0x11, 0x83, 0x00]);
    run(&mut c, 5);
    assert_eq!(c.v_reg(2), 0x0C); // V2 := V0
    assert_eq!(c.v_reg(0), 0x0E); // V0 |= V1
    assert_eq!(c.v_reg(3), 0x0E); // V3 := V0
    let mut c = machine_with(&[0x60, 0x0C, 0x61, 0x0A, 0x80, 0x12]);
    run(&mut c, 3);
    assert_eq!(c.v_reg(0), 0x08); // AND
    let mut c = machine_with(&[0x60, 0x0C, 0x61, 0x0A, 0x80, 0x13]);
    run(&mut c, 3);
    assert_eq!(c.v_reg(0), 0x06); // XOR
}

#[test]
fn add_registers_sets_carry() {
    let mut c = machine_with(&[0x60, 200, 0x61, 100, 0x80, 0x14]);
    run(&mut c, 3);
    assert_eq!(c.v_reg(0), 44);
    assert_eq!(c.v_reg(15), 1);
}

#[test]
fn add_registers_no_carry() {
    let mut c = machine_with(&[0x60, 0x05, 0x61, 0x03, 0x80, 0x14]);
    run(&mut c, 3);
    assert_eq!(c.v_reg(0), 8);
    assert_eq!(c.v_reg(15), 0);
    assert_eq!(c.program_counter(), 0x206);
}

#[test]
fn sub_registers_borrow_clears_flag() {
    let mut c = machine_with(&[0x60, 5, 0x61, 9, 0x80, 0x15]);
    run(&mut c, 3);
    assert_eq!(c.v_reg(0), 252);
    assert_eq!(c.v_reg(15), 0);
}

#[test]
fn sub_registers_no_borrow_sets_flag() {
    let mut c = machine_with(&[0x60, 9, 0x61, 5, 0x80, 0x15]);
    run(&mut c, 3);
    assert_eq!(c.v_reg(0), 4);
    assert_eq!(c.v_reg(15), 1);
}

#[test]
fn subn_registers_flag_convention() {
    let mut c = machine_with(&[0x60, 9, 0x61, 5, 0x80, 0x17]);
    run(&mut c, 3);
    assert_eq!(c.v_reg(0), 252);
    assert_eq!(c.v_reg(15), 0);
    let mut c = machine_with(&[0x60, 5, 0x61, 9, 0x80, 0x17]);
    run(&mut c, 3);
    assert_eq!(c.v_reg(0), 4);
    assert_eq!(c.v_reg(15), 1);
}

#[test]
fn shift_right_keeps_lsb_in_flag() {
    let mut c = machine_with(&[0x60, 0x05, 0x80, 0x16]);
    run(&mut c, 2);
    assert_eq!(c.v_reg(0), 0x02);
    assert_eq!(c.v_reg(15), 1);
}

#[test]
fn shift_left_keeps_msb_in_flag() {
    let mut c = machine_with(&[0x60, 0x81, 0x80, 0x1E]);
    run(&mut c, 2);
    assert_eq!(c.v_reg(0), 0x02);
    assert_eq!(c.v_reg(15), 1);
}

#[test]
fn shift_ignores_vy() {
    // The Vx-only shift variant: Vy's value must not matter.
    let mut c = machine_with(&[0x60, 0x05, 0x61, 0xF0, 0x80, 0x16]);
    run(&mut c, 3);
    assert_eq!(c.v_reg(0), 0x02);
}

#[test]
fn skip_eq_immediate() {
    let mut c = machine_with(&[0x60, 0x07, 0x30, 0x07]);
    run(&mut c, 2);
    assert_eq!(c.program_counter(), 0x206);
    let mut c = machine_with(&[0x60, 0x07, 0x30, 0x08]);
    run(&mut c, 2);
    assert_eq!(c.program_counter(), 0x204);
}

#[test]
fn skip_ne_immediate() {
    let mut c = machine_with(&[0x60, 0x07, 0x40, 0x08]);
    run(&mut c, 2);
    assert_eq!(c.program_counter(), 0x206);
    let mut c = machine_with(&[0x60, 0x07, 0x40, 0x07]);
    run(&mut c, 2);
    assert_eq!(c.program_counter(), 0x204);
}

#[test]
fn skip_on_register_compare() {
    let mut c = machine_with(&[0x60, 0x07, 0x61, 0x07, 0x50, 0x10]);
    run(&mut c, 3);
    assert_eq!(c.program_counter(), 0x208);
    let mut c = machine_with(&[0x60, 0x07, 0x61, 0x08, 0x90, 0x10]);
    run(&mut c, 3);
    assert_eq!(c.program_counter(), 0x208);
    let mut c = machine_with(&[0x60, 0x07, 0x61, 0x07, 0x90, 0x10]);
    run(&mut c, 3);
    assert_eq!(c.program_counter(), 0x206);
}

#[test]
fn jump_sets_pc() {
    let mut c = machine_with(&[0x13, 0x45]);
    run(&mut c, 1);
    assert_eq!(c.program_counter(), 0x345);
}

#[test]
fn jump_with_offset() {
    let mut c = machine_with(&[0x60, 0x10, 0xB3, 0x00]);
    run(&mut c, 2);
    assert_eq!(c.program_counter(), 0x310);
}

#[test]
fn set_index_register() {
    let mut c = machine_with(&[0xA1, 0x23]);
    run(&mut c, 1);
    assert_eq!(c.index_register(), 0x123);
}

#[test]
fn add_to_index_register() {
    let mut c = machine_with(&[0xAF, 0xFF, 0x60, 0xFF, 0xF0, 0x1E]);
    run(&mut c, 3);
    assert_eq!(c.index_register(), 0xFFF + 0xFF);
}

#[test]
fn random_is_masked() {
    let mut c = machine_with(&[0xC0, 0x0F, 0xC1, 0x00]);
    run(&mut c, 2);
    assert!(c.v_reg(0) <= 0x0F);
    assert_eq!(c.v_reg(1), 0);
}

#[test]
fn font_lookup_uses_low_nibble() {
    let mut c = machine_with(&[0x60, 0x0B, 0xF0, 0x29]);
    run(&mut c, 2);
    assert_eq!(c.index_register(), 55);
    let mut c = machine_with(&[0x60, 0x1B, 0xF0, 0x29]);
    run(&mut c, 2);
    assert_eq!(c.index_register(), 55);
}

#[test]
fn binary_coded_decimal() {
    let mut c = machine_with(&[0x60, 254, 0xA3, 0x00, 0xF0, 0x33]);
    run(&mut c, 3);
    assert_eq!(c.mem_byte(0x300), 2);
    assert_eq!(c.mem_byte(0x301), 5);
    assert_eq!(c.mem_byte(0x302), 4);
}

#[test]
fn store_and_load_registers() {
    let mut c = machine_with(&[
        0x60, 1, 0x61, 2, 0x62, 3, // V0..V2
        0xA3, 0x00, 0xF2, 0x55, // store V0..V2 at 0x300
        0x60, 0, 0x61, 0, 0x62, 0, // zero them
        0xF2, 0x65, // load them back
    ]);
    run(&mut c, 9);
    assert_eq!(c.mem_byte(0x300), 1);
    assert_eq!(c.mem_byte(0x301), 2);
    assert_eq!(c.mem_byte(0x302), 3);
    assert_eq!(c.v_reg(0), 1);
    assert_eq!(c.v_reg(1), 2);
    assert_eq!(c.v_reg(2), 3);
}

#[test]
fn timers_set_read_and_tick() {
    let mut c = machine_with(&[0x60, 3, 0xF0, 0x15, 0xF0, 0x18, 0xF1, 0x07]);
    run(&mut c, 4);
    assert_eq!(c.v_reg(1), 3);
    assert_eq!(c.delay_timer(), 3);
    assert_eq!(c.sound_timer(), 3);
    for _ in 0..5 {
        c.tick_timers();
    }
    assert_eq!(c.delay_timer(), 0);
    assert_eq!(c.sound_timer(), 0);
}

#[test]
fn skip_if_key_held() {
    let mut c = machine_with(&[0x60, 0x02, 0xE0, 0x9E]);
    c.set_key(2, true);
    run(&mut c, 2);
    assert_eq!(c.program_counter(), 0x206);
    let mut c = machine_with(&[0x60, 0x02, 0xE0, 0x9E]);
    run(&mut c, 2);
    assert_eq!(c.program_counter(), 0x204);
}

#[test]
fn skip_if_key_not_held() {
    let mut c = machine_with(&[0x60, 0x02, 0xE0, 0xA1]);
    run(&mut c, 2);
    assert_eq!(c.program_counter(), 0x206);
    let mut c = machine_with(&[0x60, 0x02, 0xE0, 0xA1]);
    c.set_key(2, true);
    run(&mut c, 2);
    assert_eq!(c.program_counter(), 0x204);
}

#[test]
fn key_index_uses_low_nibble_of_vx() {
    let mut c = machine_with(&[0x60, 0x12, 0xE0, 0x9E]);
    c.set_key(2, true);
    run(&mut c, 2);
    assert_eq!(c.program_counter(), 0x206);
}

#[test]
fn unknown_opcode_reported_and_skipped() {
    let mut c = machine_with(&[0x5F, 0xF1]);
    assert_eq!(c.emulate_cycle(), Err(Fault::UnknownOpcode(0x5FF1)));
    assert_eq!(c.program_counter(), 0x202);
    let mut c = machine_with(&[0xFF, 0xFF]);
    assert_eq!(c.emulate_cycle(), Err(Fault::UnknownOpcode(0xFFFF)));
    assert_eq!(c.program_counter(), 0x202);
    let mut c = machine_with(&[0x00, 0x00]);
    assert_eq!(c.emulate_cycle(), Err(Fault::UnknownOpcode(0x0000)));
    assert_eq!(c.program_counter(), 0x202);
    let mut c = machine_with(&[0x80, 0x18]);
    assert_eq!(c.emulate_cycle(), Err(Fault::UnknownOpcode(0x8018)));
    assert_eq!(c.program_counter(), 0x202);
}
