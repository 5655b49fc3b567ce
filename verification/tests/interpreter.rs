use chip8::{Chip8Error, Cpu, SCREEN_HEIGHT, SCREEN_WIDTH};

fn boot(rom: &[u8]) -> Cpu {
    let mut cpu = Cpu::setup_cpu();
    cpu.load_rom(rom).unwrap();
    cpu
}

fn run(cpu: &mut Cpu, ticks: usize) {
    for _ in 0..ticks {
        assert!(cpu.can_tick());
        cpu.tick().unwrap();
    }
}

#[test]
fn initial_state() {
    let cpu = Cpu::setup_cpu();
    assert_eq!(cpu.get_pc(), 0x200);
    assert_eq!(cpu.get_index_register(), 0);
    assert_eq!(cpu.get_stack_depth(), 0);
    assert_eq!(cpu.get_delay_timer(), 0);
    assert_eq!(cpu.get_sound_timer(), 0);
    for i in 0..16 {
        assert_eq!(cpu.get_register(i), 0);
        assert!(!cpu.is_key_pressed(i));
    }
    let display = cpu.get_display();
    assert_eq!(display.len(), SCREEN_WIDTH * SCREEN_HEIGHT);
    assert!(display.iter().all(|p| !p));
    // A few font bytes: glyph 0 starts with 0xF0, glyph F ends with 0x80.
    assert_eq!(cpu.get_memory_byte(0), 0xF0);
    assert_eq!(cpu.get_memory_byte(79), 0x80);
    assert_eq!(cpu.get_memory_byte(80), 0);
}

#[test]
fn rom_of_exactly_3584_bytes_loads() {
    let mut cpu = Cpu::setup_cpu();
    let rom = vec![0xAB_u8; 3584];
    assert_eq!(cpu.load_rom(&rom), Ok(()));
    assert_eq!(cpu.get_memory_byte(0x200), 0xAB);
    assert_eq!(cpu.get_memory_byte(4095), 0xAB);
    assert_eq!(cpu.get_memory_byte(0x1FF), 0);
}

#[test]
fn rom_of_3585_bytes_is_rejected() {
    let mut cpu = Cpu::setup_cpu();
    let rom = vec![0xAB_u8; 3585];
    assert_eq!(cpu.load_rom(&rom), Err(Chip8Error::RomTooLarge));
    // Nothing was written.
    assert_eq!(cpu.get_memory_byte(0x200), 0);
    assert_eq!(cpu.get_memory_byte(4095), 0);
}

#[test]
fn unimplemented_opcode_is_reported_and_harmless() {
    // Memory above the font is zero, so the first fetch sees 0x0000.
    let mut cpu = Cpu::setup_cpu();
    assert_eq!(cpu.tick(), Err(Chip8Error::UnimplementedOpcode));
    assert_eq!(cpu.get_pc(), 0x200);
}

#[test]
fn add_with_carry_sets_vf() {
    // V0 = 200, V1 = 100, V0 += V1: 300 wraps to 44 and carries.
    let mut cpu = boot(&[0x60, 200, 0x61, 100, 0x80, 0x14]);
    run(&mut cpu, 3);
    assert_eq!(cpu.get_register(0), 44);
    assert_eq!(cpu.get_register(15), 1);
    assert_eq!(cpu.get_pc(), 0x206);
}

#[test]
fn add_without_carry_clears_vf() {
    let mut cpu = boot(&[0x60, 2, 0x61, 3, 0x80, 0x14]);
    run(&mut cpu, 3);
    assert_eq!(cpu.get_register(0), 5);
    assert_eq!(cpu.get_register(15), 0);
}

#[test]
fn add_immediate_wraps_without_flag() {
    // V0 = 250, V0 += 10 wraps to 4 and VF stays untouched.
    let mut cpu = boot(&[0x60, 250, 0x70, 10]);
    run(&mut cpu, 2);
    assert_eq!(cpu.get_register(0), 4);
    assert_eq!(cpu.get_register(15), 0);
}

#[test]
fn shift_left_records_top_bit() {
    // V0 = 0x83: the left shift drops the top bit into VF.
    let mut cpu = boot(&[0x60, 0x83, 0x80, 0x0E]);
    run(&mut cpu, 2);
    assert_eq!(cpu.get_register(0), 0x06);
    assert_eq!(cpu.get_register(15), 1);
}

#[test]
fn shift_right_records_bottom_bit() {
    let mut cpu = boot(&[0x60, 0x83, 0x80, 0x06]);
    run(&mut cpu, 2);
    assert_eq!(cpu.get_register(0), 0x41);
    assert_eq!(cpu.get_register(15), 1);
}

#[test]
fn shift_left_then_right_loses_top_bit() {
    // 0x83 << 1 is 0x06 (VF = 1), then 0x06 >> 1 is 0x03 (VF = 0):
    // the round trip keeps only V0 % 128.
    let mut cpu = boot(&[0x60, 0x83, 0x80, 0x0E, 0x80, 0x06]);
    run(&mut cpu, 2);
    assert_eq!(cpu.get_register(0), 0x06);
    assert_eq!(cpu.get_register(15), 1);
    run(&mut cpu, 1);
    assert_eq!(cpu.get_register(0), 0x03);
    assert_eq!(cpu.get_register(15), 0);
    assert_eq!(cpu.get_register(0), 0x83 % 128);
}

#[test]
fn subtract_with_borrow() {
    // V0 = 5, V1 = 10: V0 -= V1 borrows, VF = 0, result wraps to 251.
    let mut cpu = boot(&[0x60, 5, 0x61, 10, 0x80, 0x15]);
    run(&mut cpu, 3);
    assert_eq!(cpu.get_register(0), 251);
    assert_eq!(cpu.get_register(15), 0);
}

#[test]
fn subtract_without_borrow() {
    let mut cpu = boot(&[0x60, 10, 0x61, 5, 0x80, 0x15]);
    run(&mut cpu, 3);
    assert_eq!(cpu.get_register(0), 5);
    assert_eq!(cpu.get_register(15), 1);
}

#[test]
fn subtract_from_reversed_operands() {
    // V0 = 3, V1 = 10: V0 = V1 - V0 = 7, no borrow.
    let mut cpu = boot(&[0x60, 3, 0x61, 10, 0x80, 0x17]);
    run(&mut cpu, 3);
    assert_eq!(cpu.get_register(0), 7);
    assert_eq!(cpu.get_register(15), 1);
}

#[test]
fn logic_ops() {
    // V0 = 0b1100, V1 = 0b1010: OR, AND, XOR in sequence on fresh pairs.
    let mut cpu = boot(&[0x60, 0x0C, 0x61, 0x0A, 0x80, 0x11]);
    run(&mut cpu, 3);
    assert_eq!(cpu.get_register(0), 0x0E);

    let mut cpu = boot(&[0x60, 0x0C, 0x61, 0x0A, 0x80, 0x12]);
    run(&mut cpu, 3);
    assert_eq!(cpu.get_register(0), 0x08);

    let mut cpu = boot(&[0x60, 0x0C, 0x61, 0x0A, 0x80, 0x13]);
    run(&mut cpu, 3);
    assert_eq!(cpu.get_register(0), 0x06);
}

#[test]
fn skip_instructions_adjust_pc() {
    // 3XNN skips when equal.
    let mut cpu = boot(&[0x60, 7, 0x30, 7]);
    run(&mut cpu, 2);
    assert_eq!(cpu.get_pc(), 0x206);
    // 4XNN skips when different.
    let mut cpu = boot(&[0x60, 7, 0x40, 7]);
    run(&mut cpu, 2);
    assert_eq!(cpu.get_pc(), 0x204);
    // 5XY0 skips when registers match.
    let mut cpu = boot(&[0x60, 7, 0x61, 7, 0x50, 0x10]);
    run(&mut cpu, 3);
    assert_eq!(cpu.get_pc(), 0x208);
    // 9XY0 skips when registers differ.
    let mut cpu = boot(&[0x60, 7, 0x61, 8, 0x90, 0x10]);
    run(&mut cpu, 3);
    assert_eq!(cpu.get_pc(), 0x208);
}

#[test]
fn jump_and_jump_v0() {
    let mut cpu = boot(&[0x12, 0x40]);
    run(&mut cpu, 1);
    assert_eq!(cpu.get_pc(), 0x240);

    let mut cpu = boot(&[0x60, 0x10, 0xB2, 0x30]);
    run(&mut cpu, 2);
    assert_eq!(cpu.get_pc(), 0x240);
}

#[test]
fn call_and_return() {
    // Call 0x206, which holds a return.
    let mut cpu = boot(&[0x22, 0x06, 0x00, 0x00, 0x00, 0x00, 0x00, 0xEE]);
    run(&mut cpu, 1);
    assert_eq!(cpu.get_pc(), 0x206);
    assert_eq!(cpu.get_stack_depth(), 1);
    run(&mut cpu, 1);
    assert_eq!(cpu.get_pc(), 0x202);
    assert_eq!(cpu.get_stack_depth(), 0);
}

#[test]
fn return_on_empty_stack_underflows() {
    let mut cpu = boot(&[0x00, 0xEE]);
    assert_eq!(cpu.tick(), Err(Chip8Error::StackUnderflow));
    assert_eq!(cpu.get_pc(), 0x200);
    assert_eq!(cpu.get_stack_depth(), 0);
}

#[test]
fn seventeenth_nested_call_overflows() {
    // 0x2200 calls address 0x200 again, pushing one frame per tick.
    let mut cpu = boot(&[0x22, 0x00]);
    for depth in 1..=16 {
        assert_eq!(cpu.tick(), Ok(()));
        assert_eq!(cpu.get_stack_depth(), depth);
    }
    assert_eq!(cpu.tick(), Err(Chip8Error::StackOverflow));
    assert_eq!(cpu.get_stack_depth(), 16);
    assert_eq!(cpu.get_pc(), 0x200);
}

#[test]
fn set_index_add_index_and_font_address() {
    let mut cpu = boot(&[0xA1, 0x23]);
    run(&mut cpu, 1);
    assert_eq!(cpu.get_index_register(), 0x123);

    // FX1E accumulates into the index register.
    let mut cpu = boot(&[0xA1, 0x00, 0x60, 0x05, 0xF0, 0x1E]);
    run(&mut cpu, 3);
    assert_eq!(cpu.get_index_register(), 0x105);

    // FX29 points at the 5-byte glyph for V0.
    let mut cpu = boot(&[0x60, 0x03, 0xF0, 0x29]);
    run(&mut cpu, 2);
    assert_eq!(cpu.get_index_register(), 15);
}

#[test]
fn random_masked_by_zero_is_zero() {
    // CXNN with a zero mask pins the random byte to zero.
    let mut cpu = boot(&[0x60, 0x55, 0xC0, 0x00]);
    run(&mut cpu, 2);
    assert_eq!(cpu.get_register(0), 0);
}

#[test]
fn bcd_of_255() {
    let mut cpu = boot(&[0x60, 0xFF, 0xA3, 0x00, 0xF0, 0x33]);
    run(&mut cpu, 3);
    assert_eq!(cpu.get_memory_byte(0x300), 2);
    assert_eq!(cpu.get_memory_byte(0x301), 5);
    assert_eq!(cpu.get_memory_byte(0x302), 5);
}

#[test]
fn bcd_of_7() {
    let mut cpu = boot(&[0x60, 7, 0xA3, 0x00, 0xF0, 0x33]);
    run(&mut cpu, 3);
    assert_eq!(cpu.get_memory_byte(0x300), 0);
    assert_eq!(cpu.get_memory_byte(0x301), 0);
    assert_eq!(cpu.get_memory_byte(0x302), 7);
}

#[test]
fn store_then_load_roundtrip_uses_index_register() {
    // V0..V3 = 1, 2, 3, 4; store at I = 0x400; wipe; load back.
    let mut cpu = boot(&[
        0x60, 1, 0x61, 2, 0x62, 3, 0x63, 4, // set V0..V3
        0xA4, 0x00, // I = 0x400
        0xF3, 0x55, // store V0..=V3
        0x60, 0, 0x61, 0, 0x62, 0, 0x63, 0, // wipe V0..V3
        0xF3, 0x65, // load V0..=V3
    ]);
    run(&mut cpu, 6);
    // Stored relative to the index register, not the register operand.
    assert_eq!(cpu.get_memory_byte(0x400), 1);
    assert_eq!(cpu.get_memory_byte(0x401), 2);
    assert_eq!(cpu.get_memory_byte(0x402), 3);
    assert_eq!(cpu.get_memory_byte(0x403), 4);
    run(&mut cpu, 5);
    assert_eq!(cpu.get_register(0), 1);
    assert_eq!(cpu.get_register(1), 2);
    assert_eq!(cpu.get_register(2), 3);
    assert_eq!(cpu.get_register(3), 4);
}

#[test]
fn delay_timer_readback_and_countdown() {
    let mut cpu = boot(&[0x60, 5, 0xF0, 0x15, 0xF0, 0x18, 0xF1, 0x07]);
    run(&mut cpu, 3);
    assert_eq!(cpu.get_delay_timer(), 5);
    assert_eq!(cpu.get_sound_timer(), 5);
    run(&mut cpu, 1);
    assert_eq!(cpu.get_register(1), 5);
    for expected in (0..5).rev() {
        cpu.tick_timers();
        assert_eq!(cpu.get_delay_timer(), expected);
        assert_eq!(cpu.get_sound_timer(), expected);
    }
    // Timers stop at zero.
    cpu.tick_timers();
    assert_eq!(cpu.get_delay_timer(), 0);
    assert_eq!(cpu.get_sound_timer(), 0);
}

#[test]
fn keypress_outside_range_is_rejected() {
    let mut cpu = Cpu::setup_cpu();
    assert_eq!(cpu.keypress(16, true), Err(Chip8Error::InvalidKeyIndex));
    assert_eq!(cpu.keypress(15, true), Ok(()));
    assert!(cpu.is_key_pressed(15));
    assert_eq!(cpu.keypress(15, false), Ok(()));
    assert!(!cpu.is_key_pressed(15));
}

#[test]
fn skip_on_key_state() {
    // EX9E skips only while the key in VX is down.
    let mut cpu = boot(&[0x60, 4, 0xE0, 0x9E]);
    cpu.keypress(4, true).unwrap();
    run(&mut cpu, 2);
    assert_eq!(cpu.get_pc(), 0x206);

    // EXA1 skips only while it is up.
    let mut cpu = boot(&[0x60, 4, 0xE0, 0xA1]);
    run(&mut cpu, 2);
    assert_eq!(cpu.get_pc(), 0x206);
}

#[test]
fn wait_key_rewinds_until_a_key_arrives() {
    let mut cpu = boot(&[0xF0, 0x0A]);
    // No key pressed: a tick makes no net progress.
    run(&mut cpu, 1);
    assert_eq!(cpu.get_pc(), 0x200);
    run(&mut cpu, 1);
    assert_eq!(cpu.get_pc(), 0x200);
    // Two keys down: the lowest index wins and the tick advances.
    cpu.keypress(9, true).unwrap();
    cpu.keypress(5, true).unwrap();
    run(&mut cpu, 1);
    assert_eq!(cpu.get_pc(), 0x202);
    assert_eq!(cpu.get_register(0), 5);
}

#[test]
fn reset_restores_the_initial_state() {
    let mut cpu = boot(&[0x60, 9, 0xA3, 0x00, 0xF0, 0x15, 0x22, 0x0A]);
    run(&mut cpu, 4);
    cpu.keypress(3, true).unwrap();
    assert_ne!(cpu.get_pc(), 0x200);
    cpu.reset();
    assert_eq!(cpu.get_pc(), 0x200);
    assert_eq!(cpu.get_index_register(), 0);
    assert_eq!(cpu.get_stack_depth(), 0);
    assert_eq!(cpu.get_delay_timer(), 0);
    assert_eq!(cpu.get_sound_timer(), 0);
    for i in 0..16 {
        assert_eq!(cpu.get_register(i), 0);
        assert!(!cpu.is_key_pressed(i));
    }
    assert!(cpu.get_display().iter().all(|p| !p));
    // The ROM is gone and the font is back intact.
    assert_eq!(cpu.get_memory_byte(0x200), 0);
    assert_eq!(cpu.get_memory_byte(0), 0xF0);
    assert_eq!(cpu.get_memory_byte(79), 0x80);
}

#[test]
fn can_tick_spots_an_out_of_range_sprite_read() {
    // I = 0xFFF, then a two-row sprite would read past the end of memory.
    let mut cpu = boot(&[0xAF, 0xFF, 0xD0, 0x02]);
    run(&mut cpu, 1);
    assert!(!cpu.can_tick());
}
