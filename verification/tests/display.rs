use chip8::{Cpu, SCREEN_WIDTH};

fn boot(rom: &[u8]) -> Cpu {
    let mut cpu = Cpu::setup_cpu();
    cpu.load_rom(rom).unwrap();
    cpu
}

fn run(cpu: &mut Cpu, ticks: usize) {
    for _ in 0..ticks {
        assert!(cpu.can_tick());
        cpu.tick().unwrap();
    }
}

fn pixel(cpu: &Cpu, x: usize, y: usize) -> bool {
    cpu.get_display()[x + SCREEN_WIDTH * y]
}

/// A one-row, all-ones sprite at (60, 0): columns wrap back to x = 0..=3.
#[test]
fn sprite_wraps_around_the_right_edge() {
    let mut cpu = boot(&[
        0x60, 60, // V0 = 60
        0x61, 0, // V1 = 0
        0xA2, 0x08, // I = 0x208, where the row byte sits
        0xD0, 0x11, // draw 1 row at (V0, V1)
        0xFF, // the sprite row: all eight pixels set
    ]);
    run(&mut cpu, 4);
    for x in 60..64 {
        assert!(pixel(&cpu, x, 0), "pixel {x} should be lit");
    }
    for x in 0..4 {
        assert!(pixel(&cpu, x, 0), "wrapped pixel {x} should be lit");
    }
    for x in 4..60 {
        assert!(!pixel(&cpu, x, 0), "pixel {x} should be dark");
    }
    assert!(cpu.get_display()[SCREEN_WIDTH..].iter().all(|p| !p));
    assert_eq!(cpu.get_register(15), 0);
}

/// A sprite at (62, 30) wraps on both axes at once.
#[test]
fn sprite_wraps_both_axes() {
    let mut cpu = boot(&[
        0x60, 62, // V0 = 62
        0x61, 30, // V1 = 30
        0xA2, 0x08, // I = 0x208
        0xD0, 0x13, // draw 3 rows
        0x80, 0x80, 0x80, // one set pixel per row, leftmost column
    ]);
    run(&mut cpu, 4);
    assert!(pixel(&cpu, 62, 30));
    assert!(pixel(&cpu, 62, 31));
    assert!(pixel(&cpu, 62, 0), "row should wrap to the top");
    assert_eq!(cpu.get_display().iter().filter(|p| **p).count(), 3);
}

/// Drawing the same sprite twice restores the display, and the second draw
/// collides on every pixel it lit.
#[test]
fn drawing_twice_restores_pixels_and_collides() {
    let mut cpu = boot(&[
        0x60, 60, // V0 = 60
        0x61, 0, // V1 = 0
        0xA2, 0x0A, // I = 0x20A
        0xD0, 0x11, // first draw
        0xD0, 0x11, // second draw
        0xFF, // the sprite row
    ]);
    run(&mut cpu, 4);
    assert_eq!(cpu.get_display().iter().filter(|p| **p).count(), 8);
    assert_eq!(cpu.get_register(15), 0);
    run(&mut cpu, 1);
    assert!(cpu.get_display().iter().all(|p| !p));
    assert_eq!(cpu.get_register(15), 1);
}

/// Start coordinates beyond the screen reduce modulo its size before the
/// sprite is placed.
#[test]
fn start_coordinates_wrap_too() {
    let mut cpu = boot(&[
        0x60, 100, // V0 = 100, which lands at column 36
        0x61, 33, // V1 = 33, which lands at row 1
        0xA2, 0x08, // I = 0x208
        0xD0, 0x11, // draw 1 row
        0xFF, // the sprite row
    ]);
    run(&mut cpu, 4);
    for x in 36..44 {
        assert!(pixel(&cpu, x, 1), "pixel {x} should be lit");
    }
    assert_eq!(cpu.get_display().iter().filter(|p| **p).count(), 8);
}

/// 00E0 turns every pixel off.
#[test]
fn clear_screen_blanks_the_display() {
    let mut cpu = boot(&[
        0x60, 0, // V0 = 0
        0xA2, 0x08, // I = 0x208
        0xD0, 0x01, // draw a row at (0, 0)
        0x00, 0xE0, // clear
        0xFF, // the sprite row
    ]);
    run(&mut cpu, 3);
    assert_eq!(cpu.get_display().iter().filter(|p| **p).count(), 8);
    run(&mut cpu, 1);
    assert!(cpu.get_display().iter().all(|p| !p));
}
