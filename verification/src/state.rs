use vstd::prelude::*;

verus! {

/// Width of the display in pixels.
pub const SCREEN_WIDTH: usize = 64;

/// Height of the display in pixels.
pub const SCREEN_HEIGHT: usize = 32;

/// Size of the addressable memory in bytes.
pub const MEM_SIZE: usize = 4096;

/// Number of general-purpose byte registers.
pub const NUM_REGS: usize = 16;

/// Capacity of the call stack, in return addresses.
pub const STACK_LIMIT: usize = 16;

/// Number of key lines on the input panel.
pub const NUM_KEYS: usize = 16;

/// Address at which program bytes begin; everything below it is reserved
/// for the built-in font.
pub const START_ADDR: u16 = 0x200;

/// Number of bytes the built-in font occupies: 16 glyphs of 5 bytes each.
pub const FONT_SIZE: usize = 80;

/// Largest ROM that fits between `START_ADDR` and the end of memory.
pub const MAX_ROM_SIZE: usize = 3584;

/// The mathematical model of the machine: every contract of the interpreter
/// is stated over values of this type.
#[verifier::ext_equal]
pub ghost struct State {
    /// The 4096-byte memory.
    pub mem: Seq<u8>,
    /// The 64x32 display, row-major: pixel (x, y) is `disp[x + 64 * y]`.
    pub disp: Seq<bool>,
    /// The program counter.
    pub pc: u16,
    /// The live portion of the call stack; the stack pointer is its length.
    pub stack: Seq<u16>,
    /// The index register.
    pub index: u16,
    /// The sixteen general registers V0..VF.
    pub regs: Seq<u8>,
    /// The delay timer.
    pub dt: u8,
    /// The sound timer.
    pub st: u8,
    /// The sixteen key lines.
    pub keys: Seq<bool>,
}

/// Structural well-formedness: every container has its fixed size and the
/// stack stays within its 16-entry capacity.
pub open spec fn state_wf(s: State) -> bool {
    &&& s.mem.len() == MEM_SIZE
    &&& s.disp.len() == SCREEN_WIDTH * SCREEN_HEIGHT
    &&& s.stack.len() <= STACK_LIMIT
    &&& s.regs.len() == NUM_REGS
    &&& s.keys.len() == NUM_KEYS
}

/// The built-in 16-glyph font, 5 bytes per glyph.
pub open spec fn font() -> Seq<u8> {
    seq![
        0xF0u8, 0x90, 0x90, 0x90, 0xF0, // 0
        0x20, 0x60, 0x20, 0x20, 0x70, // 1
        0xF0, 0x10, 0xF0, 0x80, 0xF0, // 2
        0xF0, 0x10, 0xF0, 0x10, 0xF0, // 3
        0x90, 0x90, 0xF0, 0x10, 0x10, // 4
        0xF0, 0x80, 0xF0, 0x10, 0xF0, // 5
        0xF0, 0x80, 0xF0, 0x90, 0xF0, // 6
        0xF0, 0x10, 0x20, 0x40, 0x40, // 7
        0xF0, 0x90, 0xF0, 0x90, 0xF0, // 8
        0xF0, 0x90, 0xF0, 0x10, 0xF0, // 9
        0xF0, 0x90, 0xF0, 0x90, 0x90, // A
        0xE0, 0x90, 0xE0, 0x90, 0xE0, // B
        0xF0, 0x80, 0x80, 0x80, 0xF0, // C
        0xE0, 0x90, 0x90, 0x90, 0xE0, // D
        0xF0, 0x80, 0xF0, 0x80, 0xF0, // E
        0xF0, 0x80, 0xF0, 0x80, 0x80, // F
    ]
}

/// Memory as construction leaves it: the font in bytes 0..80, zero above.
pub open spec fn init_mem() -> Seq<u8> {
    Seq::new(MEM_SIZE as nat, |j: int| if j < FONT_SIZE { font()[j] } else { 0u8 })
}

/// Memory after a ROM load: the buffer sits verbatim from `START_ADDR`
/// upward, and every byte outside it keeps its value.
pub open spec fn rom_loaded_mem(mem: Seq<u8>, rom: Seq<u8>) -> Seq<u8> {
    Seq::new(
        mem.len(),
        |j: int| if START_ADDR <= j < START_ADDR + rom.len() {
            rom[j - START_ADDR]
        } else {
            mem[j]
        },
    )
}

/// The state a fresh machine holds, and the state `reset` restores.
pub open spec fn init_state() -> State {
    State {
        mem: init_mem(),
        disp: Seq::new((SCREEN_WIDTH * SCREEN_HEIGHT) as nat, |j: int| false),
        pc: START_ADDR,
        stack: Seq::empty(),
        index: 0,
        regs: Seq::new(NUM_REGS as nat, |j: int| 0u8),
        dt: 0,
        st: 0,
        keys: Seq::new(NUM_KEYS as nat, |j: int| false),
    }
}

} // verus!
