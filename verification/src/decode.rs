use vstd::prelude::*;

verus! {

/// One decoded instruction of the 35-opcode set.  `x` and `y` name general
/// registers, `nn` is an 8-bit immediate, `nnn` a 12-bit address, and `n`
/// the height of a sprite.
#[derive(Clone, Copy, Debug, PartialEq, Eq, Structural)]
pub enum Instr {
    /// 00E0: clear the display.
    ClearScreen,
    /// 00EE: pop the return address into the program counter.
    Return,
    /// 1NNN: jump.
    Jump { nnn: u16 },
    /// 2NNN: push the program counter, then jump.
    Call { nnn: u16 },
    /// 3XNN: skip the next instruction if VX == NN.
    SkipEqImm { x: u8, nn: u8 },
    /// 4XNN: skip the next instruction if VX != NN.
    SkipNeImm { x: u8, nn: u8 },
    /// 5XY0: skip the next instruction if VX == VY.
    SkipEqReg { x: u8, y: u8 },
    /// 6XNN: VX = NN.
    SetImm { x: u8, nn: u8 },
    /// 7XNN: VX = VX + NN, wrapping, no flag.
    AddImm { x: u8, nn: u8 },
    /// 8XY0: VX = VY.
    Assign { x: u8, y: u8 },
    /// 8XY1: VX = VX | VY.
    Or { x: u8, y: u8 },
    /// 8XY2: VX = VX & VY.
    And { x: u8, y: u8 },
    /// 8XY3: VX = VX ^ VY.
    Xor { x: u8, y: u8 },
    /// 8XY4: VX = VX + VY, wrapping; VF = 1 on carry, else 0.
    AddReg { x: u8, y: u8 },
    /// 8XY5: VX = VX - VY, wrapping; VF = 0 on borrow, else 1.
    SubReg { x: u8, y: u8 },
    /// 8XY6: VF = low bit of VX, then VX >>= 1.
    ShiftRight { x: u8 },
    /// 8XY7: VX = VY - VX, wrapping; VF = 0 on borrow, else 1.
    SubFrom { x: u8, y: u8 },
    /// 8XYE: VF = high bit of VX, then VX <<= 1.
    ShiftLeft { x: u8 },
    /// 9XY0: skip the next instruction if VX != VY.
    SkipNeReg { x: u8, y: u8 },
    /// ANNN: index register = NNN.
    SetIndex { nnn: u16 },
    /// BNNN: program counter = V0 + NNN.
    JumpV0 { nnn: u16 },
    /// CXNN: VX = random byte & NN.
    Random { x: u8, nn: u8 },
    /// DXYN: draw an 8-pixel-wide, N-row sprite at (VX, VY).
    Draw { x: u8, y: u8, n: u8 },
    /// EX9E: skip the next instruction if key VX is pressed.
    SkipKey { x: u8 },
    /// EXA1: skip the next instruction if key VX is not pressed.
    SkipNoKey { x: u8 },
    /// FX07: VX = delay timer.
    ReadDelay { x: u8 },
    /// FX0A: wait for a key by re-executing until one is pressed.
    WaitKey { x: u8 },
    /// FX15: delay timer = VX.
    SetDelay { x: u8 },
    /// FX18: sound timer = VX.
    SetSound { x: u8 },
    /// FX1E: index register += VX, wrapping at 16 bits.
    AddIndex { x: u8 },
    /// FX29: index register = VX * 5, the glyph base address.
    FontAddr { x: u8 },
    /// FX33: write the decimal digits of VX to memory at the index register.
    Bcd { x: u8 },
    /// FX55: store V0..=VX into memory at the index register.
    StoreRegs { x: u8 },
    /// FX65: load V0..=VX from memory at the index register.
    LoadRegs { x: u8 },
}

/// Register operands are register indices and a sprite height is a nibble.
pub open spec fn instr_wf(i: Instr) -> bool {
    match i {
        Instr::ClearScreen => true,
        Instr::Return => true,
        Instr::Jump { nnn } => nnn < 0x1000,
        Instr::Call { nnn } => nnn < 0x1000,
        Instr::SkipEqImm { x, nn } => x < 16,
        Instr::SkipNeImm { x, nn } => x < 16,
        Instr::SkipEqReg { x, y } => x < 16 && y < 16,
        Instr::SetImm { x, nn } => x < 16,
        Instr::AddImm { x, nn } => x < 16,
        Instr::Assign { x, y } => x < 16 && y < 16,
        Instr::Or { x, y } => x < 16 && y < 16,
        Instr::And { x, y } => x < 16 && y < 16,
        Instr::Xor { x, y } => x < 16 && y < 16,
        Instr::AddReg { x, y } => x < 16 && y < 16,
        Instr::SubReg { x, y } => x < 16 && y < 16,
        Instr::ShiftRight { x } => x < 16,
        Instr::SubFrom { x, y } => x < 16 && y < 16,
        Instr::ShiftLeft { x } => x < 16,
        Instr::SkipNeReg { x, y } => x < 16 && y < 16,
        Instr::SetIndex { nnn } => nnn < 0x1000,
        Instr::JumpV0 { nnn } => nnn < 0x1000,
        Instr::Random { x, nn } => x < 16,
        Instr::Draw { x, y, n } => x < 16 && y < 16 && n < 16,
        Instr::SkipKey { x } => x < 16,
        Instr::SkipNoKey { x } => x < 16,
        Instr::ReadDelay { x } => x < 16,
        Instr::WaitKey { x } => x < 16,
        Instr::SetDelay { x } => x < 16,
        Instr::SetSound { x } => x < 16,
        Instr::AddIndex { x } => x < 16,
        Instr::FontAddr { x } => x < 16,
        Instr::Bcd { x } => x < 16,
        Instr::StoreRegs { x } => x < 16,
        Instr::LoadRegs { x } => x < 16,
    }
}

/// Decoding of a 16-bit big-endian instruction word, nibble by nibble.
/// `None` is an unimplemented opcode.
pub open spec fn spec_decode(op: u16) -> Option<Instr> {
    let n1 = op / 0x1000;
    let x = ((op / 0x100) % 0x10) as u8;
    let y = ((op / 0x10) % 0x10) as u8;
    let n4 = op % 0x10;
    let nn = (op % 0x100) as u8;
    let nnn = op % 0x1000;
    if op == 0x00E0 {
        Some(Instr::ClearScreen)
    } else if op == 0x00EE {
        Some(Instr::Return)
    } else if n1 == 0x1 {
        Some(Instr::Jump { nnn })
    } else if n1 == 0x2 {
        Some(Instr::Call { nnn })
    } else if n1 == 0x3 {
        Some(Instr::SkipEqImm { x, nn })
    } else if n1 == 0x4 {
        Some(Instr::SkipNeImm { x, nn })
    } else if n1 == 0x5 && n4 == 0x0 {
        Some(Instr::SkipEqReg { x, y })
    } else if n1 == 0x6 {
        Some(Instr::SetImm { x, nn })
    } else if n1 == 0x7 {
        Some(Instr::AddImm { x, nn })
    } else if n1 == 0x8 && n4 == 0x0 {
        Some(Instr::Assign { x, y })
    } else if n1 == 0x8 && n4 == 0x1 {
        Some(Instr::Or { x, y })
    } else if n1 == 0x8 && n4 == 0x2 {
        Some(Instr::And { x, y })
    } else if n1 == 0x8 && n4 == 0x3 {
        Some(Instr::Xor { x, y })
    } else if n1 == 0x8 && n4 == 0x4 {
        Some(Instr::AddReg { x, y })
    } else if n1 == 0x8 && n4 == 0x5 {
        Some(Instr::SubReg { x, y })
    } else if n1 == 0x8 && n4 == 0x6 {
        Some(Instr::ShiftRight { x })
    } else if n1 == 0x8 && n4 == 0x7 {
        Some(Instr::SubFrom { x, y })
    } else if n1 == 0x8 && n4 == 0xE {
        Some(Instr::ShiftLeft { x })
    } else if n1 == 0x9 && n4 == 0x0 {
        Some(Instr::SkipNeReg { x, y })
    } else if n1 == 0xA {
        Some(Instr::SetIndex { nnn })
    } else if n1 == 0xB {
        Some(Instr::JumpV0 { nnn })
    } else if n1 == 0xC {
        Some(Instr::Random { x, nn })
    } else if n1 == 0xD {
        Some(Instr::Draw { x, y, n: n4 as u8 })
    } else if n1 == 0xE && nn == 0x9E {
        Some(Instr::SkipKey { x })
    } else if n1 == 0xE && nn == 0xA1 {
        Some(Instr::SkipNoKey { x })
    } else if n1 == 0xF && nn == 0x07 {
        Some(Instr::ReadDelay { x })
    } else if n1 == 0xF && nn == 0x0A {
        Some(Instr::WaitKey { x })
    } else if n1 == 0xF && nn == 0x15 {
        Some(Instr::SetDelay { x })
    } else if n1 == 0xF && nn == 0x18 {
        Some(Instr::SetSound { x })
    } else if n1 == 0xF && nn == 0x1E {
        Some(Instr::AddIndex { x })
    } else if n1 == 0xF && nn == 0x29 {
        Some(Instr::FontAddr { x })
    } else if n1 == 0xF && nn == 0x33 {
        Some(Instr::Bcd { x })
    } else if n1 == 0xF && nn == 0x55 {
        Some(Instr::StoreRegs { x })
    } else if n1 == 0xF && nn == 0x65 {
        Some(Instr::LoadRegs { x })
    } else {
        None
    }
}

/// Whatever decodes, decodes to a well-formed instruction.
pub proof fn lemma_decode_wf(op: u16)
    ensures
        spec_decode(op) matches Some(i) ==> instr_wf(i),
{
}

/// Executable decoder, faithful to `spec_decode`.
pub fn decode(op: u16) -> (r: Option<Instr>)
    ensures
        r == spec_decode(op),
        r matches Some(i) ==> instr_wf(i),
{
    let n1 = op / 0x1000;
    let x = ((op / 0x100) % 0x10) as u8;
    let y = ((op / 0x10) % 0x10) as u8;
    let n4 = op % 0x10;
    let nn = (op % 0x100) as u8;
    let nnn = op % 0x1000;
    if op == 0x00E0 {
        Some(Instr::ClearScreen)
    } else if op == 0x00EE {
        Some(Instr::Return)
    } else if n1 == 0x1 {
        Some(Instr::Jump { nnn })
    } else if n1 == 0x2 {
        Some(Instr::Call { nnn })
    } else if n1 == 0x3 {
        Some(Instr::SkipEqImm { x, nn })
    } else if n1 == 0x4 {
        Some(Instr::SkipNeImm { x, nn })
    } else if n1 == 0x5 && n4 == 0x0 {
        Some(Instr::SkipEqReg { x, y })
    } else if n1 == 0x6 {
        Some(Instr::SetImm { x, nn })
    } else if n1 == 0x7 {
        Some(Instr::AddImm { x, nn })
    } else if n1 == 0x8 && n4 == 0x0 {
        Some(Instr::Assign { x, y })
    } else if n1 == 0x8 && n4 == 0x1 {
        Some(Instr::Or { x, y })
    } else if n1 == 0x8 && n4 == 0x2 {
        Some(Instr::And { x, y })
    } else if n1 == 0x8 && n4 == 0x3 {
        Some(Instr::Xor { x, y })
    } else if n1 == 0x8 && n4 == 0x4 {
        Some(Instr::AddReg { x, y })
    } else if n1 == 0x8 && n4 == 0x5 {
        Some(Instr::SubReg { x, y })
    } else if n1 == 0x8 && n4 == 0x6 {
        Some(Instr::ShiftRight { x })
    } else if n1 == 0x8 && n4 == 0x7 {
        Some(Instr::SubFrom { x, y })
    } else if n1 == 0x8 && n4 == 0xE {
        Some(Instr::ShiftLeft { x })
    } else if n1 == 0x9 && n4 == 0x0 {
        Some(Instr::SkipNeReg { x, y })
    } else if n1 == 0xA {
        Some(Instr::SetIndex { nnn })
    } else if n1 == 0xB {
        Some(Instr::JumpV0 { nnn })
    } else if n1 == 0xC {
        Some(Instr::Random { x, nn })
    } else if n1 == 0xD {
        Some(Instr::Draw { x, y, n: n4 as u8 })
    } else if n1 == 0xE && nn == 0x9E {
        Some(Instr::SkipKey { x })
    } else if n1 == 0xE && nn == 0xA1 {
        Some(Instr::SkipNoKey { x })
    } else if n1 == 0xF && nn == 0x07 {
        Some(Instr::ReadDelay { x })
    } else if n1 == 0xF && nn == 0x0A {
        Some(Instr::WaitKey { x })
    } else if n1 == 0xF && nn == 0x15 {
        Some(Instr::SetDelay { x })
    } else if n1 == 0xF && nn == 0x18 {
        Some(Instr::SetSound { x })
    } else if n1 == 0xF && nn == 0x1E {
        Some(Instr::AddIndex { x })
    } else if n1 == 0xF && nn == 0x29 {
        Some(Instr::FontAddr { x })
    } else if n1 == 0xF && nn == 0x33 {
        Some(Instr::Bcd { x })
    } else if n1 == 0xF && nn == 0x55 {
        Some(Instr::StoreRegs { x })
    } else if n1 == 0xF && nn == 0x65 {
        Some(Instr::LoadRegs { x })
    } else {
        None
    }
}

} // verus!
