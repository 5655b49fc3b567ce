use vstd::prelude::*;

use crate::decode::{spec_decode, Instr};
use crate::error::Chip8Error;
use crate::state::{State, MEM_SIZE, SCREEN_HEIGHT, SCREEN_WIDTH, STACK_LIMIT};
use vstd::arithmetic::div_mod::{
    lemma_fundamental_div_mod, lemma_fundamental_div_mod_converse, lemma_mod_bound,
};

verus! {

/// The 16-bit big-endian instruction word at the program counter.
pub open spec fn fetch_op(s: State) -> u16 {
    ((s.mem[s.pc as int] as int) * 256 + s.mem[s.pc as int + 1] as int) as u16
}

/// The same state with the program counter two bytes further on, as after
/// a fetch or a skip.
pub open spec fn bump_pc(s: State) -> State {
    State { pc: (s.pc + 2) as u16, ..s }
}

/// Whether sprite-row byte `b` has the pixel in column `col` set; column 0
/// is the most significant bit.
pub open spec fn sprite_bit(b: u8, col: int) -> bool {
    (b >> ((7 - col) as u8)) & 1 == 1
}

/// Whether the draw instruction flips display pixel (`px`, `py`), limited
/// to the sprite positions before row `lim_row`, or in row `lim_row` before
/// column `lim_col`.  The sprite's top-left corner is (`x0`, `y0`), both
/// already reduced modulo the screen size; `n` is the sprite height.
/// Coordinates wrap on both axes, so the sprite position that a pixel could
/// come from is unique: its column is `(px - x0) mod 64` and its row is
/// `(py - y0) mod 32`.
pub open spec fn flips_before(
    s: State,
    x0: int,
    y0: int,
    n: int,
    lim_row: int,
    lim_col: int,
    px: int,
    py: int,
) -> bool {
    let col = (px - x0) % 64;
    let row = (py - y0) % 32;
    &&& col < 8
    &&& row < n
    &&& (row < lim_row || (row == lim_row && col < lim_col))
    &&& sprite_bit(s.mem[s.index + row], col)
}

/// Whether the whole draw instruction flips display pixel (`px`, `py`).
pub open spec fn flips(s: State, x0: int, y0: int, n: int, px: int, py: int) -> bool {
    flips_before(s, x0, y0, n, n, 0, px, py)
}

/// `flips_before` over a row-major pixel index instead of coordinates.
pub open spec fn flips_idx_before(
    s: State,
    x0: int,
    y0: int,
    n: int,
    lim_row: int,
    lim_col: int,
    idx: int,
) -> bool {
    flips_before(s, x0, y0, n, lim_row, lim_col, idx % 64, idx / 64)
}

/// Whether any sprite position before (`lim_row`, `lim_col`) turns a lit
/// pixel off.
pub open spec fn collision_before(
    s: State,
    x0: int,
    y0: int,
    n: int,
    lim_row: int,
    lim_col: int,
) -> bool {
    exists|idx: int|
        0 <= idx < SCREEN_WIDTH * SCREEN_HEIGHT && #[trigger] s.disp[idx]
            && flips_idx_before(s, x0, y0, n, lim_row, lim_col, idx)
}

/// Whether the whole draw instruction turns any lit pixel off.
pub open spec fn collision(s: State, x0: int, y0: int, n: int) -> bool {
    collision_before(s, x0, y0, n, n, 0)
}

/// The state after DXYN: every targeted pixel is XORed, and VF reports
/// whether any lit pixel went off.
pub open spec fn draw_state(s: State, x: u8, y: u8, n: u8) -> State {
    let x0 = (s.regs[x as int] as int) % 64;
    let y0 = (s.regs[y as int] as int) % 32;
    State {
        disp: Seq::new(
            (SCREEN_WIDTH * SCREEN_HEIGHT) as nat,
            |idx: int| s.disp[idx] != flips(s, x0, y0, n as int, idx % 64, idx / 64),
        ),
        regs: s.regs.update(15, if collision(s, x0, y0, n as int) { 1u8 } else { 0u8 }),
        ..s
    }
}

/// The lowest pressed key index at or above `k`, or 16 if none is pressed.
pub open spec fn first_key_from(keys: Seq<bool>, k: int) -> int
    decreases 16 - k,
{
    if k < 0 || k >= 16 {
        16
    } else if keys[k] {
        k
    } else {
        first_key_from(keys, k + 1)
    }
}

/// The state after FX0A: if a key is pressed, VX receives the lowest
/// pressed index; otherwise the program counter rewinds by two so the
/// instruction re-executes on the next tick.
pub open spec fn wait_key_state(s: State, x: u8) -> State {
    let f = first_key_from(s.keys, 0);
    if f < 16 {
        State { regs: s.regs.update(x as int, f as u8), ..s }
    } else {
        State { pc: (s.pc - 2) as u16, ..s }
    }
}

/// Memory after FX33: the decimal digits of `vx` land at `i`, `i + 1`,
/// `i + 2`; everything else is untouched.
pub open spec fn bcd_mem(mem: Seq<u8>, i: int, vx: u8) -> Seq<u8> {
    mem.update(i, (vx / 100) as u8).update(i + 1, ((vx / 10) % 10) as u8).update(
        i + 2,
        (vx % 10) as u8,
    )
}

/// Memory after FX55: registers V0..=VX land at `i ..= i + x`; everything
/// else is untouched.
pub open spec fn store_mem(mem: Seq<u8>, i: int, regs: Seq<u8>, x: int) -> Seq<u8> {
    Seq::new(mem.len(), |j: int| if i <= j <= i + x { regs[j - i] } else { mem[j] })
}

/// Registers after FX65: V0..=VX receive `mem[i ..= i + x]`; the rest keep
/// their values.
pub open spec fn load_regs_seq(regs: Seq<u8>, mem: Seq<u8>, i: int, x: int) -> Seq<u8> {
    Seq::new(regs.len(), |k: int| if k <= x { mem[i + k] } else { regs[k] })
}

/// The error an instruction reports, if any: only a call with a full stack
/// or a return with an empty one is rejected.
pub open spec fn instr_err(s: State, i: Instr) -> Option<Chip8Error> {
    match i {
        Instr::Return => if s.stack.len() == 0 {
            Some(Chip8Error::StackUnderflow)
        } else {
            None
        },
        Instr::Call { nnn } => if s.stack.len() >= STACK_LIMIT {
            Some(Chip8Error::StackOverflow)
        } else {
            None
        },
        _ => None,
    }
}

/// The memory and key-index bounds an instruction needs; the caller keeps
/// the index register from running the access off the 4096-byte space.
pub open spec fn instr_safe(s: State, i: Instr) -> bool {
    match i {
        Instr::Draw { x, y, n } => s.index + n <= MEM_SIZE,
        Instr::Bcd { x } => s.index + 2 < MEM_SIZE,
        Instr::StoreRegs { x } => s.index + x < MEM_SIZE,
        Instr::LoadRegs { x } => s.index + x < MEM_SIZE,
        Instr::SkipKey { x } => s.regs[x as int] < 16,
        Instr::SkipNoKey { x } => s.regs[x as int] < 16,
        _ => true,
    }
}

/// The effect of one decoded instruction on state `s`, whose program
/// counter has already moved past the instruction.  `rnd` is the byte the
/// random source produced, relevant to CXNN alone.
pub open spec fn apply_instr(s: State, i: Instr, rnd: u8) -> State {
    match i {
        Instr::ClearScreen => State {
            disp: Seq::new((SCREEN_WIDTH * SCREEN_HEIGHT) as nat, |j: int| false),
            ..s
        },
        Instr::Return => State { pc: s.stack.last(), stack: s.stack.drop_last(), ..s },
        Instr::Jump { nnn } => State { pc: nnn, ..s },
        Instr::Call { nnn } => State { pc: nnn, stack: s.stack.push(s.pc), ..s },
        Instr::SkipEqImm { x, nn } => if s.regs[x as int] == nn {
            bump_pc(s)
        } else {
            s
        },
        Instr::SkipNeImm { x, nn } => if s.regs[x as int] != nn {
            bump_pc(s)
        } else {
            s
        },
        Instr::SkipEqReg { x, y } => if s.regs[x as int] == s.regs[y as int] {
            bump_pc(s)
        } else {
            s
        },
        Instr::SetImm { x, nn } => State { regs: s.regs.update(x as int, nn), ..s },
        Instr::AddImm { x, nn } => State {
            regs: s.regs.update(x as int, ((s.regs[x as int] + nn) % 256) as u8),
            ..s
        },
        Instr::Assign { x, y } => State { regs: s.regs.update(x as int, s.regs[y as int]), ..s },
        Instr::Or { x, y } => State {
            regs: s.regs.update(x as int, s.regs[x as int] | s.regs[y as int]),
            ..s
        },
        Instr::And { x, y } => State {
            regs: s.regs.update(x as int, s.regs[x as int] & s.regs[y as int]),
            ..s
        },
        Instr::Xor { x, y } => State {
            regs: s.regs.update(x as int, s.regs[x as int] ^ s.regs[y as int]),
            ..s
        },
        Instr::AddReg { x, y } => State {
            regs: s.regs.update(
                x as int,
                ((s.regs[x as int] + s.regs[y as int]) % 256) as u8,
            ).update(15, if s.regs[x as int] + s.regs[y as int] > 255 { 1u8 } else { 0u8 }),
            ..s
        },
        Instr::SubReg { x, y } => State {
            regs: s.regs.update(
                x as int,
                ((s.regs[x as int] - s.regs[y as int]) % 256) as u8,
            ).update(15, if s.regs[x as int] < s.regs[y as int] { 0u8 } else { 1u8 }),
            ..s
        },
        Instr::ShiftRight { x } => State {
            regs: s.regs.update(x as int, s.regs[x as int] >> 1u8).update(
                15,
                s.regs[x as int] & 1,
            ),
            ..s
        },
        Instr::SubFrom { x, y } => State {
            regs: s.regs.update(
                x as int,
                ((s.regs[y as int] - s.regs[x as int]) % 256) as u8,
            ).update(15, if s.regs[y as int] < s.regs[x as int] { 0u8 } else { 1u8 }),
            ..s
        },
        Instr::ShiftLeft { x } => State {
            regs: s.regs.update(x as int, s.regs[x as int] << 1u8).update(
                15,
                (s.regs[x as int] >> 7u8) & 1,
            ),
            ..s
        },
        Instr::SkipNeReg { x, y } => if s.regs[x as int] != s.regs[y as int] {
            bump_pc(s)
        } else {
            s
        },
        Instr::SetIndex { nnn } => State { index: nnn, ..s },
        Instr::JumpV0 { nnn } => State { pc: (s.regs[0] + nnn) as u16, ..s },
        Instr::Random { x, nn } => State { regs: s.regs.update(x as int, rnd & nn), ..s },
        Instr::Draw { x, y, n } => draw_state(s, x, y, n),
        Instr::SkipKey { x } => if s.keys[s.regs[x as int] as int] {
            bump_pc(s)
        } else {
            s
        },
        Instr::SkipNoKey { x } => if !s.keys[s.regs[x as int] as int] {
            bump_pc(s)
        } else {
            s
        },
        Instr::ReadDelay { x } => State { regs: s.regs.update(x as int, s.dt), ..s },
        Instr::WaitKey { x } => wait_key_state(s, x),
        Instr::SetDelay { x } => State { dt: s.regs[x as int], ..s },
        Instr::SetSound { x } => State { st: s.regs[x as int], ..s },
        Instr::AddIndex { x } => State {
            index: ((s.index + s.regs[x as int]) % 0x10000) as u16,
            ..s
        },
        Instr::FontAddr { x } => State { index: (s.regs[x as int] * 5) as u16, ..s },
        Instr::Bcd { x } => State {
            mem: bcd_mem(s.mem, s.index as int, s.regs[x as int]),
            ..s
        },
        Instr::StoreRegs { x } => State {
            mem: store_mem(s.mem, s.index as int, s.regs, x as int),
            ..s
        },
        Instr::LoadRegs { x } => State {
            regs: load_regs_seq(s.regs, s.mem, s.index as int, x as int),
            ..s
        },
    }
}

/// One whole tick: fetch the word at the program counter, decode it, and
/// either report the error it raises, leaving the state exactly as it was,
/// or execute it on the state whose program counter has moved past it.
pub open spec fn step(pre: State, rnd: u8) -> Result<State, Chip8Error> {
    match spec_decode(fetch_op(pre)) {
        None => Err(Chip8Error::UnimplementedOpcode),
        Some(i) => match instr_err(pre, i) {
            Some(e) => Err(e),
            None => Ok(apply_instr(bump_pc(pre), i, rnd)),
        },
    }
}

/// Wrapped placement is invertible: the pixel a sprite position lands on,
/// `(base + off) % m`, maps back to the offset it came from.
pub proof fn lemma_wrap_coord(base: int, off: int, m: int)
    requires
        0 <= base < m,
        0 <= off < m,
    ensures
        0 <= (base + off) % m < m,
        ((base + off) % m - base) % m == off,
{
    if base + off < m {
        lemma_fundamental_div_mod_converse(base + off, m, 0, base + off);
        lemma_fundamental_div_mod_converse(off, m, 0, off);
    } else {
        lemma_fundamental_div_mod_converse(base + off, m, 1, base + off - m);
        lemma_fundamental_div_mod_converse(off - m, m, -1, off);
    }
}

/// Only one wrapped coordinate maps back to a given offset: if `px` does,
/// then `px` is where the sprite position landed.
pub proof fn lemma_wrap_coord_unique(base: int, off: int, px: int, m: int)
    requires
        0 <= base < m,
        0 <= off < m,
        0 <= px < m,
        (px - base) % m == off,
    ensures
        px == (base + off) % m,
{
    if px >= base {
        lemma_fundamental_div_mod_converse(px - base, m, 0, px - base);
        lemma_fundamental_div_mod_converse(base + off, m, 0, base + off);
    } else {
        lemma_fundamental_div_mod_converse(px - base, m, -1, px - base + m);
        lemma_fundamental_div_mod_converse(base + off, m, 1, base + off - m);
    }
}

/// Row-major indexing splits back into its coordinates.
pub proof fn lemma_pixel_index(px: int, py: int)
    requires
        0 <= px < 64,
        0 <= py < 32,
    ensures
        0 <= px + 64 * py < 2048,
        (px + 64 * py) % 64 == px,
        (px + 64 * py) / 64 == py,
{
    lemma_fundamental_div_mod_converse(px + 64 * py, 64, py, px);
}

/// A pixel index splits into coordinates that rebuild it.
pub proof fn lemma_pixel_coords(idx: int)
    requires
        0 <= idx < 2048,
    ensures
        0 <= idx % 64 < 64,
        0 <= idx / 64 < 32,
        idx == idx % 64 + 64 * (idx / 64),
{
    lemma_fundamental_div_mod(idx, 64);
    lemma_mod_bound(idx, 64);
}

/// Byte arithmetic wraps at 256: shifting the dividend by one period does
/// not change the remainder.
pub proof fn lemma_wrap_byte(a: int)
    requires
        -256 <= a < 256,
    ensures
        (a + 256) % 256 == a % 256,
{
    if a >= 0 {
        lemma_fundamental_div_mod_converse(a, 256, 0, a);
        lemma_fundamental_div_mod_converse(a + 256, 256, 1, a);
    } else {
        lemma_fundamental_div_mod_converse(a, 256, -1, a + 256);
        lemma_fundamental_div_mod_converse(a + 256, 256, 0, a + 256);
    }
}

/// Everything `first_key_from` promises: it returns the lowest pressed key
/// index at or above `k`, or 16 when none is pressed.
pub proof fn lemma_first_key_from(keys: Seq<bool>, k: int)
    requires
        0 <= k <= 16,
        keys.len() == 16,
    ensures
        k <= first_key_from(keys, k) <= 16,
        first_key_from(keys, k) < 16 ==> keys[first_key_from(keys, k)],
        forall|j: int| k <= j < first_key_from(keys, k) ==> !keys[j],
        first_key_from(keys, k) == 16 ==> forall|j: int| k <= j < 16 ==> !keys[j],
    decreases 16 - k,
{
    if k < 16 && !keys[k] {
        lemma_first_key_from(keys, k + 1);
    }
}

/// What a caller must keep true before a tick: the program counter and the
/// current instruction's memory and key accesses stay inside the machine.
pub open spec fn tick_safe(s: State) -> bool {
    &&& s.pc + 1 < MEM_SIZE
    &&& match spec_decode(fetch_op(s)) {
        None => true,
        Some(i) => instr_safe(s, i),
    }
}

} // verus!
