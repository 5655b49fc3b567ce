use vstd::prelude::*;

use crate::decode::{decode, instr_wf, Instr};
use crate::error::Chip8Error;
use crate::state::{
    font, init_mem, init_state, rom_loaded_mem, state_wf, State, FONT_SIZE, MAX_ROM_SIZE, MEM_SIZE,
    NUM_KEYS, NUM_REGS, SCREEN_HEIGHT, SCREEN_WIDTH, STACK_LIMIT, START_ADDR,
};
use crate::step::{
    apply_instr, bcd_mem, bump_pc, collision_before, draw_state, fetch_op, first_key_from, flips,
    flips_idx_before, instr_err, instr_safe, lemma_pixel_coords, lemma_pixel_index,
    lemma_wrap_byte, lemma_wrap_coord, lemma_wrap_coord_unique, load_regs_seq, step, store_mem,
    tick_safe, wait_key_state,
};

verus! {

/// The CHIP-8 machine: memory, display, registers, call stack, timers and
/// key lines, driven one instruction at a time through `tick`.
pub struct Cpu {
    memory: Vec<u8>,
    display: Vec<bool>,
    pc: u16,
    stack: Vec<u16>,
    index_register: u16,
    variable_registers: Vec<u8>,
    delay_timer: u8,
    sound_timer: u8,
    keys: Vec<bool>,
}

impl View for Cpu {
    type V = State;

    closed spec fn view(&self) -> State {
        State {
            mem: self.memory@,
            disp: self.display@,
            pc: self.pc,
            stack: self.stack@,
            index: self.index_register,
            regs: self.variable_registers@,
            dt: self.delay_timer,
            st: self.sound_timer,
            keys: self.keys@,
        }
    }
}

/// A vector of `n` copies of `val`.
fn byte_fill(n: usize, val: u8) -> (v: Vec<u8>)
    ensures
        v@ == Seq::new(n as nat, |i: int| val),
{
    let mut v: Vec<u8> = Vec::new();
    let mut k: usize = 0;
    while k < n
        invariant
            k <= n,
            v@.len() == k,
            forall|i: int| 0 <= i < k ==> v@[i] == val,
        decreases n - k,
    {
        v.push(val);
        k = k + 1;
    }
    proof {
        assert(v@ =~= Seq::new(n as nat, |i: int| val));
    }
    v
}

/// A vector of `n` unlit cells.
fn bool_fill(n: usize) -> (v: Vec<bool>)
    ensures
        v@ == Seq::new(n as nat, |i: int| false),
{
    let mut v: Vec<bool> = Vec::new();
    let mut k: usize = 0;
    while k < n
        invariant
            k <= n,
            v@.len() == k,
            forall|i: int| 0 <= i < k ==> v@[i] == false,
        decreases n - k,
    {
        v.push(false);
        k = k + 1;
    }
    proof {
        assert(v@ =~= Seq::new(n as nat, |i: int| false));
    }
    v
}

/// The built-in font as bytes, equal to the `font` glyph sequence.
fn font_vec() -> (v: Vec<u8>)
    ensures
        v@ == font(),
{
    let mut v: Vec<u8> = Vec::new();
    v.push(0xF0);
    v.push(0x90);
    v.push(0x90);
    v.push(0x90);
    v.push(0xF0);
    v.push(0x20);
    v.push(0x60);
    v.push(0x20);
    v.push(0x20);
    v.push(0x70);
    v.push(0xF0);
    v.push(0x10);
    v.push(0xF0);
    v.push(0x80);
    v.push(0xF0);
    v.push(0xF0);
    v.push(0x10);
    v.push(0xF0);
    v.push(0x10);
    v.push(0xF0);
    v.push(0x90);
    v.push(0x90);
    v.push(0xF0);
    v.push(0x10);
    v.push(0x10);
    v.push(0xF0);
    v.push(0x80);
    v.push(0xF0);
    v.push(0x10);
    v.push(0xF0);
    v.push(0xF0);
    v.push(0x80);
    v.push(0xF0);
    v.push(0x90);
    v.push(0xF0);
    v.push(0xF0);
    v.push(0x10);
    v.push(0x20);
    v.push(0x40);
    v.push(0x40);
    v.push(0xF0);
    v.push(0x90);
    v.push(0xF0);
    v.push(0x90);
    v.push(0xF0);
    v.push(0xF0);
    v.push(0x90);
    v.push(0xF0);
    v.push(0x10);
    v.push(0xF0);
    v.push(0xF0);
    v.push(0x90);
    v.push(0xF0);
    v.push(0x90);
    v.push(0x90);
    v.push(0xE0);
    v.push(0x90);
    v.push(0xE0);
    v.push(0x90);
    v.push(0xE0);
    v.push(0xF0);
    v.push(0x80);
    v.push(0x80);
    v.push(0x80);
    v.push(0xF0);
    v.push(0xE0);
    v.push(0x90);
    v.push(0x90);
    v.push(0x90);
    v.push(0xE0);
    v.push(0xF0);
    v.push(0x80);
    v.push(0xF0);
    v.push(0x80);
    v.push(0xF0);
    v.push(0xF0);
    v.push(0x80);
    v.push(0xF0);
    v.push(0x80);
    v.push(0x80);
    proof {
        assert(v@ =~= font());
    }
    v
}

/// Zeroed memory with the font installed in its first 80 bytes.
fn fresh_memory() -> (v: Vec<u8>)
    ensures
        v@ == init_mem(),
{
    let mut v = byte_fill(MEM_SIZE, 0);
    let glyphs = font_vec();
    let mut k: usize = 0;
    while k < FONT_SIZE
        invariant
            k <= FONT_SIZE,
            v@.len() == MEM_SIZE,
            glyphs@ == font(),
            forall|j: int| 0 <= j < k ==> v@[j] == font()[j],
            forall|j: int| k <= j < MEM_SIZE ==> v@[j] == 0u8,
        decreases FONT_SIZE - k,
    {
        v.set(k, glyphs[k]);
        k = k + 1;
    }
    proof {
        assert(v@ =~= init_mem());
    }
    v
}

impl Cpu {
    /// Structural well-formedness of the machine's containers.
    pub open spec fn wf(&self) -> bool {
        state_wf(self@)
    }

    /// A fresh machine: everything zeroed, the font installed, and the
    /// program counter at the start of program space.
    pub fn setup_cpu() -> (cpu: Cpu)
        ensures
            cpu.wf(),
            cpu@ == init_state(),
    {
        let cpu = Cpu {
            memory: fresh_memory(),
            display: bool_fill(SCREEN_WIDTH * SCREEN_HEIGHT),
            pc: START_ADDR,
            stack: Vec::new(),
            index_register: 0,
            variable_registers: byte_fill(NUM_REGS, 0),
            delay_timer: 0,
            sound_timer: 0,
            keys: bool_fill(NUM_KEYS),
        };
        proof {
            assert(cpu@ =~= init_state());
        }
        cpu
    }

    /// Return the machine to the exact state `setup_cpu` built, whatever
    /// it has executed since.
    pub fn reset(&mut self)
        ensures
            final(self).wf(),
            final(self)@ == init_state(),
    {
        self.memory = fresh_memory();
        self.display = bool_fill(SCREEN_WIDTH * SCREEN_HEIGHT);
        self.pc = START_ADDR;
        self.stack = Vec::new();
        self.index_register = 0;
        self.variable_registers = byte_fill(NUM_REGS, 0);
        self.delay_timer = 0;
        self.sound_timer = 0;
        self.keys = bool_fill(NUM_KEYS);
        proof {
            assert(self@ =~= init_state());
        }
    }

    /// The instruction word at the program counter, read without advancing.
    fn fetch(&self) -> (op: u16)
        requires
            self.wf(),
            self@.pc + 1 < MEM_SIZE,
        ensures
            op == fetch_op(self@),
    {
        let pc = self.pc as usize;
        let hi = self.memory[pc];
        let lo = self.memory[pc + 1];
        (hi as u16) * 256 + (lo as u16)
    }

    /// Append a return address; the caller keeps the stack under its
    /// 16-entry capacity.
    fn push(&mut self, val: u16)
        requires
            old(self).wf(),
            old(self)@.stack.len() < STACK_LIMIT,
        ensures
            final(self).wf(),
            final(self)@ == (State { stack: old(self)@.stack.push(val), ..old(self)@ }),
    {
        self.stack.push(val);
        proof {
            assert(self@ =~= (State { stack: old(self)@.stack.push(val), ..old(self)@ }));
        }
    }

    /// Remove and return the most recent return address; the caller keeps
    /// the stack non-empty.
    fn pop(&mut self) -> (val: u16)
        requires
            old(self).wf(),
            old(self)@.stack.len() > 0,
        ensures
            final(self).wf(),
            val == old(self)@.stack.last(),
            final(self)@ == (State { stack: old(self)@.stack.drop_last(), ..old(self)@ }),
    {
        let val = self.stack.pop().unwrap();
        proof {
            assert(self@ =~= (State { stack: old(self)@.stack.drop_last(), ..old(self)@ }));
        }
        val
    }

    /// Turn every pixel off.
    fn clear_screen(&mut self)
        requires
            old(self).wf(),
        ensures
            final(self).wf(),
            final(self)@ == (State {
                disp: Seq::new((SCREEN_WIDTH * SCREEN_HEIGHT) as nat, |j: int| false),
                ..old(self)@
            }),
    {
        self.display = bool_fill(SCREEN_WIDTH * SCREEN_HEIGHT);
        proof {
            assert(self@ =~= (State {
                disp: Seq::new((SCREEN_WIDTH * SCREEN_HEIGHT) as nat, |j: int| false),
                ..old(self)@
            }));
        }
    }

    /// Advance both countdown timers by one external cadence step: each
    /// decrements while above zero and stays at zero once there.
    pub fn tick_timers(&mut self)
        requires
            old(self).wf(),
        ensures
            final(self).wf(),
            final(self)@ == (State {
                dt: if old(self)@.dt > 0 { (old(self)@.dt - 1) as u8 } else { 0u8 },
                st: if old(self)@.st > 0 { (old(self)@.st - 1) as u8 } else { 0u8 },
                ..old(self)@
            }),
    {
        if self.delay_timer > 0 {
            self.delay_timer = self.delay_timer - 1;
        }
        if self.sound_timer > 0 {
            self.sound_timer = self.sound_timer - 1;
        }
        proof {
            assert(self@ =~= (State {
                dt: if old(self)@.dt > 0 { (old(self)@.dt - 1) as u8 } else { 0u8 },
                st: if old(self)@.st > 0 { (old(self)@.st - 1) as u8 } else { 0u8 },
                ..old(self)@
            }));
        }
    }

    /// Copy a ROM into memory at the start of program space.  A buffer
    /// longer than the 3584 available bytes is rejected whole, before any
    /// byte of memory changes.
    pub fn load_rom(&mut self, data: &[u8]) -> (r: Result<(), Chip8Error>)
        requires
            old(self).wf(),
        ensures
            final(self).wf(),
            data@.len() > MAX_ROM_SIZE ==> r == Err::<(), Chip8Error>(Chip8Error::RomTooLarge)
                && final(self)@ == old(self)@,
            data@.len() <= MAX_ROM_SIZE ==> r == Ok::<(), Chip8Error>(()) && final(self)@
                == (State { mem: rom_loaded_mem(old(self)@.mem, data@), ..old(self)@ }),
    {
        if data.len() > MAX_ROM_SIZE {
            return Err(Chip8Error::RomTooLarge);
        }
        let mut k: usize = 0;
        while k < data.len()
            invariant
                old(self).wf(),
                data@.len() <= MAX_ROM_SIZE,
                k <= data@.len(),
                self@.mem.len() == MEM_SIZE,
                self@ == (State { mem: self@.mem, ..old(self)@ }),
                forall|j: int|
                    0 <= j < MEM_SIZE ==> self@.mem[j] == if START_ADDR <= j < START_ADDR + k {
                        data@[j - START_ADDR]
                    } else {
                        old(self)@.mem[j]
                    },
            decreases data@.len() - k,
        {
            self.memory.set(START_ADDR as usize + k, data[k]);
            k = k + 1;
        }
        proof {
            assert(self@ =~= (State {
                mem: rom_loaded_mem(old(self)@.mem, data@),
                ..old(self)@
            }));
        }
        Ok(())
    }

    /// The display, row-major: pixel (x, y) is element `x + 64 * y`.
    pub fn get_display(&self) -> (r: &[bool])
        ensures
            r@ == self@.disp,
    {
        self.display.as_slice()
    }

    /// Record a key going down or up.  An index outside the 16 key lines
    /// is rejected at this boundary and never reaches dispatch.
    pub fn keypress(&mut self, idx: usize, pressed: bool) -> (r: Result<(), Chip8Error>)
        requires
            old(self).wf(),
        ensures
            final(self).wf(),
            idx >= NUM_KEYS ==> r == Err::<(), Chip8Error>(Chip8Error::InvalidKeyIndex)
                && final(self)@ == old(self)@,
            idx < NUM_KEYS ==> r == Ok::<(), Chip8Error>(()) && final(self)@
                == (State { keys: old(self)@.keys.update(idx as int, pressed), ..old(self)@ }),
    {
        if idx >= NUM_KEYS {
            return Err(Chip8Error::InvalidKeyIndex);
        }
        self.keys.set(idx, pressed);
        proof {
            assert(self@ =~= (State {
                keys: old(self)@.keys.update(idx as int, pressed),
                ..old(self)@
            }));
        }
        Ok(())
    }

    /// FX33: write the decimal digits of VX at the index register.
    fn op_bcd(&mut self, x: u8)
        requires
            old(self).wf(),
            x < 16,
            old(self)@.index + 2 < MEM_SIZE,
        ensures
            final(self).wf(),
            final(self)@ == (State {
                mem: bcd_mem(old(self)@.mem, old(self)@.index as int, old(self)@.regs[x as int]),
                ..old(self)@
            }),
    {
        let vx = self.variable_registers[x as usize];
        let i = self.index_register as usize;
        self.memory.set(i, vx / 100);
        self.memory.set(i + 1, (vx / 10) % 10);
        self.memory.set(i + 2, vx % 10);
        proof {
            assert(self@ =~= (State {
                mem: bcd_mem(old(self)@.mem, old(self)@.index as int, old(self)@.regs[x as int]),
                ..old(self)@
            }));
        }
    }

    /// FX55: store V0..=VX into memory at the index register.
    fn op_store(&mut self, x: u8)
        requires
            old(self).wf(),
            x < 16,
            old(self)@.index + x < MEM_SIZE,
        ensures
            final(self).wf(),
            final(self)@ == (State {
                mem: store_mem(old(self)@.mem, old(self)@.index as int, old(self)@.regs, x as int),
                ..old(self)@
            }),
    {
        let i = self.index_register as usize;
        let mut k: usize = 0;
        while k <= x as usize
            invariant
                old(self).wf(),
                x < 16,
                old(self)@.index + x < MEM_SIZE,
                i == old(self)@.index,
                k <= x as usize + 1,
                self@.mem.len() == MEM_SIZE,
                self@ == (State { mem: self@.mem, ..old(self)@ }),
                forall|j: int|
                    0 <= j < MEM_SIZE ==> self@.mem[j] == if i <= j < i + k {
                        old(self)@.regs[j - i]
                    } else {
                        old(self)@.mem[j]
                    },
            decreases x as usize + 1 - k,
        {
            let val = self.variable_registers[k];
            self.memory.set(i + k, val);
            k = k + 1;
        }
        proof {
            assert(self@.mem =~= store_mem(
                old(self)@.mem,
                old(self)@.index as int,
                old(self)@.regs,
                x as int,
            ));
            assert(self@ =~= (State {
                mem: store_mem(old(self)@.mem, old(self)@.index as int, old(self)@.regs, x as int),
                ..old(self)@
            }));
        }
    }

    /// FX65: load V0..=VX from memory at the index register.
    fn op_load(&mut self, x: u8)
        requires
            old(self).wf(),
            x < 16,
            old(self)@.index + x < MEM_SIZE,
        ensures
            final(self).wf(),
            final(self)@ == (State {
                regs: load_regs_seq(
                    old(self)@.regs,
                    old(self)@.mem,
                    old(self)@.index as int,
                    x as int,
                ),
                ..old(self)@
            }),
    {
        let i = self.index_register as usize;
        let mut k: usize = 0;
        while k <= x as usize
            invariant
                old(self).wf(),
                x < 16,
                old(self)@.index + x < MEM_SIZE,
                i == old(self)@.index,
                k <= x as usize + 1,
                self@.regs.len() == NUM_REGS,
                self@ == (State { regs: self@.regs, ..old(self)@ }),
                forall|j: int|
                    0 <= j < NUM_REGS ==> self@.regs[j] == if 0 <= j < k {
                        old(self)@.mem[i + j]
                    } else {
                        old(self)@.regs[j]
                    },
            decreases x as usize + 1 - k,
        {
            let val = self.memory[i + k];
            self.variable_registers.set(k, val);
            k = k + 1;
        }
        proof {
            assert(self@.regs =~= load_regs_seq(
                old(self)@.regs,
                old(self)@.mem,
                old(self)@.index as int,
                x as int,
            ));
            assert(self@ =~= (State {
                regs: load_regs_seq(
                    old(self)@.regs,
                    old(self)@.mem,
                    old(self)@.index as int,
                    x as int,
                ),
                ..old(self)@
            }));
        }
    }

    /// DXYN: XOR-draw an 8-pixel-wide, `n`-row sprite read from memory at
    /// the index register, its top-left corner at (VX, VY), wrapping on
    /// both axes; VF reports whether any lit pixel went off.
    #[verifier::loop_isolation(false)]
    #[verifier::rlimit(60)]
    fn display_sprite(&mut self, x: u8, y: u8, n: u8)
        requires
            old(self).wf(),
            x < 16,
            y < 16,
            n < 16,
            old(self)@.index + n <= MEM_SIZE,
        ensures
            final(self).wf(),
            final(self)@ == draw_state(old(self)@, x, y, n),
    {
        let ghost pre = old(self)@;
        let x0 = (self.variable_registers[x as usize] as usize) % 64;
        let y0 = (self.variable_registers[y as usize] as usize) % 32;
        let mut collided: bool = false;
        let mut row: usize = 0;
        while row < n as usize
            invariant
                row <= n as usize,
                self.wf(),
                self@ == (State { disp: self@.disp, ..pre }),
                forall|idx: int|
                    0 <= idx < 2048 ==> self@.disp[idx] == (pre.disp[idx] != flips_idx_before(
                        pre,
                        x0 as int,
                        y0 as int,
                        n as int,
                        row as int,
                        0,
                        idx,
                    )),
                collided == collision_before(pre, x0 as int, y0 as int, n as int, row as int, 0),
            decreases n as usize - row,
        {
            let byte = self.memory[self.index_register as usize + row];
            let mut col: usize = 0;
            while col < 8
                invariant
                    row < n as usize,
                    col <= 8,
                    self.wf(),
                    self@ == (State { disp: self@.disp, ..pre }),
                    byte == pre.mem[pre.index + row],
                    forall|idx: int|
                        0 <= idx < 2048 ==> self@.disp[idx] == (pre.disp[idx] != flips_idx_before(
                            pre,
                            x0 as int,
                            y0 as int,
                            n as int,
                            row as int,
                            col as int,
                            idx,
                        )),
                    collided == collision_before(
                        pre,
                        x0 as int,
                        y0 as int,
                        n as int,
                        row as int,
                        col as int,
                    ),
                decreases 8 - col,
            {
                let ghost disp_in = self@.disp;
                let ghost coll_in = collided;
                if (byte >> ((7 - col) as u8)) & 1 == 1 {
                    let px = (x0 + col) % 64;
                    let py = (y0 + row) % 32;
                    let idx = px + 64 * py;
                    proof {
                        lemma_wrap_coord(x0 as int, col as int, 64);
                        lemma_wrap_coord(y0 as int, row as int, 32);
                        lemma_pixel_index(px as int, py as int);
                        assert(!flips_idx_before(
                            pre,
                            x0 as int,
                            y0 as int,
                            n as int,
                            row as int,
                            col as int,
                            idx as int,
                        ));
                        assert(flips_idx_before(
                            pre,
                            x0 as int,
                            y0 as int,
                            n as int,
                            row as int,
                            col as int + 1,
                            idx as int,
                        ));
                    }
                    let prev = self.display[idx];
                    collided = collided || prev;
                    self.display.set(idx, !prev);
                    proof {
                        assert(prev == pre.disp[idx as int]);
                        assert forall|i: int| 0 <= i < 2048 && i != idx implies flips_idx_before(
                            pre,
                            x0 as int,
                            y0 as int,
                            n as int,
                            row as int,
                            col as int + 1,
                            i,
                        ) == flips_idx_before(
                            pre,
                            x0 as int,
                            y0 as int,
                            n as int,
                            row as int,
                            col as int,
                            i,
                        ) by {
                            lemma_pixel_coords(i);
                            if (i % 64 - x0 as int) % 64 == col as int && (i / 64 - y0 as int) % 32
                                == row as int {
                                lemma_wrap_coord_unique(x0 as int, col as int, i % 64, 64);
                                lemma_wrap_coord_unique(y0 as int, row as int, i / 64, 32);
                            }
                        }
                        assert(self@.disp == disp_in.update(idx as int, !prev));
                        assert forall|i: int| 0 <= i < 2048 implies self@.disp[i] == (pre.disp[i]
                            != flips_idx_before(
                            pre,
                            x0 as int,
                            y0 as int,
                            n as int,
                            row as int,
                            col as int + 1,
                            i,
                        )) by {}
                        // The collision flag keeps pace: the one new sprite
                        // position contributes exactly the pixel it lands on.
                        if collided {
                            if coll_in {
                                let w = choose|w: int|
                                    0 <= w < 2048 && #[trigger] pre.disp[w] && flips_idx_before(
                                        pre,
                                        x0 as int,
                                        y0 as int,
                                        n as int,
                                        row as int,
                                        col as int,
                                        w,
                                    );
                                assert(pre.disp[w] && flips_idx_before(
                                    pre,
                                    x0 as int,
                                    y0 as int,
                                    n as int,
                                    row as int,
                                    col as int + 1,
                                    w,
                                ));
                            } else {
                                assert(pre.disp[idx as int] && flips_idx_before(
                                    pre,
                                    x0 as int,
                                    y0 as int,
                                    n as int,
                                    row as int,
                                    col as int + 1,
                                    idx as int,
                                ));
                            }
                            assert(collision_before(
                                pre,
                                x0 as int,
                                y0 as int,
                                n as int,
                                row as int,
                                col as int + 1,
                            ));
                        } else {
                            assert forall|w: int|
                                0 <= w < 2048 && #[trigger] pre.disp[w] implies !flips_idx_before(
                                pre,
                                x0 as int,
                                y0 as int,
                                n as int,
                                row as int,
                                col as int + 1,
                                w,
                            ) by {
                                lemma_pixel_coords(w);
                                if (w % 64 - x0 as int) % 64 == col as int && (w / 64 - y0 as int)
                                    % 32 == row as int {
                                    lemma_wrap_coord_unique(x0 as int, col as int, w % 64, 64);
                                    lemma_wrap_coord_unique(y0 as int, row as int, w / 64, 32);
                                }
                            }
                            assert(!collision_before(
                                pre,
                                x0 as int,
                                y0 as int,
                                n as int,
                                row as int,
                                col as int + 1,
                            ));
                        }
                    }
                }
                col = col + 1;
            }
            proof {
                assert forall|i: int| 0 <= i < 2048 implies flips_idx_before(
                    pre,
                    x0 as int,
                    y0 as int,
                    n as int,
                    row as int + 1,
                    0,
                    i,
                ) == flips_idx_before(
                    pre,
                    x0 as int,
                    y0 as int,
                    n as int,
                    row as int,
                    8,
                    i,
                ) by {}
                assert(collision_before(pre, x0 as int, y0 as int, n as int, row as int + 1, 0)
                    == collision_before(pre, x0 as int, y0 as int, n as int, row as int, 8)) by {
                    if collision_before(pre, x0 as int, y0 as int, n as int, row as int + 1, 0) {
                        let w = choose|w: int|
                            0 <= w < 2048 && #[trigger] pre.disp[w] && flips_idx_before(
                                pre,
                                x0 as int,
                                y0 as int,
                                n as int,
                                row as int + 1,
                                0,
                                w,
                            );
                        assert(pre.disp[w] && flips_idx_before(
                            pre,
                            x0 as int,
                            y0 as int,
                            n as int,
                            row as int,
                            8,
                            w,
                        ));
                    }
                    if collision_before(pre, x0 as int, y0 as int, n as int, row as int, 8) {
                        let w = choose|w: int|
                            0 <= w < 2048 && #[trigger] pre.disp[w] && flips_idx_before(
                                pre,
                                x0 as int,
                                y0 as int,
                                n as int,
                                row as int,
                                8,
                                w,
                            );
                        assert(pre.disp[w] && flips_idx_before(
                            pre,
                            x0 as int,
                            y0 as int,
                            n as int,
                            row as int + 1,
                            0,
                            w,
                        ));
                    }
                }
            }
            row = row + 1;
        }
        let vf: u8 = if collided {
            1
        } else {
            0
        };
        self.variable_registers.set(15, vf);
        proof {
            assert forall|i: int| 0 <= i < 2048 implies self@.disp[i] == (pre.disp[i] != flips(
                pre,
                x0 as int,
                y0 as int,
                n as int,
                i % 64,
                i / 64,
            )) by {
                assert(flips_idx_before(pre, x0 as int, y0 as int, n as int, n as int, 0, i)
                    == flips(pre, x0 as int, y0 as int, n as int, i % 64, i / 64));
            }
            assert(self@.disp =~= draw_state(pre, x, y, n).disp);
            assert(self@ =~= draw_state(pre, x, y, n));
        }
    }

    /// FX0A: store the lowest pressed key index in VX, or rewind the
    /// program counter so the instruction re-executes next tick.
    fn op_wait_key(&mut self, x: u8)
        requires
            old(self).wf(),
            x < 16,
            old(self)@.pc >= 2,
        ensures
            final(self).wf(),
            final(self)@ == wait_key_state(old(self)@, x),
    {
        let mut k: usize = 0;
        while k < NUM_KEYS && !self.keys[k]
            invariant
                old(self).wf(),
                self@ == old(self)@,
                k <= NUM_KEYS,
                forall|j: int| 0 <= j < k ==> !self@.keys[j],
                first_key_from(self@.keys, 0) == first_key_from(self@.keys, k as int),
            decreases NUM_KEYS - k,
        {
            proof {
                assert(first_key_from(self@.keys, k as int) == first_key_from(
                    self@.keys,
                    k as int + 1,
                ));
            }
            k = k + 1;
        }
        if k < NUM_KEYS {
            proof {
                assert(first_key_from(old(self)@.keys, 0) == k as int);
            }
            self.variable_registers.set(x as usize, k as u8);
            proof {
                assert(self@ =~= wait_key_state(old(self)@, x));
            }
        } else {
            proof {
                assert(first_key_from(old(self)@.keys, 0) == 16);
            }
            self.pc = self.pc - 2;
            proof {
                assert(self@ =~= wait_key_state(old(self)@, x));
            }
        }
    }

    /// Apply one decoded instruction whose fetch has already moved the
    /// program counter past it.  The caller has ruled out the stack errors
    /// and supplied the bounds of `instr_safe`; `rnd` is the byte the
    /// random source produced.
    #[verifier::rlimit(60)]
    fn execute(&mut self, instr: Instr, rnd: u8)
        requires
            old(self).wf(),
            instr_wf(instr),
            instr_err(old(self)@, instr) is None,
            instr_safe(old(self)@, instr),
            2 <= old(self)@.pc <= MEM_SIZE,
        ensures
            final(self).wf(),
            final(self)@ == apply_instr(old(self)@, instr, rnd),
    {
        match instr {
            Instr::ClearScreen => {
                self.clear_screen();
            },
            Instr::Return => {
                let addr = self.pop();
                self.pc = addr;
                proof {
                    assert(self@ =~= apply_instr(old(self)@, instr, rnd));
                }
            },
            Instr::Jump { nnn } => {
                self.pc = nnn;
                proof {
                    assert(self@ =~= apply_instr(old(self)@, instr, rnd));
                }
            },
            Instr::Call { nnn } => {
                let ret = self.pc;
                self.push(ret);
                self.pc = nnn;
                proof {
                    assert(self@ =~= apply_instr(old(self)@, instr, rnd));
                }
            },
            Instr::SkipEqImm { x, nn } => {
                if self.variable_registers[x as usize] == nn {
                    self.pc = self.pc + 2;
                }
                proof {
                    assert(self@ =~= apply_instr(old(self)@, instr, rnd));
                }
            },
            Instr::SkipNeImm { x, nn } => {
                if self.variable_registers[x as usize] != nn {
                    self.pc = self.pc + 2;
                }
                proof {
                    assert(self@ =~= apply_instr(old(self)@, instr, rnd));
                }
            },
            Instr::SkipEqReg { x, y } => {
                if self.variable_registers[x as usize] == self.variable_registers[y as usize] {
                    self.pc = self.pc + 2;
                }
                proof {
                    assert(self@ =~= apply_instr(old(self)@, instr, rnd));
                }
            },
            Instr::SetImm { x, nn } => {
                self.variable_registers.set(x as usize, nn);
                proof {
                    assert(self@ =~= apply_instr(old(self)@, instr, rnd));
                }
            },
            Instr::AddImm { x, nn } => {
                let vx = self.variable_registers[x as usize];
                let sum = (vx as u16 + nn as u16) % 256;
                self.variable_registers.set(x as usize, sum as u8);
                proof {
                    assert(self@ =~= apply_instr(old(self)@, instr, rnd));
                }
            },
            Instr::Assign { x, y } => {
                let vy = self.variable_registers[y as usize];
                self.variable_registers.set(x as usize, vy);
                proof {
                    assert(self@ =~= apply_instr(old(self)@, instr, rnd));
                }
            },
            Instr::Or { x, y } => {
                let vx = self.variable_registers[x as usize];
                let vy = self.variable_registers[y as usize];
                self.variable_registers.set(x as usize, vx | vy);
                proof {
                    assert(self@ =~= apply_instr(old(self)@, instr, rnd));
                }
            },
            Instr::And { x, y } => {
                let vx = self.variable_registers[x as usize];
                let vy = self.variable_registers[y as usize];
                self.variable_registers.set(x as usize, vx & vy);
                proof {
                    assert(self@ =~= apply_instr(old(self)@, instr, rnd));
                }
            },
            Instr::Xor { x, y } => {
                let vx = self.variable_registers[x as usize];
                let vy = self.variable_registers[y as usize];
                self.variable_registers.set(x as usize, vx ^ vy);
                proof {
                    assert(self@ =~= apply_instr(old(self)@, instr, rnd));
                }
            },
            Instr::AddReg { x, y } => {
                let vx = self.variable_registers[x as usize];
                let vy = self.variable_registers[y as usize];
                let sum = vx as u16 + vy as u16;
                let vf: u8 = if sum > 255 {
                    1
                } else {
                    0
                };
                self.variable_registers.set(x as usize, (sum % 256) as u8);
                self.variable_registers.set(15, vf);
                proof {
                    assert(self@ =~= apply_instr(old(self)@, instr, rnd));
                }
            },
            Instr::SubReg { x, y } => {
                let vx = self.variable_registers[x as usize];
                let vy = self.variable_registers[y as usize];
                let diff = (vx as u16 + 256 - vy as u16) % 256;
                let vf: u8 = if vx < vy {
                    0
                } else {
                    1
                };
                proof {
                    lemma_wrap_byte(vx as int - vy as int);
                }
                self.variable_registers.set(x as usize, diff as u8);
                self.variable_registers.set(15, vf);
                proof {
                    assert(self@ =~= apply_instr(old(self)@, instr, rnd));
                }
            },
            Instr::ShiftRight { x } => {
                let vx = self.variable_registers[x as usize];
                self.variable_registers.set(x as usize, vx >> 1u8);
                self.variable_registers.set(15, vx & 1);
                proof {
                    assert(self@ =~= apply_instr(old(self)@, instr, rnd));
                }
            },
            Instr::SubFrom { x, y } => {
                let vx = self.variable_registers[x as usize];
                let vy = self.variable_registers[y as usize];
                let diff = (vy as u16 + 256 - vx as u16) % 256;
                let vf: u8 = if vy < vx {
                    0
                } else {
                    1
                };
                proof {
                    lemma_wrap_byte(vy as int - vx as int);
                }
                self.variable_registers.set(x as usize, diff as u8);
                self.variable_registers.set(15, vf);
                proof {
                    assert(self@ =~= apply_instr(old(self)@, instr, rnd));
                }
            },
            Instr::ShiftLeft { x } => {
                let vx = self.variable_registers[x as usize];
                self.variable_registers.set(x as usize, vx << 1u8);
                self.variable_registers.set(15, (vx >> 7u8) & 1);
                proof {
                    assert(self@ =~= apply_instr(old(self)@, instr, rnd));
                }
            },
            Instr::SkipNeReg { x, y } => {
                if self.variable_registers[x as usize] != self.variable_registers[y as usize] {
                    self.pc = self.pc + 2;
                }
                proof {
                    assert(self@ =~= apply_instr(old(self)@, instr, rnd));
                }
            },
            Instr::SetIndex { nnn } => {
                self.index_register = nnn;
                proof {
                    assert(self@ =~= apply_instr(old(self)@, instr, rnd));
                }
            },
            Instr::JumpV0 { nnn } => {
                self.pc = self.variable_registers[0] as u16 + nnn;
                proof {
                    assert(self@ =~= apply_instr(old(self)@, instr, rnd));
                }
            },
            Instr::Random { x, nn } => {
                self.variable_registers.set(x as usize, rnd & nn);
                proof {
                    assert(self@ =~= apply_instr(old(self)@, instr, rnd));
                }
            },
            Instr::Draw { x, y, n } => {
                self.display_sprite(x, y, n);
            },
            Instr::SkipKey { x } => {
                let vx = self.variable_registers[x as usize];
                if self.keys[vx as usize] {
                    self.pc = self.pc + 2;
                }
                proof {
                    assert(self@ =~= apply_instr(old(self)@, instr, rnd));
                }
            },
            Instr::SkipNoKey { x } => {
                let vx = self.variable_registers[x as usize];
                if !self.keys[vx as usize] {
                    self.pc = self.pc + 2;
                }
                proof {
                    assert(self@ =~= apply_instr(old(self)@, instr, rnd));
                }
            },
            Instr::ReadDelay { x } => {
                let dt = self.delay_timer;
                self.variable_registers.set(x as usize, dt);
                proof {
                    assert(self@ =~= apply_instr(old(self)@, instr, rnd));
                }
            },
            Instr::WaitKey { x } => {
                self.op_wait_key(x);
            },
            Instr::SetDelay { x } => {
                self.delay_timer = self.variable_registers[x as usize];
                proof {
                    assert(self@ =~= apply_instr(old(self)@, instr, rnd));
                }
            },
            Instr::SetSound { x } => {
                self.sound_timer = self.variable_registers[x as usize];
                proof {
                    assert(self@ =~= apply_instr(old(self)@, instr, rnd));
                }
            },
            Instr::AddIndex { x } => {
                let vx = self.variable_registers[x as usize];
                let sum = (self.index_register as u32 + vx as u32) % 0x10000;
                self.index_register = sum as u16;
                proof {
                    assert(self@ =~= apply_instr(old(self)@, instr, rnd));
                }
            },
            Instr::FontAddr { x } => {
                let vx = self.variable_registers[x as usize];
                self.index_register = vx as u16 * 5;
                proof {
                    assert(self@ =~= apply_instr(old(self)@, instr, rnd));
                }
            },
            Instr::Bcd { x } => {
                self.op_bcd(x);
            },
            Instr::StoreRegs { x } => {
                self.op_store(x);
            },
            Instr::LoadRegs { x } => {
                self.op_load(x);
            },
        }
    }

    /// Whether the next `tick` stays inside the machine: the program
    /// counter can be fetched from, and the current instruction's memory
    /// and key accesses are in bounds.
    pub fn can_tick(&self) -> (b: bool)
        requires
            self.wf(),
        ensures
            b == tick_safe(self@),
    {
        if !(self.pc as usize + 1 < MEM_SIZE) {
            return false;
        }
        let op = self.fetch();
        match decode(op) {
            None => true,
            Some(instr) => match instr {
                Instr::Draw { x, y, n } => (self.index_register as usize + n as usize) <= MEM_SIZE,
                Instr::Bcd { x } => (self.index_register as usize + 2) < MEM_SIZE,
                Instr::StoreRegs { x } => (self.index_register as usize + x as usize) < MEM_SIZE,
                Instr::LoadRegs { x } => (self.index_register as usize + x as usize) < MEM_SIZE,
                Instr::SkipKey { x } => self.variable_registers[x as usize] < 16,
                Instr::SkipNoKey { x } => self.variable_registers[x as usize] < 16,
                _ => true,
            },
        }
    }

    /// One instruction: fetch the word at the program counter, decode it,
    /// and execute it.  An unimplemented opcode, a call on a full stack, or
    /// a return on an empty one is reported and leaves the machine exactly
    /// as it was; otherwise the machine moves to the unique successor state
    /// that `step` gives for the byte the random source produced.
    pub fn tick(&mut self) -> (r: Result<(), Chip8Error>)
        requires
            old(self).wf(),
            tick_safe(old(self)@),
        ensures
            final(self).wf(),
            match r {
                Ok(u) => exists|rnd: u8|
                    step(old(self)@, rnd) == Ok::<State, Chip8Error>(final(self)@),
                Err(e) => final(self)@ == old(self)@ && forall|rnd: u8|
                    step(old(self)@, rnd) == Err::<State, Chip8Error>(e),
            },
    {
        let op = self.fetch();
        let instr = match decode(op) {
            None => {
                return Err(Chip8Error::UnimplementedOpcode);
            },
            Some(i) => i,
        };
        match instr {
            Instr::Return => {
                if self.stack.len() == 0 {
                    return Err(Chip8Error::StackUnderflow);
                }
            },
            Instr::Call { .. } => {
                if self.stack.len() >= STACK_LIMIT {
                    return Err(Chip8Error::StackOverflow);
                }
            },
            _ => {},
        }
        self.pc = self.pc + 2;
        proof {
            assert(self@ =~= bump_pc(old(self)@));
        }
        let rnd: u8 = match instr {
            Instr::Random { .. } => crate::rng::random_byte(),
            _ => 0,
        };
        self.execute(instr, rnd);
        proof {
            assert(step(old(self)@, rnd) == Ok::<State, Chip8Error>(self@));
        }
        Ok(())
    }

    /// The program counter.
    pub fn get_pc(&self) -> (r: u16)
        ensures
            r == self@.pc,
    {
        self.pc
    }

    /// The index register.
    pub fn get_index_register(&self) -> (r: u16)
        ensures
            r == self@.index,
    {
        self.index_register
    }

    /// General register `i`.
    pub fn get_register(&self, i: usize) -> (r: u8)
        requires
            self.wf(),
            i < NUM_REGS,
        ensures
            r == self@.regs[i as int],
    {
        self.variable_registers[i]
    }

    /// The byte at memory address `addr`.
    pub fn get_memory_byte(&self, addr: usize) -> (r: u8)
        requires
            self.wf(),
            addr < MEM_SIZE,
        ensures
            r == self@.mem[addr as int],
    {
        self.memory[addr]
    }

    /// The delay timer.
    pub fn get_delay_timer(&self) -> (r: u8)
        ensures
            r == self@.dt,
    {
        self.delay_timer
    }

    /// The sound timer; a host treats a nonzero value as "tone on".
    pub fn get_sound_timer(&self) -> (r: u8)
        ensures
            r == self@.st,
    {
        self.sound_timer
    }

    /// How many return addresses the call stack holds.
    pub fn get_stack_depth(&self) -> (r: usize)
        ensures
            r == self@.stack.len(),
    {
        self.stack.len()
    }

    /// Whether key `i` is currently down.
    pub fn is_key_pressed(&self, i: usize) -> (r: bool)
        requires
            self.wf(),
            i < NUM_KEYS,
        ensures
            r == self@.keys[i as int],
    {
        self.keys[i]
    }
}

} // verus!
