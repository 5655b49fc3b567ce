use vstd::prelude::*;

use crate::decode::{lemma_decode_wf, spec_decode, Instr};
use crate::error::Chip8Error;
use crate::state::{font, init_state, state_wf, State, FONT_SIZE, MEM_SIZE, NUM_REGS, START_ADDR};
use crate::step::{
    apply_instr, bump_pc, collision_before, fetch_op, first_key_from, flips_idx_before,
    lemma_first_key_from, step, tick_safe, wait_key_state,
};

verus! {

/// 8XY4 sets VF to 1 exactly when the unsigned sum of VX and VY exceeds
/// 255, and VX receives the wrapped low byte (unless VX is the flag
/// register itself, which the flag overwrites).
pub proof fn lemma_add_carry(s: State, x: u8, y: u8, rnd: u8)
    requires
        state_wf(s),
        x < 16,
        y < 16,
    ensures
        ({
            let post = apply_instr(s, Instr::AddReg { x, y }, rnd);
            &&& post.regs[15] == if s.regs[x as int] + s.regs[y as int] > 255 {
                1u8
            } else {
                0u8
            }
            &&& x != 15 ==> post.regs[x as int] == ((s.regs[x as int] + s.regs[y as int])
                % 256) as u8
        }),
{
}

/// 8XYE leaves the original top bit of VX in VF and doubles VX modulo 256;
/// 8XY6 leaves the original bottom bit in VF and halves VX.  A left shift
/// followed by a right shift therefore recovers only `VX % 128`: the top
/// bit is lost, and the flags record exactly the bits that fall off.
pub proof fn lemma_shift_flags(s: State, x: u8, rnd: u8)
    requires
        state_wf(s),
        x < 16,
        x != 15,
    ensures
        ({
            let l = apply_instr(s, Instr::ShiftLeft { x }, rnd);
            let r = apply_instr(s, Instr::ShiftRight { x }, rnd);
            let lr = apply_instr(l, Instr::ShiftRight { x }, rnd);
            let vx = s.regs[x as int];
            &&& l.regs[15] == (if vx >= 128 {
                1u8
            } else {
                0u8
            })
            &&& l.regs[x as int] == ((vx * 2) % 256) as u8
            &&& r.regs[15] == (if vx % 2 == 1 {
                1u8
            } else {
                0u8
            })
            &&& r.regs[x as int] == vx / 2
            &&& lr.regs[x as int] == vx % 128
        }),
{
    let vx = s.regs[x as int];
    assert((vx >> 7u8) & 1 == (if vx >= 128 {
        1u8
    } else {
        0u8
    })) by (bit_vector);
    assert(vx << 1u8 == ((vx * 2) % 256) as u8) by (bit_vector);
    assert(vx & 1 == (if vx % 2 == 1 {
        1u8
    } else {
        0u8
    })) by (bit_vector);
    assert(vx >> 1u8 == vx / 2) by (bit_vector);
    assert((vx << 1u8) >> 1u8 == vx % 128) by (bit_vector);
}

/// Drawing the same sprite twice at the same spot restores every pixel —
/// XOR-drawing is self-inverse — and leaves every register but the flag
/// untouched.  The second draw sets VF exactly when the first draw lit some
/// pixel, that is, when some set sprite bit fell on a previously-dark
/// pixel.  (VX and VY must not be the flag register: the first draw
/// overwrites VF, which would move the second sprite.)
pub proof fn lemma_draw_twice(s: State, x: u8, y: u8, n: u8, rnd: u8)
    requires
        state_wf(s),
        x < 16,
        y < 16,
        n < 16,
        x != 15,
        y != 15,
        s.index + n <= MEM_SIZE,
    ensures
        ({
            let x0 = (s.regs[x as int] as int) % 64;
            let y0 = (s.regs[y as int] as int) % 32;
            let once = apply_instr(s, Instr::Draw { x, y, n }, rnd);
            let twice = apply_instr(once, Instr::Draw { x, y, n }, rnd);
            &&& twice.disp == s.disp
            &&& forall|k: int| 0 <= k < 16 && k != 15 ==> twice.regs[k] == s.regs[k]
            &&& twice.regs[15] == if exists|idx: int|
                0 <= idx < 2048 && !s.disp[idx] && #[trigger] flips_idx_before(
                    s,
                    x0,
                    y0,
                    n as int,
                    n as int,
                    0,
                    idx,
                ) {
                1u8
            } else {
                0u8
            }
        }),
{
    let x0 = (s.regs[x as int] as int) % 64;
    let y0 = (s.regs[y as int] as int) % 32;
    let once = apply_instr(s, Instr::Draw { x, y, n }, rnd);
    let twice = apply_instr(once, Instr::Draw { x, y, n }, rnd);
    assert(once.regs[x as int] == s.regs[x as int]);
    assert(once.regs[y as int] == s.regs[y as int]);
    assert forall|i: int| 0 <= i < 2048 implies #[trigger] twice.disp[i] == s.disp[i] by {
        assert(flips_idx_before(once, x0, y0, n as int, n as int, 0, i) == flips_idx_before(
            s,
            x0,
            y0,
            n as int,
            n as int,
            0,
            i,
        ));
    }
    assert(twice.disp =~= s.disp);
    if exists|idx: int|
        0 <= idx < 2048 && !s.disp[idx] && #[trigger] flips_idx_before(
            s,
            x0,
            y0,
            n as int,
            n as int,
            0,
            idx,
        ) {
        let idx = choose|idx: int|
            0 <= idx < 2048 && !s.disp[idx] && #[trigger] flips_idx_before(
                s,
                x0,
                y0,
                n as int,
                n as int,
                0,
                idx,
            );
        assert(once.disp[idx]);
        assert(flips_idx_before(once, x0, y0, n as int, n as int, 0, idx) == flips_idx_before(
            s,
            x0,
            y0,
            n as int,
            n as int,
            0,
            idx,
        ));
        assert(collision_before(once, x0, y0, n as int, n as int, 0));
    } else {
        assert forall|w: int|
            0 <= w < 2048 && #[trigger] once.disp[w] implies !flips_idx_before(
            once,
            x0,
            y0,
            n as int,
            n as int,
            0,
            w,
        ) by {
            assert(flips_idx_before(once, x0, y0, n as int, n as int, 0, w) == flips_idx_before(
                s,
                x0,
                y0,
                n as int,
                n as int,
                0,
                w,
            ));
            if flips_idx_before(s, x0, y0, n as int, n as int, 0, w) {
                assert(once.disp[w] == !s.disp[w]);
                assert(!s.disp[w]);
            }
        }
        assert(!collision_before(once, x0, y0, n as int, n as int, 0));
    }
}

/// FX55 then FX65 round-trips: after storing V0..=VX at the index register,
/// whatever the registers hold in between, loading brings back exactly the
/// stored values, addressed from the index register.
pub proof fn lemma_store_load_roundtrip(s: State, regs2: Seq<u8>, x: u8, rnd: u8)
    requires
        state_wf(s),
        x < 16,
        regs2.len() == NUM_REGS,
        s.index + x < MEM_SIZE,
    ensures
        ({
            let stored = apply_instr(s, Instr::StoreRegs { x }, rnd);
            let wiped = State { regs: regs2, ..stored };
            let loaded = apply_instr(wiped, Instr::LoadRegs { x }, rnd);
            forall|k: int| 0 <= k <= x ==> loaded.regs[k] == s.regs[k]
        }),
{
    let stored = apply_instr(s, Instr::StoreRegs { x }, rnd);
    let wiped = State { regs: regs2, ..stored };
    let loaded = apply_instr(wiped, Instr::LoadRegs { x }, rnd);
    assert forall|k: int| 0 <= k <= x implies loaded.regs[k] == s.regs[k] by {
        assert(stored.mem[s.index + k] == s.regs[k]);
    }
}

/// The state `setup_cpu` builds and `reset` restores, spelled out: display
/// all dark, registers, timers, index and stack cleared, the program
/// counter at the start of program space, and the font intact below it.
pub proof fn lemma_init_state()
    ensures
        ({
            let s = init_state();
            &&& state_wf(s)
            &&& forall|i: int| 0 <= i < 2048 ==> !s.disp[i]
            &&& forall|i: int| 0 <= i < NUM_REGS ==> s.regs[i] == 0
            &&& s.dt == 0
            &&& s.st == 0
            &&& s.stack.len() == 0
            &&& s.pc == START_ADDR
            &&& s.index == 0
            &&& forall|i: int| 0 <= i < FONT_SIZE ==> s.mem[i] == font()[i]
            &&& forall|i: int| FONT_SIZE <= i < MEM_SIZE ==> s.mem[i] == 0
            &&& forall|i: int| 0 <= i < 16 ==> !s.keys[i]
        }),
{
}

/// FX0A makes no progress while no key is down — the rewind cancels the
/// fetch, so a tick returns the very same state — and once keys are down,
/// a tick advances normally and VX receives the lowest pressed index.
pub proof fn lemma_wait_key(s: State, x: u8, rnd: u8)
    requires
        state_wf(s),
        tick_safe(s),
        spec_decode(fetch_op(s)) == Some(Instr::WaitKey { x }),
    ensures
        (forall|k: int| 0 <= k < 16 ==> !s.keys[k]) ==> step(s, rnd) == Ok::<
            State,
            Chip8Error,
        >(s),
        (exists|k: int| 0 <= k < 16 && s.keys[k]) ==> {
            let f = first_key_from(s.keys, 0);
            &&& 0 <= f < 16
            &&& s.keys[f]
            &&& (forall|j: int| 0 <= j < f ==> !s.keys[j])
            &&& step(s, rnd) == Ok::<State, Chip8Error>(
                State {
                    pc: (s.pc + 2) as u16,
                    regs: s.regs.update(x as int, f as u8),
                    ..s
                },
            )
        },
{
    lemma_decode_wf(fetch_op(s));
    lemma_first_key_from(s.keys, 0);
    let f = first_key_from(s.keys, 0);
    let bumped = bump_pc(s);
    if forall|k: int| 0 <= k < 16 ==> !s.keys[k] {
        assert(f == 16) by {
            if f < 16 {
                assert(s.keys[f]);
            }
        }
        assert(wait_key_state(bumped, x) =~= s);
    }
    if exists|k: int| 0 <= k < 16 && s.keys[k] {
        let k = choose|k: int| 0 <= k < 16 && s.keys[k];
        assert(f < 16) by {
            if f == 16 {
                assert(!s.keys[k]);
            }
        }
        assert(wait_key_state(bumped, x) =~= (State {
            pc: (s.pc + 2) as u16,
            regs: s.regs.update(x as int, f as u8),
            ..s
        }));
    }
}

/// Every instruction but CXNN ignores the random byte: apart from that one
/// opcode, the machine is deterministic.
pub proof fn lemma_step_deterministic(s: State, r1: u8, r2: u8)
    requires
        !(spec_decode(fetch_op(s)) matches Some(Instr::Random { .. })),
    ensures
        step(s, r1) == step(s, r2),
{
}

} // verus!
