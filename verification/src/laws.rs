//! The universal laws of the interpreter, proved from the cycle
//! specification: how `pc` advances, how calls pair with returns, the
//! arithmetic flags, the wrap and self-inverse of sprite drawing, the
//! register store/load round trip, and the timer countdown.

use vstd::prelude::*;

use crate::decode::{lemma_decode_bounded, spec_decode, Instr};
use crate::exec::{
    draw_collision, draw_gfx, draw_target, flip, spec_execute, sprite_bit, sprite_hits,
    load_regs, store_regs,
};
use crate::machine::MachineState;

verus! {

/// The instructions that neither branch nor wait: everything but a jump,
/// call, return, skip or key wait.
pub open spec fn is_plain_advance(instr: Instr) -> bool {
    match instr {
        Instr::Jp(_) => false,
        Instr::JpV0(_) => false,
        Instr::Call(_) => false,
        Instr::Ret => false,
        Instr::SeByte(_, _) => false,
        Instr::SneByte(_, _) => false,
        Instr::SeReg(_, _) => false,
        Instr::SneReg(_, _) => false,
        Instr::Skp(_) => false,
        Instr::Sknp(_) => false,
        Instr::LdVxK(_) => false,
        Instr::Unknown => false,
        _ => true,
    }
}

/// Every instruction that is not a jump, call, return, skip or key wait
/// advances `pc` by exactly 2 in a successful cycle.
pub proof fn lemma_fetch_advances_pc(s: MachineState, rnd: u8)
    requires
        s.wf(),
        s.pc <= 0xFFE,
        is_plain_advance(spec_decode(s.opcode)),
        spec_execute(s, rnd).1 is Ok,
    ensures
        spec_execute(s, rnd).0.pc == s.pc + 2,
{
}

/// The six conditional-skip instructions.
pub open spec fn is_skip(instr: Instr) -> bool {
    match instr {
        Instr::SeByte(_, _) => true,
        Instr::SneByte(_, _) => true,
        Instr::SeReg(_, _) => true,
        Instr::SneReg(_, _) => true,
        Instr::Skp(_) => true,
        Instr::Sknp(_) => true,
        _ => false,
    }
}

/// Whether the skip instruction in `s.opcode` finds its condition true.
pub open spec fn skip_taken(s: MachineState) -> bool {
    match spec_decode(s.opcode) {
        Instr::SeByte(x, nn) => s.v[x as int] == nn,
        Instr::SneByte(x, nn) => s.v[x as int] != nn,
        Instr::SeReg(x, y) => s.v[x as int] == s.v[y as int],
        Instr::SneReg(x, y) => s.v[x as int] != s.v[y as int],
        Instr::Skp(x) => s.key[(s.v[x as int] % 16) as int] == 1,
        Instr::Sknp(x) => s.key[(s.v[x as int] % 16) as int] != 1,
        _ => false,
    }
}

/// A skip instruction always succeeds, and advances `pc` by 4 when its
/// condition holds and by 2 otherwise.
pub proof fn lemma_skip_semantics(s: MachineState, rnd: u8)
    requires
        s.wf(),
        s.pc <= 0xFFE,
        is_skip(spec_decode(s.opcode)),
    ensures
        spec_execute(s, rnd).1 is Ok,
        spec_execute(s, rnd).0.pc == if skip_taken(s) {
            s.pc + 4
        } else {
            s.pc + 2
        },
{
    lemma_decode_bounded(s.opcode);
}

/// A `2NNN` call pushes the address of the next word; a later `00EE` with
/// that frame still intact returns there and restores the stack pointer.
///
/// `s` is the machine about to execute the call, `t` any later machine about
/// to execute the return whose stack pointer and top frame are those the
/// call left behind.
pub proof fn lemma_call_return_round_trip(s: MachineState, rnd1: u8, t: MachineState, rnd2: u8)
    requires
        s.wf(),
        s.pc <= 0xFFE,
        spec_decode(s.opcode) matches Instr::Call(_),
        s.sp < 16,
        t.wf(),
        t.pc <= 0xFFE,
        spec_decode(t.opcode) is Ret,
        t.sp == s.sp + 1,
        t.stack[s.sp as int] == spec_execute(s, rnd1).0.stack[s.sp as int],
    ensures
        spec_execute(s, rnd1).1 is Ok,
        spec_execute(s, rnd1).0.stack[s.sp as int] == s.pc + 2,
        spec_execute(s, rnd1).0.sp == s.sp + 1,
        spec_execute(t, rnd2).1 is Ok,
        spec_execute(t, rnd2).0.pc == s.pc + 2,
        spec_execute(t, rnd2).0.sp == s.sp,
{
}

/// `8XY4` on registers holding `a` and `b` stores `(a + b) mod 256` and sets
/// `VF` exactly when the true sum passes 255.
pub proof fn lemma_add_vf(s: MachineState, rnd: u8, x: u8, y: u8, a: u8, b: u8)
    requires
        s.wf(),
        s.pc <= 0xFFE,
        spec_decode(s.opcode) == Instr::AddReg(x, y),
        x != y,
        x != 15,
        y != 15,
        s.v[x as int] == a,
        s.v[y as int] == b,
    ensures
        spec_execute(s, rnd).1 is Ok,
        spec_execute(s, rnd).0.v[x as int] == (a + b) % 256,
        spec_execute(s, rnd).0.v[15] == if a + b > 255 {
            1u8
        } else {
            0u8
        },
{
    lemma_decode_bounded(s.opcode);
}

/// `8XY5` stores `(a - b) mod 256` and sets `VF` exactly when there is no
/// borrow, that is when `a >= b`.
pub proof fn lemma_sub_vf(s: MachineState, rnd: u8, x: u8, y: u8, a: u8, b: u8)
    requires
        s.wf(),
        s.pc <= 0xFFE,
        spec_decode(s.opcode) == Instr::SubReg(x, y),
        x != y,
        x != 15,
        y != 15,
        s.v[x as int] == a,
        s.v[y as int] == b,
    ensures
        spec_execute(s, rnd).1 is Ok,
        spec_execute(s, rnd).0.v[x as int] == (a - b) % 256,
        spec_execute(s, rnd).0.v[15] == if a >= b {
            1u8
        } else {
            0u8
        },
{
    lemma_decode_bounded(s.opcode);
}

/// `8XY7` stores `(b - a) mod 256` and sets `VF` exactly when `b >= a`.
pub proof fn lemma_subn_vf(s: MachineState, rnd: u8, x: u8, y: u8, a: u8, b: u8)
    requires
        s.wf(),
        s.pc <= 0xFFE,
        spec_decode(s.opcode) == Instr::SubnReg(x, y),
        x != y,
        x != 15,
        y != 15,
        s.v[x as int] == a,
        s.v[y as int] == b,
    ensures
        spec_execute(s, rnd).1 is Ok,
        spec_execute(s, rnd).0.v[x as int] == (b - a) % 256,
        spec_execute(s, rnd).0.v[15] == if b >= a {
            1u8
        } else {
            0u8
        },
{
    lemma_decode_bounded(s.opcode);
}

/// A value in the second band of a modulus reduces by one modulus.
proof fn lemma_mod_second_band(a: int, m: int)
    requires
        m <= a < 2 * m,
        0 < m,
    ensures
        a % m == a - m,
{
    vstd::arithmetic::div_mod::lemma_fundamental_div_mod_converse_mod(a, m, 1, a - m);
}

/// Every column of a full `0xFF` sprite row is set.
proof fn lemma_full_row_bits()
    ensures
        forall|c: int| 0 <= c < 8 ==> sprite_bit(0xFF, c),
{
    assert forall|c: int| 0 <= c < 8 implies sprite_bit(0xFF, c) by {
        if c == 0 {
            assert(sprite_bit(0xFF, 0));
        } else if c == 1 {
            assert(sprite_bit(0xFF, 1));
        } else if c == 2 {
            assert(sprite_bit(0xFF, 2));
        } else if c == 3 {
            assert(sprite_bit(0xFF, 3));
        } else if c == 4 {
            assert(sprite_bit(0xFF, 4));
        } else if c == 5 {
            assert(sprite_bit(0xFF, 5));
        } else if c == 6 {
            assert(sprite_bit(0xFF, 6));
        } else {
            assert(sprite_bit(0xFF, 7));
        }
    }
}

/// Drawing a fully set 8-wide, 4-tall sprite at `(60, 30)` on a dark screen
/// lights exactly the wrapped columns 60..63 and 0..3 of the wrapped rows
/// 30, 31, 0 and 1.
pub proof fn lemma_draw_wrap(gfx: Seq<u8>, mem: Seq<u8>, i: int, px: int, py: int)
    requires
        gfx.len() == 2048,
        mem.len() == 4096,
        0 <= i,
        i + 4 <= 4096,
        forall|r: int| 0 <= r < 4 ==> #[trigger] mem[i + r] == 0xFF,
        forall|j: int| 0 <= j < 2048 ==> gfx[j] == 0,
        0 <= px < 64,
        0 <= py < 32,
    ensures
        draw_gfx(gfx, mem, i, 60, 30, 4)[py * 64 + px] == 1 <==> ((px >= 60 || px < 4) && (py
            >= 30 || py < 2)),
{
    lemma_full_row_bits();
    let idx = py * 64 + px;
    if (px >= 60 || px < 4) && (py >= 30 || py < 2) {
        let col = if px >= 60 {
            px - 60
        } else {
            px + 4
        };
        let row = if py >= 30 {
            py - 30
        } else {
            py + 2
        };
        if px >= 60 {
            vstd::arithmetic::div_mod::lemma_small_mod((60 + col) as nat, 64);
        } else {
            lemma_mod_second_band(60 + col, 64);
        }
        if py >= 30 {
            vstd::arithmetic::div_mod::lemma_small_mod((30 + row) as nat, 32);
        } else {
            lemma_mod_second_band(30 + row, 32);
        }
        assert(draw_target(60, 30, row, col) == idx);
        assert(0 <= row < 4 && 0 <= col < 8 && sprite_bit(mem[i + row], col) && draw_target(
            60,
            30,
            row,
            col,
        ) == idx);
        assert(sprite_hits(mem, i, 60, 30, 4, idx));
    } else {
        if sprite_hits(mem, i, 60, 30, 4, idx) {
            let (row, col) = choose|row: int, col: int|
                0 <= row < 4 && 0 <= col < 8 && sprite_bit(mem[i + row], col) && draw_target(
                    60,
                    30,
                    row,
                    col,
                ) == idx;
            vstd::arithmetic::div_mod::lemma_mod_bound(60 + col, 64);
            vstd::arithmetic::div_mod::lemma_mod_bound(30 + row, 32);
            if col < 4 {
                vstd::arithmetic::div_mod::lemma_small_mod((60 + col) as nat, 64);
            } else {
                lemma_mod_second_band(60 + col, 64);
            }
            if row < 2 {
                vstd::arithmetic::div_mod::lemma_small_mod((30 + row) as nat, 32);
            } else {
                lemma_mod_second_band(30 + row, 32);
            }
            assert(false);
        }
    }
}

/// Drawing the same sprite twice at the same position is the identity on
/// the framebuffer; and when the sprite lights at least one pixel of a dark
/// region, the second draw collides.
pub proof fn lemma_draw_twice(gfx: Seq<u8>, mem: Seq<u8>, i: int, vx: int, vy: int, n: int)
    requires
        gfx.len() == 2048,
        forall|j: int| 0 <= j < 2048 ==> gfx[j] <= 1,
    ensures
        draw_gfx(draw_gfx(gfx, mem, i, vx, vy, n), mem, i, vx, vy, n) =~= gfx,
        ((forall|idx: int|
            0 <= idx < 2048 && sprite_hits(mem, i, vx, vy, n, idx) ==> gfx[idx] == 0) && (
        exists|idx: int| 0 <= idx < 2048 && sprite_hits(mem, i, vx, vy, n, idx)))
            ==> draw_collision(draw_gfx(gfx, mem, i, vx, vy, n), mem, i, vx, vy, n),
{
    let g1 = draw_gfx(gfx, mem, i, vx, vy, n);
    assert forall|idx: int| 0 <= idx < 2048 implies draw_gfx(g1, mem, i, vx, vy, n)[idx]
        == gfx[idx] by {
        if sprite_hits(mem, i, vx, vy, n, idx) {
            assert(g1[idx] == flip(gfx[idx]));
            assert(flip(flip(gfx[idx])) == gfx[idx]);
        }
    }
    if (forall|idx: int| 0 <= idx < 2048 && sprite_hits(mem, i, vx, vy, n, idx) ==> gfx[idx] == 0)
        && (exists|idx: int| 0 <= idx < 2048 && sprite_hits(mem, i, vx, vy, n, idx)) {
        let idx = choose|idx: int| 0 <= idx < 2048 && sprite_hits(mem, i, vx, vy, n, idx);
        let (row, col) = choose|row: int, col: int|
            0 <= row < n && 0 <= col < 8 && sprite_bit(mem[i + row], col) && draw_target(
                vx,
                vy,
                row,
                col,
            ) == idx;
        assert(g1[idx] == flip(gfx[idx]));
        assert(g1[draw_target(vx, vy, row, col)] == 1);
        assert(0 <= row < n && 0 <= col < 8 && sprite_bit(mem[i + row], col) && g1[draw_target(
            vx,
            vy,
            row,
            col,
        )] == 1);
    }
}

/// Storing `V0..=Vx` at `I` and loading the same span back recovers the
/// registers exactly, and the store touches no byte outside `I..=I+x`.
pub proof fn lemma_store_load_round_trip(mem: Seq<u8>, v: Seq<u8>, i: int, x: int)
    requires
        mem.len() == 4096,
        v.len() == 16,
        0 <= x < 16,
        0 <= i,
        i + x + 1 <= 4096,
    ensures
        load_regs(store_regs(mem, v, i, x), v, i, x) =~= v,
        forall|j: int|
            0 <= j < 4096 && !(i <= j <= i + x) ==> store_regs(mem, v, i, x)[j] == mem[j],
{
}

/// Only `CXNN` consults the random byte: for every other instruction the
/// cycle is a function of the machine alone, so the existential contracts of
/// the executable cycle pin its outcome exactly.
pub proof fn lemma_execute_deterministic(s: MachineState, rnd1: u8, rnd2: u8)
    requires
        !(spec_decode(s.opcode) is Rnd),
    ensures
        spec_execute(s, rnd1) == spec_execute(s, rnd2),
{
}

/// A successful cycle whose instruction is not `FX15` counts the delay
/// timer down by one, and a zero delay timer stays zero.
pub proof fn lemma_timer_tick(s: MachineState, rnd: u8)
    requires
        s.wf(),
        s.pc <= 0xFFE,
        !(spec_decode(s.opcode) is LdDtVx),
        spec_execute(s, rnd).1 is Ok,
    ensures
        s.delay_timer > 0 ==> spec_execute(s, rnd).0.delay_timer == s.delay_timer - 1,
        s.delay_timer == 0 ==> spec_execute(s, rnd).0.delay_timer == 0,
{
}

} // verus!
