//! The fetch-decode-execute cycle: one `step` fetches the word at `pc`,
//! decodes it, executes it, and ticks the two 60 Hz timers once.
//!
//! The meaning of a cycle is fixed by the specification functions
//! [`spec_execute`] and [`spec_step`]; the executable [`chip8_execute`] and
//! [`chip8_step`] are proved to realise them. The random byte of `CXNN` is
//! the one quantity left open: the contracts state that some byte exists for
//! which the transition matches.

use vstd::prelude::*;

use crate::decode::{decode, instr_bounded, lemma_decode_bounded, spec_decode, Instr};
use crate::machine::{chip8_fetch, spec_fetch, Chip8, Chip8Error, MachineState};

verus! {

/// One 60 Hz tick of a countdown timer: decrement while non-zero.
pub open spec fn tick_timer(t: u8) -> u8 {
    if t > 0 {
        (t - 1) as u8
    } else {
        0
    }
}

/// `s` after the timer tick that ends every successful cycle.
pub open spec fn with_timers(s: MachineState) -> MachineState {
    MachineState {
        delay_timer: tick_timer(s.delay_timer),
        sound_timer: tick_timer(s.sound_timer),
        ..s
    }
}

/// Whether the cycle ending at `s` emits the beep: the sound timer is about
/// to go from 1 to 0.
pub open spec fn spec_beep(s: MachineState) -> bool {
    s.sound_timer == 1
}

/// The weight of sprite column `col`: bit 7 is the leftmost pixel.
pub open spec fn col_mask(col: int) -> u8 {
    if col == 0 {
        128
    } else if col == 1 {
        64
    } else if col == 2 {
        32
    } else if col == 3 {
        16
    } else if col == 4 {
        8
    } else if col == 5 {
        4
    } else if col == 6 {
        2
    } else {
        1
    }
}

/// Whether sprite row byte `b` has the pixel in column `col` set.
pub open spec fn sprite_bit(b: u8, col: int) -> bool {
    (b / col_mask(col)) % 2 == 1
}

/// The framebuffer cell that sprite cell `(row, col)` lands on when the
/// sprite is drawn at `(vx, vy)`: both coordinates wrap the screen.
pub open spec fn draw_target(vx: int, vy: int, row: int, col: int) -> int {
    ((vy + row) % 32) * 64 + ((vx + col) % 64)
}

/// Whether the `n`-row sprite at address `i`, drawn at `(vx, vy)`, puts a set
/// pixel onto framebuffer cell `idx`.
pub open spec fn sprite_hits(
    mem: Seq<u8>,
    i: int,
    vx: int,
    vy: int,
    n: int,
    idx: int,
) -> bool {
    exists|row: int, col: int|
        0 <= row < n && 0 <= col < 8 && sprite_bit(mem[i + row], col) && draw_target(
            vx,
            vy,
            row,
            col,
        ) == idx
}

/// A framebuffer cell with its pixel toggled.
pub open spec fn flip(b: u8) -> u8 {
    if b == 0 {
        1
    } else {
        0
    }
}

/// The framebuffer after the sprite draw: every cell a set sprite pixel
/// lands on is toggled, every other cell keeps its value.
pub open spec fn draw_gfx(
    gfx: Seq<u8>,
    mem: Seq<u8>,
    i: int,
    vx: int,
    vy: int,
    n: int,
) -> Seq<u8> {
    Seq::new(
        gfx.len(),
        |idx: int| if sprite_hits(mem, i, vx, vy, n, idx) {
            flip(gfx[idx])
        } else {
            gfx[idx]
        },
    )
}

/// Whether the draw turns some lit pixel off: a set sprite pixel lands on a
/// cell that is already 1.
pub open spec fn draw_collision(
    gfx: Seq<u8>,
    mem: Seq<u8>,
    i: int,
    vx: int,
    vy: int,
    n: int,
) -> bool {
    exists|row: int, col: int|
        0 <= row < n && 0 <= col < 8 && sprite_bit(mem[i + row], col) && gfx[draw_target(
            vx,
            vy,
            row,
            col,
        )] == 1
}

/// The lowest pressed key with index at least `k`, or 16 when none is.
pub open spec fn first_pressed(key: Seq<u8>, k: int) -> int
    decreases 16 - k,
{
    if k < 0 || k >= 16 {
        16
    } else if key[k] == 1 {
        k
    } else {
        first_pressed(key, k + 1)
    }
}

/// `mem` with `v[0]..=v[x]` written at addresses `i..=i+x`.
pub open spec fn store_regs(mem: Seq<u8>, v: Seq<u8>, i: int, x: int) -> Seq<u8> {
    Seq::new(
        mem.len(),
        |j: int| if i <= j <= i + x {
            v[j - i]
        } else {
            mem[j]
        },
    )
}

/// `v` with its first `x + 1` registers replaced by `mem[i]..=mem[i+x]`.
pub open spec fn load_regs(mem: Seq<u8>, v: Seq<u8>, i: int, x: int) -> Seq<u8> {
    Seq::new(
        v.len(),
        |j: int| if 0 <= j <= x {
            mem[i + j]
        } else {
            v[j]
        },
    )
}

/// The instruction effect of one cycle, before the timer tick: either the
/// machine after the decoded instruction of `s.opcode`, or the error that
/// stops the machine, which leaves it untouched. `rnd` is the random byte
/// that `CXNN` masks; every other instruction ignores it.
///
/// `pc` was already advanced past the fetched word, so a plain instruction
/// leaves it at `pc + 2`, a taken skip at `pc + 4`, and the `FX0A` key wait
/// puts it back on itself.
///
/// Two conventions where the opcode table is silent: `EX9E` and `EXA1` read
/// the keypad slot named by the low nibble of `Vx`, so a register value past
/// 15 cannot reach outside the sixteen slots; and a `DXYN` with `N = 0`
/// reads no sprite bytes, so it succeeds whatever `I` holds and changes no
/// pixel.
pub open spec fn execute_body(s: MachineState, rnd: u8) -> Result<MachineState, Chip8Error> {
    let pc2 = (s.pc + 2) as u16;
    let pc4 = (s.pc + 4) as u16;
    match spec_decode(s.opcode) {
        Instr::Cls => Ok(
            MachineState { pc: pc2, gfx: Seq::new(2048, |j: int| 0u8), draw_flag: true, ..s },
        ),
        Instr::Ret => if s.sp == 0 {
            Err(Chip8Error::StackUnderflow)
        } else {
            Ok(MachineState { pc: s.stack[s.sp - 1], sp: (s.sp - 1) as u16, ..s })
        },
        Instr::Jp(nnn) => Ok(MachineState { pc: nnn, ..s }),
        Instr::Call(nnn) => if s.sp >= 16 {
            Err(Chip8Error::StackOverflow)
        } else {
            Ok(
                MachineState {
                    stack: s.stack.update(s.sp as int, pc2),
                    sp: (s.sp + 1) as u16,
                    pc: nnn,
                    ..s
                },
            )
        },
        Instr::SeByte(x, nn) => Ok(
            MachineState {
                pc: if s.v[x as int] == nn {
                    pc4
                } else {
                    pc2
                },
                ..s
            },
        ),
        Instr::SneByte(x, nn) => Ok(
            MachineState {
                pc: if s.v[x as int] != nn {
                    pc4
                } else {
                    pc2
                },
                ..s
            },
        ),
        Instr::SeReg(x, y) => Ok(
            MachineState {
                pc: if s.v[x as int] == s.v[y as int] {
                    pc4
                } else {
                    pc2
                },
                ..s
            },
        ),
        Instr::LdByte(x, nn) => Ok(MachineState { pc: pc2, v: s.v.update(x as int, nn), ..s }),
        Instr::AddByte(x, nn) => Ok(
            MachineState {
                pc: pc2,
                v: s.v.update(x as int, ((s.v[x as int] + nn) % 256) as u8),
                ..s
            },
        ),
        Instr::LdReg(x, y) => Ok(
            MachineState { pc: pc2, v: s.v.update(x as int, s.v[y as int]), ..s },
        ),
        Instr::OrReg(x, y) => Ok(
            MachineState { pc: pc2, v: s.v.update(x as int, s.v[x as int] | s.v[y as int]), ..s },
        ),
        Instr::AndReg(x, y) => Ok(
            MachineState { pc: pc2, v: s.v.update(x as int, s.v[x as int] & s.v[y as int]), ..s },
        ),
        Instr::XorReg(x, y) => Ok(
            MachineState { pc: pc2, v: s.v.update(x as int, s.v[x as int] ^ s.v[y as int]), ..s },
        ),
        Instr::AddReg(x, y) => Ok(
            MachineState {
                pc: pc2,
                v: s.v.update(x as int, ((s.v[x as int] + s.v[y as int]) % 256) as u8).update(
                    15,
                    if s.v[x as int] + s.v[y as int] > 255 {
                        1u8
                    } else {
                        0u8
                    },
                ),
                ..s
            },
        ),
        Instr::SubReg(x, y) => Ok(
            MachineState {
                pc: pc2,
                v: s.v.update(x as int, ((s.v[x as int] - s.v[y as int]) % 256) as u8).update(
                    15,
                    if s.v[x as int] >= s.v[y as int] {
                        1u8
                    } else {
                        0u8
                    },
                ),
                ..s
            },
        ),
        Instr::ShrReg(x, y) => {
            let src = if s.quirk_shift_vy {
                s.v[y as int]
            } else {
                s.v[x as int]
            };
            let v1 = s.v.update(15, src % 2);
            let src1 = if s.quirk_shift_vy {
                v1[y as int]
            } else {
                v1[x as int]
            };
            Ok(MachineState { pc: pc2, v: v1.update(x as int, src1 / 2), ..s })
        },
        Instr::SubnReg(x, y) => Ok(
            MachineState {
                pc: pc2,
                v: s.v.update(x as int, ((s.v[y as int] - s.v[x as int]) % 256) as u8).update(
                    15,
                    if s.v[y as int] >= s.v[x as int] {
                        1u8
                    } else {
                        0u8
                    },
                ),
                ..s
            },
        ),
        Instr::ShlReg(x, y) => {
            let src = if s.quirk_shift_vy {
                s.v[y as int]
            } else {
                s.v[x as int]
            };
            let v1 = s.v.update(15, src / 128);
            let src1 = if s.quirk_shift_vy {
                v1[y as int]
            } else {
                v1[x as int]
            };
            Ok(MachineState { pc: pc2, v: v1.update(x as int, ((src1 * 2) % 256) as u8), ..s })
        },
        Instr::SneReg(x, y) => Ok(
            MachineState {
                pc: if s.v[x as int] != s.v[y as int] {
                    pc4
                } else {
                    pc2
                },
                ..s
            },
        ),
        Instr::LdI(nnn) => Ok(MachineState { pc: pc2, i: nnn, ..s }),
        Instr::JpV0(nnn) => Ok(MachineState { pc: (nnn + s.v[0]) as u16, ..s }),
        Instr::Rnd(x, nn) => Ok(MachineState { pc: pc2, v: s.v.update(x as int, rnd & nn), ..s }),
        Instr::Drw(x, y, n) => if n > 0 && s.i + n > 4096 {
            Err(Chip8Error::MemoryAccessOutOfBounds)
        } else {
            Ok(
                MachineState {
                    pc: pc2,
                    gfx: draw_gfx(
                        s.gfx,
                        s.memory,
                        s.i as int,
                        s.v[x as int] as int,
                        s.v[y as int] as int,
                        n as int,
                    ),
                    v: s.v.update(
                        15,
                        if draw_collision(
                            s.gfx,
                            s.memory,
                            s.i as int,
                            s.v[x as int] as int,
                            s.v[y as int] as int,
                            n as int,
                        ) {
                            1u8
                        } else {
                            0u8
                        },
                    ),
                    draw_flag: true,
                    ..s
                },
            )
        },
        Instr::Skp(x) => Ok(
            MachineState {
                pc: if s.key[(s.v[x as int] % 16) as int] == 1 {
                    pc4
                } else {
                    pc2
                },
                ..s
            },
        ),
        Instr::Sknp(x) => Ok(
            MachineState {
                pc: if s.key[(s.v[x as int] % 16) as int] != 1 {
                    pc4
                } else {
                    pc2
                },
                ..s
            },
        ),
        Instr::LdVxDt(x) => Ok(
            MachineState { pc: pc2, v: s.v.update(x as int, s.delay_timer), ..s },
        ),
        Instr::LdVxK(x) => {
            let fp = first_pressed(s.key, 0);
            if fp == 16 {
                Ok(MachineState { pc: s.pc, ..s })
            } else {
                Ok(MachineState { pc: pc2, v: s.v.update(x as int, fp as u8), ..s })
            }
        },
        Instr::LdDtVx(x) => Ok(MachineState { pc: pc2, delay_timer: s.v[x as int], ..s }),
        Instr::LdStVx(x) => Ok(MachineState { pc: pc2, sound_timer: s.v[x as int], ..s }),
        Instr::AddI(x) => Ok(
            MachineState { pc: pc2, i: ((s.i + s.v[x as int]) % 0x10000) as u16, ..s },
        ),
        Instr::LdF(x) => Ok(MachineState { pc: pc2, i: (s.v[x as int] * 5) as u16, ..s }),
        Instr::LdB(x) => if s.i + 3 > 4096 {
            Err(Chip8Error::MemoryAccessOutOfBounds)
        } else {
            Ok(
                MachineState {
                    pc: pc2,
                    memory: s.memory.update(s.i as int, s.v[x as int] / 100).update(
                        s.i + 1,
                        (s.v[x as int] / 10) % 10,
                    ).update(s.i + 2, s.v[x as int] % 10),
                    ..s
                },
            )
        },
        Instr::StoreRegs(x) => if s.i + x + 1 > 4096 {
            Err(Chip8Error::MemoryAccessOutOfBounds)
        } else {
            Ok(
                MachineState {
                    pc: pc2,
                    memory: store_regs(s.memory, s.v, s.i as int, x as int),
                    i: if s.quirk_load_inc_i {
                        (s.i + x + 1) as u16
                    } else {
                        s.i
                    },
                    ..s
                },
            )
        },
        Instr::LoadRegs(x) => if s.i + x + 1 > 4096 {
            Err(Chip8Error::MemoryAccessOutOfBounds)
        } else {
            Ok(
                MachineState {
                    pc: pc2,
                    v: load_regs(s.memory, s.v, s.i as int, x as int),
                    i: if s.quirk_load_inc_i {
                        (s.i + x + 1) as u16
                    } else {
                        s.i
                    },
                    ..s
                },
            )
        },
        Instr::Unknown => Err(Chip8Error::UnknownOpcode),
    }
}

/// One whole execute stage on the already-fetched `s.opcode`: the
/// instruction effect followed by the timer tick and the beep event, or the
/// stopping error with the machine untouched.
pub open spec fn spec_execute(s: MachineState, rnd: u8) -> (MachineState, Result<
    bool,
    Chip8Error,
>) {
    match execute_body(s, rnd) {
        Ok(m) => (with_timers(m), Ok(spec_beep(m))),
        Err(e) => (s, Err(e)),
    }
}

/// One whole cycle from `s`: fetch the word at `pc` into `opcode` (refused
/// when `pc` is past 0xFFE), then the execute stage.
pub open spec fn spec_step(s: MachineState, rnd: u8) -> (MachineState, Result<bool, Chip8Error>) {
    if s.pc > 0xFFE {
        (s, Err(Chip8Error::PcOutOfBounds))
    } else {
        spec_execute(MachineState { opcode: spec_fetch(s), ..s }, rnd)
    }
}

/// The set pixels of the sprite prefix strictly before cell `(row, col)` in
/// row-major order, as the framebuffer cells they land on.
spec fn hit_before(
    mem: Seq<u8>,
    i: int,
    vx: int,
    vy: int,
    row: int,
    col: int,
    idx: int,
) -> bool {
    exists|r: int, c: int|
        0 <= r && 0 <= c < 8 && (r < row || (r == row && c < col)) && sprite_bit(mem[i + r], c)
            && draw_target(vx, vy, r, c) == idx
}

/// Whether some set sprite pixel strictly before cell `(row, col)` lands on
/// a cell that was lit in the framebuffer `gfx` the draw started from.
spec fn coll_before(
    gfx: Seq<u8>,
    mem: Seq<u8>,
    i: int,
    vx: int,
    vy: int,
    row: int,
    col: int,
) -> bool {
    exists|r: int, c: int|
        0 <= r && 0 <= c < 8 && (r < row || (r == row && c < col)) && sprite_bit(mem[i + r], c)
            && gfx[draw_target(vx, vy, r, c)] == 1
}

/// Adding distinct offsets below `m` to the same base gives distinct
/// residues mod `m`.
proof fn lemma_wrap_inj(a: int, c1: int, c2: int, m: int)
    requires
        0 <= a,
        0 <= c1 < m,
        0 <= c2 < m,
        (a + c1) % m == (a + c2) % m,
    ensures
        c1 == c2,
{
    vstd::arithmetic::div_mod::lemma_mod_equivalence(a + c1, a + c2, m);
    if c1 > c2 {
        vstd::arithmetic::div_mod::lemma_small_mod((c1 - c2) as nat, m as nat);
        assert(false);
    } else if c1 < c2 {
        vstd::arithmetic::div_mod::lemma_fundamental_div_mod_converse_mod(
            c1 - c2,
            m,
            -1,
            m - (c2 - c1),
        );
        assert(false);
    }
}

/// Distinct sprite cells land on distinct framebuffer cells: the eight
/// columns stay distinct mod 64 and the at most sixteen rows mod 32.
proof fn lemma_target_inj(vx: int, vy: int, r1: int, c1: int, r2: int, c2: int)
    requires
        0 <= vx,
        0 <= vy,
        0 <= r1 < 16,
        0 <= c1 < 8,
        0 <= r2 < 16,
        0 <= c2 < 8,
        draw_target(vx, vy, r1, c1) == draw_target(vx, vy, r2, c2),
    ensures
        r1 == r2,
        c1 == c2,
{
    let py1 = (vy + r1) % 32;
    let px1 = (vx + c1) % 64;
    let py2 = (vy + r2) % 32;
    let px2 = (vx + c2) % 64;
    vstd::arithmetic::div_mod::lemma_mod_bound(vy + r1, 32);
    vstd::arithmetic::div_mod::lemma_mod_bound(vx + c1, 64);
    vstd::arithmetic::div_mod::lemma_mod_bound(vy + r2, 32);
    vstd::arithmetic::div_mod::lemma_mod_bound(vx + c2, 64);
    assert(py1 == py2 && px1 == px2);
    lemma_wrap_inj(vy, r1, r2, 32);
    lemma_wrap_inj(vx, c1, c2, 64);
}

/// Stepping the draw past sprite cell `(row, col)` extends the processed
/// prefix by exactly that cell.
proof fn lemma_hit_before_step(
    mem: Seq<u8>,
    i: int,
    vx: int,
    vy: int,
    row: int,
    col: int,
    idx: int,
)
    requires
        0 <= row,
        0 <= col < 8,
    ensures
        hit_before(mem, i, vx, vy, row, col + 1, idx) <==> (hit_before(
            mem,
            i,
            vx,
            vy,
            row,
            col,
            idx,
        ) || (sprite_bit(mem[i + row], col) && draw_target(vx, vy, row, col) == idx)),
{
    if hit_before(mem, i, vx, vy, row, col + 1, idx) {
        let (r, c) = choose|r: int, c: int|
            0 <= r && 0 <= c < 8 && (r < row || (r == row && c < col + 1)) && sprite_bit(
                mem[i + r],
                c,
            ) && draw_target(vx, vy, r, c) == idx;
        if r < row || (r == row && c < col) {
            assert(hit_before(mem, i, vx, vy, row, col, idx));
        }
    }
    if hit_before(mem, i, vx, vy, row, col, idx) {
        let (r, c) = choose|r: int, c: int|
            0 <= r && 0 <= c < 8 && (r < row || (r == row && c < col)) && sprite_bit(
                mem[i + r],
                c,
            ) && draw_target(vx, vy, r, c) == idx;
        assert(0 <= r && 0 <= c < 8 && (r < row || (r == row && c < col + 1)) && sprite_bit(
            mem[i + r],
            c,
        ) && draw_target(vx, vy, r, c) == idx);
    }
    if sprite_bit(mem[i + row], col) && draw_target(vx, vy, row, col) == idx {
        assert(0 <= row && 0 <= col < 8 && (row < row || (row == row && col < col + 1))
            && sprite_bit(mem[i + row], col) && draw_target(vx, vy, row, col) == idx);
    }
}

/// The same step for the collision account.
proof fn lemma_coll_before_step(
    gfx: Seq<u8>,
    mem: Seq<u8>,
    i: int,
    vx: int,
    vy: int,
    row: int,
    col: int,
)
    requires
        0 <= row,
        0 <= col < 8,
    ensures
        coll_before(gfx, mem, i, vx, vy, row, col + 1) <==> (coll_before(
            gfx,
            mem,
            i,
            vx,
            vy,
            row,
            col,
        ) || (sprite_bit(mem[i + row], col) && gfx[draw_target(vx, vy, row, col)] == 1)),
{
    if coll_before(gfx, mem, i, vx, vy, row, col + 1) {
        let (r, c) = choose|r: int, c: int|
            0 <= r && 0 <= c < 8 && (r < row || (r == row && c < col + 1)) && sprite_bit(
                mem[i + r],
                c,
            ) && gfx[draw_target(vx, vy, r, c)] == 1;
        if r < row || (r == row && c < col) {
            assert(coll_before(gfx, mem, i, vx, vy, row, col));
        }
    }
    if coll_before(gfx, mem, i, vx, vy, row, col) {
        let (r, c) = choose|r: int, c: int|
            0 <= r && 0 <= c < 8 && (r < row || (r == row && c < col)) && sprite_bit(
                mem[i + r],
                c,
            ) && gfx[draw_target(vx, vy, r, c)] == 1;
        assert(0 <= r && 0 <= c < 8 && (r < row || (r == row && c < col + 1)) && sprite_bit(
            mem[i + r],
            c,
        ) && gfx[draw_target(vx, vy, r, c)] == 1);
    }
    if sprite_bit(mem[i + row], col) && gfx[draw_target(vx, vy, row, col)] == 1 {
        assert(0 <= row && 0 <= col < 8 && (row < row || (row == row && col < col + 1))
            && sprite_bit(mem[i + row], col) && gfx[draw_target(vx, vy, row, col)] == 1);
    }
}

/// Finishing a row is the same processed prefix as starting the next.
proof fn lemma_row_end(gfx: Seq<u8>, mem: Seq<u8>, i: int, vx: int, vy: int, row: int, idx: int)
    ensures
        hit_before(mem, i, vx, vy, row, 8, idx) <==> hit_before(mem, i, vx, vy, row + 1, 0, idx),
        coll_before(gfx, mem, i, vx, vy, row, 8) <==> coll_before(gfx, mem, i, vx, vy, row + 1, 0),
{
    if hit_before(mem, i, vx, vy, row, 8, idx) {
        let (r, c) = choose|r: int, c: int|
            0 <= r && 0 <= c < 8 && (r < row || (r == row && c < 8)) && sprite_bit(mem[i + r], c)
                && draw_target(vx, vy, r, c) == idx;
        assert(0 <= r && 0 <= c < 8 && (r < row + 1 || (r == row + 1 && c < 0)) && sprite_bit(
            mem[i + r],
            c,
        ) && draw_target(vx, vy, r, c) == idx);
    }
    if hit_before(mem, i, vx, vy, row + 1, 0, idx) {
        let (r, c) = choose|r: int, c: int|
            0 <= r && 0 <= c < 8 && (r < row + 1 || (r == row + 1 && c < 0)) && sprite_bit(
                mem[i + r],
                c,
            ) && draw_target(vx, vy, r, c) == idx;
        assert(0 <= r && 0 <= c < 8 && (r < row || (r == row && c < 8)) && sprite_bit(
            mem[i + r],
            c,
        ) && draw_target(vx, vy, r, c) == idx);
    }
    if coll_before(gfx, mem, i, vx, vy, row, 8) {
        let (r, c) = choose|r: int, c: int|
            0 <= r && 0 <= c < 8 && (r < row || (r == row && c < 8)) && sprite_bit(mem[i + r], c)
                && gfx[draw_target(vx, vy, r, c)] == 1;
        assert(0 <= r && 0 <= c < 8 && (r < row + 1 || (r == row + 1 && c < 0)) && sprite_bit(
            mem[i + r],
            c,
        ) && gfx[draw_target(vx, vy, r, c)] == 1);
    }
    if coll_before(gfx, mem, i, vx, vy, row + 1, 0) {
        let (r, c) = choose|r: int, c: int|
            0 <= r && 0 <= c < 8 && (r < row + 1 || (r == row + 1 && c < 0)) && sprite_bit(
                mem[i + r],
                c,
            ) && gfx[draw_target(vx, vy, r, c)] == 1;
        assert(0 <= r && 0 <= c < 8 && (r < row || (r == row && c < 8)) && sprite_bit(
            mem[i + r],
            c,
        ) && gfx[draw_target(vx, vy, r, c)] == 1);
    }
}

/// The prefix of all `n` rows is the whole sprite.
proof fn lemma_prefix_complete(
    gfx: Seq<u8>,
    mem: Seq<u8>,
    i: int,
    vx: int,
    vy: int,
    n: int,
    idx: int,
)
    ensures
        hit_before(mem, i, vx, vy, n, 0, idx) <==> sprite_hits(mem, i, vx, vy, n, idx),
        coll_before(gfx, mem, i, vx, vy, n, 0) <==> draw_collision(gfx, mem, i, vx, vy, n),
{
    if hit_before(mem, i, vx, vy, n, 0, idx) {
        let (r, c) = choose|r: int, c: int|
            0 <= r && 0 <= c < 8 && (r < n || (r == n && c < 0)) && sprite_bit(mem[i + r], c)
                && draw_target(vx, vy, r, c) == idx;
        assert(0 <= r < n && 0 <= c < 8 && sprite_bit(mem[i + r], c) && draw_target(vx, vy, r, c)
            == idx);
    }
    if sprite_hits(mem, i, vx, vy, n, idx) {
        let (r, c) = choose|r: int, c: int|
            0 <= r < n && 0 <= c < 8 && sprite_bit(mem[i + r], c) && draw_target(vx, vy, r, c)
                == idx;
        assert(0 <= r && 0 <= c < 8 && (r < n || (r == n && c < 0)) && sprite_bit(mem[i + r], c)
            && draw_target(vx, vy, r, c) == idx);
    }
    if coll_before(gfx, mem, i, vx, vy, n, 0) {
        let (r, c) = choose|r: int, c: int|
            0 <= r && 0 <= c < 8 && (r < n || (r == n && c < 0)) && sprite_bit(mem[i + r], c)
                && gfx[draw_target(vx, vy, r, c)] == 1;
        assert(0 <= r < n && 0 <= c < 8 && sprite_bit(mem[i + r], c) && gfx[draw_target(
            vx,
            vy,
            r,
            c,
        )] == 1);
    }
    if draw_collision(gfx, mem, i, vx, vy, n) {
        let (r, c) = choose|r: int, c: int|
            0 <= r < n && 0 <= c < 8 && sprite_bit(mem[i + r], c) && gfx[draw_target(
                vx,
                vy,
                r,
                c,
            )] == 1;
        assert(0 <= r && 0 <= c < 8 && (r < n || (r == n && c < 0)) && sprite_bit(mem[i + r], c)
            && gfx[draw_target(vx, vy, r, c)] == 1);
    }
}

/// The weight of sprite column `col`, executably.
fn col_mask_exec(col: usize) -> (m: u8)
    requires
        col < 8,
    ensures
        m == col_mask(col as int),
        m >= 1,
{
    if col == 0 {
        128
    } else if col == 1 {
        64
    } else if col == 2 {
        32
    } else if col == 3 {
        16
    } else if col == 4 {
        8
    } else if col == 5 {
        4
    } else if col == 6 {
        2
    } else {
        1
    }
}

/// Draws the `n`-row sprite at address `i` at screen position `(V[x], V[y])`
/// with wrap-around, XOR-blitting each set pixel, and records in `VF`
/// whether any lit pixel went dark.
fn exec_draw(c8: &mut Chip8, x: usize, y: usize, n: usize)
    requires
        old(c8).wf(),
        x < 16,
        y < 16,
        n < 16,
        n > 0 ==> old(c8)@.i + n <= 4096,
    ensures
        final(c8).wf(),
        final(c8)@ == (MachineState {
            gfx: draw_gfx(
                old(c8)@.gfx,
                old(c8)@.memory,
                old(c8)@.i as int,
                old(c8)@.v[x as int] as int,
                old(c8)@.v[y as int] as int,
                n as int,
            ),
            v: old(c8)@.v.update(
                15,
                if draw_collision(
                    old(c8)@.gfx,
                    old(c8)@.memory,
                    old(c8)@.i as int,
                    old(c8)@.v[x as int] as int,
                    old(c8)@.v[y as int] as int,
                    n as int,
                ) {
                    1u8
                } else {
                    0u8
                },
            ),
            draw_flag: true,
            ..old(c8)@
        }),
{
    let ghost pre = old(c8)@;
    let ghost gm = pre.memory;
    let ghost g0 = pre.gfx;
    let ghost i0 = pre.i as int;
    let vx = c8.v[x];
    let vy = c8.v[y];
    let ghost vxi = vx as int;
    let ghost vyi = vy as int;
    c8.v.set(15, 0);
    let mut row: usize = 0;
    while row < n
        invariant
            pre.wf(),
            row <= n,
            n < 16,
            x < 16,
            y < 16,
            n > 0 ==> i0 + n <= 4096,
            i0 == pre.i as int,
            gm == pre.memory,
            g0 == pre.gfx,
            vxi == pre.v[x as int] as int,
            vyi == pre.v[y as int] as int,
            vx == pre.v[x as int],
            vy == pre.v[y as int],
            c8@ == (MachineState { gfx: c8@.gfx, v: c8@.v, ..pre }),
            c8@.gfx.len() == 2048,
            c8@.v.len() == 16,
            c8@.v == pre.v.update(15, c8@.v[15]),
            c8@.v[15] <= 1,
            forall|idx: int|
                0 <= idx < 2048 ==> c8@.gfx[idx] == (if hit_before(
                    gm,
                    i0,
                    vxi,
                    vyi,
                    row as int,
                    0,
                    idx,
                ) {
                    flip(g0[idx])
                } else {
                    g0[idx]
                }),
            (c8@.v[15] == 1) <==> coll_before(g0, gm, i0, vxi, vyi, row as int, 0),
        decreases n - row,
    {
        let row_byte = c8.memory[c8.i as usize + row];
        let mut col: usize = 0;
        while col < 8
            invariant
                pre.wf(),
                row < n,
                n < 16,
                col <= 8,
                n > 0 ==> i0 + n <= 4096,
                i0 == pre.i as int,
                gm == pre.memory,
                g0 == pre.gfx,
                vxi == pre.v[x as int] as int,
                vyi == pre.v[y as int] as int,
                x < 16,
                y < 16,
                vx == pre.v[x as int],
                vy == pre.v[y as int],
                row_byte == gm[i0 + row],
                c8@ == (MachineState { gfx: c8@.gfx, v: c8@.v, ..pre }),
                c8@.gfx.len() == 2048,
                c8@.v.len() == 16,
                c8@.v == pre.v.update(15, c8@.v[15]),
                c8@.v[15] <= 1,
                forall|idx: int|
                    0 <= idx < 2048 ==> c8@.gfx[idx] == (if hit_before(
                        gm,
                        i0,
                        vxi,
                        vyi,
                        row as int,
                        col as int,
                        idx,
                    ) {
                        flip(g0[idx])
                    } else {
                        g0[idx]
                    }),
                (c8@.v[15] == 1) <==> coll_before(g0, gm, i0, vxi, vyi, row as int, col as int),
            decreases 8 - col,
        {
            let m = col_mask_exec(col);
            let bit = (row_byte / m) % 2;
            proof {
                assert((bit == 1) == sprite_bit(gm[i0 + row], col as int));
            }
            if bit == 1 {
                let px = (vx as usize + col) % 64;
                let py = (vy as usize + row) % 32;
                proof {
                    vstd::arithmetic::div_mod::lemma_mod_bound(vxi + col, 64);
                    vstd::arithmetic::div_mod::lemma_mod_bound(vyi + row, 32);
                }
                let idx = py * 64 + px;
                proof {
                    assert(idx as int == draw_target(vxi, vyi, row as int, col as int));
                    assert(!hit_before(gm, i0, vxi, vyi, row as int, col as int, idx as int))
                        by {
                        if hit_before(gm, i0, vxi, vyi, row as int, col as int, idx as int) {
                            let (r, c) = choose|r: int, c: int|
                                0 <= r && 0 <= c < 8 && (r < row || (r == row && c < col))
                                    && sprite_bit(gm[i0 + r], c) && draw_target(vxi, vyi, r, c)
                                    == idx as int;
                            lemma_target_inj(vxi, vyi, r, c, row as int, col as int);
                        }
                    }
                    assert(c8@.gfx[idx as int] == g0[idx as int]);
                }
                if c8.gfx[idx] == 1 {
                    c8.v.set(15, 1);
                    c8.gfx.set(idx, 0);
                } else {
                    c8.gfx.set(idx, 1);
                }
            }
            proof {
                assert forall|idx: int| 0 <= idx < 2048 implies c8@.gfx[idx] == (if hit_before(
                    gm,
                    i0,
                    vxi,
                    vyi,
                    row as int,
                    col as int + 1,
                    idx,
                ) {
                    flip(g0[idx])
                } else {
                    g0[idx]
                }) by {
                    lemma_hit_before_step(gm, i0, vxi, vyi, row as int, col as int, idx);
                }
                lemma_coll_before_step(g0, gm, i0, vxi, vyi, row as int, col as int);
            }
            col = col + 1;
        }
        proof {
            assert forall|idx: int| 0 <= idx < 2048 implies (hit_before(
                gm,
                i0,
                vxi,
                vyi,
                row as int,
                8,
                idx,
            ) <==> hit_before(gm, i0, vxi, vyi, row as int + 1, 0, idx)) by {
                lemma_row_end(g0, gm, i0, vxi, vyi, row as int, idx);
            }
            lemma_row_end(g0, gm, i0, vxi, vyi, row as int, 0);
        }
        row = row + 1;
    }
    c8.draw_flag = true;
    proof {
        assert forall|idx: int| 0 <= idx < 2048 implies (hit_before(
            gm,
            i0,
            vxi,
            vyi,
            n as int,
            0,
            idx,
        ) <==> sprite_hits(gm, i0, vxi, vyi, n as int, idx)) by {
            lemma_prefix_complete(g0, gm, i0, vxi, vyi, n as int, idx);
        }
        lemma_prefix_complete(g0, gm, i0, vxi, vyi, n as int, 0);
        assert(c8@.gfx =~= draw_gfx(g0, gm, i0, vxi, vyi, n as int));
        assert(c8@.v =~= pre.v.update(
            15,
            if draw_collision(g0, gm, i0, vxi, vyi, n as int) {
                1u8
            } else {
                0u8
            },
        ));
    }
}

/// Stores `V0..=Vx` into memory at addresses `I..=I+x`.
fn exec_store_regs(c8: &mut Chip8, x: usize)
    requires
        old(c8).wf(),
        x < 16,
        old(c8)@.i + x + 1 <= 4096,
    ensures
        final(c8)@ == (MachineState {
            memory: store_regs(old(c8)@.memory, old(c8)@.v, old(c8)@.i as int, x as int),
            ..old(c8)@
        }),
{
    let ghost i0 = old(c8)@.i as int;
    let mut k: usize = 0;
    while k <= x
        invariant
            old(c8).wf(),
            x < 16,
            i0 == old(c8)@.i as int,
            i0 + x + 1 <= 4096,
            k <= x + 1,
            c8@ == (MachineState { memory: c8@.memory, ..old(c8)@ }),
            c8@.memory.len() == 4096,
            forall|j: int| i0 <= j < i0 + k ==> c8@.memory[j] == old(c8)@.v[j - i0],
            forall|j: int|
                0 <= j < 4096 && !(i0 <= j < i0 + k) ==> c8@.memory[j] == old(c8)@.memory[j],
        decreases x + 1 - k,
    {
        let b = c8.v[k];
        c8.memory.set(c8.i as usize + k, b);
        k = k + 1;
    }
    proof {
        assert(c8@.memory =~= store_regs(old(c8)@.memory, old(c8)@.v, i0, x as int));
    }
}

/// Loads `V0..=Vx` from memory at addresses `I..=I+x`.
fn exec_load_regs(c8: &mut Chip8, x: usize)
    requires
        old(c8).wf(),
        x < 16,
        old(c8)@.i + x + 1 <= 4096,
    ensures
        final(c8)@ == (MachineState {
            v: load_regs(old(c8)@.memory, old(c8)@.v, old(c8)@.i as int, x as int),
            ..old(c8)@
        }),
{
    let ghost i0 = old(c8)@.i as int;
    let mut k: usize = 0;
    while k <= x
        invariant
            old(c8).wf(),
            x < 16,
            i0 == old(c8)@.i as int,
            i0 + x + 1 <= 4096,
            k <= x + 1,
            c8@ == (MachineState { v: c8@.v, ..old(c8)@ }),
            c8@.v.len() == 16,
            forall|j: int| 0 <= j < k ==> c8@.v[j] == old(c8)@.memory[i0 + j],
            forall|j: int| k <= j < 16 ==> c8@.v[j] == old(c8)@.v[j],
        decreases x + 1 - k,
    {
        let b = c8.memory[c8.i as usize + k];
        c8.v.set(k, b);
        k = k + 1;
    }
    proof {
        assert(c8@.v =~= load_regs(old(c8)@.memory, old(c8)@.v, i0, x as int));
    }
}

/// The index of the lowest pressed key, or 16 when none is pressed.
fn find_first_key(c8: &Chip8) -> (fp: usize)
    requires
        c8.wf(),
    ensures
        fp as int == first_pressed(c8@.key, 0),
        fp <= 16,
{
    let mut fp: usize = 16;
    let mut k: usize = 16;
    while k > 0
        invariant
            c8.wf(),
            k <= 16,
            fp <= 16,
            fp as int == first_pressed(c8@.key, k as int),
        decreases k,
    {
        k = k - 1;
        if c8.key[k] == 1 {
            fp = k;
        }
    }
    fp
}

/// The contract of [`chip8_execute`]: some random byte makes the execute
/// stage from `pre` end in exactly the machine `post` and the result `r`.
pub open spec fn execute_rel(
    pre: MachineState,
    post: MachineState,
    r: Result<bool, Chip8Error>,
) -> bool {
    exists|rnd: u8| spec_execute(pre, rnd) == (post, r)
}

/// The contract of [`chip8_step`]: some random byte makes the whole cycle
/// from `pre` end in exactly the machine `post` and the result `r`.
pub open spec fn step_rel(
    pre: MachineState,
    post: MachineState,
    r: Result<bool, Chip8Error>,
) -> bool {
    exists|rnd: u8| spec_step(pre, rnd) == (post, r)
}

/// Executes the already-fetched word in `opcode` and ticks the timers: the
/// execute stage of one cycle, exactly as [`spec_execute`] states it.
///
/// On success the returned flag is the beep event: the sound timer just went
/// from 1 to 0, and the host should sound the buzzer. On an error —
/// an unknown pattern, a stack fault, or an `I`-relative access past memory —
/// the machine is left untouched for inspection and no timer ticks.
#[verifier::rlimit(100)]
pub fn chip8_execute(c8: &mut Chip8) -> (r: Result<bool, Chip8Error>)
    requires
        old(c8).wf(),
        old(c8)@.pc <= 0xFFE,
    ensures
        final(c8).wf(),
        execute_rel(old(c8)@, final(c8)@, r),
{
    let ghost pre = old(c8)@;
    let ghost mut w: u8 = 0u8;
    let op = c8.opcode;
    let instr = decode(op);
    proof {
        lemma_decode_bounded(op);
        assert(instr_bounded(instr));
    }
    let pc2 = c8.pc + 2;
    match instr {
        Instr::Cls => {
            let mut j: usize = 0;
            while j < 2048
                invariant
                    pre.wf(),
                    j <= 2048,
                    c8@ == (MachineState { gfx: c8@.gfx, ..pre }),
                    c8@.gfx.len() == 2048,
                    forall|t: int| 0 <= t < j ==> c8@.gfx[t] == 0,
                    forall|t: int| j <= t < 2048 ==> c8@.gfx[t] == pre.gfx[t],
                decreases 2048 - j,
            {
                c8.gfx.set(j, 0);
                j = j + 1;
            }
            c8.pc = pc2;
            c8.draw_flag = true;
            proof {
                assert(c8@.gfx =~= Seq::new(2048, |t: int| 0u8));
                assert(execute_body(pre, w)->Ok_0 =~= c8@);
            }
        },
        Instr::Ret => {
            if c8.sp == 0 {
                proof {
                    assert(spec_execute(pre, w) == (
                        c8@,
                        Err::<bool, Chip8Error>(Chip8Error::StackUnderflow),
                    ));
                }
                return Err(Chip8Error::StackUnderflow);
            }
            c8.sp = c8.sp - 1;
            c8.pc = c8.stack[c8.sp as usize];
            proof {
                assert(execute_body(pre, w)->Ok_0 =~= c8@);
            }
        },
        Instr::Jp(nnn) => {
            c8.pc = nnn;
            proof {
                assert(execute_body(pre, w)->Ok_0 =~= c8@);
            }
        },
        Instr::Call(nnn) => {
            if c8.sp >= 16 {
                proof {
                    assert(spec_execute(pre, w) == (
                        c8@,
                        Err::<bool, Chip8Error>(Chip8Error::StackOverflow),
                    ));
                }
                return Err(Chip8Error::StackOverflow);
            }
            c8.stack.set(c8.sp as usize, pc2);
            c8.sp = c8.sp + 1;
            c8.pc = nnn;
            proof {
                assert(execute_body(pre, w)->Ok_0 =~= c8@);
            }
        },
        Instr::SeByte(x, nn) => {
            if c8.v[x as usize] == nn {
                c8.pc = pc2 + 2;
            } else {
                c8.pc = pc2;
            }
            proof {
                assert(execute_body(pre, w)->Ok_0 =~= c8@);
            }
        },
        Instr::SneByte(x, nn) => {
            if c8.v[x as usize] != nn {
                c8.pc = pc2 + 2;
            } else {
                c8.pc = pc2;
            }
            proof {
                assert(execute_body(pre, w)->Ok_0 =~= c8@);
            }
        },
        Instr::SeReg(x, y) => {
            if c8.v[x as usize] == c8.v[y as usize] {
                c8.pc = pc2 + 2;
            } else {
                c8.pc = pc2;
            }
            proof {
                assert(execute_body(pre, w)->Ok_0 =~= c8@);
            }
        },
        Instr::LdByte(x, nn) => {
            c8.v.set(x as usize, nn);
            c8.pc = pc2;
            proof {
                assert(execute_body(pre, w)->Ok_0 =~= c8@);
            }
        },
        Instr::AddByte(x, nn) => {
            let t: u16 = c8.v[x as usize] as u16 + nn as u16;
            c8.v.set(x as usize, (t % 256) as u8);
            c8.pc = pc2;
            proof {
                assert(execute_body(pre, w)->Ok_0 =~= c8@);
            }
        },
        Instr::LdReg(x, y) => {
            let b = c8.v[y as usize];
            c8.v.set(x as usize, b);
            c8.pc = pc2;
            proof {
                assert(execute_body(pre, w)->Ok_0 =~= c8@);
            }
        },
        Instr::OrReg(x, y) => {
            let b = c8.v[x as usize] | c8.v[y as usize];
            c8.v.set(x as usize, b);
            c8.pc = pc2;
            proof {
                assert(execute_body(pre, w)->Ok_0 =~= c8@);
            }
        },
        Instr::AndReg(x, y) => {
            let b = c8.v[x as usize] & c8.v[y as usize];
            c8.v.set(x as usize, b);
            c8.pc = pc2;
            proof {
                assert(execute_body(pre, w)->Ok_0 =~= c8@);
            }
        },
        Instr::XorReg(x, y) => {
            let b = c8.v[x as usize] ^ c8.v[y as usize];
            c8.v.set(x as usize, b);
            c8.pc = pc2;
            proof {
                assert(execute_body(pre, w)->Ok_0 =~= c8@);
            }
        },
        Instr::AddReg(x, y) => {
            let t: u16 = c8.v[x as usize] as u16 + c8.v[y as usize] as u16;
            c8.v.set(x as usize, (t % 256) as u8);
            let carry: u8 = if t > 255 {
                1
            } else {
                0
            };
            c8.v.set(15, carry);
            c8.pc = pc2;
            proof {
                assert(execute_body(pre, w)->Ok_0 =~= c8@);
            }
        },
        Instr::SubReg(x, y) => {
            let a = c8.v[x as usize];
            let b = c8.v[y as usize];
            let t: u16 = a as u16 + 256 - b as u16;
            c8.v.set(x as usize, (t % 256) as u8);
            let noborrow: u8 = if a >= b {
                1
            } else {
                0
            };
            c8.v.set(15, noborrow);
            c8.pc = pc2;
            proof {
                vstd::arithmetic::div_mod::lemma_mod_add_multiples_vanish(a - b, 256);
                assert(execute_body(pre, w)->Ok_0 =~= c8@);
            }
        },
        Instr::ShrReg(x, y) => {
            let src = if c8.quirk_shift_vy {
                c8.v[y as usize]
            } else {
                c8.v[x as usize]
            };
            c8.v.set(15, src % 2);
            let src1 = if c8.quirk_shift_vy {
                c8.v[y as usize]
            } else {
                c8.v[x as usize]
            };
            c8.v.set(x as usize, src1 / 2);
            c8.pc = pc2;
            proof {
                assert(execute_body(pre, w)->Ok_0 =~= c8@);
            }
        },
        Instr::SubnReg(x, y) => {
            let a = c8.v[x as usize];
            let b = c8.v[y as usize];
            let t: u16 = b as u16 + 256 - a as u16;
            c8.v.set(x as usize, (t % 256) as u8);
            let noborrow: u8 = if b >= a {
                1
            } else {
                0
            };
            c8.v.set(15, noborrow);
            c8.pc = pc2;
            proof {
                vstd::arithmetic::div_mod::lemma_mod_add_multiples_vanish(b - a, 256);
                assert(execute_body(pre, w)->Ok_0 =~= c8@);
            }
        },
        Instr::ShlReg(x, y) => {
            let src = if c8.quirk_shift_vy {
                c8.v[y as usize]
            } else {
                c8.v[x as usize]
            };
            c8.v.set(15, src / 128);
            let src1 = if c8.quirk_shift_vy {
                c8.v[y as usize]
            } else {
                c8.v[x as usize]
            };
            let t: u16 = src1 as u16 * 2;
            c8.v.set(x as usize, (t % 256) as u8);
            c8.pc = pc2;
            proof {
                assert(execute_body(pre, w)->Ok_0 =~= c8@);
            }
        },
        Instr::SneReg(x, y) => {
            if c8.v[x as usize] != c8.v[y as usize] {
                c8.pc = pc2 + 2;
            } else {
                c8.pc = pc2;
            }
            proof {
                assert(execute_body(pre, w)->Ok_0 =~= c8@);
            }
        },
        Instr::LdI(nnn) => {
            c8.i = nnn;
            c8.pc = pc2;
            proof {
                assert(execute_body(pre, w)->Ok_0 =~= c8@);
            }
        },
        Instr::JpV0(nnn) => {
            c8.pc = nnn + c8.v[0] as u16;
            proof {
                assert(execute_body(pre, w)->Ok_0 =~= c8@);
            }
        },
        Instr::Rnd(x, nn) => {
            let rb = crate::rng::random_u8();
            proof {
                w = rb;
            }
            c8.v.set(x as usize, rb & nn);
            c8.pc = pc2;
            proof {
                assert(execute_body(pre, w)->Ok_0 =~= c8@);
            }
        },
        Instr::Drw(x, y, n) => {
            if n > 0 && c8.i as usize + n as usize > 4096 {
                proof {
                    assert(spec_execute(pre, w) == (
                        c8@,
                        Err::<bool, Chip8Error>(Chip8Error::MemoryAccessOutOfBounds),
                    ));
                }
                return Err(Chip8Error::MemoryAccessOutOfBounds);
            }
            exec_draw(c8, x as usize, y as usize, n as usize);
            c8.pc = pc2;
            proof {
                assert(execute_body(pre, w)->Ok_0 =~= c8@);
            }
        },
        Instr::Skp(x) => {
            let kx = (c8.v[x as usize] % 16) as usize;
            if c8.key[kx] == 1 {
                c8.pc = pc2 + 2;
            } else {
                c8.pc = pc2;
            }
            proof {
                assert(execute_body(pre, w)->Ok_0 =~= c8@);
            }
        },
        Instr::Sknp(x) => {
            let kx = (c8.v[x as usize] % 16) as usize;
            if c8.key[kx] != 1 {
                c8.pc = pc2 + 2;
            } else {
                c8.pc = pc2;
            }
            proof {
                assert(execute_body(pre, w)->Ok_0 =~= c8@);
            }
        },
        Instr::LdVxDt(x) => {
            let t = c8.delay_timer;
            c8.v.set(x as usize, t);
            c8.pc = pc2;
            proof {
                assert(execute_body(pre, w)->Ok_0 =~= c8@);
            }
        },
        Instr::LdVxK(x) => {
            let fp = find_first_key(c8);
            if fp < 16 {
                c8.v.set(x as usize, fp as u8);
                c8.pc = pc2;
            }
            proof {
                assert(execute_body(pre, w)->Ok_0 =~= c8@);
            }
        },
        Instr::LdDtVx(x) => {
            c8.delay_timer = c8.v[x as usize];
            c8.pc = pc2;
            proof {
                assert(execute_body(pre, w)->Ok_0 =~= c8@);
            }
        },
        Instr::LdStVx(x) => {
            c8.sound_timer = c8.v[x as usize];
            c8.pc = pc2;
            proof {
                assert(execute_body(pre, w)->Ok_0 =~= c8@);
            }
        },
        Instr::AddI(x) => {
            let t: u32 = c8.i as u32 + c8.v[x as usize] as u32;
            c8.i = (t % 65536) as u16;
            c8.pc = pc2;
            proof {
                assert(execute_body(pre, w)->Ok_0 =~= c8@);
            }
        },
        Instr::LdF(x) => {
            c8.i = c8.v[x as usize] as u16 * 5;
            c8.pc = pc2;
            proof {
                assert(execute_body(pre, w)->Ok_0 =~= c8@);
            }
        },
        Instr::LdB(x) => {
            if c8.i as usize + 3 > 4096 {
                proof {
                    assert(spec_execute(pre, w) == (
                        c8@,
                        Err::<bool, Chip8Error>(Chip8Error::MemoryAccessOutOfBounds),
                    ));
                }
                return Err(Chip8Error::MemoryAccessOutOfBounds);
            }
            let vx = c8.v[x as usize];
            let ii = c8.i as usize;
            c8.memory.set(ii, vx / 100);
            c8.memory.set(ii + 1, (vx / 10) % 10);
            c8.memory.set(ii + 2, vx % 10);
            c8.pc = pc2;
            proof {
                assert(execute_body(pre, w)->Ok_0 =~= c8@);
            }
        },
        Instr::StoreRegs(x) => {
            if c8.i as usize + x as usize + 1 > 4096 {
                proof {
                    assert(spec_execute(pre, w) == (
                        c8@,
                        Err::<bool, Chip8Error>(Chip8Error::MemoryAccessOutOfBounds),
                    ));
                }
                return Err(Chip8Error::MemoryAccessOutOfBounds);
            }
            exec_store_regs(c8, x as usize);
            if c8.quirk_load_inc_i {
                c8.i = c8.i + x as u16 + 1;
            }
            c8.pc = pc2;
            proof {
                assert(execute_body(pre, w)->Ok_0 =~= c8@);
            }
        },
        Instr::LoadRegs(x) => {
            if c8.i as usize + x as usize + 1 > 4096 {
                proof {
                    assert(spec_execute(pre, w) == (
                        c8@,
                        Err::<bool, Chip8Error>(Chip8Error::MemoryAccessOutOfBounds),
                    ));
                }
                return Err(Chip8Error::MemoryAccessOutOfBounds);
            }
            exec_load_regs(c8, x as usize);
            if c8.quirk_load_inc_i {
                c8.i = c8.i + x as u16 + 1;
            }
            c8.pc = pc2;
            proof {
                assert(execute_body(pre, w)->Ok_0 =~= c8@);
            }
        },
        Instr::Unknown => {
            proof {
                assert(spec_execute(pre, w) == (
                    c8@,
                    Err::<bool, Chip8Error>(Chip8Error::UnknownOpcode),
                ));
            }
            return Err(Chip8Error::UnknownOpcode);
        },
    }
    let ghost mid = c8@;
    proof {
        assert(execute_body(pre, w) == Ok::<MachineState, Chip8Error>(mid));
    }
    let beep = c8.sound_timer == 1;
    if c8.delay_timer > 0 {
        c8.delay_timer = c8.delay_timer - 1;
    }
    if c8.sound_timer > 0 {
        c8.sound_timer = c8.sound_timer - 1;
    }
    proof {
        assert(c8@ =~= with_timers(mid));
        assert(spec_execute(pre, w) == (c8@, Ok::<bool, Chip8Error>(beep)));
    }
    Ok(beep)
}

/// Runs one whole machine cycle: fetch the word at `pc`, execute it, tick
/// the timers — exactly as [`spec_step`] states it. The returned flag is
/// the beep event, as in [`chip8_execute`].
pub fn chip8_step(c8: &mut Chip8) -> (r: Result<bool, Chip8Error>)
    requires
        old(c8).wf(),
    ensures
        final(c8).wf(),
        step_rel(old(c8)@, final(c8)@, r),
{
    let ghost pre = old(c8)@;
    match chip8_fetch(c8) {
        Err(e) => {
            proof {
                assert(spec_step(pre, 0u8) == (c8@, Err::<bool, Chip8Error>(e)));
            }
            Err(e)
        },
        Ok(()) => {
            let r = chip8_execute(c8);
            proof {
                let rnd = choose|rnd: u8| spec_execute((MachineState { opcode: spec_fetch(pre), ..pre }), rnd) == (c8@, r);
                assert(spec_step(pre, rnd) == (c8@, r));
            }
            r
        },
    }
}

/// Builds a fresh machine, leaves the all-zero word in `opcode`, and runs
/// one execute stage on it: the word matches no instruction pattern, so the
/// stage reports `UnknownOpcode` and hands the machine back unchanged.
pub fn test_opcode_0x8000() -> (c8: Chip8)
    ensures
        c8.wf(),
        c8@ == crate::machine::initial_state(),
{
    let mut c8 = crate::machine::chip8_initialise();
    c8.opcode = 0x0000;
    let ghost pre = c8@;
    let r = chip8_execute(&mut c8);
    proof {
        let rnd = choose|rnd: u8| spec_execute(pre, rnd) == (c8@, r);
        assert(c8@ == pre);
        assert(pre =~= crate::machine::initial_state());
    }
    c8
}

/// The same probe as [`test_opcode_0x8000`]: the all-zero word on a fresh
/// machine is refused as `UnknownOpcode` and changes nothing.
pub fn test_opcode_0x9000() -> (c8: Chip8)
    ensures
        c8.wf(),
        c8@ == crate::machine::initial_state(),
{
    let mut c8 = crate::machine::chip8_initialise();
    c8.opcode = 0x0000;
    let ghost pre = c8@;
    let r = chip8_execute(&mut c8);
    proof {
        let rnd = choose|rnd: u8| spec_execute(pre, rnd) == (c8@, r);
        assert(c8@ == pre);
        assert(pre =~= crate::machine::initial_state());
    }
    c8
}

} // verus!
