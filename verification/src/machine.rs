//! The CHIP-8 machine state: registers, memory, framebuffer, stack, timers
//! and keypad, together with its construction, the ROM loader, the fontset
//! installer, the keypad setter and the opcode fetch.

use vstd::prelude::*;

verus! {

/// Errors the interpreter core and the loader can report.
#[derive(Clone, Copy, Debug, PartialEq, Eq, Structural)]
pub enum Chip8Error {
    /// The ROM image does not fit in the 3584 bytes above the load address.
    RomTooLarge,
    /// The program counter points past the last fetchable address 0xFFE.
    PcOutOfBounds,
    /// A `2NNN` call arrived with all sixteen stack slots in use.
    StackOverflow,
    /// A `00EE` return arrived with an empty stack.
    StackUnderflow,
    /// The fetched word matches no instruction pattern.
    UnknownOpcode,
    /// An `I`-relative access would read or write past the 4096-byte memory.
    MemoryAccessOutOfBounds,
}

/// The mathematical model of a machine: every field of [`Chip8`], with the
/// arrays abstracted to sequences.
#[verifier::ext_equal]
pub struct MachineState {
    pub opcode: u16,
    pub memory: Seq<u8>,
    pub v: Seq<u8>,
    pub i: u16,
    pub pc: u16,
    pub gfx: Seq<u8>,
    pub delay_timer: u8,
    pub sound_timer: u8,
    pub stack: Seq<u16>,
    pub sp: u16,
    pub key: Seq<u8>,
    pub draw_flag: bool,
    pub quirk_shift_vy: bool,
    pub quirk_load_inc_i: bool,
}

impl MachineState {
    /// Well-formedness: the fixed array sizes, the stack-pointer range, and
    /// the 0/1 discipline of the framebuffer and keypad cells.
    pub open spec fn wf(self) -> bool {
        &&& self.memory.len() == 4096
        &&& self.v.len() == 16
        &&& self.gfx.len() == 2048
        &&& self.stack.len() == 16
        &&& self.key.len() == 16
        &&& self.sp <= 16
        &&& forall|j: int| 0 <= j < 2048 ==> self.gfx[j] <= 1
        &&& forall|j: int| 0 <= j < 16 ==> self.key[j] <= 1
    }
}

/// The state every machine starts from: all cells zero, `pc` at the load
/// address 0x200, an empty stack, a dark screen, and both quirk switches off.
pub open spec fn initial_state() -> MachineState {
    MachineState {
        opcode: 0,
        memory: Seq::new(4096, |j: int| 0u8),
        v: Seq::new(16, |j: int| 0u8),
        i: 0,
        pc: 0x200,
        gfx: Seq::new(2048, |j: int| 0u8),
        delay_timer: 0,
        sound_timer: 0,
        stack: Seq::new(16, |j: int| 0u16),
        sp: 0,
        key: Seq::new(16, |j: int| 0u8),
        draw_flag: false,
        quirk_shift_vy: false,
        quirk_load_inc_i: false,
    }
}

/// One CHIP-8 machine: 4 KiB of memory, sixteen 8-bit registers, the index
/// register `i`, the program counter, a 64x32 1-bit framebuffer in row-major
/// order, two 60 Hz countdown timers, a sixteen-slot call stack, and the
/// sixteen-key keypad. `opcode` holds the word most recently fetched.
///
/// The two `quirk_` switches select between the classic and the modern
/// readings of the ambiguous opcodes: when `quirk_shift_vy` is set, `8XY6`
/// and `8XYE` shift `Vy` into `Vx` instead of shifting `Vx` in place; when
/// `quirk_load_inc_i` is set, `FX55` and `FX65` leave `i` advanced past the
/// transferred block instead of unchanged. Both default to off.
pub struct Chip8 {
    pub opcode: u16,
    pub memory: Vec<u8>,
    pub v: Vec<u8>,
    pub i: u16,
    pub pc: u16,
    pub gfx: Vec<u8>,
    pub delay_timer: u8,
    pub sound_timer: u8,
    pub stack: Vec<u16>,
    pub sp: u16,
    pub key: Vec<u8>,
    pub draw_flag: bool,
    pub quirk_shift_vy: bool,
    pub quirk_load_inc_i: bool,
}

impl View for Chip8 {
    type V = MachineState;

    open spec fn view(&self) -> MachineState {
        MachineState {
            opcode: self.opcode,
            memory: self.memory@,
            v: self.v@,
            i: self.i,
            pc: self.pc,
            gfx: self.gfx@,
            delay_timer: self.delay_timer,
            sound_timer: self.sound_timer,
            stack: self.stack@,
            sp: self.sp,
            key: self.key@,
            draw_flag: self.draw_flag,
            quirk_shift_vy: self.quirk_shift_vy,
            quirk_load_inc_i: self.quirk_load_inc_i,
        }
    }
}

impl Chip8 {
    /// Well-formedness of the concrete machine is that of its model.
    pub open spec fn wf(&self) -> bool {
        self@.wf()
    }
}

/// A vector of `n` copies of `val`.
fn filled_vec_u8(n: usize, val: u8) -> (r: Vec<u8>)
    ensures
        r@ =~= Seq::new(n as nat, |j: int| val),
{
    let mut r: Vec<u8> = Vec::new();
    let mut k: usize = 0;
    while k < n
        invariant
            k <= n,
            r@.len() == k,
            forall|j: int| 0 <= j < k ==> r@[j] == val,
        decreases n - k,
    {
        r.push(val);
        k = k + 1;
    }
    r
}

/// A vector of `n` zero words.
fn zero_vec_u16(n: usize) -> (r: Vec<u16>)
    ensures
        r@ =~= Seq::new(n as nat, |j: int| 0u16),
{
    let mut r: Vec<u16> = Vec::new();
    let mut k: usize = 0;
    while k < n
        invariant
            k <= n,
            r@.len() == k,
            forall|j: int| 0 <= j < k ==> r@[j] == 0u16,
        decreases n - k,
    {
        r.push(0u16);
        k = k + 1;
    }
    r
}

/// The 80-byte fontset: five rows for each hex digit 0-F, in order, the
/// sprite rows in the high nibble of each byte.
pub open spec fn spec_fontset() -> Seq<u8> {
    seq![
        0xF0u8, 0x90, 0x90, 0x90, 0xF0, 0x20, 0x60, 0x20, 0x20, 0x70, 0xF0, 0x10, 0xF0, 0x80,
        0xF0, 0xF0, 0x10, 0xF0, 0x10, 0xF0, 0x90, 0x90, 0xF0, 0x10, 0x10, 0xF0, 0x80, 0xF0,
        0x10, 0xF0, 0xF0, 0x80, 0xF0, 0x90, 0xF0, 0xF0, 0x10, 0x20, 0x40, 0x40, 0xF0, 0x90,
        0xF0, 0x90, 0xF0, 0xF0, 0x90, 0xF0, 0x10, 0xF0, 0xF0, 0x90, 0xF0, 0x90, 0x90, 0xE0,
        0x90, 0xE0, 0x90, 0xE0, 0xF0, 0x80, 0x80, 0x80, 0xF0, 0xE0, 0x90, 0x90, 0x90, 0xE0,
        0xF0, 0x80, 0xF0, 0x80, 0xF0, 0xF0, 0x80, 0xF0, 0x80, 0x80,
    ]
}

/// `mem` with the fontset written over its first 80 bytes.
pub open spec fn fontset_loaded(mem: Seq<u8>) -> Seq<u8> {
    Seq::new(mem.len(), |j: int| if 0 <= j < 80 { spec_fontset()[j] } else { mem[j] })
}

/// `mem` with `rom` written at the load address 0x200.
pub open spec fn rom_loaded(mem: Seq<u8>, rom: Seq<u8>) -> Seq<u8> {
    Seq::new(
        mem.len(),
        |j: int| if 0x200 <= j < 0x200 + rom.len() {
            rom[j - 0x200]
        } else {
            mem[j]
        },
    )
}

/// The 16-bit word at `pc`: the byte at `pc` in the high half, the byte at
/// `pc + 1` in the low half.
pub open spec fn spec_fetch(s: MachineState) -> u16 {
    (s.memory[s.pc as int] * 256 + s.memory[s.pc as int + 1]) as u16
}

/// Constructs a fresh machine: every cell zero, `pc = 0x200`, `sp = 0`,
/// `draw_flag` clear, both quirk switches off.
pub fn chip8_initialise() -> (c8: Chip8)
    ensures
        c8.wf(),
        c8@ == initial_state(),
{
    let c8 = Chip8 {
        opcode: 0,
        memory: filled_vec_u8(4096, 0),
        v: filled_vec_u8(16, 0),
        i: 0,
        pc: 0x200,
        gfx: filled_vec_u8(2048, 0),
        delay_timer: 0,
        sound_timer: 0,
        stack: zero_vec_u16(16),
        sp: 0,
        key: filled_vec_u8(16, 0),
        draw_flag: false,
        quirk_shift_vy: false,
        quirk_load_inc_i: false,
    };
    proof {
        assert(c8@ =~= initial_state());
    }
    c8
}

/// Writes the fontset over the first 80 bytes of memory; nothing else
/// changes.
pub fn chip8_load_fontset(c8: &mut Chip8)
    requires
        old(c8).wf(),
    ensures
        final(c8).wf(),
        final(c8)@ == (MachineState { memory: fontset_loaded(old(c8)@.memory), ..old(c8)@ }),
{
    let font: [u8; 80] = [
        0xF0, 0x90, 0x90, 0x90, 0xF0, 0x20, 0x60, 0x20, 0x20, 0x70, 0xF0, 0x10, 0xF0, 0x80,
        0xF0, 0xF0, 0x10, 0xF0, 0x10, 0xF0, 0x90, 0x90, 0xF0, 0x10, 0x10, 0xF0, 0x80, 0xF0,
        0x10, 0xF0, 0xF0, 0x80, 0xF0, 0x90, 0xF0, 0xF0, 0x10, 0x20, 0x40, 0x40, 0xF0, 0x90,
        0xF0, 0x90, 0xF0, 0xF0, 0x90, 0xF0, 0x10, 0xF0, 0xF0, 0x90, 0xF0, 0x90, 0x90, 0xE0,
        0x90, 0xE0, 0x90, 0xE0, 0xF0, 0x80, 0x80, 0x80, 0xF0, 0xE0, 0x90, 0x90, 0x90, 0xE0,
        0xF0, 0x80, 0xF0, 0x80, 0xF0, 0xF0, 0x80, 0xF0, 0x80, 0x80,
    ];
    let mut k: usize = 0;
    while k < 80
        invariant
            old(c8).wf(),
            k <= 80,
            c8@.memory.len() == 4096,
            c8@ == (MachineState { memory: c8@.memory, ..old(c8)@ }),
            forall|j: int| 0 <= j < k ==> c8@.memory[j] == spec_fontset()[j],
            forall|j: int| k <= j < 4096 ==> c8@.memory[j] == old(c8)@.memory[j],
            font@ =~= spec_fontset(),
        decreases 80 - k,
    {
        c8.memory.set(k, font[k]);
        k = k + 1;
    }
    proof {
        assert(c8@.memory =~= fontset_loaded(old(c8)@.memory));
    }
}

/// Copies `rom` into memory at the load address 0x200. A ROM longer than the
/// 3584 bytes available there is refused whole with `RomTooLarge`, and the
/// machine is untouched.
pub fn chip8_load_rom(c8: &mut Chip8, rom: &[u8]) -> (r: Result<(), Chip8Error>)
    requires
        old(c8).wf(),
    ensures
        final(c8).wf(),
        rom@.len() <= 3584 ==> r == Ok::<(), Chip8Error>(()) && final(c8)@ == (MachineState {
            memory: rom_loaded(old(c8)@.memory, rom@),
            ..old(c8)@
        }),
        rom@.len() > 3584 ==> r == Err::<(), Chip8Error>(Chip8Error::RomTooLarge) && final(c8)@
            == old(c8)@,
{
    let len = rom.len();
    if len > 3584 {
        return Err(Chip8Error::RomTooLarge);
    }
    let mut k: usize = 0;
    while k < len
        invariant
            old(c8).wf(),
            k <= len,
            len == rom@.len() <= 3584,
            c8@.memory.len() == 4096,
            c8@ == (MachineState { memory: c8@.memory, ..old(c8)@ }),
            forall|j: int| 0x200 <= j < 0x200 + k ==> c8@.memory[j] == rom@[j - 0x200],
            forall|j: int|
                0 <= j < 4096 && !(0x200 <= j < 0x200 + k) ==> c8@.memory[j]
                    == old(c8)@.memory[j],
        decreases len - k,
    {
        c8.memory.set(0x200 + k, rom[k]);
        k = k + 1;
    }
    proof {
        assert(c8@.memory =~= rom_loaded(old(c8)@.memory, rom@));
    }
    Ok(())
}

/// Overwrites the sixteen keypad cells with `keys`; nothing else changes.
/// The host calls this with the current 0/1 state of its mapped keys.
pub fn chip8_set_keys(c8: &mut Chip8, keys: &[u8])
    requires
        old(c8).wf(),
        keys@.len() == 16,
        forall|j: int| 0 <= j < 16 ==> keys@[j] <= 1,
    ensures
        final(c8).wf(),
        final(c8)@ == (MachineState { key: keys@, ..old(c8)@ }),
{
    let mut k: usize = 0;
    while k < 16
        invariant
            old(c8).wf(),
            keys@.len() == 16,
            forall|j: int| 0 <= j < 16 ==> keys@[j] <= 1,
            k <= 16,
            c8@.key.len() == 16,
            c8@ == (MachineState { key: c8@.key, ..old(c8)@ }),
            forall|j: int| 0 <= j < k ==> c8@.key[j] == keys@[j],
        decreases 16 - k,
    {
        c8.key.set(k, keys[k]);
        k = k + 1;
    }
    proof {
        assert(c8@.key =~= keys@);
    }
}

/// Fetches the 16-bit word at `pc` into `opcode`: the byte at `pc` shifted
/// into the high half, the byte at `pc + 1` in the low half. A `pc` past
/// 0xFFE cannot address two bytes and is refused with `PcOutOfBounds`, the
/// machine untouched.
pub fn chip8_fetch(c8: &mut Chip8) -> (r: Result<(), Chip8Error>)
    requires
        old(c8).wf(),
    ensures
        final(c8).wf(),
        old(c8)@.pc <= 0xFFE ==> r == Ok::<(), Chip8Error>(()) && final(c8)@ == (MachineState {
            opcode: spec_fetch(old(c8)@),
            ..old(c8)@
        }),
        old(c8)@.pc > 0xFFE ==> r == Err::<(), Chip8Error>(Chip8Error::PcOutOfBounds)
            && final(c8)@ == old(c8)@,
{
    if c8.pc > 0xFFE {
        return Err(Chip8Error::PcOutOfBounds);
    }
    let hi = c8.memory[c8.pc as usize];
    let lo = c8.memory[c8.pc as usize + 1];
    c8.opcode = (hi as u16) * 256 + (lo as u16);
    Ok(())
}

} // verus!
