//! Decoding a 16-bit opcode into one of the 35 instruction forms.

use vstd::prelude::*;

verus! {

/// One decoded instruction. Register operands are the nibble indices `x` and
/// `y`; `u16` operands are 12-bit addresses; the byte operand of the
/// immediate forms is `nn`; the nibble operand of `Drw` is the sprite
/// height. Any word matching no listed pattern decodes to `Unknown`.
#[derive(Clone, Copy, Debug, PartialEq, Eq, Structural)]
pub enum Instr {
    /// `00E0`: clear the screen.
    Cls,
    /// `00EE`: return from subroutine.
    Ret,
    /// `1NNN`: jump.
    Jp(u16),
    /// `2NNN`: call subroutine.
    Call(u16),
    /// `3XNN`: skip next if `Vx == NN`.
    SeByte(u8, u8),
    /// `4XNN`: skip next if `Vx != NN`.
    SneByte(u8, u8),
    /// `5XY0`: skip next if `Vx == Vy`.
    SeReg(u8, u8),
    /// `6XNN`: `Vx <- NN`.
    LdByte(u8, u8),
    /// `7XNN`: `Vx <- Vx + NN` mod 256, flag untouched.
    AddByte(u8, u8),
    /// `8XY0`: `Vx <- Vy`.
    LdReg(u8, u8),
    /// `8XY1`: `Vx <- Vx | Vy`.
    OrReg(u8, u8),
    /// `8XY2`: `Vx <- Vx & Vy`.
    AndReg(u8, u8),
    /// `8XY3`: `Vx <- Vx ^ Vy`.
    XorReg(u8, u8),
    /// `8XY4`: `Vx <- Vx + Vy` mod 256, `VF` = carry.
    AddReg(u8, u8),
    /// `8XY5`: `Vx <- Vx - Vy` mod 256, `VF` = 1 when no borrow.
    SubReg(u8, u8),
    /// `8XY6`: shift right by one, `VF` = the bit shifted out.
    ShrReg(u8, u8),
    /// `8XY7`: `Vx <- Vy - Vx` mod 256, `VF` = 1 when no borrow.
    SubnReg(u8, u8),
    /// `8XYE`: shift left by one, `VF` = the bit shifted out.
    ShlReg(u8, u8),
    /// `9XY0`: skip next if `Vx != Vy`.
    SneReg(u8, u8),
    /// `ANNN`: `I <- NNN`.
    LdI(u16),
    /// `BNNN`: jump to `NNN + V0`.
    JpV0(u16),
    /// `CXNN`: `Vx <- random byte & NN`.
    Rnd(u8, u8),
    /// `DXYN`: draw the N-row sprite at `I` at `(Vx, Vy)`.
    Drw(u8, u8, u8),
    /// `EX9E`: skip next if the key named by `Vx` is pressed.
    Skp(u8),
    /// `EXA1`: skip next if the key named by `Vx` is not pressed.
    Sknp(u8),
    /// `FX07`: `Vx <- delay timer`.
    LdVxDt(u8),
    /// `FX0A`: wait for a key press, then `Vx <-` its index.
    LdVxK(u8),
    /// `FX15`: `delay timer <- Vx`.
    LdDtVx(u8),
    /// `FX18`: `sound timer <- Vx`.
    LdStVx(u8),
    /// `FX1E`: `I <- I + Vx`, wrapping at 16 bits.
    AddI(u8),
    /// `FX29`: `I <-` the fontset address of digit `Vx`.
    LdF(u8),
    /// `FX33`: write the decimal digits of `Vx` at `I`, `I+1`, `I+2`.
    LdB(u8),
    /// `FX55`: store `V0..=Vx` to memory at `I`.
    StoreRegs(u8),
    /// `FX65`: load `V0..=Vx` from memory at `I`.
    LoadRegs(u8),
    /// Any unmatched pattern.
    Unknown,
}

/// The instruction a 16-bit word denotes. `x`, `y`, `n`, `nn` and `nnn` are
/// the operand fields named in the usual opcode patterns.
pub open spec fn spec_decode(op: u16) -> Instr {
    let hi = op / 0x1000;
    let x = ((op / 0x100) % 0x10) as u8;
    let y = ((op / 0x10) % 0x10) as u8;
    let n = (op % 0x10) as u8;
    let nn = (op % 0x100) as u8;
    let nnn = op % 0x1000;
    if op == 0x00E0 {
        Instr::Cls
    } else if op == 0x00EE {
        Instr::Ret
    } else if hi == 0x1 {
        Instr::Jp(nnn)
    } else if hi == 0x2 {
        Instr::Call(nnn)
    } else if hi == 0x3 {
        Instr::SeByte(x, nn)
    } else if hi == 0x4 {
        Instr::SneByte(x, nn)
    } else if hi == 0x5 && n == 0x0 {
        Instr::SeReg(x, y)
    } else if hi == 0x6 {
        Instr::LdByte(x, nn)
    } else if hi == 0x7 {
        Instr::AddByte(x, nn)
    } else if hi == 0x8 && n == 0x0 {
        Instr::LdReg(x, y)
    } else if hi == 0x8 && n == 0x1 {
        Instr::OrReg(x, y)
    } else if hi == 0x8 && n == 0x2 {
        Instr::AndReg(x, y)
    } else if hi == 0x8 && n == 0x3 {
        Instr::XorReg(x, y)
    } else if hi == 0x8 && n == 0x4 {
        Instr::AddReg(x, y)
    } else if hi == 0x8 && n == 0x5 {
        Instr::SubReg(x, y)
    } else if hi == 0x8 && n == 0x6 {
        Instr::ShrReg(x, y)
    } else if hi == 0x8 && n == 0x7 {
        Instr::SubnReg(x, y)
    } else if hi == 0x8 && n == 0xE {
        Instr::ShlReg(x, y)
    } else if hi == 0x9 && n == 0x0 {
        Instr::SneReg(x, y)
    } else if hi == 0xA {
        Instr::LdI(nnn)
    } else if hi == 0xB {
        Instr::JpV0(nnn)
    } else if hi == 0xC {
        Instr::Rnd(x, nn)
    } else if hi == 0xD {
        Instr::Drw(x, y, n)
    } else if hi == 0xE && nn == 0x9E {
        Instr::Skp(x)
    } else if hi == 0xE && nn == 0xA1 {
        Instr::Sknp(x)
    } else if hi == 0xF && nn == 0x07 {
        Instr::LdVxDt(x)
    } else if hi == 0xF && nn == 0x0A {
        Instr::LdVxK(x)
    } else if hi == 0xF && nn == 0x15 {
        Instr::LdDtVx(x)
    } else if hi == 0xF && nn == 0x18 {
        Instr::LdStVx(x)
    } else if hi == 0xF && nn == 0x1E {
        Instr::AddI(x)
    } else if hi == 0xF && nn == 0x29 {
        Instr::LdF(x)
    } else if hi == 0xF && nn == 0x33 {
        Instr::LdB(x)
    } else if hi == 0xF && nn == 0x55 {
        Instr::StoreRegs(x)
    } else if hi == 0xF && nn == 0x65 {
        Instr::LoadRegs(x)
    } else {
        Instr::Unknown
    }
}

/// Every operand field of a decoded instruction lies in its range: register
/// indices below 16, addresses below 0x1000, sprite heights below 16.
pub open spec fn instr_bounded(instr: Instr) -> bool {
    match instr {
        Instr::Cls => true,
        Instr::Ret => true,
        Instr::Jp(nnn) => nnn < 0x1000,
        Instr::Call(nnn) => nnn < 0x1000,
        Instr::SeByte(x, _nn) => x < 16,
        Instr::SneByte(x, _nn) => x < 16,
        Instr::SeReg(x, y) => x < 16 && y < 16,
        Instr::LdByte(x, _nn) => x < 16,
        Instr::AddByte(x, _nn) => x < 16,
        Instr::LdReg(x, y) => x < 16 && y < 16,
        Instr::OrReg(x, y) => x < 16 && y < 16,
        Instr::AndReg(x, y) => x < 16 && y < 16,
        Instr::XorReg(x, y) => x < 16 && y < 16,
        Instr::AddReg(x, y) => x < 16 && y < 16,
        Instr::SubReg(x, y) => x < 16 && y < 16,
        Instr::ShrReg(x, y) => x < 16 && y < 16,
        Instr::SubnReg(x, y) => x < 16 && y < 16,
        Instr::ShlReg(x, y) => x < 16 && y < 16,
        Instr::SneReg(x, y) => x < 16 && y < 16,
        Instr::LdI(nnn) => nnn < 0x1000,
        Instr::JpV0(nnn) => nnn < 0x1000,
        Instr::Rnd(x, _nn) => x < 16,
        Instr::Drw(x, y, n) => x < 16 && y < 16 && n < 16,
        Instr::Skp(x) => x < 16,
        Instr::Sknp(x) => x < 16,
        Instr::LdVxDt(x) => x < 16,
        Instr::LdVxK(x) => x < 16,
        Instr::LdDtVx(x) => x < 16,
        Instr::LdStVx(x) => x < 16,
        Instr::AddI(x) => x < 16,
        Instr::LdF(x) => x < 16,
        Instr::LdB(x) => x < 16,
        Instr::StoreRegs(x) => x < 16,
        Instr::LoadRegs(x) => x < 16,
        Instr::Unknown => true,
    }
}

/// Decoding keeps every operand field in range.
pub proof fn lemma_decode_bounded(op: u16)
    ensures
        instr_bounded(spec_decode(op)),
{
}

/// Decodes one opcode word.
pub fn decode(op: u16) -> (r: Instr)
    ensures
        r == spec_decode(op),
{
    let hi = op / 0x1000;
    let x = ((op / 0x100) % 0x10) as u8;
    let y = ((op / 0x10) % 0x10) as u8;
    let n = (op % 0x10) as u8;
    let nn = (op % 0x100) as u8;
    let nnn = op % 0x1000;
    if op == 0x00E0 {
        Instr::Cls
    } else if op == 0x00EE {
        Instr::Ret
    } else if hi == 0x1 {
        Instr::Jp(nnn)
    } else if hi == 0x2 {
        Instr::Call(nnn)
    } else if hi == 0x3 {
        Instr::SeByte(x, nn)
    } else if hi == 0x4 {
        Instr::SneByte(x, nn)
    } else if hi == 0x5 && n == 0x0 {
        Instr::SeReg(x, y)
    } else if hi == 0x6 {
        Instr::LdByte(x, nn)
    } else if hi == 0x7 {
        Instr::AddByte(x, nn)
    } else if hi == 0x8 && n == 0x0 {
        Instr::LdReg(x, y)
    } else if hi == 0x8 && n == 0x1 {
        Instr::OrReg(x, y)
    } else if hi == 0x8 && n == 0x2 {
        Instr::AndReg(x, y)
    } else if hi == 0x8 && n == 0x3 {
        Instr::XorReg(x, y)
    } else if hi == 0x8 && n == 0x4 {
        Instr::AddReg(x, y)
    } else if hi == 0x8 && n == 0x5 {
        Instr::SubReg(x, y)
    } else if hi == 0x8 && n == 0x6 {
        Instr::ShrReg(x, y)
    } else if hi == 0x8 && n == 0x7 {
        Instr::SubnReg(x, y)
    } else if hi == 0x8 && n == 0xE {
        Instr::ShlReg(x, y)
    } else if hi == 0x9 && n == 0x0 {
        Instr::SneReg(x, y)
    } else if hi == 0xA {
        Instr::LdI(nnn)
    } else if hi == 0xB {
        Instr::JpV0(nnn)
    } else if hi == 0xC {
        Instr::Rnd(x, nn)
    } else if hi == 0xD {
        Instr::Drw(x, y, n)
    } else if hi == 0xE && nn == 0x9E {
        Instr::Skp(x)
    } else if hi == 0xE && nn == 0xA1 {
        Instr::Sknp(x)
    } else if hi == 0xF && nn == 0x07 {
        Instr::LdVxDt(x)
    } else if hi == 0xF && nn == 0x0A {
        Instr::LdVxK(x)
    } else if hi == 0xF && nn == 0x15 {
        Instr::LdDtVx(x)
    } else if hi == 0xF && nn == 0x18 {
        Instr::LdStVx(x)
    } else if hi == 0xF && nn == 0x1E {
        Instr::AddI(x)
    } else if hi == 0xF && nn == 0x29 {
        Instr::LdF(x)
    } else if hi == 0xF && nn == 0x33 {
        Instr::LdB(x)
    } else if hi == 0xF && nn == 0x55 {
        Instr::StoreRegs(x)
    } else if hi == 0xF && nn == 0x65 {
        Instr::LoadRegs(x)
    } else {
        Instr::Unknown
    }
}

} // verus!
