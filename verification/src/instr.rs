//! The decoder: maps a 16-bit instruction word to a tagged instruction
//! variant with its operand fields.  Decoding is pure and total over the
//! 16-bit space; a word that matches no known pattern becomes `Unknown`.

use vstd::prelude::*;

verus! {

/// One decoded CHIP-8 instruction.  Register operands are nibble-sized
/// indices into the sixteen general registers; `u16` operands are 12-bit
/// addresses, except in `Unknown`, which carries the whole raw word.
#[derive(Clone, Copy, Debug, PartialEq, Eq, Structural)]
pub enum Instr {
    /// `00E0`: clear the framebuffer.
    Cls,
    /// `00EE`: return from a subroutine.
    Ret,
    /// `1NNN`: jump to address NNN.
    Jump(u16),
    /// `2NNN`: call the subroutine at NNN.
    Call(u16),
    /// `3XNN`: skip the next instruction if VX == NN.
    SkipEqImm(u8, u8),
    /// `4XNN`: skip the next instruction if VX != NN.
    SkipNeImm(u8, u8),
    /// `5XY0`: skip the next instruction if VX == VY.
    SkipEqReg(u8, u8),
    /// `6XNN`: VX = NN.
    SetImm(u8, u8),
    /// `7XNN`: VX += NN, wrapping, no flag.
    AddImm(u8, u8),
    /// `8XY0`: VX = VY.
    Mov(u8, u8),
    /// `8XY1`: VX |= VY.
    Or(u8, u8),
    /// `8XY2`: VX &= VY.
    And(u8, u8),
    /// `8XY3`: VX ^= VY.
    Xor(u8, u8),
    /// `8XY4`: VX += VY; VF = carry.
    AddReg(u8, u8),
    /// `8XY5`: VX -= VY; VF = no-borrow.
    SubReg(u8, u8),
    /// `8XY6`: VX >>= 1; VF = old bit 0.
    Shr(u8),
    /// `8XY7`: VX = VY - VX; VF = no-borrow.
    SubN(u8, u8),
    /// `8XYE`: VX <<= 1; VF = old bit 7.
    Shl(u8),
    /// `9XY0`: skip the next instruction if VX != VY.
    SkipNeReg(u8, u8),
    /// `ANNN`: I = NNN.
    SetIndex(u16),
    /// `BNNN`: jump to NNN + V0.
    JumpOffset(u16),
    /// `CXNN`: VX = random byte & NN.
    Rand(u8, u8),
    /// `DXYN`: draw the N-row sprite at I to (VX, VY); VF = collision.
    Draw(u8, u8, u8),
    /// `EX9E`: skip the next instruction if the key VX is pressed.
    SkipKey(u8),
    /// `EXA1`: skip the next instruction if the key VX is not pressed.
    SkipNoKey(u8),
    /// `FX07`: VX = delay timer.
    GetDelay(u8),
    /// `FX0A`: block until a key is pressed, then VX = that key.
    WaitKey(u8),
    /// `FX15`: delay timer = VX.
    SetDelay(u8),
    /// `FX18`: sound timer = VX.
    SetSound(u8),
    /// `FX1E`: I += VX, 16-bit wrapping, no flag.
    AddIndex(u8),
    /// `FX29`: I = address of the built-in glyph for VX's low nibble.
    GlyphAddr(u8),
    /// `FX33`: store the three decimal digits of VX at I, I+1, I+2.
    StoreBcd(u8),
    /// `FX55`: store V0..=VX to memory starting at I.
    StoreRegs(u8),
    /// `FX65`: load V0..=VX from memory starting at I.
    LoadRegs(u8),
    /// Any word matching no known pattern, carrying the raw word.
    Unknown(u16),
}

/// Every operand field lies in its nibble or 12-bit range.
pub open spec fn instr_wf(instr: Instr) -> bool {
    match instr {
        Instr::Cls => true,
        Instr::Ret => true,
        Instr::Jump(nnn) => nnn < 0x1000,
        Instr::Call(nnn) => nnn < 0x1000,
        Instr::SkipEqImm(x, _nn) => x < 16,
        Instr::SkipNeImm(x, _nn) => x < 16,
        Instr::SkipEqReg(x, y) => x < 16 && y < 16,
        Instr::SetImm(x, _nn) => x < 16,
        Instr::AddImm(x, _nn) => x < 16,
        Instr::Mov(x, y) => x < 16 && y < 16,
        Instr::Or(x, y) => x < 16 && y < 16,
        Instr::And(x, y) => x < 16 && y < 16,
        Instr::Xor(x, y) => x < 16 && y < 16,
        Instr::AddReg(x, y) => x < 16 && y < 16,
        Instr::SubReg(x, y) => x < 16 && y < 16,
        Instr::Shr(x) => x < 16,
        Instr::SubN(x, y) => x < 16 && y < 16,
        Instr::Shl(x) => x < 16,
        Instr::SkipNeReg(x, y) => x < 16 && y < 16,
        Instr::SetIndex(nnn) => nnn < 0x1000,
        Instr::JumpOffset(nnn) => nnn < 0x1000,
        Instr::Rand(x, _nn) => x < 16,
        Instr::Draw(x, y, n) => x < 16 && y < 16 && n < 16,
        Instr::SkipKey(x) => x < 16,
        Instr::SkipNoKey(x) => x < 16,
        Instr::GetDelay(x) => x < 16,
        Instr::WaitKey(x) => x < 16,
        Instr::SetDelay(x) => x < 16,
        Instr::SetSound(x) => x < 16,
        Instr::AddIndex(x) => x < 16,
        Instr::GlyphAddr(x) => x < 16,
        Instr::StoreBcd(x) => x < 16,
        Instr::StoreRegs(x) => x < 16,
        Instr::LoadRegs(x) => x < 16,
        Instr::Unknown(_w) => true,
    }
}

/// What `decode` returns for each 16-bit word.
pub open spec fn spec_decode(op: u16) -> Instr {
    let d1 = (op >> 12) & 0xF;
    let d2 = (op >> 8) & 0xF;
    let d3 = (op >> 4) & 0xF;
    let d4 = op & 0xF;
    let x = d2 as u8;
    let y = d3 as u8;
    let n = d4 as u8;
    let nn = (op & 0xFF) as u8;
    let nnn = op & 0xFFF;
    match (d1, d2, d3, d4) {
        (0, 0, 0xE, 0) => Instr::Cls,
        (0, 0, 0xE, 0xE) => Instr::Ret,
        (1, _, _, _) => Instr::Jump(nnn),
        (2, _, _, _) => Instr::Call(nnn),
        (3, _, _, _) => Instr::SkipEqImm(x, nn),
        (4, _, _, _) => Instr::SkipNeImm(x, nn),
        (5, _, _, 0) => Instr::SkipEqReg(x, y),
        (6, _, _, _) => Instr::SetImm(x, nn),
        (7, _, _, _) => Instr::AddImm(x, nn),
        (8, _, _, 0) => Instr::Mov(x, y),
        (8, _, _, 1) => Instr::Or(x, y),
        (8, _, _, 2) => Instr::And(x, y),
        (8, _, _, 3) => Instr::Xor(x, y),
        (8, _, _, 4) => Instr::AddReg(x, y),
        (8, _, _, 5) => Instr::SubReg(x, y),
        (8, _, _, 6) => Instr::Shr(x),
        (8, _, _, 7) => Instr::SubN(x, y),
        (8, _, _, 0xE) => Instr::Shl(x),
        (9, _, _, 0) => Instr::SkipNeReg(x, y),
        (0xA, _, _, _) => Instr::SetIndex(nnn),
        (0xB, _, _, _) => Instr::JumpOffset(nnn),
        (0xC, _, _, _) => Instr::Rand(x, nn),
        (0xD, _, _, _) => Instr::Draw(x, y, n),
        (0xE, _, 9, 0xE) => Instr::SkipKey(x),
        (0xE, _, 0xA, 1) => Instr::SkipNoKey(x),
        (0xF, _, 0, 7) => Instr::GetDelay(x),
        (0xF, _, 0, 0xA) => Instr::WaitKey(x),
        (0xF, _, 1, 5) => Instr::SetDelay(x),
        (0xF, _, 1, 8) => Instr::SetSound(x),
        (0xF, _, 1, 0xE) => Instr::AddIndex(x),
        (0xF, _, 2, 9) => Instr::GlyphAddr(x),
        (0xF, _, 3, 3) => Instr::StoreBcd(x),
        (0xF, _, 5, 5) => Instr::StoreRegs(x),
        (0xF, _, 6, 5) => Instr::LoadRegs(x),
        _ => Instr::Unknown(op),
    }
}

/// A decoded instruction always has well-formed operand fields.
pub proof fn lemma_decode_wf(op: u16)
    ensures
        instr_wf(spec_decode(op)),
{
    assert((op >> 8) & 0xF < 16) by (bit_vector);
    assert((op >> 4) & 0xF < 16) by (bit_vector);
    assert(op & 0xF < 16) by (bit_vector);
    assert(op & 0xFFF < 0x1000) by (bit_vector);
}

/// Decode one instruction word.
pub fn decode(op: u16) -> (r: Instr)
    ensures
        r == spec_decode(op),
        instr_wf(r),
{
    proof {
        lemma_decode_wf(op);
    }
    let d1 = (op >> 12) & 0xF;
    let d2 = (op >> 8) & 0xF;
    let d3 = (op >> 4) & 0xF;
    let d4 = op & 0xF;
    let x = d2 as u8;
    let y = d3 as u8;
    let n = d4 as u8;
    let nn = (op & 0xFF) as u8;
    let nnn = op & 0xFFF;
    match (d1, d2, d3, d4) {
        (0, 0, 0xE, 0) => Instr::Cls,
        (0, 0, 0xE, 0xE) => Instr::Ret,
        (1, _, _, _) => Instr::Jump(nnn),
        (2, _, _, _) => Instr::Call(nnn),
        (3, _, _, _) => Instr::SkipEqImm(x, nn),
        (4, _, _, _) => Instr::SkipNeImm(x, nn),
        (5, _, _, 0) => Instr::SkipEqReg(x, y),
        (6, _, _, _) => Instr::SetImm(x, nn),
        (7, _, _, _) => Instr::AddImm(x, nn),
        (8, _, _, 0) => Instr::Mov(x, y),
        (8, _, _, 1) => Instr::Or(x, y),
        (8, _, _, 2) => Instr::And(x, y),
        (8, _, _, 3) => Instr::Xor(x, y),
        (8, _, _, 4) => Instr::AddReg(x, y),
        (8, _, _, 5) => Instr::SubReg(x, y),
        (8, _, _, 6) => Instr::Shr(x),
        (8, _, _, 7) => Instr::SubN(x, y),
        (8, _, _, 0xE) => Instr::Shl(x),
        (9, _, _, 0) => Instr::SkipNeReg(x, y),
        (0xA, _, _, _) => Instr::SetIndex(nnn),
        (0xB, _, _, _) => Instr::JumpOffset(nnn),
        (0xC, _, _, _) => Instr::Rand(x, nn),
        (0xD, _, _, _) => Instr::Draw(x, y, n),
        (0xE, _, 9, 0xE) => Instr::SkipKey(x),
        (0xE, _, 0xA, 1) => Instr::SkipNoKey(x),
        (0xF, _, 0, 7) => Instr::GetDelay(x),
        (0xF, _, 0, 0xA) => Instr::WaitKey(x),
        (0xF, _, 1, 5) => Instr::SetDelay(x),
        (0xF, _, 1, 8) => Instr::SetSound(x),
        (0xF, _, 1, 0xE) => Instr::AddIndex(x),
        (0xF, _, 2, 9) => Instr::GlyphAddr(x),
        (0xF, _, 3, 3) => Instr::StoreBcd(x),
        (0xF, _, 5, 5) => Instr::StoreRegs(x),
        (0xF, _, 6, 5) => Instr::LoadRegs(x),
        _ => Instr::Unknown(op),
    }
}

} // verus!
