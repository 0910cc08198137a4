//! The mathematical model of the machine: a ghost state, the outcome and
//! error types, and spec functions that give the exact meaning of every
//! instruction, of the instruction tick and of the timer tick.

use vstd::prelude::*;

use crate::instr::{spec_decode, Instr};
use crate::FONTSET_SIZE;
use crate::MEMORY_SIZE;
use crate::NUM_KEYS;
use crate::NUM_REGS;
use crate::ROM_OFFSET;
use crate::SCREEN_HEIGHT;
use crate::SCREEN_WIDTH;
use crate::STACK_SIZE;

verus! {

/// The two operating states of the machine.  `WaitingForKey` is entered
/// only by the key-wait instruction and holds the target register; it is
/// left the moment the keypad shows any pressed key at a tick.
#[derive(Clone, Copy, Debug, PartialEq, Eq, Structural)]
pub enum Mode {
    /// Ordinary fetch-decode-execute.
    Running,
    /// Suspended on the key-wait instruction targeting this register.
    WaitingForKey(u8),
}

/// What one instruction tick reports to the host.
#[derive(Clone, Copy, Debug, PartialEq, Eq, Structural)]
pub enum TickOutcome {
    /// An instruction ran with no side effect the host must act on.
    Continued,
    /// An instruction ran and changed the framebuffer; redraw it.
    Redraw,
    /// The machine is waiting on a key press; retry with fresh keypad state.
    Blocked,
}

/// What one timer tick reports to the host.
#[derive(Clone, Copy, Debug, PartialEq, Eq, Structural)]
pub enum TimerOutcome {
    /// Neither edge of the audible-sound signal occurred.
    NoChange,
    /// The sound signal, off at the previous timer tick, is audible now.
    SoundStarted,
    /// The sound timer passed from 1 to 0 at this tick.
    SoundStopped,
}

/// Every failure the core reports.  None is ever a panic: out-of-range
/// conditions on program-supplied data surface here instead.
#[derive(Clone, Copy, Debug, PartialEq, Eq, Structural)]
pub enum EmuError {
    /// The ROM does not fit between the ROM offset and the end of memory.
    RomTooLarge,
    /// A subroutine call found the stack at capacity.
    StackOverflow,
    /// A return found the stack empty.
    StackUnderflow,
    /// The word matched no known pattern; carries the raw word.
    UnknownInstruction(u16),
    /// An address computed from instruction operands fell outside memory.
    IndexOutOfRange,
}

/// The whole machine state as mathematical values.
#[verifier::ext_equal]
pub ghost struct State {
    /// Program counter.
    pub pc: u16,
    /// Memory: glyph set low, ROM from the ROM offset up.
    pub ram: Seq<u8>,
    /// Framebuffer pixels, row-major, `y * 64 + x`.
    pub screen: Seq<bool>,
    /// Live return addresses, oldest first.
    pub stack: Seq<u16>,
    /// The sixteen general registers.
    pub v: Seq<u8>,
    /// The index register.
    pub i: u16,
    /// Delay timer.
    pub dt: u8,
    /// Sound timer.
    pub st: u8,
    /// Keypad state as last written by the host.
    pub keys: Seq<bool>,
    /// Running or waiting on a key.
    pub mode: Mode,
    /// State of the built-in pseudo-random generator.
    pub rng: u16,
    /// Whether the previous timer tick left the sound signal audible.
    pub sound_on: bool,
}

/// A machine state paired with the result of one instruction tick.
pub ghost struct Step {
    /// The state after the tick.
    pub post: State,
    /// What the tick reported.
    pub res: Result<TickOutcome, EmuError>,
}

/// A machine state paired with the result of one timer tick.
pub ghost struct TimerStep {
    /// The state after the tick.
    pub post: State,
    /// What the tick reported.
    pub res: TimerOutcome,
}

/// Well-formedness: every component has its fixed size, and a machine
/// waiting on a key still points at a fetchable instruction.
pub open spec fn wf(s: State) -> bool {
    &&& s.ram.len() == MEMORY_SIZE
    &&& s.screen.len() == SCREEN_WIDTH * SCREEN_HEIGHT
    &&& s.stack.len() <= STACK_SIZE
    &&& s.v.len() == NUM_REGS
    &&& s.keys.len() == NUM_KEYS
    &&& match s.mode {
        Mode::Running => true,
        Mode::WaitingForKey(x) => x < 16 && s.pc + 1 < MEMORY_SIZE,
    }
}

/// The built-in glyph set: five rows per hexadecimal digit 0-F.
pub open spec fn font_seq() -> Seq<u8> {
    seq![
        0xF0u8, 0x90, 0x90, 0x90, 0xF0, // 0
        0x20, 0x60, 0x20, 0x20, 0x70, // 1
        0xF0, 0x10, 0xF0, 0x80, 0xF0, // 2
        0xF0, 0x10, 0xF0, 0x10, 0xF0, // 3
        0x90, 0x90, 0xF0, 0x10, 0x10, // 4
        0xF0, 0x80, 0xF0, 0x10, 0xF0, // 5
        0xF0, 0x80, 0xF0, 0x90, 0xF0, // 6
        0xF0, 0x10, 0x20, 0x40, 0x40, // 7
        0xF0, 0x90, 0xF0, 0x90, 0xF0, // 8
        0xF0, 0x90, 0xF0, 0x10, 0xF0, // 9
        0xF0, 0x90, 0xF0, 0x90, 0x90, // A
        0xE0, 0x90, 0xE0, 0x90, 0xE0, // B
        0xF0, 0x80, 0x80, 0x80, 0xF0, // C
        0xE0, 0x90, 0x90, 0x90, 0xE0, // D
        0xF0, 0x80, 0xF0, 0x80, 0xF0, // E
        0xF0, 0x80, 0xF0, 0x80, 0x80, // F
    ]
}

/// Memory at construction: the glyph set, then zeros.
pub open spec fn init_ram() -> Seq<u8> {
    Seq::new(
        MEMORY_SIZE as nat,
        |j: int| if j < FONTSET_SIZE { font_seq()[j] } else { 0u8 },
    )
}

/// A framebuffer with every pixel off.
pub open spec fn all_dark() -> Seq<bool> {
    Seq::new((SCREEN_WIDTH * SCREEN_HEIGHT) as nat, |j: int| false)
}

/// The seed the pseudo-random generator starts from.
pub open spec fn rng_seed() -> u16 {
    1
}

/// The construction-time state, which `reset` also restores.
pub open spec fn init_state() -> State {
    State {
        pc: ROM_OFFSET as u16,
        ram: init_ram(),
        screen: all_dark(),
        stack: Seq::empty(),
        v: Seq::new(NUM_REGS as nat, |j: int| 0u8),
        i: 0,
        dt: 0,
        st: 0,
        keys: Seq::new(NUM_KEYS as nat, |j: int| false),
        mode: Mode::Running,
        rng: rng_seed(),
        sound_on: false,
    }
}

/// The program counter after a non-skipping instruction.
pub open spec fn pc2(pc: u16) -> u16 {
    (pc + 2) as u16
}

/// The program counter after a taken skip.
pub open spec fn pc4(pc: u16) -> u16 {
    (pc + 4) as u16
}

/// Skips advance by 4 when the condition holds, by 2 otherwise.
pub open spec fn skip_pc(pc: u16, cond: bool) -> u16 {
    if cond {
        pc4(pc)
    } else {
        pc2(pc)
    }
}

/// Byte addition with 8-bit wraparound.
pub open spec fn wrap_add8(a: u8, b: u8) -> u8 {
    ((a + b) % 256) as u8
}

/// Byte subtraction with 8-bit wraparound.
pub open spec fn wrap_sub8(a: u8, b: u8) -> u8 {
    if a >= b {
        (a - b) as u8
    } else {
        ((a + 256) - b) as u8
    }
}

/// One step of the built-in linear-congruential pseudo-random generator.
pub open spec fn next_rng(r: u16) -> u16 {
    ((r * 25173 + 13849) % 0x10000) as u16
}

/// The byte drawn from one generator state.
pub open spec fn rng_byte(r: u16) -> u8 {
    (r >> 8) as u8
}

/// The instruction word at the program counter, read big-endian.
pub open spec fn fetch_word(s: State) -> u16 {
    (s.ram[s.pc as int] * 256 + s.ram[s.pc as int + 1]) as u16
}

/// The lowest pressed key at or above index `k`, if any.
pub open spec fn first_pressed_from(keys: Seq<bool>, k: int) -> Option<u8>
    decreases NUM_KEYS - k,
{
    if k < 0 || k >= NUM_KEYS {
        None
    } else if keys[k] {
        Some(k as u8)
    } else {
        first_pressed_from(keys, k + 1)
    }
}

/// The lowest pressed key, if any.
pub open spec fn first_pressed(keys: Seq<bool>) -> Option<u8> {
    first_pressed_from(keys, 0)
}

/// Whether sprite row byte `b` has its pixel at horizontal offset `bit`
/// (0 is the leftmost pixel) set.
pub open spec fn sprite_bit(b: u8, bit: int) -> bool {
    b & (0x80u8 >> (bit as u8)) != 0
}

/// The framebuffer index of pixel (`px`, `py`).
pub open spec fn pixel_index(px: int, py: int) -> int {
    py * SCREEN_WIDTH + px
}

/// Where the sprite pixel at (`bit`, `row`) lands for a sprite drawn at
/// (`x0`, `y0`): coordinates wrap modulo the screen size.
pub open spec fn sprite_target(x0: int, y0: int, row: int, bit: int) -> int {
    pixel_index((x0 + bit) % (SCREEN_WIDTH as int), (y0 + row) % (SCREEN_HEIGHT as int))
}

/// Whether the sprite pixel at (`bit`, `row`) is set and lands on
/// framebuffer index `j`.
pub open spec fn hit_at(ram: Seq<u8>, i: int, x0: int, y0: int, row: int, bit: int, j: int) -> bool {
    sprite_bit(ram[i + row], bit) && j == sprite_target(x0, y0, row, bit)
}

/// Whether some sprite pixel strictly before position (`rows`, `bits`) in
/// row-then-bit order is set and lands on framebuffer index `j`.
pub open spec fn covers_before(
    ram: Seq<u8>,
    i: int,
    x0: int,
    y0: int,
    rows: int,
    bits: int,
    j: int,
) -> bool {
    exists|row: int, bit: int|
        0 <= row && 0 <= bit < 8 && (row < rows || (row == rows && bit < bits))
            && #[trigger] hit_at(ram, i, x0, y0, row, bit, j)
}

/// Whether some set pixel of the whole `n`-row sprite lands on
/// framebuffer index `j`.
pub open spec fn covers(ram: Seq<u8>, i: int, x0: int, y0: int, n: int, j: int) -> bool {
    covers_before(ram, i, x0, y0, n, 0, j)
}

/// The framebuffer after the draw: every covered pixel is toggled.
pub open spec fn draw_screen(
    screen: Seq<bool>,
    ram: Seq<u8>,
    i: int,
    x0: int,
    y0: int,
    n: int,
) -> Seq<bool> {
    Seq::new(screen.len(), |j: int| screen[j] != covers(ram, i, x0, y0, n, j))
}

/// Whether the draw turns any pixel from set to unset: some covered
/// pixel was already set.
pub open spec fn draw_collides(
    screen: Seq<bool>,
    ram: Seq<u8>,
    i: int,
    x0: int,
    y0: int,
    n: int,
) -> bool {
    exists|j: int| 0 <= j < screen.len() && screen[j] && #[trigger] covers(ram, i, x0, y0, n, j)
}

/// Before any sprite pixel is processed, nothing is covered.
pub proof fn lemma_covers_empty(ram: Seq<u8>, i: int, x0: int, y0: int, j: int)
    ensures
        !covers_before(ram, i, x0, y0, 0, 0, j),
{
}

/// Advancing past one sprite pixel adds exactly that pixel's hits.
pub proof fn lemma_covers_step(ram: Seq<u8>, i: int, x0: int, y0: int, row: int, bit: int, j: int)
    requires
        0 <= row,
        0 <= bit < 8,
    ensures
        covers_before(ram, i, x0, y0, row, bit + 1, j) == (covers_before(
            ram,
            i,
            x0,
            y0,
            row,
            bit,
            j,
        ) || hit_at(ram, i, x0, y0, row, bit, j)),
{
    if covers_before(ram, i, x0, y0, row, bit + 1, j) {
        let (r_, b_) = choose|r_: int, b_: int|
            0 <= r_ && 0 <= b_ < 8 && (r_ < row || (r_ == row && b_ < bit + 1))
                && #[trigger] hit_at(ram, i, x0, y0, r_, b_, j);
        if r_ == row && b_ == bit {
        } else {
            assert(r_ < row || (r_ == row && b_ < bit));
            assert(covers_before(ram, i, x0, y0, row, bit, j));
        }
    }
    if covers_before(ram, i, x0, y0, row, bit, j) {
        let (r_, b_) = choose|r_: int, b_: int|
            0 <= r_ && 0 <= b_ < 8 && (r_ < row || (r_ == row && b_ < bit))
                && #[trigger] hit_at(ram, i, x0, y0, r_, b_, j);
        assert(covers_before(ram, i, x0, y0, row, bit + 1, j));
    }
    if hit_at(ram, i, x0, y0, row, bit, j) {
        assert(covers_before(ram, i, x0, y0, row, bit + 1, j));
    }
}

/// Finishing a row's eight pixels is the same as starting the next row.
pub proof fn lemma_covers_row_step(ram: Seq<u8>, i: int, x0: int, y0: int, row: int, j: int)
    requires
        0 <= row,
    ensures
        covers_before(ram, i, x0, y0, row + 1, 0, j) == covers_before(ram, i, x0, y0, row, 8, j),
{
    if covers_before(ram, i, x0, y0, row + 1, 0, j) {
        let (r_, b_) = choose|r_: int, b_: int|
            0 <= r_ && 0 <= b_ < 8 && (r_ < row + 1 || (r_ == row + 1 && b_ < 0))
                && #[trigger] hit_at(ram, i, x0, y0, r_, b_, j);
        assert(r_ < row || (r_ == row && b_ < 8));
        assert(covers_before(ram, i, x0, y0, row, 8, j));
    }
    if covers_before(ram, i, x0, y0, row, 8, j) {
        let (r_, b_) = choose|r_: int, b_: int|
            0 <= r_ && 0 <= b_ < 8 && (r_ < row || (r_ == row && b_ < 8))
                && #[trigger] hit_at(ram, i, x0, y0, r_, b_, j);
        assert(covers_before(ram, i, x0, y0, row + 1, 0, j));
    }
}

/// Distinct positions of one sprite land on distinct framebuffer pixels:
/// rows stay distinct modulo the screen height (a sprite has at most 15
/// rows) and bits stay distinct modulo the screen width.
pub proof fn lemma_targets_distinct(
    x0: int,
    y0: int,
    r1: int,
    b1: int,
    r2: int,
    b2: int,
)
    requires
        0 <= x0,
        0 <= y0,
        0 <= r1 < 32,
        0 <= r2 < 32,
        0 <= b1 < 8,
        0 <= b2 < 8,
        r1 != r2 || b1 != b2,
    ensures
        sprite_target(x0, y0, r1, b1) != sprite_target(x0, y0, r2, b2),
{
    let px1 = (x0 + b1) % 64;
    let px2 = (x0 + b2) % 64;
    let py1 = (y0 + r1) % 32;
    let py2 = (y0 + r2) % 32;
    assert(0 <= px1 < 64 && 0 <= px2 < 64 && 0 <= py1 < 32 && 0 <= py2 < 32) by (nonlinear_arith)
        requires
            0 <= x0,
            0 <= y0,
            0 <= b1 < 8,
            0 <= b2 < 8,
            0 <= r1 < 32,
            0 <= r2 < 32,
            px1 == (x0 + b1) % 64,
            px2 == (x0 + b2) % 64,
            py1 == (y0 + r1) % 32,
            py2 == (y0 + r2) % 32,
    ;
    if r1 != r2 {
        assert(py1 != py2) by (nonlinear_arith)
            requires
                0 <= y0,
                0 <= r1 < 32,
                0 <= r2 < 32,
                r1 != r2,
                py1 == (y0 + r1) % 32,
                py2 == (y0 + r2) % 32,
        ;
        assert(py1 * 64 + px1 != py2 * 64 + px2) by (nonlinear_arith)
            requires
                0 <= px1 < 64,
                0 <= px2 < 64,
                py1 != py2,
        ;
    } else {
        assert(px1 != px2) by (nonlinear_arith)
            requires
                0 <= x0,
                0 <= b1 < 8,
                0 <= b2 < 8,
                b1 != b2,
                px1 == (x0 + b1) % 64,
                px2 == (x0 + b2) % 64,
        ;
    }
}

/// The pixel a sprite position lands on was not hit by any earlier
/// position of the same sprite.
pub proof fn lemma_fresh_target(
    ram: Seq<u8>,
    i: int,
    x0: int,
    y0: int,
    row: int,
    bit: int,
)
    requires
        0 <= x0,
        0 <= y0,
        0 <= row < 32,
        0 <= bit < 8,
    ensures
        !covers_before(ram, i, x0, y0, row, bit, sprite_target(x0, y0, row, bit)),
{
    let t = sprite_target(x0, y0, row, bit);
    if covers_before(ram, i, x0, y0, row, bit, t) {
        let (r_, b_) = choose|r_: int, b_: int|
            0 <= r_ && 0 <= b_ < 8 && (r_ < row || (r_ == row && b_ < bit))
                && #[trigger] hit_at(ram, i, x0, y0, r_, b_, t);
        lemma_targets_distinct(x0, y0, r_, b_, row, bit);
    }
}

/// A sprite pixel lands inside the framebuffer.
pub proof fn lemma_target_in_range(x0: int, y0: int, row: int, bit: int)
    requires
        0 <= x0,
        0 <= y0,
        0 <= row,
        0 <= bit,
    ensures
        0 <= sprite_target(x0, y0, row, bit) < SCREEN_WIDTH * SCREEN_HEIGHT,
{
    let px = (x0 + bit) % 64;
    let py = (y0 + row) % 32;
    assert(0 <= px < 64 && 0 <= py < 32) by (nonlinear_arith)
        requires
            0 <= x0,
            0 <= y0,
            0 <= row,
            0 <= bit,
            px == (x0 + bit) % 64,
            py == (y0 + row) % 32,
    ;
    assert(0 <= py * 64 + px < 2048) by (nonlinear_arith)
        requires
            0 <= px < 64,
            0 <= py < 32,
    ;
}

/// A successful step.
pub open spec fn step_ok(post: State, outcome: TickOutcome) -> Step {
    Step { post, res: Ok(outcome) }
}

/// A failed step: the state is left as it was.
pub open spec fn step_err(pre: State, e: EmuError) -> Step {
    Step { post: pre, res: Err(e) }
}

/// The exact effect of one decoded instruction on a running machine.
pub open spec fn spec_execute(pre: State, instr: Instr) -> Step {
    match instr {
        Instr::Cls => step_ok(
            State { pc: pc2(pre.pc), screen: all_dark(), ..pre },
            TickOutcome::Redraw,
        ),
        Instr::Ret => if pre.stack.len() == 0 {
            step_err(pre, EmuError::StackUnderflow)
        } else {
            step_ok(
                State { pc: pre.stack.last(), stack: pre.stack.drop_last(), ..pre },
                TickOutcome::Continued,
            )
        },
        Instr::Jump(nnn) => step_ok(State { pc: nnn, ..pre }, TickOutcome::Continued),
        Instr::Call(nnn) => if pre.stack.len() >= STACK_SIZE {
            step_err(pre, EmuError::StackOverflow)
        } else {
            step_ok(
                State { pc: nnn, stack: pre.stack.push(pc2(pre.pc)), ..pre },
                TickOutcome::Continued,
            )
        },
        Instr::SkipEqImm(x, nn) => step_ok(
            State { pc: skip_pc(pre.pc, pre.v[x as int] == nn), ..pre },
            TickOutcome::Continued,
        ),
        Instr::SkipNeImm(x, nn) => step_ok(
            State { pc: skip_pc(pre.pc, pre.v[x as int] != nn), ..pre },
            TickOutcome::Continued,
        ),
        Instr::SkipEqReg(x, y) => step_ok(
            State { pc: skip_pc(pre.pc, pre.v[x as int] == pre.v[y as int]), ..pre },
            TickOutcome::Continued,
        ),
        Instr::SetImm(x, nn) => step_ok(
            State { pc: pc2(pre.pc), v: pre.v.update(x as int, nn), ..pre },
            TickOutcome::Continued,
        ),
        Instr::AddImm(x, nn) => step_ok(
            State {
                pc: pc2(pre.pc),
                v: pre.v.update(x as int, wrap_add8(pre.v[x as int], nn)),
                ..pre
            },
            TickOutcome::Continued,
        ),
        Instr::Mov(x, y) => step_ok(
            State { pc: pc2(pre.pc), v: pre.v.update(x as int, pre.v[y as int]), ..pre },
            TickOutcome::Continued,
        ),
        Instr::Or(x, y) => step_ok(
            State {
                pc: pc2(pre.pc),
                v: pre.v.update(x as int, pre.v[x as int] | pre.v[y as int]),
                ..pre
            },
            TickOutcome::Continued,
        ),
        Instr::And(x, y) => step_ok(
            State {
                pc: pc2(pre.pc),
                v: pre.v.update(x as int, pre.v[x as int] & pre.v[y as int]),
                ..pre
            },
            TickOutcome::Continued,
        ),
        Instr::Xor(x, y) => step_ok(
            State {
                pc: pc2(pre.pc),
                v: pre.v.update(x as int, pre.v[x as int] ^ pre.v[y as int]),
                ..pre
            },
            TickOutcome::Continued,
        ),
        Instr::AddReg(x, y) => step_ok(
            State {
                pc: pc2(pre.pc),
                v: pre.v.update(x as int, wrap_add8(pre.v[x as int], pre.v[y as int])).update(
                    15,
                    if pre.v[x as int] + pre.v[y as int] > 255 {
                        1u8
                    } else {
                        0u8
                    },
                ),
                ..pre
            },
            TickOutcome::Continued,
        ),
        Instr::SubReg(x, y) => step_ok(
            State {
                pc: pc2(pre.pc),
                v: pre.v.update(x as int, wrap_sub8(pre.v[x as int], pre.v[y as int])).update(
                    15,
                    if pre.v[x as int] >= pre.v[y as int] {
                        1u8
                    } else {
                        0u8
                    },
                ),
                ..pre
            },
            TickOutcome::Continued,
        ),
        Instr::Shr(x) => step_ok(
            State {
                pc: pc2(pre.pc),
                v: pre.v.update(x as int, pre.v[x as int] / 2).update(
                    15,
                    (pre.v[x as int] % 2) as u8,
                ),
                ..pre
            },
            TickOutcome::Continued,
        ),
        Instr::SubN(x, y) => step_ok(
            State {
                pc: pc2(pre.pc),
                v: pre.v.update(x as int, wrap_sub8(pre.v[y as int], pre.v[x as int])).update(
                    15,
                    if pre.v[y as int] >= pre.v[x as int] {
                        1u8
                    } else {
                        0u8
                    },
                ),
                ..pre
            },
            TickOutcome::Continued,
        ),
        Instr::Shl(x) => step_ok(
            State {
                pc: pc2(pre.pc),
                v: pre.v.update(x as int, ((pre.v[x as int] * 2) % 256) as u8).update(
                    15,
                    (pre.v[x as int] / 128) as u8,
                ),
                ..pre
            },
            TickOutcome::Continued,
        ),
        Instr::SkipNeReg(x, y) => step_ok(
            State { pc: skip_pc(pre.pc, pre.v[x as int] != pre.v[y as int]), ..pre },
            TickOutcome::Continued,
        ),
        Instr::SetIndex(nnn) => step_ok(
            State { pc: pc2(pre.pc), i: nnn, ..pre },
            TickOutcome::Continued,
        ),
        Instr::JumpOffset(nnn) => step_ok(
            State { pc: (nnn + pre.v[0]) as u16, ..pre },
            TickOutcome::Continued,
        ),
        Instr::Rand(x, nn) => step_ok(
            State {
                pc: pc2(pre.pc),
                rng: next_rng(pre.rng),
                v: pre.v.update(x as int, rng_byte(next_rng(pre.rng)) & nn),
                ..pre
            },
            TickOutcome::Continued,
        ),
        Instr::Draw(x, y, n) => if pre.i + n > MEMORY_SIZE {
            step_err(pre, EmuError::IndexOutOfRange)
        } else {
            step_ok(
                State {
                    pc: pc2(pre.pc),
                    screen: draw_screen(
                        pre.screen,
                        pre.ram,
                        pre.i as int,
                        pre.v[x as int] as int,
                        pre.v[y as int] as int,
                        n as int,
                    ),
                    v: pre.v.update(
                        15,
                        if draw_collides(
                            pre.screen,
                            pre.ram,
                            pre.i as int,
                            pre.v[x as int] as int,
                            pre.v[y as int] as int,
                            n as int,
                        ) {
                            1u8
                        } else {
                            0u8
                        },
                    ),
                    ..pre
                },
                TickOutcome::Redraw,
            )
        },
        Instr::SkipKey(x) => step_ok(
            State { pc: skip_pc(pre.pc, pre.keys[(pre.v[x as int] % 16) as int]), ..pre },
            TickOutcome::Continued,
        ),
        Instr::SkipNoKey(x) => step_ok(
            State { pc: skip_pc(pre.pc, !pre.keys[(pre.v[x as int] % 16) as int]), ..pre },
            TickOutcome::Continued,
        ),
        Instr::GetDelay(x) => step_ok(
            State { pc: pc2(pre.pc), v: pre.v.update(x as int, pre.dt), ..pre },
            TickOutcome::Continued,
        ),
        Instr::WaitKey(x) => match first_pressed(pre.keys) {
            Some(k) => step_ok(
                State { pc: pc2(pre.pc), v: pre.v.update(x as int, k), ..pre },
                TickOutcome::Continued,
            ),
            None => step_ok(
                State { mode: Mode::WaitingForKey(x), ..pre },
                TickOutcome::Blocked,
            ),
        },
        Instr::SetDelay(x) => step_ok(
            State { pc: pc2(pre.pc), dt: pre.v[x as int], ..pre },
            TickOutcome::Continued,
        ),
        Instr::SetSound(x) => step_ok(
            State { pc: pc2(pre.pc), st: pre.v[x as int], ..pre },
            TickOutcome::Continued,
        ),
        Instr::AddIndex(x) => step_ok(
            State { pc: pc2(pre.pc), i: ((pre.i + pre.v[x as int]) % 0x10000) as u16, ..pre },
            TickOutcome::Continued,
        ),
        Instr::GlyphAddr(x) => step_ok(
            State { pc: pc2(pre.pc), i: ((pre.v[x as int] % 16) * 5) as u16, ..pre },
            TickOutcome::Continued,
        ),
        Instr::StoreBcd(x) => if pre.i + 3 > MEMORY_SIZE {
            step_err(pre, EmuError::IndexOutOfRange)
        } else {
            step_ok(
                State {
                    pc: pc2(pre.pc),
                    ram: pre.ram.update(pre.i as int, (pre.v[x as int] / 100) as u8).update(
                        pre.i as int + 1,
                        ((pre.v[x as int] / 10) % 10) as u8,
                    ).update(pre.i as int + 2, (pre.v[x as int] % 10) as u8),
                    ..pre
                },
                TickOutcome::Continued,
            )
        },
        Instr::StoreRegs(x) => if pre.i + x + 1 > MEMORY_SIZE {
            step_err(pre, EmuError::IndexOutOfRange)
        } else {
            step_ok(
                State {
                    pc: pc2(pre.pc),
                    ram: Seq::new(
                        pre.ram.len(),
                        |j: int|
                            if pre.i <= j < pre.i + x + 1 {
                                pre.v[j - pre.i]
                            } else {
                                pre.ram[j]
                            },
                    ),
                    ..pre
                },
                TickOutcome::Continued,
            )
        },
        Instr::LoadRegs(x) => if pre.i + x + 1 > MEMORY_SIZE {
            step_err(pre, EmuError::IndexOutOfRange)
        } else {
            step_ok(
                State {
                    pc: pc2(pre.pc),
                    v: Seq::new(
                        pre.v.len(),
                        |j: int|
                            if j <= x {
                                pre.ram[pre.i + j]
                            } else {
                                pre.v[j]
                            },
                    ),
                    ..pre
                },
                TickOutcome::Continued,
            )
        },
        Instr::Unknown(w) => step_err(pre, EmuError::UnknownInstruction(w)),
    }
}

/// The exact effect of one instruction tick: resolve or keep a key wait,
/// or fetch, decode and execute at the program counter.
pub open spec fn spec_tick(pre: State) -> Step {
    match pre.mode {
        Mode::WaitingForKey(x) => match first_pressed(pre.keys) {
            Some(k) => step_ok(
                State {
                    pc: pc2(pre.pc),
                    v: pre.v.update(x as int, k),
                    mode: Mode::Running,
                    ..pre
                },
                TickOutcome::Continued,
            ),
            None => step_ok(pre, TickOutcome::Blocked),
        },
        Mode::Running => if pre.pc + 1 >= MEMORY_SIZE {
            step_err(pre, EmuError::IndexOutOfRange)
        } else {
            spec_execute(pre, spec_decode(fetch_word(pre)))
        },
    }
}

/// The exact effect of one timer tick: each nonzero timer is decremented.
/// A stop edge is reported exactly when the sound timer passes from 1 to
/// 0 at this tick; a start edge when the signal, off at the previous
/// timer tick, is audible after this one.
pub open spec fn spec_tick_timers(pre: State) -> TimerStep {
    let dt = if pre.dt > 0 {
        (pre.dt - 1) as u8
    } else {
        0u8
    };
    let st = if pre.st > 0 {
        (pre.st - 1) as u8
    } else {
        0u8
    };
    let on = st > 0;
    let res = if pre.st == 1 {
        TimerOutcome::SoundStopped
    } else if !pre.sound_on && on {
        TimerOutcome::SoundStarted
    } else {
        TimerOutcome::NoChange
    };
    TimerStep { post: State { dt, st, sound_on: on, ..pre }, res }
}

} // verus!
