//! The executable machine and its verified operations.

use vstd::prelude::*;

use crate::instr::Instr;
use crate::model::{EmuError, Mode, State, TickOutcome, TimerOutcome};
use crate::model;
use crate::MEMORY_SIZE;

verus! {

/// The CHIP-8 virtual machine.
pub struct Emu {
    /// Program counter; public so a host loop can watch it.
    pub p_counter: u16,
    ram: Vec<u8>,
    screen: Vec<bool>,
    stack: Vec<u16>,
    v_reg: Vec<u8>,
    i_reg: u16,
    d_timer: u8,
    s_timer: u8,
    keys: Vec<bool>,
    mode: Mode,
    rng_state: u16,
    sound_on: bool,
}

impl View for Emu {
    type V = State;

    closed spec fn view(&self) -> State {
        State {
            pc: self.p_counter,
            ram: self.ram@,
            screen: self.screen@,
            stack: self.stack@,
            v: self.v_reg@,
            i: self.i_reg,
            dt: self.d_timer,
            st: self.s_timer,
            keys: self.keys@,
            mode: self.mode,
            rng: self.rng_state,
            sound_on: self.sound_on,
        }
    }
}

/// Relies on byteorder's `BigEndian::read_u16`: the big-endian 16-bit
/// value of the first two bytes of the buffer.
#[verifier::external_body]
fn read_be_u16(hi: u8, lo: u8) -> (r: u16)
    ensures
        r == hi as u16 * 256 + lo as u16,
{
    <byteorder::BigEndian as byteorder::ByteOrder>::read_u16(&[hi, lo])
}

fn zero_bytes(n: usize) -> (r: Vec<u8>)
    ensures
        r@ == Seq::new(n as nat, |j: int| 0u8),
{
    let mut v: Vec<u8> = Vec::new();
    while v.len() < n
        invariant
            v@ == Seq::new(v@.len(), |j: int| 0u8),
            v@.len() <= n,
        decreases n - v@.len(),
    {
        v.push(0);
        assert(v@ =~= Seq::new(v@.len(), |j: int| 0u8));
    }
    assert(v@ =~= Seq::new(n as nat, |j: int| 0u8));
    v
}

fn dark_screen() -> (r: Vec<bool>)
    ensures
        r@ == model::all_dark(),
{
    let n = crate::SCREEN_WIDTH * crate::SCREEN_HEIGHT;
    let mut v: Vec<bool> = Vec::new();
    while v.len() < n
        invariant
            v@ == Seq::new(v@.len(), |j: int| false),
            v@.len() <= n,
        decreases n - v@.len(),
    {
        v.push(false);
        assert(v@ =~= Seq::new(v@.len(), |j: int| false));
    }
    assert(v@ =~= model::all_dark());
    v
}

fn unpressed_keys() -> (r: Vec<bool>)
    ensures
        r@ == Seq::new(crate::NUM_KEYS as nat, |j: int| false),
{
    let mut v: Vec<bool> = Vec::new();
    while v.len() < crate::NUM_KEYS
        invariant
            v@ == Seq::new(v@.len(), |j: int| false),
            v@.len() <= crate::NUM_KEYS,
        decreases crate::NUM_KEYS - v@.len(),
    {
        v.push(false);
        assert(v@ =~= Seq::new(v@.len(), |j: int| false));
    }
    assert(v@ =~= Seq::new(crate::NUM_KEYS as nat, |j: int| false));
    v
}

fn initial_ram() -> (r: Vec<u8>)
    ensures
        r@ == model::init_ram(),
{
    let mut ram = zero_bytes(MEMORY_SIZE);
    let font: [u8; 80] = [
        0xF0, 0x90, 0x90, 0x90, 0xF0, // 0
        0x20, 0x60, 0x20, 0x20, 0x70, // 1
        0xF0, 0x10, 0xF0, 0x80, 0xF0, // 2
        0xF0, 0x10, 0xF0, 0x10, 0xF0, // 3
        0x90, 0x90, 0xF0, 0x10, 0x10, // 4
        0xF0, 0x80, 0xF0, 0x10, 0xF0, // 5
        0xF0, 0x80, 0xF0, 0x90, 0xF0, // 6
        0xF0, 0x10, 0x20, 0x40, 0x40, // 7
        0xF0, 0x90, 0xF0, 0x90, 0xF0, // 8
        0xF0, 0x90, 0xF0, 0x10, 0xF0, // 9
        0xF0, 0x90, 0xF0, 0x90, 0x90, // A
        0xE0, 0x90, 0xE0, 0x90, 0xE0, // B
        0xF0, 0x80, 0x80, 0x80, 0xF0, // C
        0xE0, 0x90, 0x90, 0x90, 0xE0, // D
        0xF0, 0x80, 0xF0, 0x80, 0xF0, // E
        0xF0, 0x80, 0xF0, 0x80, 0x80, // F
    ];
    assert(font@ =~= model::font_seq());
    let mut k: usize = 0;
    while k < crate::FONTSET_SIZE
        invariant
            k <= crate::FONTSET_SIZE,
            font@ == model::font_seq(),
            ram@.len() == MEMORY_SIZE,
            forall|j: int| 0 <= j < k ==> ram@[j] == model::font_seq()[j],
            forall|j: int| k <= j < MEMORY_SIZE ==> ram@[j] == 0u8,
        decreases crate::FONTSET_SIZE - k,
    {
        ram[k] = font[k];
        k += 1;
    }
    assert(ram@ =~= model::init_ram());
    ram
}

impl Emu {
    /// The machine's representation is a well-formed state.
    pub open spec fn wf(&self) -> bool {
        model::wf(self@)
    }

    /// Build a machine in its construction-time state: the glyph set at
    /// the base of memory, everything else cleared, the program counter
    /// at the ROM offset.
    pub fn new() -> (r: Emu)
        ensures
            r.wf(),
            r@ == model::init_state(),
    {
        let r = Emu {
            p_counter: crate::ROM_OFFSET as u16,
            ram: initial_ram(),
            screen: dark_screen(),
            stack: Vec::new(),
            v_reg: zero_bytes(crate::NUM_REGS),
            i_reg: 0,
            d_timer: 0,
            s_timer: 0,
            keys: unpressed_keys(),
            mode: Mode::Running,
            rng_state: 1,
            sound_on: false,
        };
        assert(r@ =~= model::init_state());
        r
    }

    /// Restore the exact construction-time state, discarding any loaded
    /// ROM and re-writing the glyph set.
    pub fn reset(&mut self)
        ensures
            final(self).wf(),
            final(self)@ == model::init_state(),
    {
        self.p_counter = crate::ROM_OFFSET as u16;
        self.ram = initial_ram();
        self.screen = dark_screen();
        self.stack = Vec::new();
        self.v_reg = zero_bytes(crate::NUM_REGS);
        self.i_reg = 0;
        self.d_timer = 0;
        self.s_timer = 0;
        self.keys = unpressed_keys();
        self.mode = Mode::Running;
        self.rng_state = 1;
        self.sound_on = false;
        assert(self@ =~= model::init_state());
    }

    /// Write a ROM into memory starting at the ROM offset.  Fails with
    /// `RomTooLarge`, leaving the machine unchanged, exactly when the ROM
    /// does not fit below the end of memory.
    pub fn load(&mut self, data: &[u8]) -> (r: Result<(), EmuError>)
        requires
            old(self).wf(),
        ensures
            final(self).wf(),
            data@.len() > MEMORY_SIZE - crate::ROM_OFFSET ==> {
                &&& r == Err::<(), EmuError>(EmuError::RomTooLarge)
                &&& final(self)@ == old(self)@
            },
            data@.len() <= MEMORY_SIZE - crate::ROM_OFFSET ==> {
                &&& r == Ok::<(), EmuError>(())
                &&& final(self)@ == (State {
                    ram: Seq::new(
                        MEMORY_SIZE as nat,
                        |j: int|
                            if crate::ROM_OFFSET <= j < crate::ROM_OFFSET + data@.len() {
                                data@[j - crate::ROM_OFFSET]
                            } else {
                                old(self)@.ram[j]
                            },
                    ),
                    ..old(self)@
                })
            },
    {
        if data.len() > MEMORY_SIZE - crate::ROM_OFFSET {
            return Err(EmuError::RomTooLarge);
        }
        let ghost pre = self@;
        let mut k: usize = 0;
        while k < data.len()
            invariant
                self.wf(),
                k <= data@.len(),
                data@.len() <= MEMORY_SIZE - crate::ROM_OFFSET,
                self@ == (State { ram: self@.ram, ..pre }),
                forall|j: int|
                    crate::ROM_OFFSET <= j < crate::ROM_OFFSET + k ==> self@.ram[j] == data@[j
                        - crate::ROM_OFFSET],
                forall|j: int|
                    0 <= j < MEMORY_SIZE && !(crate::ROM_OFFSET <= j < crate::ROM_OFFSET + k)
                        ==> self@.ram[j] == pre.ram[j],
            decreases data@.len() - k,
        {
            self.ram[crate::ROM_OFFSET + k] = data[k];
            k += 1;
        }
        assert(self@.ram =~= Seq::new(
            MEMORY_SIZE as nat,
            |j: int|
                if crate::ROM_OFFSET <= j < crate::ROM_OFFSET + data@.len() {
                    data@[j - crate::ROM_OFFSET]
                } else {
                    pre.ram[j]
                },
        ));
        Ok(())
    }

    /// Record one key of the host-owned keypad as pressed or released.
    pub fn set_key(&mut self, key: usize, pressed: bool)
        requires
            old(self).wf(),
            key < crate::NUM_KEYS,
        ensures
            final(self).wf(),
            final(self)@ == (State { keys: old(self)@.keys.update(key as int, pressed), ..old(self)@ }),
    {
        self.keys[key] = pressed;
    }

    /// An immutable snapshot of the framebuffer, row-major, `y * 64 + x`.
    pub fn framebuffer(&self) -> (r: &Vec<bool>)
        ensures
            r@ == self@.screen,
    {
        &self.screen
    }

    /// One general register's value.
    pub fn register(&self, idx: usize) -> (r: u8)
        requires
            self.wf(),
            idx < crate::NUM_REGS,
        ensures
            r == self@.v[idx as int],
    {
        self.v_reg[idx]
    }

    /// The program counter, tied to the model: this is the `p_counter`
    /// field that a host loop may also read directly.
    pub fn pc(&self) -> (r: u16)
        ensures
            r == self@.pc,
    {
        self.p_counter
    }

    /// The index register's value.
    pub fn index_reg(&self) -> (r: u16)
        ensures
            r == self@.i,
    {
        self.i_reg
    }

    /// The delay timer's value.
    pub fn delay_timer(&self) -> (r: u8)
        ensures
            r == self@.dt,
    {
        self.d_timer
    }

    /// The sound timer's value.
    pub fn sound_timer(&self) -> (r: u8)
        ensures
            r == self@.st,
    {
        self.s_timer
    }

    /// One byte of memory.
    pub fn read_byte(&self, addr: usize) -> (r: u8)
        requires
            self.wf(),
            addr < MEMORY_SIZE,
        ensures
            r == self@.ram[addr as int],
    {
        self.ram[addr]
    }

    fn push(&mut self, val: u16)
        requires
            old(self).wf(),
            old(self)@.stack.len() < crate::STACK_SIZE,
        ensures
            final(self).wf(),
            final(self)@ == (State { stack: old(self)@.stack.push(val), ..old(self)@ }),
    {
        self.stack.push(val);
    }

    fn pop(&mut self) -> (r: u16)
        requires
            old(self).wf(),
            old(self)@.stack.len() > 0,
        ensures
            final(self).wf(),
            r == old(self)@.stack.last(),
            final(self)@ == (State { stack: old(self)@.stack.drop_last(), ..old(self)@ }),
    {
        let r = self.stack.pop().unwrap();
        assert(self.stack@ =~= old(self)@.stack.drop_last());
        r
    }

    /// One tick of the 60 Hz timer clock: decrement each nonzero timer.
    /// Sound is on for the whole interval the sound timer is nonzero: a
    /// stop edge is reported exactly when that timer passes from 1 to 0
    /// at this tick, and a start edge when the signal, off at the
    /// previous timer tick, is audible after this one.
    pub fn tick_timers(&mut self) -> (r: TimerOutcome)
        requires
            old(self).wf(),
        ensures
            final(self).wf(),
            final(self)@ == model::spec_tick_timers(old(self)@).post,
            r == model::spec_tick_timers(old(self)@).res,
    {
        let stopped = self.s_timer == 1;
        if self.d_timer > 0 {
            self.d_timer = self.d_timer - 1;
        }
        if self.s_timer > 0 {
            self.s_timer = self.s_timer - 1;
        }
        let was_on = self.sound_on;
        let on = self.s_timer > 0;
        self.sound_on = on;
        if stopped {
            TimerOutcome::SoundStopped
        } else if !was_on && on {
            TimerOutcome::SoundStarted
        } else {
            TimerOutcome::NoChange
        }
    }

    fn first_key(&self) -> (r: Option<u8>)
        requires
            self.wf(),
        ensures
            r == model::first_pressed(self@.keys),
            r matches Some(k) ==> k < 16,
    {
        let mut k: usize = 0;
        while k < crate::NUM_KEYS
            invariant
                self.wf(),
                k <= crate::NUM_KEYS,
                model::first_pressed(self@.keys) == model::first_pressed_from(
                    self@.keys,
                    k as int,
                ),
        decreases crate::NUM_KEYS - k,
        {
            if self.keys[k] {
                return Some(k as u8);
            }
            k += 1;
        }
        None
    }

    fn op_draw(&mut self, x: u8, y: u8, n: u8) -> (r: Result<TickOutcome, EmuError>)
        requires
            old(self).wf(),
            x < 16,
            y < 16,
            n < 16,
            old(self)@.pc + 1 < MEMORY_SIZE,
            old(self)@.mode == Mode::Running,
        ensures
            final(self).wf(),
            final(self)@ == model::spec_execute(old(self)@, Instr::Draw(x, y, n)).post,
            r == model::spec_execute(old(self)@, Instr::Draw(x, y, n)).res,
    {
        let ii = self.i_reg as usize;
        if ii + n as usize > MEMORY_SIZE {
            return Err(EmuError::IndexOutOfRange);
        }
        let ghost pre = self@;
        let ghost i0 = pre.i as int;
        let vx = self.v_reg[x as usize];
        let vy = self.v_reg[y as usize];
        let ghost x0 = vx as int;
        let ghost y0 = vy as int;
        let mut collided = false;
        let mut row: usize = 0;
        proof {
            assert forall|j: int| 0 <= j < pre.screen.len() implies !model::covers_before(
                pre.ram,
                i0,
                x0,
                y0,
                0,
                0,
                j,
            ) by {
                model::lemma_covers_empty(pre.ram, i0, x0, y0, j);
            }
        }
        while row < n as usize
            invariant
                self.wf(),
                row <= n as int,
                n < 16,
                x < 16,
                y < 16,
                ii == pre.i,
                ii + n <= MEMORY_SIZE,
                vx == pre.v[x as int],
                vy == pre.v[y as int],
                x0 == vx as int,
                y0 == vy as int,
                i0 == pre.i as int,
                self@ == (State { screen: self@.screen, ..pre }),
                self@.screen.len() == pre.screen.len(),
                pre.screen.len() == crate::SCREEN_WIDTH * crate::SCREEN_HEIGHT,
                forall|j: int|
                    0 <= j < pre.screen.len() ==> self@.screen[j] == (pre.screen[j]
                        != model::covers_before(pre.ram, i0, x0, y0, row as int, 0, j)),
                collided == exists|j: int|
                    0 <= j < pre.screen.len() && pre.screen[j] && #[trigger] model::covers_before(
                        pre.ram,
                        i0,
                        x0,
                        y0,
                        row as int,
                        0,
                        j,
                    ),
            decreases n as int - row,
        {
            let sprite_row = self.ram[ii + row];
            let py = (vy as usize + row) % crate::SCREEN_HEIGHT;
            let mut bit: usize = 0;
            while bit < 8
                invariant
                    self.wf(),
                    bit <= 8,
                    row < n,
                    n < 16,
                    x < 16,
                    y < 16,
                    ii == pre.i,
                    ii + n <= MEMORY_SIZE,
                    vx == pre.v[x as int],
                    vy == pre.v[y as int],
                    x0 == vx as int,
                    y0 == vy as int,
                    i0 == pre.i as int,
                    sprite_row == pre.ram[i0 + row],
                    py == (y0 + row) % (crate::SCREEN_HEIGHT as int),
                    self@ == (State { screen: self@.screen, ..pre }),
                    self@.screen.len() == pre.screen.len(),
                    pre.screen.len() == crate::SCREEN_WIDTH * crate::SCREEN_HEIGHT,
                    forall|j: int|
                        0 <= j < pre.screen.len() ==> self@.screen[j] == (pre.screen[j]
                            != model::covers_before(
                            pre.ram,
                            i0,
                            x0,
                            y0,
                            row as int,
                            bit as int,
                            j,
                        )),
                    collided == exists|j: int|
                        0 <= j < pre.screen.len() && pre.screen[j]
                            && #[trigger] model::covers_before(
                            pre.ram,
                            i0,
                            x0,
                            y0,
                            row as int,
                            bit as int,
                            j,
                        ),
                decreases 8 - bit,
            {
                let ghost old_collided = collided;
                let ghost old_screen = self@.screen;
                if sprite_row & (0x80u8 >> bit) != 0 {
                    let px = (vx as usize + bit) % crate::SCREEN_WIDTH;
                    let idx = py * crate::SCREEN_WIDTH + px;
                    proof {
                        assert(model::sprite_bit(pre.ram[i0 + row], bit as int));
                        assert(idx == model::sprite_target(x0, y0, row as int, bit as int));
                        model::lemma_target_in_range(x0, y0, row as int, bit as int);
                        model::lemma_fresh_target(pre.ram, i0, x0, y0, row as int, bit as int);
                    }
                    let cur = self.screen[idx];
                    if cur {
                        collided = true;
                    }
                    self.screen[idx] = !cur;
                    proof {
                        let ghost t = idx as int;
                        assert(model::hit_at(pre.ram, i0, x0, y0, row as int, bit as int, t));
                        assert(cur == pre.screen[t]);
                        assert forall|j: int| 0 <= j < pre.screen.len() implies self@.screen[j]
                            == (pre.screen[j] != model::covers_before(
                            pre.ram,
                            i0,
                            x0,
                            y0,
                            row as int,
                            bit as int + 1,
                            j,
                        )) by {
                            model::lemma_covers_step(pre.ram, i0, x0, y0, row as int, bit as int, j);
                            if j != t {
                                assert(!model::hit_at(
                                    pre.ram,
                                    i0,
                                    x0,
                                    y0,
                                    row as int,
                                    bit as int,
                                    j,
                                ));
                            }
                        }
                        // the collision flag gains exactly the fresh pixel's
                        // prior state
                        model::lemma_covers_step(pre.ram, i0, x0, y0, row as int, bit as int, t);
                        if collided {
                            if old_collided {
                                let w = choose|j: int|
                                    0 <= j < pre.screen.len() && pre.screen[j]
                                        && #[trigger] model::covers_before(
                                        pre.ram,
                                        i0,
                                        x0,
                                        y0,
                                        row as int,
                                        bit as int,
                                        j,
                                    );
                                model::lemma_covers_step(
                                    pre.ram,
                                    i0,
                                    x0,
                                    y0,
                                    row as int,
                                    bit as int,
                                    w,
                                );
                                assert(model::covers_before(
                                    pre.ram,
                                    i0,
                                    x0,
                                    y0,
                                    row as int,
                                    bit as int + 1,
                                    w,
                                ));
                            } else {
                                assert(pre.screen[t] && model::covers_before(
                                    pre.ram,
                                    i0,
                                    x0,
                                    y0,
                                    row as int,
                                    bit as int + 1,
                                    t,
                                ));
                            }
                        } else {
                            assert forall|j: int|
                                0 <= j < pre.screen.len() && pre.screen[j] implies !model::covers_before(
                                pre.ram,
                                i0,
                                x0,
                                y0,
                                row as int,
                                bit as int + 1,
                                j,
                            ) by {
                                model::lemma_covers_step(
                                    pre.ram,
                                    i0,
                                    x0,
                                    y0,
                                    row as int,
                                    bit as int,
                                    j,
                                );
                            }
                        }
                    }
                } else {
                    proof {
                        assert(!model::sprite_bit(pre.ram[i0 + row], bit as int));
                        assert forall|j: int| 0 <= j < pre.screen.len() implies model::covers_before(
                            pre.ram,
                            i0,
                            x0,
                            y0,
                            row as int,
                            bit as int + 1,
                            j,
                        ) == model::covers_before(
                            pre.ram,
                            i0,
                            x0,
                            y0,
                            row as int,
                            bit as int,
                            j,
                        ) by {
                            model::lemma_covers_step(pre.ram, i0, x0, y0, row as int, bit as int, j);
                        }
                    }
                }
                bit += 1;
            }
            proof {
                assert forall|j: int| 0 <= j < pre.screen.len() implies model::covers_before(
                    pre.ram,
                    i0,
                    x0,
                    y0,
                    row as int + 1,
                    0,
                    j,
                ) == model::covers_before(pre.ram, i0, x0, y0, row as int, 8, j) by {
                    model::lemma_covers_row_step(pre.ram, i0, x0, y0, row as int, j);
                }
            }
            row += 1;
        }
        self.v_reg[15] = if collided {
            1
        } else {
            0
        };
        self.p_counter = self.p_counter + 2;
        proof {
            assert(self@.screen =~= model::draw_screen(pre.screen, pre.ram, i0, x0, y0, n as int));
            assert(collided == model::draw_collides(pre.screen, pre.ram, i0, x0, y0, n as int));
            assert(self@ =~= model::spec_execute(pre, Instr::Draw(x, y, n)).post);
        }
        Ok(TickOutcome::Redraw)
    }

    fn fetch(&self) -> (r: u16)
        requires
            self.wf(),
            self@.pc + 1 < MEMORY_SIZE,
        ensures
            r == model::fetch_word(self@),
    {
        let hi = self.ram[self.p_counter as usize];
        let lo = self.ram[self.p_counter as usize + 1];
        read_be_u16(hi, lo)
    }

    fn execute(&mut self, instr: Instr) -> (r: Result<TickOutcome, EmuError>)
        requires
            old(self).wf(),
            crate::instr::instr_wf(instr),
            old(self)@.pc + 1 < MEMORY_SIZE,
            old(self)@.mode == Mode::Running,
        ensures
            final(self).wf(),
            final(self)@ == model::spec_execute(old(self)@, instr).post,
            r == model::spec_execute(old(self)@, instr).res,
    {
        let ghost pre = self@;
        match instr {
            Instr::Cls => {
                self.screen = dark_screen();
                self.p_counter = self.p_counter + 2;
                Ok(TickOutcome::Redraw)
            },
            Instr::Ret => {
                if self.stack.len() == 0 {
                    Err(EmuError::StackUnderflow)
                } else {
                    let addr = self.pop();
                    self.p_counter = addr;
                    Ok(TickOutcome::Continued)
                }
            },
            Instr::Jump(nnn) => {
                self.p_counter = nnn;
                Ok(TickOutcome::Continued)
            },
            Instr::Call(nnn) => {
                if self.stack.len() >= crate::STACK_SIZE {
                    Err(EmuError::StackOverflow)
                } else {
                    let ret = self.p_counter + 2;
                    self.push(ret);
                    self.p_counter = nnn;
                    Ok(TickOutcome::Continued)
                }
            },
            Instr::SkipEqImm(x, nn) => {
                let cond = self.v_reg[x as usize] == nn;
                self.p_counter = if cond {
                    self.p_counter + 4
                } else {
                    self.p_counter + 2
                };
                Ok(TickOutcome::Continued)
            },
            Instr::SkipNeImm(x, nn) => {
                let cond = self.v_reg[x as usize] != nn;
                self.p_counter = if cond {
                    self.p_counter + 4
                } else {
                    self.p_counter + 2
                };
                Ok(TickOutcome::Continued)
            },
            Instr::SkipEqReg(x, y) => {
                let cond = self.v_reg[x as usize] == self.v_reg[y as usize];
                self.p_counter = if cond {
                    self.p_counter + 4
                } else {
                    self.p_counter + 2
                };
                Ok(TickOutcome::Continued)
            },
            Instr::SetImm(x, nn) => {
                self.v_reg[x as usize] = nn;
                self.p_counter = self.p_counter + 2;
                Ok(TickOutcome::Continued)
            },
            Instr::AddImm(x, nn) => {
                let vx = self.v_reg[x as usize];
                self.v_reg[x as usize] = ((vx as u16 + nn as u16) % 256) as u8;
                self.p_counter = self.p_counter + 2;
                Ok(TickOutcome::Continued)
            },
            Instr::Mov(x, y) => {
                self.v_reg[x as usize] = self.v_reg[y as usize];
                self.p_counter = self.p_counter + 2;
                Ok(TickOutcome::Continued)
            },
            Instr::Or(x, y) => {
                self.v_reg[x as usize] = self.v_reg[x as usize] | self.v_reg[y as usize];
                self.p_counter = self.p_counter + 2;
                Ok(TickOutcome::Continued)
            },
            Instr::And(x, y) => {
                self.v_reg[x as usize] = self.v_reg[x as usize] & self.v_reg[y as usize];
                self.p_counter = self.p_counter + 2;
                Ok(TickOutcome::Continued)
            },
            Instr::Xor(x, y) => {
                self.v_reg[x as usize] = self.v_reg[x as usize] ^ self.v_reg[y as usize];
                self.p_counter = self.p_counter + 2;
                Ok(TickOutcome::Continued)
            },
            Instr::AddReg(x, y) => {
                let vx = self.v_reg[x as usize];
                let vy = self.v_reg[y as usize];
                let sum = vx as u16 + vy as u16;
                self.v_reg[x as usize] = (sum % 256) as u8;
                self.v_reg[15] = if sum > 255 {
                    1
                } else {
                    0
                };
                self.p_counter = self.p_counter + 2;
                Ok(TickOutcome::Continued)
            },
            Instr::SubReg(x, y) => {
                let vx = self.v_reg[x as usize];
                let vy = self.v_reg[y as usize];
                let diff = if vx >= vy {
                    vx - vy
                } else {
                    ((vx as u16 + 256) - vy as u16) as u8
                };
                self.v_reg[x as usize] = diff;
                self.v_reg[15] = if vx >= vy {
                    1
                } else {
                    0
                };
                self.p_counter = self.p_counter + 2;
                Ok(TickOutcome::Continued)
            },
            Instr::Shr(x) => {
                let vx = self.v_reg[x as usize];
                self.v_reg[x as usize] = vx / 2;
                self.v_reg[15] = vx % 2;
                self.p_counter = self.p_counter + 2;
                Ok(TickOutcome::Continued)
            },
            Instr::SubN(x, y) => {
                let vx = self.v_reg[x as usize];
                let vy = self.v_reg[y as usize];
                let diff = if vy >= vx {
                    vy - vx
                } else {
                    ((vy as u16 + 256) - vx as u16) as u8
                };
                self.v_reg[x as usize] = diff;
                self.v_reg[15] = if vy >= vx {
                    1
                } else {
                    0
                };
                self.p_counter = self.p_counter + 2;
                Ok(TickOutcome::Continued)
            },
            Instr::Shl(x) => {
                let vx = self.v_reg[x as usize];
                self.v_reg[x as usize] = ((vx as u16 * 2) % 256) as u8;
                self.v_reg[15] = vx / 128;
                self.p_counter = self.p_counter + 2;
                Ok(TickOutcome::Continued)
            },
            Instr::SkipNeReg(x, y) => {
                let cond = self.v_reg[x as usize] != self.v_reg[y as usize];
                self.p_counter = if cond {
                    self.p_counter + 4
                } else {
                    self.p_counter + 2
                };
                Ok(TickOutcome::Continued)
            },
            Instr::SetIndex(nnn) => {
                self.i_reg = nnn;
                self.p_counter = self.p_counter + 2;
                Ok(TickOutcome::Continued)
            },
            Instr::JumpOffset(nnn) => {
                self.p_counter = nnn + self.v_reg[0] as u16;
                Ok(TickOutcome::Continued)
            },
            Instr::Rand(x, nn) => {
                let next = ((self.rng_state as u32 * 25173 + 13849) % 0x10000) as u16;
                self.rng_state = next;
                self.v_reg[x as usize] = ((next >> 8) as u8) & nn;
                self.p_counter = self.p_counter + 2;
                Ok(TickOutcome::Continued)
            },
            Instr::Draw(x, y, n) => self.op_draw(x, y, n),
            Instr::SkipKey(x) => {
                let key = (self.v_reg[x as usize] % 16) as usize;
                let cond = self.keys[key];
                self.p_counter = if cond {
                    self.p_counter + 4
                } else {
                    self.p_counter + 2
                };
                Ok(TickOutcome::Continued)
            },
            Instr::SkipNoKey(x) => {
                let key = (self.v_reg[x as usize] % 16) as usize;
                let cond = !self.keys[key];
                self.p_counter = if cond {
                    self.p_counter + 4
                } else {
                    self.p_counter + 2
                };
                Ok(TickOutcome::Continued)
            },
            Instr::GetDelay(x) => {
                self.v_reg[x as usize] = self.d_timer;
                self.p_counter = self.p_counter + 2;
                Ok(TickOutcome::Continued)
            },
            Instr::WaitKey(x) => {
                match self.first_key() {
                    Some(k) => {
                        self.v_reg[x as usize] = k;
                        self.p_counter = self.p_counter + 2;
                        Ok(TickOutcome::Continued)
                    },
                    None => {
                        self.mode = Mode::WaitingForKey(x);
                        Ok(TickOutcome::Blocked)
                    },
                }
            },
            Instr::SetDelay(x) => {
                self.d_timer = self.v_reg[x as usize];
                self.p_counter = self.p_counter + 2;
                Ok(TickOutcome::Continued)
            },
            Instr::SetSound(x) => {
                self.s_timer = self.v_reg[x as usize];
                self.p_counter = self.p_counter + 2;
                Ok(TickOutcome::Continued)
            },
            Instr::AddIndex(x) => {
                let ni = (self.i_reg as u32 + self.v_reg[x as usize] as u32) % 0x10000;
                self.i_reg = ni as u16;
                self.p_counter = self.p_counter + 2;
                Ok(TickOutcome::Continued)
            },
            Instr::GlyphAddr(x) => {
                self.i_reg = (self.v_reg[x as usize] % 16) as u16 * 5;
                self.p_counter = self.p_counter + 2;
                Ok(TickOutcome::Continued)
            },
            Instr::StoreBcd(x) => {
                let ii = self.i_reg as usize;
                if ii + 3 > MEMORY_SIZE {
                    Err(EmuError::IndexOutOfRange)
                } else {
                    let vx = self.v_reg[x as usize];
                    self.ram[ii] = vx / 100;
                    self.ram[ii + 1] = (vx / 10) % 10;
                    self.ram[ii + 2] = vx % 10;
                    self.p_counter = self.p_counter + 2;
                    Ok(TickOutcome::Continued)
                }
            },
            Instr::StoreRegs(x) => {
                let ii = self.i_reg as usize;
                let cnt = x as usize + 1;
                if ii + cnt > MEMORY_SIZE {
                    Err(EmuError::IndexOutOfRange)
                } else {
                    let mut k: usize = 0;
                    while k < cnt
                        invariant
                            self.wf(),
                            k <= cnt,
                            cnt == x as int + 1,
                            x < 16,
                            ii == pre.i,
                            ii + cnt <= MEMORY_SIZE,
                            self@ == (State { ram: self@.ram, ..pre }),
                            self@.ram.len() == MEMORY_SIZE,
                            forall|j: int|
                                ii <= j < ii + k ==> self@.ram[j] == pre.v[j - ii],
                            forall|j: int|
                                0 <= j < MEMORY_SIZE && !(ii <= j < ii + k) ==> self@.ram[j]
                                    == pre.ram[j],
                        decreases cnt - k,
                    {
                        self.ram[ii + k] = self.v_reg[k];
                        k += 1;
                    }
                    self.p_counter = self.p_counter + 2;
                    proof {
                        assert(self@.ram =~= Seq::new(
                            pre.ram.len(),
                            |j: int|
                                if pre.i <= j < pre.i + x + 1 {
                                    pre.v[j - pre.i]
                                } else {
                                    pre.ram[j]
                                },
                        ));
                    }
                    Ok(TickOutcome::Continued)
                }
            },
            Instr::LoadRegs(x) => {
                let ii = self.i_reg as usize;
                let cnt = x as usize + 1;
                if ii + cnt > MEMORY_SIZE {
                    Err(EmuError::IndexOutOfRange)
                } else {
                    let mut k: usize = 0;
                    while k < cnt
                        invariant
                            self.wf(),
                            k <= cnt,
                            cnt == x as int + 1,
                            x < 16,
                            ii == pre.i,
                            ii + cnt <= MEMORY_SIZE,
                            self@ == (State { v: self@.v, ..pre }),
                            self@.v.len() == crate::NUM_REGS,
                            forall|j: int| 0 <= j < k ==> self@.v[j] == pre.ram[ii + j],
                            forall|j: int|
                                k <= j < crate::NUM_REGS ==> self@.v[j] == pre.v[j],
                        decreases cnt - k,
                    {
                        self.v_reg[k] = self.ram[ii + k];
                        k += 1;
                    }
                    self.p_counter = self.p_counter + 2;
                    proof {
                        assert(self@.v =~= Seq::new(
                            pre.v.len(),
                            |j: int|
                                if j <= x {
                                    pre.ram[pre.i + j]
                                } else {
                                    pre.v[j]
                                },
                        ));
                    }
                    Ok(TickOutcome::Continued)
                }
            },
            Instr::Unknown(w) => Err(EmuError::UnknownInstruction(w)),
        }
    }

    /// One tick of the instruction clock: resolve or keep a key wait, or
    /// fetch, decode and execute the instruction at the program counter.
    /// The exact effect, including every outcome and every error, is
    /// `model::spec_tick` of the machine's state.
    pub fn tick(&mut self) -> (r: Result<TickOutcome, EmuError>)
        requires
            old(self).wf(),
        ensures
            final(self).wf(),
            final(self)@ == model::spec_tick(old(self)@).post,
            r == model::spec_tick(old(self)@).res,
    {
        match self.mode {
            Mode::WaitingForKey(x) => {
                match self.first_key() {
                    Some(k) => {
                        self.v_reg[x as usize] = k;
                        self.mode = Mode::Running;
                        self.p_counter = self.p_counter + 2;
                        Ok(TickOutcome::Continued)
                    },
                    None => Ok(TickOutcome::Blocked),
                }
            },
            Mode::Running => {
                if self.p_counter as usize + 1 >= MEMORY_SIZE {
                    return Err(EmuError::IndexOutOfRange);
                }
                let op = self.fetch();
                let instr = crate::instr::decode(op);
                self.execute(instr)
            },
        }
    }
}

} // verus!
