//! General properties of the instruction semantics, proved once for all
//! states rather than tested on chosen values.

use vstd::prelude::*;

use crate::instr::Instr;
use crate::model::{self, EmuError, Mode, State, TickOutcome};
use crate::MEMORY_SIZE;

verus! {

/// What `first_pressed_from` finds: the lowest pressed key at or above
/// `k`, or a guarantee that none is pressed there.
pub proof fn lemma_first_pressed_from(keys: Seq<bool>, k: int)
    requires
        keys.len() == 16,
        0 <= k <= 16,
    ensures
        match model::first_pressed_from(keys, k) {
            Some(i) => k <= i < 16 && keys[i as int] && forall|j: int|
                k <= j < i ==> !keys[j],
            None => forall|j: int| k <= j < 16 ==> !keys[j],
        },
    decreases 16 - k,
{
    if k < 16 {
        if !keys[k] {
            lemma_first_pressed_from(keys, k + 1);
        }
    }
}

/// A jump sets the program counter exactly to its target, changes no
/// other state, and always succeeds.
pub proof fn lemma_jump_sets_pc_only(pre: State, nnn: u16)
    ensures
        model::spec_execute(pre, Instr::Jump(nnn)).post == (State { pc: nnn, ..pre }),
        model::spec_execute(pre, Instr::Jump(nnn)).res == Ok::<TickOutcome, EmuError>(
            TickOutcome::Continued,
        ),
{
}

/// Add-with-carry: the flag register becomes 1 exactly when the unsigned
/// sum overflows 255, and the stored result is the sum modulo 256.
pub proof fn lemma_add_with_carry(pre: State, x: u8, y: u8)
    requires
        model::wf(pre),
        x < 16,
        y < 16,
    ensures
        ({
            let post = model::spec_execute(pre, Instr::AddReg(x, y)).post;
            &&& (post.v[15] == 1 <==> pre.v[x as int] + pre.v[y as int] > 255)
            &&& (post.v[15] == 0 <==> pre.v[x as int] + pre.v[y as int] <= 255)
            &&& (x != 15 ==> post.v[x as int] == (pre.v[x as int] + pre.v[y as int]) % 256)
        }),
{
}

/// Subtract: the flag register becomes 1 exactly when VX >= VY before
/// the operation, and the stored result wraps.
pub proof fn lemma_sub_borrow_flag(pre: State, x: u8, y: u8)
    requires
        model::wf(pre),
        x < 16,
        y < 16,
    ensures
        ({
            let post = model::spec_execute(pre, Instr::SubReg(x, y)).post;
            &&& (post.v[15] == 1 <==> pre.v[x as int] >= pre.v[y as int])
            &&& (x != 15 ==> post.v[x as int] == model::wrap_sub8(
                pre.v[x as int],
                pre.v[y as int],
            ))
        }),
{
}

/// Drawing the same sprite twice at the same location restores every
/// pixel, and the second draw reports a collision exactly when the
/// sprite covers some pixel that was dark before the first draw.  The
/// flag register itself may not name the sprite coordinates, so it is
/// excluded from the operand registers.
pub proof fn lemma_draw_self_cancel(pre: State, x: u8, y: u8, n: u8)
    requires
        model::wf(pre),
        x < 15,
        y < 15,
        n < 16,
        pre.i + n <= MEMORY_SIZE,
    ensures
        ({
            let s1 = model::spec_execute(pre, Instr::Draw(x, y, n));
            let s2 = model::spec_execute(s1.post, Instr::Draw(x, y, n));
            &&& s1.res == Ok::<TickOutcome, EmuError>(TickOutcome::Redraw)
            &&& s2.res == Ok::<TickOutcome, EmuError>(TickOutcome::Redraw)
            &&& s2.post.screen == pre.screen
            &&& (s2.post.v[15] == 1 <==> exists|j: int|
                0 <= j < pre.screen.len() && !pre.screen[j] && #[trigger] model::covers(
                    pre.ram,
                    pre.i as int,
                    pre.v[x as int] as int,
                    pre.v[y as int] as int,
                    n as int,
                    j,
                ))
        }),
{
    let i0 = pre.i as int;
    let x0 = pre.v[x as int] as int;
    let y0 = pre.v[y as int] as int;
    let s1 = model::spec_execute(pre, Instr::Draw(x, y, n));
    let s2 = model::spec_execute(s1.post, Instr::Draw(x, y, n));
    assert(s1.post.v[x as int] == pre.v[x as int]);
    assert(s1.post.v[y as int] == pre.v[y as int]);
    assert(s1.post.screen.len() == pre.screen.len());
    assert(s2.post.screen =~= pre.screen);
    let covered_dark = exists|j: int|
        0 <= j < pre.screen.len() && !pre.screen[j] && #[trigger] model::covers(
            pre.ram,
            i0,
            x0,
            y0,
            n as int,
            j,
        );
    if model::draw_collides(s1.post.screen, pre.ram, i0, x0, y0, n as int) {
        let w = choose|j: int|
            0 <= j < s1.post.screen.len() && s1.post.screen[j] && #[trigger] model::covers(
                pre.ram,
                i0,
                x0,
                y0,
                n as int,
                j,
            );
        assert(!pre.screen[w] && model::covers(pre.ram, i0, x0, y0, n as int, w));
    }
    if covered_dark {
        let w = choose|j: int|
            0 <= j < pre.screen.len() && !pre.screen[j] && #[trigger] model::covers(
                pre.ram,
                i0,
                x0,
                y0,
                n as int,
                j,
            );
        assert(s1.post.screen[w] && model::covers(pre.ram, i0, x0, y0, n as int, w));
        assert(model::draw_collides(s1.post.screen, pre.ram, i0, x0, y0, n as int));
    }
}

/// The three memory cells written by the BCD store are decimal digits
/// whose weighted sum reconstructs the register's value exactly.
pub proof fn lemma_bcd_round_trip(pre: State, x: u8)
    requires
        model::wf(pre),
        x < 16,
        pre.i + 3 <= MEMORY_SIZE,
    ensures
        ({
            let post = model::spec_execute(pre, Instr::StoreBcd(x)).post;
            &&& post.ram[pre.i as int] < 10
            &&& post.ram[pre.i as int + 1] < 10
            &&& post.ram[pre.i as int + 2] < 10
            &&& 100 * post.ram[pre.i as int] + 10 * post.ram[pre.i as int + 1] + post.ram[pre.i
                as int + 2] == pre.v[x as int]
        }),
{
    let v = pre.v[x as int];
    assert(100 * ((v as u16) / 100) + 10 * (((v as u16) / 10) % 10) + ((v as u16) % 10) == v
        as u16) by (bit_vector);
    assert((v as u16) / 100 < 10 && ((v as u16) / 10) % 10 < 10 && (v as u16) % 10 < 10)
        by (bit_vector);
}

/// While the machine waits on a key and no key is pressed, a tick
/// reports `Blocked` and changes nothing.
pub proof fn lemma_key_wait_blocks(pre: State, x: u8)
    requires
        model::wf(pre),
        pre.mode == Mode::WaitingForKey(x),
        forall|j: int| 0 <= j < 16 ==> !pre.keys[j],
    ensures
        model::spec_tick(pre).post == pre,
        model::spec_tick(pre).res == Ok::<TickOutcome, EmuError>(TickOutcome::Blocked),
{
    lemma_first_pressed_from(pre.keys, 0);
    assert(model::first_pressed(pre.keys) is None);
}

/// On the first tick where some key is pressed, a waiting machine stores
/// the lowest pressed key code in its target register, advances the
/// program counter normally, and runs again.
pub proof fn lemma_key_wait_resolves(pre: State, x: u8)
    requires
        model::wf(pre),
        pre.mode == Mode::WaitingForKey(x),
        exists|j: int| 0 <= j < 16 && pre.keys[j],
    ensures
        ({
            let step = model::spec_tick(pre);
            &&& step.res == Ok::<TickOutcome, EmuError>(TickOutcome::Continued)
            &&& model::first_pressed(pre.keys) matches Some(k)
            &&& step.post == (State {
                pc: model::pc2(pre.pc),
                v: pre.v.update(x as int, model::first_pressed(pre.keys)->0),
                mode: Mode::Running,
                ..pre
            })
            &&& pre.keys[model::first_pressed(pre.keys)->0 as int]
        }),
{
    lemma_first_pressed_from(pre.keys, 0);
    if model::first_pressed(pre.keys) is None {
        let w = choose|j: int| 0 <= j < 16 && pre.keys[j];
        assert(false);
    }
}

/// At the level of a whole tick: when the fetched word is a jump, the
/// program counter becomes exactly the word's 12-bit address, nothing
/// else changes, and the tick succeeds.
pub proof fn lemma_tick_jump(pre: State)
    requires
        model::wf(pre),
        pre.mode == Mode::Running,
        pre.pc + 1 < MEMORY_SIZE,
        model::fetch_word(pre) & 0xF000 == 0x1000,
    ensures
        model::spec_tick(pre).post == (State { pc: model::fetch_word(pre) & 0xFFF, ..pre }),
        model::spec_tick(pre).res == Ok::<TickOutcome, EmuError>(TickOutcome::Continued),
{
    let op = model::fetch_word(pre);
    assert((op >> 12) & 0xF == 1) by (bit_vector)
        requires
            op & 0xF000 == 0x1000,
    ;
    assert(crate::instr::spec_decode(op) == Instr::Jump(op & 0xFFF));
}

/// At the level of a whole tick: when the fetched word is the clear
/// instruction, every framebuffer pixel ends up false, a redraw outcome
/// is reported, and the program counter advances by 2.
pub proof fn lemma_tick_clear_screen(pre: State)
    requires
        model::wf(pre),
        pre.mode == Mode::Running,
        pre.pc + 1 < MEMORY_SIZE,
        model::fetch_word(pre) == 0x00E0,
    ensures
        model::spec_tick(pre).post == (State {
            pc: model::pc2(pre.pc),
            screen: model::all_dark(),
            ..pre
        }),
        forall|j: int|
            0 <= j < model::spec_tick(pre).post.screen.len() ==> !model::spec_tick(
                pre,
            ).post.screen[j],
        model::spec_tick(pre).res == Ok::<TickOutcome, EmuError>(TickOutcome::Redraw),
{
    assert((0x00E0u16 >> 12) & 0xF == 0) by (bit_vector);
    assert((0x00E0u16 >> 8) & 0xF == 0) by (bit_vector);
    assert((0x00E0u16 >> 4) & 0xF == 0xE) by (bit_vector);
    assert(0x00E0u16 & 0xF == 0) by (bit_vector);
    assert(crate::instr::spec_decode(0x00E0) == Instr::Cls);
}

/// Executing the key-wait instruction with no key pressed does not
/// advance the program counter: it reports `Blocked` and moves the
/// machine to the waiting state, from which every later tick repeats
/// the same poll.
pub proof fn lemma_key_wait_entry(pre: State, x: u8)
    requires
        model::wf(pre),
        x < 16,
        forall|j: int| 0 <= j < 16 ==> !pre.keys[j],
    ensures
        model::spec_execute(pre, Instr::WaitKey(x)).post == (State {
            mode: Mode::WaitingForKey(x),
            ..pre
        }),
        model::spec_execute(pre, Instr::WaitKey(x)).res == Ok::<TickOutcome, EmuError>(
            TickOutcome::Blocked,
        ),
{
    lemma_first_pressed_from(pre.keys, 0);
    assert(model::first_pressed(pre.keys) is None);
}

} // verus!
