//! General laws of the execution engine, each proved once for every
//! machine state, register pair and operand the law speaks of.

use vstd::prelude::*;

use crate::cycle::{fetch_ok, first_held_from, lemma_decode_addr, lemma_decode_fields, lemma_decode_imm, lemma_first_held, opcode_at, spec_cycle};
use crate::draw::{draw_display, sprite_covers};
use crate::machine::{Fault, MachineView};

verus! {

/// 8xy4 sets VF to 1 exactly when the unsigned sum of Vx and Vy
/// exceeds 255, and stores the 8-bit wrapped sum in Vx.
pub proof fn lemma_add_carry_flag(m: MachineView, x: int, y: int, rnd: u8)
    requires
        m.wf(),
        fetch_ok(m),
        0 <= x < 16,
        0 <= y < 16,
        opcode_at(m) == 0x8004 + 256 * x + 16 * y,
    ensures
        ({
            let (post, res) = spec_cycle(m, rnd);
            &&& res == Ok::<(), Fault>(())
            &&& post.v[15] == (if m.v[x] + m.v[y] > 255 { 1u8 } else { 0u8 })
            &&& x != 15 ==> post.v[x] == ((m.v[x] + m.v[y]) % 256) as u8
            &&& post.pc == m.pc + 2
        }),
{
    lemma_decode_fields(opcode_at(m), 8, x, y, 4);
}

/// 8xy5 sets VF to 0 exactly when the subtraction Vx - Vy borrows
/// (Vx < Vy), and stores the 8-bit wrapped difference in Vx.
pub proof fn lemma_sub_borrow_flag(m: MachineView, x: int, y: int, rnd: u8)
    requires
        m.wf(),
        fetch_ok(m),
        0 <= x < 16,
        0 <= y < 16,
        opcode_at(m) == 0x8005 + 256 * x + 16 * y,
    ensures
        ({
            let (post, res) = spec_cycle(m, rnd);
            &&& res == Ok::<(), Fault>(())
            &&& post.v[15] == (if m.v[x] < m.v[y] { 0u8 } else { 1u8 })
            &&& x != 15 ==> post.v[x] == ((m.v[x] - m.v[y]) % 256) as u8
            &&& post.pc == m.pc + 2
        }),
{
    lemma_decode_fields(opcode_at(m), 8, x, y, 5);
}

/// 8xy7 sets VF to 0 exactly when the reversed subtraction Vy - Vx
/// borrows (Vy < Vx), and stores the 8-bit wrapped difference in Vx.
pub proof fn lemma_subn_borrow_flag(m: MachineView, x: int, y: int, rnd: u8)
    requires
        m.wf(),
        fetch_ok(m),
        0 <= x < 16,
        0 <= y < 16,
        opcode_at(m) == 0x8007 + 256 * x + 16 * y,
    ensures
        ({
            let (post, res) = spec_cycle(m, rnd);
            &&& res == Ok::<(), Fault>(())
            &&& post.v[15] == (if m.v[y] < m.v[x] { 0u8 } else { 1u8 })
            &&& x != 15 ==> post.v[x] == ((m.v[y] - m.v[x]) % 256) as u8
            &&& post.pc == m.pc + 2
        }),
{
    lemma_decode_fields(opcode_at(m), 8, x, y, 7);
}

/// 6xkk leaves exactly kk in Vx: reading the register back after the
/// set always yields the immediate.
pub proof fn lemma_set_then_read(m: MachineView, x: int, kk: int, rnd: u8)
    requires
        m.wf(),
        fetch_ok(m),
        0 <= x < 16,
        0 <= kk < 256,
        opcode_at(m) == 0x6000 + 256 * x + kk,
    ensures
        ({
            let (post, res) = spec_cycle(m, rnd);
            &&& res == Ok::<(), Fault>(())
            &&& post.v[x] == kk
            &&& post.pc == m.pc + 2
        }),
{
    lemma_decode_imm(opcode_at(m), 6, x, kk);
}

/// After 00E0 every display cell reads zero.
pub proof fn lemma_clear_blanks_display(m: MachineView, rnd: u8)
    requires
        m.wf(),
        fetch_ok(m),
        opcode_at(m) == 0x00E0,
    ensures
        ({
            let (post, res) = spec_cycle(m, rnd);
            &&& res == Ok::<(), Fault>(())
            &&& forall|p: int| 0 <= p < 2048 ==> !post.display[p]
            &&& post.draw_flag
            &&& post.pc == m.pc + 2
        }),
{
}

/// Drawing the same sprite at the same location twice in succession,
/// with no other draw in between, restores the display exactly (XOR is
/// its own inverse), and the second draw's VF reports a collision
/// exactly when the first draw lit a previously dark cell.
pub proof fn lemma_draw_twice_restores(m: MachineView, x: int, y: int, n: int, r1: u8, r2: u8)
    requires
        m.wf(),
        0 <= x < 16,
        0 <= y < 16,
        x != 15,
        y != 15,
        0 <= n < 16,
        m.pc + 3 < 4096,
        opcode_at(m) == 0xD000 + 256 * x + 16 * y + n,
        m.memory[m.pc + 2] * 256 + m.memory[m.pc + 3] == 0xD000 + 256 * x + 16 * y + n,
        n > 0 ==> m.i + n <= 4096,
    ensures
        ({
            let (m1, res1) = spec_cycle(m, r1);
            let (m2, res2) = spec_cycle(m1, r2);
            &&& res1 == Ok::<(), Fault>(())
            &&& res2 == Ok::<(), Fault>(())
            &&& m2.display == m.display
            &&& m2.pc == m.pc + 4
            &&& m2.v[15] == (if exists|p: int|
                0 <= p < 2048 && !m.display[p]
                    && #[trigger] sprite_covers(m.memory, m.i, m.v[x] as int, m.v[y] as int, n, p) {
                1u8
            } else {
                0u8
            })
        }),
{
    lemma_decode_fields(opcode_at(m), 13, x, y, n);
    let (m1, res1) = spec_cycle(m, r1);
    let (m2, res2) = spec_cycle(m1, r2);
    let x0 = m.v[x] as int;
    let y0 = m.v[y] as int;
    let d0 = m.display;
    let d1 = draw_display(d0, m.memory, m.i, x0, y0, n);
    assert(m1.display == d1);
    assert(m1.v[x] == m.v[x] && m1.v[y] == m.v[y]);
    assert(opcode_at(m1) == 0xD000 + 256 * x + 16 * y + n);
    lemma_decode_fields(opcode_at(m1), 13, x, y, n);
    assert(m2.display == draw_display(d1, m.memory, m.i, x0, y0, n));
    assert forall|p: int| 0 <= p < 2048 implies m2.display[p] == d0[p] by {
        assert(d1[p] == (d0[p] != sprite_covers(m.memory, m.i, x0, y0, n, p)));
    }
    assert(m2.display =~= d0);
    assert forall|p: int| 0 <= p < 2048 implies (d1[p] && sprite_covers(m.memory, m.i, x0, y0, n, p))
        == (!d0[p] && sprite_covers(m.memory, m.i, x0, y0, n, p)) by {
        assert(d1[p] == (d0[p] != sprite_covers(m.memory, m.i, x0, y0, n, p)));
    }
}

/// 2nnn followed by 00EE at nnn returns the program counter to exactly
/// the address of the call instruction plus two, with the stack depth
/// back where it was, for any valid target address.
pub proof fn lemma_call_then_return(m: MachineView, nnn: int, r1: u8, r2: u8)
    requires
        m.wf(),
        fetch_ok(m),
        0 <= nnn < 4095,
        opcode_at(m) == 0x2000 + nnn,
        m.sp < 16,
        m.memory[nnn] == 0x00,
        m.memory[nnn + 1] == 0xEE,
    ensures
        ({
            let (m1, res1) = spec_cycle(m, r1);
            let (m2, res2) = spec_cycle(m1, r2);
            &&& res1 == Ok::<(), Fault>(())
            &&& res2 == Ok::<(), Fault>(())
            &&& m1.pc == nnn
            &&& m2.pc == m.pc + 2
            &&& m2.sp == m.sp
        }),
{
    lemma_decode_addr(opcode_at(m), 2, nnn);
    let (m1, res1) = spec_cycle(m, r1);
    assert(opcode_at(m1) == 0x00EE);
}

/// While no key is held, the wait-for-key instruction leaves the whole
/// machine untouched, the program counter included: the cycle can
/// repeat forever without effect.
pub proof fn lemma_wait_key_blocks(m: MachineView, x: int, rnd: u8)
    requires
        m.wf(),
        fetch_ok(m),
        0 <= x < 16,
        opcode_at(m) == 0xF00A + 256 * x,
        forall|k: int| 0 <= k < 16 ==> !m.keypad[k],
    ensures
        spec_cycle(m, rnd) == (m, Ok::<(), Fault>(())),
{
    lemma_decode_imm(opcode_at(m), 15, x, 0x0A);
}

/// On the cycle where a key is held, the wait-for-key instruction
/// stores the lowest held key's index in Vx and advances the program
/// counter by two.
pub proof fn lemma_wait_key_advances(m: MachineView, x: int, rnd: u8)
    requires
        m.wf(),
        fetch_ok(m),
        0 <= x < 16,
        opcode_at(m) == 0xF00A + 256 * x,
        exists|k: int| 0 <= k < 16 && m.keypad[k],
    ensures
        ({
            let (post, res) = spec_cycle(m, rnd);
            let held = first_held_from(m.keypad, 0);
            &&& res == Ok::<(), Fault>(())
            &&& post.pc == m.pc + 2
            &&& 0 <= held < 16
            &&& post.v[x] == held as u8
            &&& m.keypad[held]
            &&& forall|k: int| 0 <= k < held ==> !m.keypad[k]
        }),
{
    lemma_decode_imm(opcode_at(m), 15, x, 0x0A);
    lemma_first_held(m.keypad, 0);
    let held = first_held_from(m.keypad, 0);
    if held == 16 {
        let k0 = choose|k: int| 0 <= k < 16 && m.keypad[k];
        assert(!m.keypad[k0]);
    }
}

} // verus!
