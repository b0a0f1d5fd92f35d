//! The meaning of one fetch-decode-execute cycle, as functions on the
//! machine model.  `spec_cycle` is the single source of truth that the
//! run-time engine is proved against: it fetches the big-endian word at
//! the program counter, decodes the nibble fields and gives every
//! instruction's exact effect, including the flag conventions and each
//! instruction's own program-counter update.

use vstd::arithmetic::div_mod::lemma_fundamental_div_mod_converse;
use vstd::prelude::*;

use crate::draw::{draw_collision, draw_display};
use crate::machine::{Fault, MachineView};

verus! {

/// The register selector in bits 8..12 of an instruction word.
pub open spec fn op_x(op: int) -> int {
    (op / 256) % 16
}

/// The register selector in bits 4..8.
pub open spec fn op_y(op: int) -> int {
    (op / 16) % 16
}

/// The low nibble.
pub open spec fn op_n(op: int) -> int {
    op % 16
}

/// The low byte.
pub open spec fn op_kk(op: int) -> int {
    op % 256
}

/// The low 12 bits, used as an address.
pub open spec fn op_nnn(op: int) -> int {
    op % 4096
}

/// Both bytes of the instruction word lie inside memory.
pub open spec fn fetch_ok(m: MachineView) -> bool {
    m.pc + 1 < 4096
}

/// The big-endian instruction word at the program counter.
pub open spec fn opcode_at(m: MachineView) -> int {
    m.memory[m.pc] * 256 + m.memory[m.pc + 1]
}

/// An unrecognized instruction: reported, but the program counter still
/// advances so the program does not lock up.
pub open spec fn step_unknown(m: MachineView, op: int) -> (MachineView, Result<(), Fault>) {
    (MachineView { pc: m.pc + 2, ..m }, Err(Fault::UnknownOpcode(op as u16)))
}

/// 00E0: clear the display and mark it dirty.
pub open spec fn step_clear(m: MachineView) -> (MachineView, Result<(), Fault>) {
    (
        MachineView {
            display: Seq::new(2048, |p: int| false),
            draw_flag: true,
            pc: m.pc + 2,
            ..m
        },
        Ok(()),
    )
}

/// 00EE: pop the stack into the program counter, then advance past the
/// call instruction.  Popping an empty stack is a reported fault that
/// leaves the machine untouched.
pub open spec fn step_return(m: MachineView) -> (MachineView, Result<(), Fault>) {
    if m.sp < 1 {
        (m, Err(Fault::StackUnderflow))
    } else {
        (MachineView { sp: m.sp - 1, pc: m.stack[m.sp - 1] + 2, ..m }, Ok(()))
    }
}

/// 1nnn: unconditional jump.
pub open spec fn step_jump(m: MachineView, op: int) -> (MachineView, Result<(), Fault>) {
    (MachineView { pc: op_nnn(op), ..m }, Ok(()))
}

/// 2nnn: push the address of this instruction, then jump.  Pushing onto
/// a full stack is a reported fault that leaves the machine untouched.
pub open spec fn step_call(m: MachineView, op: int) -> (MachineView, Result<(), Fault>) {
    if m.sp >= 16 {
        (m, Err(Fault::StackOverflow))
    } else {
        (
            MachineView {
                stack: m.stack.update(m.sp, m.pc as u16),
                sp: m.sp + 1,
                pc: op_nnn(op),
                ..m
            },
            Ok(()),
        )
    }
}

/// 3xkk: skip the next instruction when Vx equals the immediate.
pub open spec fn step_skip_eq_imm(m: MachineView, op: int) -> (MachineView, Result<(), Fault>) {
    (MachineView { pc: m.pc + (if m.v[op_x(op)] == op_kk(op) { 4int } else { 2int }), ..m }, Ok(()))
}

/// 4xkk: skip the next instruction when Vx differs from the immediate.
pub open spec fn step_skip_ne_imm(m: MachineView, op: int) -> (MachineView, Result<(), Fault>) {
    (MachineView { pc: m.pc + (if m.v[op_x(op)] != op_kk(op) { 4int } else { 2int }), ..m }, Ok(()))
}

/// 5xy0: skip the next instruction when Vx equals Vy.
pub open spec fn step_skip_eq_reg(m: MachineView, op: int) -> (MachineView, Result<(), Fault>) {
    if op_n(op) != 0 {
        step_unknown(m, op)
    } else {
        (
            MachineView {
                pc: m.pc + (if m.v[op_x(op)] == m.v[op_y(op)] { 4int } else { 2int }),
                ..m
            },
            Ok(()),
        )
    }
}

/// 9xy0: skip the next instruction when Vx differs from Vy.
pub open spec fn step_skip_ne_reg(m: MachineView, op: int) -> (MachineView, Result<(), Fault>) {
    if op_n(op) != 0 {
        step_unknown(m, op)
    } else {
        (
            MachineView {
                pc: m.pc + (if m.v[op_x(op)] != m.v[op_y(op)] { 4int } else { 2int }),
                ..m
            },
            Ok(()),
        )
    }
}

/// 6xkk: Vx := kk.
pub open spec fn step_set_imm(m: MachineView, op: int) -> (MachineView, Result<(), Fault>) {
    (MachineView { v: m.v.update(op_x(op), op_kk(op) as u8), pc: m.pc + 2, ..m }, Ok(()))
}

/// 7xkk: Vx := Vx + kk with 8-bit wraparound and no flag effect.
pub open spec fn step_add_imm(m: MachineView, op: int) -> (MachineView, Result<(), Fault>) {
    (
        MachineView {
            v: m.v.update(op_x(op), ((m.v[op_x(op)] + op_kk(op)) % 256) as u8),
            pc: m.pc + 2,
            ..m
        },
        Ok(()),
    )
}

/// 8xyn: register-to-register moves, logic, arithmetic with the VF flag
/// conventions, and the Vx-only shift variant.  The flag write comes
/// after the result write, so with x = F the flag wins.
pub open spec fn step_alu(m: MachineView, op: int) -> (MachineView, Result<(), Fault>) {
    let x = op_x(op);
    let y = op_y(op);
    let vx = m.v[x] as int;
    let vy = m.v[y] as int;
    let k = op_n(op);
    if k == 0 {
        (MachineView { v: m.v.update(x, m.v[y]), pc: m.pc + 2, ..m }, Ok(()))
    } else if k == 1 {
        (MachineView { v: m.v.update(x, m.v[x] | m.v[y]), pc: m.pc + 2, ..m }, Ok(()))
    } else if k == 2 {
        (MachineView { v: m.v.update(x, m.v[x] & m.v[y]), pc: m.pc + 2, ..m }, Ok(()))
    } else if k == 3 {
        (MachineView { v: m.v.update(x, m.v[x] ^ m.v[y]), pc: m.pc + 2, ..m }, Ok(()))
    } else if k == 4 {
        let flag: u8 = if vx + vy > 255 { 1 } else { 0 };
        (
            MachineView {
                v: m.v.update(x, ((vx + vy) % 256) as u8).update(15, flag),
                pc: m.pc + 2,
                ..m
            },
            Ok(()),
        )
    } else if k == 5 {
        let flag: u8 = if vx < vy { 0 } else { 1 };
        (
            MachineView {
                v: m.v.update(x, ((vx - vy) % 256) as u8).update(15, flag),
                pc: m.pc + 2,
                ..m
            },
            Ok(()),
        )
    } else if k == 6 {
        let flag: u8 = if vx % 2 == 1 { 1 } else { 0 };
        (
            MachineView { v: m.v.update(x, (vx / 2) as u8).update(15, flag), pc: m.pc + 2, ..m },
            Ok(()),
        )
    } else if k == 7 {
        let flag: u8 = if vy < vx { 0 } else { 1 };
        (
            MachineView {
                v: m.v.update(x, ((vy - vx) % 256) as u8).update(15, flag),
                pc: m.pc + 2,
                ..m
            },
            Ok(()),
        )
    } else if k == 14 {
        let flag: u8 = if vx >= 128 { 1 } else { 0 };
        (
            MachineView {
                v: m.v.update(x, ((vx * 2) % 256) as u8).update(15, flag),
                pc: m.pc + 2,
                ..m
            },
            Ok(()),
        )
    } else {
        step_unknown(m, op)
    }
}

/// Annn: I := nnn (12 significant bits).
pub open spec fn step_set_index(m: MachineView, op: int) -> (MachineView, Result<(), Fault>) {
    (MachineView { i: op_nnn(op), pc: m.pc + 2, ..m }, Ok(()))
}

/// Bnnn: jump to nnn + V0.
pub open spec fn step_jump_v0(m: MachineView, op: int) -> (MachineView, Result<(), Fault>) {
    (MachineView { pc: op_nnn(op) + m.v[0], ..m }, Ok(()))
}

/// Cxkk: Vx := random byte AND kk.
pub open spec fn step_random(m: MachineView, op: int, rnd: u8) -> (MachineView, Result<(), Fault>) {
    (MachineView { v: m.v.update(op_x(op), rnd & (op_kk(op) as u8)), pc: m.pc + 2, ..m }, Ok(()))
}

/// Dxyn: XOR the sprite at memory[I .. I+n] onto the display at
/// (Vx, Vy) with wrapping, set VF to the collision flag and mark the
/// display dirty.  A sprite that would be read past the end of memory
/// is a reported fault that leaves the machine untouched.
pub open spec fn step_draw(m: MachineView, op: int) -> (MachineView, Result<(), Fault>) {
    let n = op_n(op);
    if n > 0 && m.i + n > 4096 {
        (m, Err(Fault::AddressOutOfBounds))
    } else {
        let x0 = m.v[op_x(op)] as int;
        let y0 = m.v[op_y(op)] as int;
        let flag: u8 = if draw_collision(m.display, m.memory, m.i, x0, y0, n) { 1 } else { 0 };
        (
            MachineView {
                display: draw_display(m.display, m.memory, m.i, x0, y0, n),
                v: m.v.update(15, flag),
                draw_flag: true,
                pc: m.pc + 2,
                ..m
            },
            Ok(()),
        )
    }
}

/// Ex9E / ExA1: skip on the held state of the key whose index is the
/// low nibble of Vx.
pub open spec fn step_key(m: MachineView, op: int) -> (MachineView, Result<(), Fault>) {
    let held = m.keypad[(m.v[op_x(op)] as int) % 16];
    if op_kk(op) == 0x9E {
        (MachineView { pc: m.pc + (if held { 4int } else { 2int }), ..m }, Ok(()))
    } else if op_kk(op) == 0xA1 {
        (MachineView { pc: m.pc + (if !held { 4int } else { 2int }), ..m }, Ok(()))
    } else {
        step_unknown(m, op)
    }
}

/// The lowest held key index at or above `k`, or 16 when none is held.
pub open spec fn first_held_from(keys: Seq<bool>, k: int) -> int
    decreases 16 - k,
{
    if k < 0 || k >= 16 {
        16
    } else if keys[k] {
        k
    } else {
        first_held_from(keys, k + 1)
    }
}

/// Fx07, Fx0A, Fx15, Fx18, Fx1E, Fx29, Fx33, Fx55, Fx65: timers, the
/// wait-for-key busy poll (the program counter stands still until a key
/// is held), index arithmetic, the font lookup for the low nibble of
/// Vx, binary-coded decimal, and the register save and restore block
/// moves.  Block moves and the decimal store that would run past the
/// end of memory are reported faults that leave the machine untouched.
pub open spec fn step_misc(m: MachineView, op: int) -> (MachineView, Result<(), Fault>) {
    let x = op_x(op);
    let kk = op_kk(op);
    if kk == 0x07 {
        (MachineView { v: m.v.update(x, m.dt), pc: m.pc + 2, ..m }, Ok(()))
    } else if kk == 0x0A {
        if exists|k: int| 0 <= k < 16 && m.keypad[k] {
            (
                MachineView {
                    v: m.v.update(x, first_held_from(m.keypad, 0) as u8),
                    pc: m.pc + 2,
                    ..m
                },
                Ok(()),
            )
        } else {
            (m, Ok(()))
        }
    } else if kk == 0x15 {
        (MachineView { dt: m.v[x], pc: m.pc + 2, ..m }, Ok(()))
    } else if kk == 0x18 {
        (MachineView { st: m.v[x], pc: m.pc + 2, ..m }, Ok(()))
    } else if kk == 0x1E {
        (MachineView { i: (m.i + m.v[x]) % 0x10000, pc: m.pc + 2, ..m }, Ok(()))
    } else if kk == 0x29 {
        (MachineView { i: 5 * (m.v[x] % 16), pc: m.pc + 2, ..m }, Ok(()))
    } else if kk == 0x33 {
        if m.i + 2 < 4096 {
            let vx = m.v[x] as int;
            (
                MachineView {
                    memory: m.memory.update(m.i, (vx / 100) as u8).update(
                        m.i + 1,
                        ((vx % 100) / 10) as u8,
                    ).update(m.i + 2, (vx % 10) as u8),
                    pc: m.pc + 2,
                    ..m
                },
                Ok(()),
            )
        } else {
            (m, Err(Fault::AddressOutOfBounds))
        }
    } else if kk == 0x55 {
        if m.i + x < 4096 {
            (
                MachineView {
                    memory: Seq::new(
                        4096,
                        |j: int| if m.i <= j <= m.i + x { m.v[j - m.i] } else { m.memory[j] },
                    ),
                    pc: m.pc + 2,
                    ..m
                },
                Ok(()),
            )
        } else {
            (m, Err(Fault::AddressOutOfBounds))
        }
    } else if kk == 0x65 {
        if m.i + x < 4096 {
            (
                MachineView {
                    v: Seq::new(16, |j: int| if j <= x { m.memory[m.i + j] } else { m.v[j] }),
                    pc: m.pc + 2,
                    ..m
                },
                Ok(()),
            )
        } else {
            (m, Err(Fault::AddressOutOfBounds))
        }
    } else {
        step_unknown(m, op)
    }
}

/// Dispatch by the high nibble of the instruction word.
pub open spec fn spec_execute(m: MachineView, op: int, rnd: u8) -> (MachineView, Result<(), Fault>) {
    let f = op / 4096;
    if f == 0 {
        if op == 0x00E0 {
            step_clear(m)
        } else if op == 0x00EE {
            step_return(m)
        } else {
            step_unknown(m, op)
        }
    } else if f == 1 {
        step_jump(m, op)
    } else if f == 2 {
        step_call(m, op)
    } else if f == 3 {
        step_skip_eq_imm(m, op)
    } else if f == 4 {
        step_skip_ne_imm(m, op)
    } else if f == 5 {
        step_skip_eq_reg(m, op)
    } else if f == 6 {
        step_set_imm(m, op)
    } else if f == 7 {
        step_add_imm(m, op)
    } else if f == 8 {
        step_alu(m, op)
    } else if f == 9 {
        step_skip_ne_reg(m, op)
    } else if f == 10 {
        step_set_index(m, op)
    } else if f == 11 {
        step_jump_v0(m, op)
    } else if f == 12 {
        step_random(m, op, rnd)
    } else if f == 13 {
        step_draw(m, op)
    } else if f == 14 {
        step_key(m, op)
    } else {
        step_misc(m, op)
    }
}

/// One whole cycle: a fetch that would read outside memory is a
/// reported fault that leaves the machine untouched; otherwise the
/// fetched word executes.  `rnd` is the byte of entropy the cycle
/// consumes if the instruction is Cxkk; every other instruction
/// ignores it.
pub open spec fn spec_cycle(m: MachineView, rnd: u8) -> (MachineView, Result<(), Fault>) {
    if !fetch_ok(m) {
        (m, Err(Fault::AddressOutOfBounds))
    } else {
        spec_execute(m, opcode_at(m), rnd)
    }
}

/// Decoding an instruction word assembled from nibble fields recovers
/// exactly those fields.
pub proof fn lemma_decode_fields(op: int, f: int, x: int, y: int, k: int)
    requires
        0 <= f < 16,
        0 <= x < 16,
        0 <= y < 16,
        0 <= k < 16,
        op == 4096 * f + 256 * x + 16 * y + k,
    ensures
        op / 4096 == f,
        op_x(op) == x,
        op_y(op) == y,
        op_n(op) == k,
        op_kk(op) == 16 * y + k,
        op_nnn(op) == 256 * x + 16 * y + k,
{
    lemma_fundamental_div_mod_converse(op, 4096, f, 256 * x + 16 * y + k);
    lemma_fundamental_div_mod_converse(op, 256, 16 * f + x, 16 * y + k);
    lemma_fundamental_div_mod_converse(16 * f + x, 16, f, x);
    lemma_fundamental_div_mod_converse(op, 16, 256 * f + 16 * x + y, k);
    lemma_fundamental_div_mod_converse(256 * f + 16 * x + y, 16, 16 * f + x, y);
}

/// Decoding an instruction word assembled from a nibble, a register
/// selector and a byte immediate recovers exactly those fields.
pub proof fn lemma_decode_imm(op: int, f: int, x: int, kk: int)
    requires
        0 <= f < 16,
        0 <= x < 16,
        0 <= kk < 256,
        op == 4096 * f + 256 * x + kk,
    ensures
        op / 4096 == f,
        op_x(op) == x,
        op_kk(op) == kk,
        op_nnn(op) == 256 * x + kk,
{
    lemma_fundamental_div_mod_converse(op, 4096, f, 256 * x + kk);
    lemma_fundamental_div_mod_converse(op, 256, 16 * f + x, kk);
    lemma_fundamental_div_mod_converse(16 * f + x, 16, f, x);
}

/// Decoding an instruction word assembled from a nibble and a 12-bit
/// address recovers exactly those fields.
pub proof fn lemma_decode_addr(op: int, f: int, nnn: int)
    requires
        0 <= f < 16,
        0 <= nnn < 4096,
        op == 4096 * f + nnn,
    ensures
        op / 4096 == f,
        op_nnn(op) == nnn,
{
    lemma_fundamental_div_mod_converse(op, 4096, f, nnn);
}

/// The wait-for-key instruction stores the lowest held key index: the
/// index `first_held_from` names is held, none below it is, and it is
/// 16 exactly when no key is held.
pub proof fn lemma_first_held(keys: Seq<bool>, a: int)
    requires
        keys.len() == 16,
        0 <= a <= 16,
    ensures
        a <= first_held_from(keys, a) <= 16,
        first_held_from(keys, a) < 16 ==> keys[first_held_from(keys, a)],
        forall|j: int| a <= j < first_held_from(keys, a) && j < 16 ==> !keys[j],
        first_held_from(keys, a) == 16 ==> forall|j: int| a <= j < 16 ==> !keys[j],
    decreases 16 - a,
{
    if a < 16 && !keys[a] {
        lemma_first_held(keys, a + 1);
    }
}

} // verus!
