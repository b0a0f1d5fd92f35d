//! The CHIP-8 machine state: 4096 bytes of memory (the first 80 holding the
//! built-in hexadecimal font), sixteen 8-bit registers, the 12-bit-masked
//! address register I, the program counter, a 16-entry call stack, the
//! 64x32 monochrome display, the 16-key keypad snapshot and the two
//! 8-bit countdown timers.

use vstd::prelude::*;

use crate::cycle::{
    first_held_from, lemma_first_held, opcode_at, spec_cycle, step_add_imm, step_alu,
    step_call, step_clear, step_draw, step_jump, step_jump_v0, step_key, step_misc, step_random,
    step_return, step_set_imm, step_set_index, step_skip_eq_imm, step_skip_eq_reg,
    step_skip_ne_imm, step_skip_ne_reg, step_unknown,
};
use crate::draw::xor_sprite;

verus! {

pub const MEMORY_SIZE: usize = 4096;
pub const SCREEN_WIDTH: usize = 64;
pub const SCREEN_HEIGHT: usize = 32;
pub const DISPLAY_CELLS: usize = 2048;
pub const N_REGISTERS: usize = 16;
pub const KEYPAD_SIZE: usize = 16;
pub const STACK_SIZE: usize = 16;
pub const PROGRAM_START: usize = 512;
pub const MAX_ROM_BYTES: usize = 3584;
pub const FONT_BYTES: usize = 80;

/// Everything that can go wrong while loading or running a program.
/// An unrecognized instruction is non-fatal: the program counter has
/// already moved past it when the fault is reported.
#[derive(Clone, Copy, Debug, PartialEq, Eq, Structural)]
pub enum Fault {
    /// The program image does not fit between 0x200 and the end of memory.
    RomTooLarge,
    /// The fetched word is not a CHIP-8 instruction.
    UnknownOpcode(u16),
    /// A call was made with all sixteen stack slots in use.
    StackOverflow,
    /// A return was executed with an empty call stack.
    StackUnderflow,
    /// A fetch, read or write touched an address outside memory.
    AddressOutOfBounds,
}

/// The mathematical model of the machine: each component as a sequence
/// or an unbounded integer.  The display is row-major, cell `y * 64 + x`.
#[verifier::ext_equal]
pub struct MachineView {
    pub memory: Seq<u8>,
    pub v: Seq<u8>,
    pub i: int,
    pub pc: int,
    pub stack: Seq<u16>,
    pub sp: int,
    pub display: Seq<bool>,
    pub keypad: Seq<bool>,
    pub draw_flag: bool,
    pub dt: u8,
    pub st: u8,
}

impl MachineView {
    /// Well-formedness: fixed component sizes, the stack pointer within
    /// its sixteen slots, and every stored return address small enough
    /// that returning to it (plus two) stays a valid program counter.
    pub open spec fn wf(self) -> bool {
        &&& self.memory.len() == 4096
        &&& self.v.len() == 16
        &&& self.stack.len() == 16
        &&& 0 <= self.sp <= 16
        &&& self.display.len() == 2048
        &&& self.keypad.len() == 16
        &&& 0 <= self.pc < 0x10000
        &&& 0 <= self.i < 0x10000
        &&& forall|j: int| 0 <= j < 16 ==> self.stack[j] <= 4094
    }
}

/// The 16-glyph, 5-bytes-per-glyph hexadecimal font installed at address 0.
pub open spec fn font_set() -> Seq<u8> {
    seq![
        0xF0u8, 0x90, 0x90, 0x90, 0xF0, // 0
        0x20, 0x60, 0x20, 0x20, 0x70, // 1
        0xF0, 0x10, 0xF0, 0x80, 0xF0, // 2
        0xF0, 0x10, 0xF0, 0x10, 0xF0, // 3
        0x90, 0x90, 0xF0, 0x10, 0x10, // 4
        0xF0, 0x80, 0xF0, 0x10, 0xF0, // 5
        0xF0, 0x80, 0xF0, 0x90, 0xF0, // 6
        0xF0, 0x10, 0x20, 0x40, 0x40, // 7
        0xF0, 0x90, 0xF0, 0x90, 0xF0, // 8
        0xF0, 0x90, 0xF0, 0x10, 0xF0, // 9
        0xF0, 0x90, 0xF0, 0x90, 0x90, // A
        0xE0, 0x90, 0xE0, 0x90, 0xE0, // B
        0xF0, 0x80, 0x80, 0x80, 0xF0, // C
        0xE0, 0x90, 0x90, 0x90, 0xE0, // D
        0xF0, 0x80, 0xF0, 0x80, 0xF0, // E
        0xF0, 0x80, 0xF0, 0x80, 0x80, // F
    ]
}

/// The state of a freshly powered-on machine: zeroed memory except for
/// the font, zeroed registers and timers, empty stack, blank display,
/// no key held, program counter at 0x200.
pub open spec fn initial_machine() -> MachineView {
    MachineView {
        memory: Seq::new(4096, |j: int| if j < 80 { font_set()[j] } else { 0u8 }),
        v: Seq::new(16, |j: int| 0u8),
        i: 0,
        pc: 0x200,
        stack: Seq::new(16, |j: int| 0u16),
        sp: 0,
        display: Seq::new(2048, |j: int| false),
        keypad: Seq::new(16, |j: int| false),
        draw_flag: false,
        dt: 0,
        st: 0,
    }
}

/// Memory after a program image is copied in at 0x200: the image bytes
/// verbatim, everything else untouched.
pub open spec fn load_memory(mem: Seq<u8>, rom: Seq<u8>) -> Seq<u8> {
    Seq::new(4096, |j: int| if 512 <= j < 512 + rom.len() { rom[j - 512] } else { mem[j] })
}

pub struct Chip8 {
    memory: Vec<u8>,
    v: Vec<u8>,
    i: u16,
    pc: u16,
    stack: Vec<u16>,
    sp: usize,
    display: Vec<bool>,
    keypad: Vec<bool>,
    draw_flag: bool,
    dt: u8,
    st: u8,
}

impl View for Chip8 {
    type V = MachineView;

    closed spec fn view(&self) -> MachineView {
        MachineView {
            memory: self.memory@,
            v: self.v@,
            i: self.i as int,
            pc: self.pc as int,
            stack: self.stack@,
            sp: self.sp as int,
            display: self.display@,
            keypad: self.keypad@,
            draw_flag: self.draw_flag,
            dt: self.dt,
            st: self.st,
        }
    }
}

/// A vector holding `n` copies of `val`.
fn filled<T: Copy>(val: T, n: usize) -> (r: Vec<T>)
    ensures
        r@.len() == n,
        forall|j: int| 0 <= j < n ==> r@[j] == val,
{
    let mut r: Vec<T> = Vec::new();
    let mut k: usize = 0;
    while k < n
        invariant
            k <= n,
            r@.len() == k,
            forall|j: int| 0 <= j < k ==> r@[j] == val,
        decreases n - k,
    {
        r.push(val);
        k = k + 1;
    }
    r
}

impl Chip8 {
    pub open spec fn wf(&self) -> bool {
        self@.wf()
    }

    /// Power the machine on: everything zeroed except the font region,
    /// program counter at 0x200.
    pub fn new() -> (c: Chip8)
        ensures
            c.wf(),
            c@ == initial_machine(),
    {
        let font: Vec<u8> = vec![
            0xF0u8, 0x90, 0x90, 0x90, 0xF0, // 0
            0x20, 0x60, 0x20, 0x20, 0x70, // 1
            0xF0, 0x10, 0xF0, 0x80, 0xF0, // 2
            0xF0, 0x10, 0xF0, 0x10, 0xF0, // 3
            0x90, 0x90, 0xF0, 0x10, 0x10, // 4
            0xF0, 0x80, 0xF0, 0x10, 0xF0, // 5
            0xF0, 0x80, 0xF0, 0x90, 0xF0, // 6
            0xF0, 0x10, 0x20, 0x40, 0x40, // 7
            0xF0, 0x90, 0xF0, 0x90, 0xF0, // 8
            0xF0, 0x90, 0xF0, 0x10, 0xF0, // 9
            0xF0, 0x90, 0xF0, 0x90, 0x90, // A
            0xE0, 0x90, 0xE0, 0x90, 0xE0, // B
            0xF0, 0x80, 0x80, 0x80, 0xF0, // C
            0xE0, 0x90, 0x90, 0x90, 0xE0, // D
            0xF0, 0x80, 0xF0, 0x80, 0xF0, // E
            0xF0, 0x80, 0xF0, 0x80, 0x80, // F
        ];
        proof {
            assert(font@ =~= font_set());
        }
        let mut memory = filled(0u8, MEMORY_SIZE);
        let mut k: usize = 0;
        while k < FONT_BYTES
            invariant
                k <= 80,
                memory@.len() == 4096,
                font@ =~= font_set(),
                forall|j: int| 0 <= j < k ==> memory@[j] == font_set()[j],
                forall|j: int| k <= j < 4096 ==> memory@[j] == 0u8,
            decreases 80 - k,
        {
            memory.set(k, font[k]);
            k = k + 1;
        }
        let c = Chip8 {
            memory,
            v: filled(0u8, N_REGISTERS),
            i: 0,
            pc: 0x200,
            stack: filled(0u16, STACK_SIZE),
            sp: 0,
            display: filled(false, DISPLAY_CELLS),
            keypad: filled(false, KEYPAD_SIZE),
            draw_flag: false,
            dt: 0,
            st: 0,
        };
        proof {
            assert(c@.memory =~= initial_machine().memory);
            assert(c@.v =~= initial_machine().v);
            assert(c@.stack =~= initial_machine().stack);
            assert(c@.display =~= initial_machine().display);
            assert(c@.keypad =~= initial_machine().keypad);
            assert(c@ =~= initial_machine());
        }
        c
    }

    /// Copy a program image into memory starting at 0x200.  An image
    /// larger than the 3584 bytes available is rejected whole: nothing
    /// is copied and the load-time fault is reported.
    pub fn load_rom(&mut self, rom: &[u8]) -> (r: Result<(), Fault>)
        requires
            old(self).wf(),
        ensures
            final(self).wf(),
            rom@.len() <= 3584 ==> r == Ok::<(), Fault>(())
                && final(self)@ == (MachineView { memory: load_memory(old(self)@.memory, rom@), ..old(self)@ }),
            rom@.len() > 3584 ==> r == Err::<(), Fault>(Fault::RomTooLarge) && final(self)@ == old(self)@,
    {
        if rom.len() > MAX_ROM_BYTES {
            return Err(Fault::RomTooLarge);
        }
        let mut k: usize = 0;
        while k < rom.len()
            invariant
                old(self).wf(),
                k <= rom@.len() <= 3584,
                self@ == (MachineView { memory: self@.memory, ..old(self)@ }),
                self@.memory.len() == 4096,
                forall|j: int| 0 <= j < 4096 && !(512 <= j < 512 + k) ==> self@.memory[j] == old(self)@.memory[j],
                forall|j: int| 512 <= j < 512 + k ==> self@.memory[j] == rom@[j - 512],
            decreases rom@.len() - k,
        {
            self.memory.set(PROGRAM_START + k, rom[k]);
            k = k + 1;
        }
        proof {
            assert(self@.memory =~= load_memory(old(self)@.memory, rom@));
            assert(self@ =~= (MachineView { memory: load_memory(old(self)@.memory, rom@), ..old(self)@ }));
        }
        Ok(())
    }

    /// An instruction word outside the base set: report it, but still
    /// move past it.
    fn op_unknown(&mut self, op: u16) -> (r: Result<(), Fault>)
        requires
            old(self).wf(),
            old(self)@.pc <= 4094,
        ensures
            final(self).wf(),
            (final(self)@, r) == step_unknown(old(self)@, op as int),
    {
        self.pc = self.pc + 2;
        proof {
            assert(self@ =~= step_unknown(old(self)@, op as int).0);
        }
        Err(Fault::UnknownOpcode(op))
    }

    /// 00E0.
    #[verifier::loop_isolation(false)]
    fn op_clear(&mut self) -> (r: Result<(), Fault>)
        requires
            old(self).wf(),
            old(self)@.pc <= 4094,
        ensures
            final(self).wf(),
            (final(self)@, r) == step_clear(old(self)@),
    {
        let mut p: usize = 0;
        while p < DISPLAY_CELLS
            invariant
                p <= 2048,
                self@.display.len() == 2048,
                forall|j: int| 0 <= j < p ==> !self@.display[j],
                self@ == (MachineView { display: self@.display, ..old(self)@ }),
            decreases 2048 - p,
        {
            self.display.set(p, false);
            p = p + 1;
        }
        self.draw_flag = true;
        self.pc = self.pc + 2;
        proof {
            assert(self@.display =~= step_clear(old(self)@).0.display);
            assert(self@ =~= step_clear(old(self)@).0);
        }
        Ok(())
    }

    /// 00EE.
    fn op_return(&mut self) -> (r: Result<(), Fault>)
        requires
            old(self).wf(),
            old(self)@.pc <= 4094,
        ensures
            final(self).wf(),
            (final(self)@, r) == step_return(old(self)@),
    {
        if self.sp == 0 {
            return Err(Fault::StackUnderflow);
        }
        self.sp = self.sp - 1;
        self.pc = self.stack[self.sp] + 2;
        proof {
            assert(self@ =~= step_return(old(self)@).0);
        }
        Ok(())
    }

    /// 1nnn.
    fn op_jump(&mut self, op: u16) -> (r: Result<(), Fault>)
        requires
            old(self).wf(),
            old(self)@.pc <= 4094,
        ensures
            final(self).wf(),
            (final(self)@, r) == step_jump(old(self)@, op as int),
    {
        self.pc = op % 4096;
        proof {
            assert(self@ =~= step_jump(old(self)@, op as int).0);
        }
        Ok(())
    }

    /// 2nnn.
    fn op_call(&mut self, op: u16) -> (r: Result<(), Fault>)
        requires
            old(self).wf(),
            old(self)@.pc <= 4094,
        ensures
            final(self).wf(),
            (final(self)@, r) == step_call(old(self)@, op as int),
    {
        if self.sp >= STACK_SIZE {
            return Err(Fault::StackOverflow);
        }
        self.stack.set(self.sp, self.pc);
        self.sp = self.sp + 1;
        self.pc = op % 4096;
        proof {
            assert(self@ =~= step_call(old(self)@, op as int).0);
        }
        Ok(())
    }

    /// 3xkk.
    fn op_skip_eq_imm(&mut self, op: u16) -> (r: Result<(), Fault>)
        requires
            old(self).wf(),
            old(self)@.pc <= 4094,
        ensures
            final(self).wf(),
            (final(self)@, r) == step_skip_eq_imm(old(self)@, op as int),
    {
        let x = ((op / 256) % 16) as usize;
        let kk = (op % 256) as u8;
        if self.v[x] == kk {
            self.pc = self.pc + 4;
        } else {
            self.pc = self.pc + 2;
        }
        proof {
            assert(self@ =~= step_skip_eq_imm(old(self)@, op as int).0);
        }
        Ok(())
    }

    /// 4xkk.
    fn op_skip_ne_imm(&mut self, op: u16) -> (r: Result<(), Fault>)
        requires
            old(self).wf(),
            old(self)@.pc <= 4094,
        ensures
            final(self).wf(),
            (final(self)@, r) == step_skip_ne_imm(old(self)@, op as int),
    {
        let x = ((op / 256) % 16) as usize;
        let kk = (op % 256) as u8;
        if self.v[x] != kk {
            self.pc = self.pc + 4;
        } else {
            self.pc = self.pc + 2;
        }
        proof {
            assert(self@ =~= step_skip_ne_imm(old(self)@, op as int).0);
        }
        Ok(())
    }

    /// 5xy0.
    fn op_skip_eq_reg(&mut self, op: u16) -> (r: Result<(), Fault>)
        requires
            old(self).wf(),
            old(self)@.pc <= 4094,
        ensures
            final(self).wf(),
            (final(self)@, r) == step_skip_eq_reg(old(self)@, op as int),
    {
        if op % 16 != 0 {
            return self.op_unknown(op);
        }
        let x = ((op / 256) % 16) as usize;
        let y = ((op / 16) % 16) as usize;
        if self.v[x] == self.v[y] {
            self.pc = self.pc + 4;
        } else {
            self.pc = self.pc + 2;
        }
        proof {
            assert(self@ =~= step_skip_eq_reg(old(self)@, op as int).0);
        }
        Ok(())
    }

    /// 9xy0.
    fn op_skip_ne_reg(&mut self, op: u16) -> (r: Result<(), Fault>)
        requires
            old(self).wf(),
            old(self)@.pc <= 4094,
        ensures
            final(self).wf(),
            (final(self)@, r) == step_skip_ne_reg(old(self)@, op as int),
    {
        if op % 16 != 0 {
            return self.op_unknown(op);
        }
        let x = ((op / 256) % 16) as usize;
        let y = ((op / 16) % 16) as usize;
        if self.v[x] != self.v[y] {
            self.pc = self.pc + 4;
        } else {
            self.pc = self.pc + 2;
        }
        proof {
            assert(self@ =~= step_skip_ne_reg(old(self)@, op as int).0);
        }
        Ok(())
    }

    /// 6xkk.
    fn op_set_imm(&mut self, op: u16) -> (r: Result<(), Fault>)
        requires
            old(self).wf(),
            old(self)@.pc <= 4094,
        ensures
            final(self).wf(),
            (final(self)@, r) == step_set_imm(old(self)@, op as int),
    {
        let x = ((op / 256) % 16) as usize;
        self.v.set(x, (op % 256) as u8);
        self.pc = self.pc + 2;
        proof {
            assert(self@ =~= step_set_imm(old(self)@, op as int).0);
        }
        Ok(())
    }

    /// 7xkk.
    fn op_add_imm(&mut self, op: u16) -> (r: Result<(), Fault>)
        requires
            old(self).wf(),
            old(self)@.pc <= 4094,
        ensures
            final(self).wf(),
            (final(self)@, r) == step_add_imm(old(self)@, op as int),
    {
        let x = ((op / 256) % 16) as usize;
        let sum = self.v[x] as u16 + op % 256;
        self.v.set(x, (sum % 256) as u8);
        self.pc = self.pc + 2;
        proof {
            assert(self@ =~= step_add_imm(old(self)@, op as int).0);
        }
        Ok(())
    }

    /// Annn.
    fn op_set_index(&mut self, op: u16) -> (r: Result<(), Fault>)
        requires
            old(self).wf(),
            old(self)@.pc <= 4094,
        ensures
            final(self).wf(),
            (final(self)@, r) == step_set_index(old(self)@, op as int),
    {
        self.i = op % 4096;
        self.pc = self.pc + 2;
        proof {
            assert(self@ =~= step_set_index(old(self)@, op as int).0);
        }
        Ok(())
    }

    /// Bnnn.
    fn op_jump_v0(&mut self, op: u16) -> (r: Result<(), Fault>)
        requires
            old(self).wf(),
            old(self)@.pc <= 4094,
        ensures
            final(self).wf(),
            (final(self)@, r) == step_jump_v0(old(self)@, op as int),
    {
        self.pc = op % 4096 + self.v[0] as u16;
        proof {
            assert(self@ =~= step_jump_v0(old(self)@, op as int).0);
        }
        Ok(())
    }

    /// Cxkk, on a byte of entropy the caller already drew.
    fn op_random(&mut self, op: u16, rnd: u8) -> (r: Result<(), Fault>)
        requires
            old(self).wf(),
            old(self)@.pc <= 4094,
        ensures
            final(self).wf(),
            (final(self)@, r) == step_random(old(self)@, op as int, rnd),
    {
        let x = ((op / 256) % 16) as usize;
        self.v.set(x, rnd & (op % 256) as u8);
        self.pc = self.pc + 2;
        proof {
            assert(self@ =~= step_random(old(self)@, op as int, rnd).0);
        }
        Ok(())
    }

    /// Ex9E / ExA1.
    fn op_key(&mut self, op: u16) -> (r: Result<(), Fault>)
        requires
            old(self).wf(),
            old(self)@.pc <= 4094,
        ensures
            final(self).wf(),
            (final(self)@, r) == step_key(old(self)@, op as int),
    {
        let kk = op % 256;
        if kk != 0x9E && kk != 0xA1 {
            return self.op_unknown(op);
        }
        let x = ((op / 256) % 16) as usize;
        let held = self.keypad[(self.v[x] % 16) as usize];
        if (kk == 0x9E && held) || (kk == 0xA1 && !held) {
            self.pc = self.pc + 4;
        } else {
            self.pc = self.pc + 2;
        }
        proof {
            assert(self@ =~= step_key(old(self)@, op as int).0);
        }
        Ok(())
    }

    /// 8xy0 .. 8xy7 and 8xyE.
    fn op_alu(&mut self, op: u16) -> (r: Result<(), Fault>)
        requires
            old(self).wf(),
            old(self)@.pc <= 4094,
        ensures
            final(self).wf(),
            (final(self)@, r) == step_alu(old(self)@, op as int),
    {
        let x = ((op / 256) % 16) as usize;
        let y = ((op / 16) % 16) as usize;
        let vx = self.v[x];
        let vy = self.v[y];
        let k = op % 16;
        if k == 0 {
            self.v.set(x, vy);
        } else if k == 1 {
            self.v.set(x, vx | vy);
        } else if k == 2 {
            self.v.set(x, vx & vy);
        } else if k == 3 {
            self.v.set(x, vx ^ vy);
        } else if k == 4 {
            let sum = vx as u16 + vy as u16;
            let flag: u8 = if sum > 255 { 1 } else { 0 };
            self.v.set(x, (sum % 256) as u8);
            self.v.set(15, flag);
        } else if k == 5 {
            let flag: u8 = if vx < vy { 0 } else { 1 };
            let res: u8 = if vx >= vy { vx - vy } else { ((vx as u16 + 256 - vy as u16) % 256) as u8 };
            self.v.set(x, res);
            self.v.set(15, flag);
        } else if k == 6 {
            let flag: u8 = vx % 2;
            self.v.set(x, vx / 2);
            self.v.set(15, flag);
        } else if k == 7 {
            let flag: u8 = if vy < vx { 0 } else { 1 };
            let res: u8 = if vy >= vx { vy - vx } else { ((vy as u16 + 256 - vx as u16) % 256) as u8 };
            self.v.set(x, res);
            self.v.set(15, flag);
        } else if k == 14 {
            let flag: u8 = if vx >= 128 { 1 } else { 0 };
            self.v.set(x, ((vx as u16 * 2) % 256) as u8);
            self.v.set(15, flag);
        } else {
            return self.op_unknown(op);
        }
        self.pc = self.pc + 2;
        proof {
            assert(self@ =~= step_alu(old(self)@, op as int).0);
        }
        Ok(())
    }

    /// Dxyn.
    fn op_draw(&mut self, op: u16) -> (r: Result<(), Fault>)
        requires
            old(self).wf(),
            old(self)@.pc <= 4094,
        ensures
            final(self).wf(),
            (final(self)@, r) == step_draw(old(self)@, op as int),
    {
        let n = (op % 16) as usize;
        if n > 0 && self.i as usize + n > MEMORY_SIZE {
            return Err(Fault::AddressOutOfBounds);
        }
        let x = ((op / 256) % 16) as usize;
        let y = ((op / 16) % 16) as usize;
        let x0 = self.v[x];
        let y0 = self.v[y];
        let collision = xor_sprite(&mut self.display, &self.memory, self.i as usize, x0, y0, n);
        self.v.set(15, if collision { 1 } else { 0 });
        self.draw_flag = true;
        self.pc = self.pc + 2;
        proof {
            assert(self@ =~= step_draw(old(self)@, op as int).0);
        }
        Ok(())
    }

    /// Fx07 .. Fx65.
    #[verifier::loop_isolation(false)]
    fn op_misc(&mut self, op: u16) -> (r: Result<(), Fault>)
        requires
            old(self).wf(),
            old(self)@.pc <= 4094,
        ensures
            final(self).wf(),
            (final(self)@, r) == step_misc(old(self)@, op as int),
    {
        let x = ((op / 256) % 16) as usize;
        let kk = op % 256;
        if kk == 0x07 {
            let dt = self.dt;
            self.v.set(x, dt);
            self.pc = self.pc + 2;
            proof {
                assert(self@ =~= step_misc(old(self)@, op as int).0);
            }
            Ok(())
        } else if kk == 0x0A {
            let mut k: usize = 0;
            while k < KEYPAD_SIZE && !self.keypad[k]
                invariant
                    k <= 16,
                    forall|j: int| 0 <= j < k ==> !self@.keypad[j],
                decreases 16 - k,
            {
                k = k + 1;
            }
            if k == KEYPAD_SIZE {
                proof {
                    assert(!(exists|j: int| 0 <= j < 16 && self@.keypad[j]));
                    assert(self@ =~= step_misc(old(self)@, op as int).0);
                }
                Ok(())
            } else {
                proof {
                    lemma_first_held(self@.keypad, 0);
                    assert(self@.keypad[k as int]);
                    assert(first_held_from(self@.keypad, 0) == k as int);
                }
                self.v.set(x, k as u8);
                self.pc = self.pc + 2;
                proof {
                    assert(self@ =~= step_misc(old(self)@, op as int).0);
                }
                Ok(())
            }
        } else if kk == 0x15 {
            self.dt = self.v[x];
            self.pc = self.pc + 2;
            proof {
                assert(self@ =~= step_misc(old(self)@, op as int).0);
            }
            Ok(())
        } else if kk == 0x18 {
            self.st = self.v[x];
            self.pc = self.pc + 2;
            proof {
                assert(self@ =~= step_misc(old(self)@, op as int).0);
            }
            Ok(())
        } else if kk == 0x1E {
            self.i = ((self.i as u32 + self.v[x] as u32) % 0x10000) as u16;
            self.pc = self.pc + 2;
            proof {
                assert(self@ =~= step_misc(old(self)@, op as int).0);
            }
            Ok(())
        } else if kk == 0x29 {
            self.i = 5 * (self.v[x] % 16) as u16;
            self.pc = self.pc + 2;
            proof {
                assert(self@ =~= step_misc(old(self)@, op as int).0);
            }
            Ok(())
        } else if kk == 0x33 {
            let i = self.i as usize;
            if i + 2 >= MEMORY_SIZE {
                return Err(Fault::AddressOutOfBounds);
            }
            let vx = self.v[x];
            self.memory.set(i, vx / 100);
            self.memory.set(i + 1, (vx % 100) / 10);
            self.memory.set(i + 2, vx % 10);
            self.pc = self.pc + 2;
            proof {
                assert(self@ =~= step_misc(old(self)@, op as int).0);
            }
            Ok(())
        } else if kk == 0x55 {
            let i = self.i as usize;
            if i + x >= MEMORY_SIZE {
                return Err(Fault::AddressOutOfBounds);
            }
            let mut k: usize = 0;
            while k <= x
                invariant
                    k <= x + 1,
                    self@.memory.len() == 4096,
                    self@ == (MachineView { memory: self@.memory, ..old(self)@ }),
                    forall|j: int| 0 <= j < 4096 && !(i <= j < i + k) ==> self@.memory[j] == old(self)@.memory[j],
                    forall|j: int| i <= j < i + k ==> self@.memory[j] == old(self)@.v[j - i],
                decreases x + 1 - k,
            {
                self.memory.set(i + k, self.v[k]);
                k = k + 1;
            }
            self.pc = self.pc + 2;
            proof {
                assert(self@.memory =~= step_misc(old(self)@, op as int).0.memory);
                assert(self@ =~= step_misc(old(self)@, op as int).0);
            }
            Ok(())
        } else if kk == 0x65 {
            let i = self.i as usize;
            if i + x >= MEMORY_SIZE {
                return Err(Fault::AddressOutOfBounds);
            }
            let mut k: usize = 0;
            while k <= x
                invariant
                    k <= x + 1,
                    self@.v.len() == 16,
                    self@ == (MachineView { v: self@.v, ..old(self)@ }),
                    forall|j: int| 0 <= j < 16 && !(j < k) ==> self@.v[j] == old(self)@.v[j],
                    forall|j: int| 0 <= j < k ==> self@.v[j] == old(self)@.memory[i + j],
                decreases x + 1 - k,
            {
                let b = self.memory[i + k];
                self.v.set(k, b);
                k = k + 1;
            }
            self.pc = self.pc + 2;
            proof {
                assert(self@.v =~= step_misc(old(self)@, op as int).0.v);
                assert(self@ =~= step_misc(old(self)@, op as int).0);
            }
            Ok(())
        } else {
            self.op_unknown(op)
        }
    }

    /// One fetch-decode-execute cycle, on a byte of entropy the caller
    /// supplies: the machine afterwards is exactly `spec_cycle` of the
    /// machine before.  The entropy byte is consumed only by the Cxkk
    /// instruction.
    pub fn step_with_entropy(&mut self, rnd: u8) -> (r: Result<(), Fault>)
        requires
            old(self).wf(),
        ensures
            final(self).wf(),
            ({
                let (post, res) = spec_cycle(old(self)@, rnd);
                final(self)@ == post && r == res
            }),
    {
        if self.pc > 4094 {
            return Err(Fault::AddressOutOfBounds);
        }
        let hi = self.memory[self.pc as usize];
        let lo = self.memory[self.pc as usize + 1];
        let op: u16 = (hi as u16) * 256 + lo as u16;
        proof {
            assert(op as int == opcode_at(self@));
        }
        let f = op / 4096;
        if f == 0 {
            if op == 0x00E0 {
                self.op_clear()
            } else if op == 0x00EE {
                self.op_return()
            } else {
                self.op_unknown(op)
            }
        } else if f == 1 {
            self.op_jump(op)
        } else if f == 2 {
            self.op_call(op)
        } else if f == 3 {
            self.op_skip_eq_imm(op)
        } else if f == 4 {
            self.op_skip_ne_imm(op)
        } else if f == 5 {
            self.op_skip_eq_reg(op)
        } else if f == 6 {
            self.op_set_imm(op)
        } else if f == 7 {
            self.op_add_imm(op)
        } else if f == 8 {
            self.op_alu(op)
        } else if f == 9 {
            self.op_skip_ne_reg(op)
        } else if f == 10 {
            self.op_set_index(op)
        } else if f == 11 {
            self.op_jump_v0(op)
        } else if f == 12 {
            self.op_random(op, rnd)
        } else if f == 13 {
            self.op_draw(op)
        } else if f == 14 {
            self.op_key(op)
        } else {
            self.op_misc(op)
        }
    }

    /// One fetch-decode-execute cycle on a freshly drawn byte of
    /// entropy: the machine afterwards is `spec_cycle` of the machine
    /// before, for some byte.  Only the Cxkk instruction looks at the
    /// byte, so every other instruction's effect is fully determined.
    pub fn emulate_cycle(&mut self) -> (r: Result<(), Fault>)
        requires
            old(self).wf(),
        ensures
            final(self).wf(),
            exists|b: u8|
                (final(self)@, r) == #[trigger] spec_cycle(old(self)@, b),
    {
        let b = random_byte();
        let r = self.step_with_entropy(b);
        proof {
            let (post, res) = spec_cycle(old(self)@, b);
            assert(self@ == post && r == res);
        }
        r
    }

    /// Count both timers down by one, stopping at zero.  The external
    /// driver calls this at its fixed cadence, once per rendered frame.
    pub fn tick_timers(&mut self)
        requires
            old(self).wf(),
        ensures
            final(self).wf(),
            final(self)@ == (MachineView {
                dt: if old(self)@.dt > 0 { (old(self)@.dt - 1) as u8 } else { 0u8 },
                st: if old(self)@.st > 0 { (old(self)@.st - 1) as u8 } else { 0u8 },
                ..old(self)@
            }),
    {
        if self.dt > 0 {
            self.dt = self.dt - 1;
        }
        if self.st > 0 {
            self.st = self.st - 1;
        }
        proof {
            assert(self@ =~= (MachineView {
                dt: if old(self)@.dt > 0 { (old(self)@.dt - 1) as u8 } else { 0u8 },
                st: if old(self)@.st > 0 { (old(self)@.st - 1) as u8 } else { 0u8 },
                ..old(self)@
            }));
        }
    }

    /// Record one key's held state, as sampled by the external input
    /// collaborator between cycles.
    pub fn set_key(&mut self, key: usize, held: bool)
        requires
            old(self).wf(),
            key < 16,
        ensures
            final(self).wf(),
            final(self)@ == (MachineView {
                keypad: old(self)@.keypad.update(key as int, held),
                ..old(self)@
            }),
    {
        self.keypad.set(key, held);
        proof {
            assert(self@ =~= (MachineView {
                keypad: old(self)@.keypad.update(key as int, held),
                ..old(self)@
            }));
        }
    }

    /// The value of register Vx.
    pub fn v_reg(&self, x: usize) -> (b: u8)
        requires
            self.wf(),
            x < 16,
        ensures
            b == self@.v[x as int],
    {
        self.v[x]
    }

    /// The byte at a memory address.
    pub fn mem_byte(&self, addr: usize) -> (b: u8)
        requires
            self.wf(),
            addr < 4096,
        ensures
            b == self@.memory[addr as int],
    {
        self.memory[addr]
    }

    /// The program counter.
    pub fn program_counter(&self) -> (pc: u16)
        ensures
            pc as int == self@.pc,
    {
        self.pc
    }

    /// The address register I.
    pub fn index_register(&self) -> (i: u16)
        ensures
            i as int == self@.i,
    {
        self.i
    }

    /// How many call frames are on the stack.
    pub fn stack_depth(&self) -> (d: usize)
        ensures
            d as int == self@.sp,
    {
        self.sp
    }

    /// Whether the pixel at (x, y) is lit.
    pub fn pixel(&self, x: usize, y: usize) -> (on: bool)
        requires
            self.wf(),
            x < 64,
            y < 32,
        ensures
            on == self@.display[y as int * 64 + x as int],
    {
        self.display[y * 64 + x]
    }

    /// Whether a draw or clear has happened since the renderer last
    /// consumed a frame.
    pub fn draw_flag(&self) -> (d: bool)
        ensures
            d == self@.draw_flag,
    {
        self.draw_flag
    }

    /// The renderer consumed a frame: lower the dirty flag.
    pub fn clear_draw_flag(&mut self)
        requires
            old(self).wf(),
        ensures
            final(self).wf(),
            final(self)@ == (MachineView { draw_flag: false, ..old(self)@ }),
    {
        self.draw_flag = false;
        proof {
            assert(self@ =~= (MachineView { draw_flag: false, ..old(self)@ }));
        }
    }

    /// The delay timer.
    pub fn delay_timer(&self) -> (t: u8)
        ensures
            t == self@.dt,
    {
        self.dt
    }

    /// The sound timer.
    pub fn sound_timer(&self) -> (t: u8)
        ensures
            t == self@.st,
    {
        self.st
    }
}

/// Relies on rand::random::<u8>: one byte from the operating-system
/// seeded thread-local generator.  Nothing is assumed of its value;
/// every caller is verified for every byte that may come back.
#[verifier::external_body]
fn random_byte() -> u8 {
    rand::random::<u8>()
}

} // verus!
