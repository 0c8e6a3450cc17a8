//! The CHIP-8 machine: 4KB of memory, sixteen byte registers, a bounded
//! call stack, a 64x32 monochrome frame buffer, two timers and a keypad.
//!
//! `cycle_with_random` is the pure decode/execute step; its contract states
//! the exact transition, `spec_cycle`, for every opcode.  `cycle` draws the
//! random byte the `Cxkk` opcode needs and then takes that step.

use vstd::prelude::*;

use rand::Rng;

verus! {

/// Width of the CHIP-8 screen in pixels.
pub const PIXEL_W: u16 = 64;
/// Height of the CHIP-8 screen in pixels.
pub const PIXEL_H: u16 = 32;
/// Address where the font glyph table is loaded.
pub const FONT_LOCATION: u16 = 0x80;
/// Address where program data is loaded on boot.
pub const CARTRIDGE_LOCATION: u16 = 0x200;
/// Size of system memory in bytes.
pub const MEMORY_SIZE: usize = 4096;
/// Number of pixels in the frame buffer.
pub const GFX_SIZE: usize = 2048;

/// The five-byte glyphs for the hexadecimal digits 0 through F.
pub const FONT_SET: [u8; 80] = [
    0xF0, 0x90, 0x90, 0x90, 0xF0, // 0
    0x20, 0x60, 0x20, 0x20, 0x70, // 1
    0xF0, 0x10, 0xF0, 0x80, 0xF0, // 2
    0xF0, 0x10, 0xF0, 0x10, 0xF0, // 3
    0x90, 0x90, 0xF0, 0x10, 0x10, // 4
    0xF0, 0x80, 0xF0, 0x10, 0xF0, // 5
    0xF0, 0x80, 0xF0, 0x90, 0xF0, // 6
    0xF0, 0x10, 0x20, 0x40, 0x40, // 7
    0xF0, 0x90, 0xF0, 0x90, 0xF0, // 8
    0xF0, 0x90, 0xF0, 0x10, 0xF0, // 9
    0xF0, 0x90, 0xF0, 0x90, 0x90, // A
    0xE0, 0x90, 0xE0, 0x90, 0xE0, // B
    0xF0, 0x80, 0x80, 0x80, 0xF0, // C
    0xE0, 0x90, 0x90, 0x90, 0xE0, // D
    0xF0, 0x80, 0xF0, 0x80, 0xF0, // E
    0xF0, 0x80, 0xF0, 0x80, 0x80, // F
];

/// The mathematical model of a machine state: every contract in this
/// module speaks of values of this type.
#[verifier::ext_equal]
pub ghost struct MachineView {
    pub memory: Seq<u8>,
    pub reg: Seq<u8>,
    pub gfx: Seq<u8>,
    pub stack: Seq<u16>,
    pub key: Seq<u8>,
    pub idx: u16,
    pub pc: u16,
    pub sp: u16,
    pub delay_timer: u8,
    pub sound_timer: u8,
    pub draw_flag: bool,
}

/// The machine state itself.
pub struct Chip8 {
    /// System RAM, 4096 bytes.
    pub memory: Vec<u8>,
    /// The sixteen general-purpose registers; register 0xF is the flag register.
    pub reg: Vec<u8>,
    /// The frame buffer, one byte (0 or 1) per pixel, row-major.
    pub gfx: Vec<u8>,
    /// The subroutine stack, sixteen return addresses.
    stack: Vec<u16>,
    /// Keypad state, one byte per key; nonzero means pressed.
    pub key: Vec<u8>,
    /// The index register.
    idx: u16,
    /// The program counter.
    pc: u16,
    /// The stack pointer: the number of live return addresses.
    sp: u16,
    /// Decremented at the timer rate while nonzero.
    pub delay_timer: u8,
    /// Decremented at the timer rate while nonzero; positive means tone on.
    pub sound_timer: u8,
    /// Set by the clear and draw opcodes; cleared when the renderer consumes
    /// the frame buffer.
    pub draw_flag: bool,
}

impl View for Chip8 {
    type V = MachineView;

    closed spec fn view(&self) -> MachineView {
        MachineView {
            memory: self.memory@,
            reg: self.reg@,
            gfx: self.gfx@,
            stack: self.stack@,
            key: self.key@,
            idx: self.idx,
            pc: self.pc,
            sp: self.sp,
            delay_timer: self.delay_timer,
            sound_timer: self.sound_timer,
            draw_flag: self.draw_flag,
        }
    }
}

/// Relies on `rand::thread_rng` and `rand::Rng::gen` for a uniformly
/// distributed byte; nothing is assumed of the value drawn.
#[verifier::external_body]
pub(crate) fn random_byte() -> u8 {
    rand::thread_rng().gen()
}

/// The bit of sprite byte `b` shown in column `j`: bit 7 is the leftmost pixel.
pub open spec fn sprite_bit(b: u8, j: int) -> u8 {
    (b >> ((7 - j) as u32)) & 1
}

/// The frame-buffer cell that column `j` of sprite row `i`, drawn at
/// register coordinates `(rx, ry)`, lands on; pixel addresses wrap around
/// the whole buffer rather than clipping at the screen edge.
pub open spec fn pixel_coord(rx: u8, ry: u8, i: int, j: int) -> int {
    (rx + (ry + i) * 64 + j) % 2048
}

/// XOR-composite the first `j` columns of sprite row `i` onto the frame
/// buffer, accumulating in the second component whether any lit pixel was
/// cleared (the draw opcode's collision signal).
pub open spec fn spec_draw_cols(gfx: Seq<u8>, col: bool, byte: u8, rx: u8, ry: u8, i: int, j: int) -> (Seq<
    u8,
>, bool)
    decreases j,
{
    if j <= 0 {
        (gfx, col)
    } else {
        let prev = spec_draw_cols(gfx, col, byte, rx, ry, i, j - 1);
        let c = pixel_coord(rx, ry, i, j - 1);
        let b = sprite_bit(byte, j - 1);
        (prev.0.update(c, prev.0[c] ^ b), prev.1 || (prev.0[c] & b) != 0)
    }
}

/// XOR-composite the first `i` rows of the sprite at `mem[idx..]` onto the
/// frame buffer, with the accumulated collision signal.
pub open spec fn spec_draw_rows(gfx: Seq<u8>, col: bool, mem: Seq<u8>, idx: int, rx: u8, ry: u8, i: int) -> (Seq<
    u8,
>, bool)
    decreases i,
{
    if i <= 0 {
        (gfx, col)
    } else {
        let prev = spec_draw_rows(gfx, col, mem, idx, rx, ry, i - 1);
        spec_draw_cols(prev.0, prev.1, mem[idx + (i - 1)], rx, ry, i - 1, 8)
    }
}

/// The effect of the draw opcode `Dxyz` on the whole machine: an
/// eight-pixel-wide, `z`-row sprite read from memory at the index register
/// is XOR-composited at the coordinates held in registers `x` and `y`, the
/// flag register records whether any lit pixel was cleared, and the redraw
/// flag is raised.  A sprite that would be read from beyond the end of
/// memory leaves the machine unchanged.
pub open spec fn spec_draw(s: MachineView, x: int, y: int, z: int) -> MachineView {
    if s.idx + z > 4096 {
        s
    } else {
        let d = spec_draw_rows(s.gfx, false, s.memory, s.idx as int, s.reg[x], s.reg[y], z);
        MachineView {
            gfx: d.0,
            reg: s.reg.update(15, if d.1 { 1u8 } else { 0u8 }),
            draw_flag: true,
            pc: (s.pc + 2) as u16,
            ..s
        }
    }
}

/// The lowest-indexed pressed key at or after index `i`, or 16 when no key
/// from `i` up is pressed.
pub open spec fn first_pressed(key: Seq<u8>, i: int) -> int
    decreases 16 - i,
{
    if i < 0 || i >= 16 {
        16
    } else if key[i] != 0 {
        i
    } else {
        first_pressed(key, i + 1)
    }
}

/// One tick of the 60Hz timer clock: each timer decrements independently,
/// only while nonzero, and never wraps below zero.
pub open spec fn spec_timer_step(s: MachineView) -> MachineView {
    MachineView {
        delay_timer: if s.delay_timer > 0 { (s.delay_timer - 1) as u8 } else { 0u8 },
        sound_timer: if s.sound_timer > 0 { (s.sound_timer - 1) as u8 } else { 0u8 },
        ..s
    }
}

/// The transition of one fetch/decode/execute cycle, given the random byte
/// `r` that the `Cxkk` opcode consumes.
///
/// The two bytes at the program counter split into four nibbles `w x y z`;
/// `lo` is the 8-bit immediate, `xyz` the 12-bit immediate.  An
/// unrecognized opcode leaves the machine unchanged, so the same bytes are
/// decoded again on the next cycle.  The same defined halt-in-place
/// replaces every access historical interpreters leave unchecked: a fetch
/// with the program counter at the end of memory, a pop of an empty or a
/// push onto a full call stack, a sprite, digit or register transfer that
/// would touch memory past its end, a keypad test against a register value
/// above 15, and an index-register add that would leave 16 bits.
pub open spec fn spec_cycle(s: MachineView, r: u8) -> MachineView {
    if s.pc >= 4095 {
        s
    } else {
        let hi = s.memory[s.pc as int];
        let lo = s.memory[s.pc as int + 1];
        let w = hi >> 4;
        let x = (hi & 0xF) as int;
        let y = (lo >> 4) as int;
        let z = (lo & 0xF) as int;
        let xyz = ((hi & 0xF) * 256 + lo) as u16;
        let pc2 = (s.pc + 2) as u16;
        let pc4 = (s.pc + 4) as u16;
        if w == 0x0 && x == 0x0 && y == 0xE && z == 0x0 {
            // clear the screen
            MachineView { gfx: Seq::new(2048, |p: int| 0u8), draw_flag: true, pc: pc2, ..s }
        } else if w == 0x0 && x == 0x0 && y == 0xE && z == 0xE {
            // return from subroutine
            if s.sp == 0 {
                s
            } else {
                MachineView { sp: (s.sp - 1) as u16, pc: s.stack[s.sp - 1], ..s }
            }
        } else if w == 0x1 {
            // jump
            MachineView { pc: xyz, ..s }
        } else if w == 0x2 {
            // call subroutine
            if s.sp >= 16 {
                s
            } else {
                MachineView {
                    stack: s.stack.update(s.sp as int, pc2),
                    sp: (s.sp + 1) as u16,
                    pc: xyz,
                    ..s
                }
            }
        } else if w == 0x3 {
            // skip if register x equals the immediate
            MachineView { pc: if s.reg[x] == lo { pc4 } else { pc2 }, ..s }
        } else if w == 0x4 {
            // skip if register x differs from the immediate
            MachineView { pc: if s.reg[x] != lo { pc4 } else { pc2 }, ..s }
        } else if w == 0x5 && z == 0x0 {
            // skip if register x equals register y
            MachineView { pc: if s.reg[x] == s.reg[y] { pc4 } else { pc2 }, ..s }
        } else if w == 0x6 {
            // load the immediate
            MachineView { reg: s.reg.update(x, lo), pc: pc2, ..s }
        } else if w == 0x7 {
            // add the immediate, wrapping modulo 256, flag untouched
            MachineView { reg: s.reg.update(x, ((s.reg[x] + lo) % 256) as u8), pc: pc2, ..s }
        } else if w == 0x8 && z == 0x0 {
            // copy register y
            MachineView { reg: s.reg.update(x, s.reg[y]), pc: pc2, ..s }
        } else if w == 0x8 && z == 0x1 {
            MachineView { reg: s.reg.update(x, s.reg[x] | s.reg[y]), pc: pc2, ..s }
        } else if w == 0x8 && z == 0x2 {
            MachineView { reg: s.reg.update(x, s.reg[x] & s.reg[y]), pc: pc2, ..s }
        } else if w == 0x8 && z == 0x3 {
            MachineView { reg: s.reg.update(x, s.reg[x] ^ s.reg[y]), pc: pc2, ..s }
        } else if w == 0x8 && z == 0x4 {
            // add register y, wrapping; the flag register records the carry
            let sum = s.reg[x] + s.reg[y];
            MachineView {
                reg: s.reg.update(x, (sum % 256) as u8).update(15, if sum > 255 { 1u8 } else { 0u8 }),
                pc: pc2,
                ..s
            }
        } else if w == 0x8 && z == 0x5 {
            // subtract register y, wrapping; the flag is written first and is 0
            // exactly on borrow, so when x or y is 15 the subtraction reads it
            let flagged = s.reg.update(15, if s.reg[x] < s.reg[y] { 0u8 } else { 1u8 });
            MachineView {
                reg: flagged.update(x, ((flagged[x] - flagged[y] + 256) % 256) as u8),
                pc: pc2,
                ..s
            }
        } else if w == 0x8 && z == 0x6 {
            // shift right by one; the flag takes the bit shifted out first
            let flagged = s.reg.update(15, s.reg[x] & 1);
            MachineView { reg: flagged.update(x, flagged[x] >> 1u8), pc: pc2, ..s }
        } else if w == 0x8 && z == 0x7 {
            // reversed subtraction, with the same flag-first order
            let flagged = s.reg.update(15, if s.reg[y] < s.reg[x] { 0u8 } else { 1u8 });
            MachineView {
                reg: flagged.update(x, ((flagged[y] - flagged[x] + 256) % 256) as u8),
                pc: pc2,
                ..s
            }
        } else if w == 0x8 && z == 0xE {
            // shift left by one; the flag takes the top bit first
            let flagged = s.reg.update(15, (s.reg[x] & 0x80) >> 7u8);
            MachineView { reg: flagged.update(x, flagged[x] << 1u8), pc: pc2, ..s }
        } else if w == 0x9 && z == 0x0 {
            // skip if register x differs from register y
            MachineView { pc: if s.reg[x] != s.reg[y] { pc4 } else { pc2 }, ..s }
        } else if w == 0xA {
            // load the index register
            MachineView { idx: xyz, pc: pc2, ..s }
        } else if w == 0xB {
            // jump with register 0 offset
            MachineView { pc: (xyz + s.reg[0]) as u16, ..s }
        } else if w == 0xC {
            // random byte masked by the immediate
            MachineView { reg: s.reg.update(x, lo & r), pc: pc2, ..s }
        } else if w == 0xD {
            spec_draw(s, x, y, z)
        } else if w == 0xE && y == 0x9 && z == 0xE {
            // skip if the key named by register x is pressed
            if s.reg[x] >= 16 {
                s
            } else {
                MachineView { pc: if s.key[s.reg[x] as int] != 0 { pc4 } else { pc2 }, ..s }
            }
        } else if w == 0xE && y == 0xA && z == 0x1 {
            // skip if the key named by register x is not pressed
            if s.reg[x] >= 16 {
                s
            } else {
                MachineView { pc: if s.key[s.reg[x] as int] == 0 { pc4 } else { pc2 }, ..s }
            }
        } else if w == 0xF && y == 0x0 && z == 0x7 {
            // read the delay timer
            MachineView { reg: s.reg.update(x, s.delay_timer), pc: pc2, ..s }
        } else if w == 0xF && y == 0x0 && z == 0xA {
            // wait for a key: while none is pressed the program counter does
            // not advance, so this instruction is decoded again next cycle;
            // the first cycle that sees a pressed key stores the
            // lowest-indexed one
            let k = first_pressed(s.key, 0);
            if k == 16 {
                s
            } else {
                MachineView { reg: s.reg.update(x, k as u8), pc: pc2, ..s }
            }
        } else if w == 0xF && y == 0x1 && z == 0x5 {
            // set the delay timer
            MachineView { delay_timer: s.reg[x], pc: pc2, ..s }
        } else if w == 0xF && y == 0x1 && z == 0x8 {
            // set the sound timer
            MachineView { sound_timer: s.reg[x], pc: pc2, ..s }
        } else if w == 0xF && y == 0x1 && z == 0xE {
            // add register x to the index register
            if s.idx + s.reg[x] > 0xFFFF {
                s
            } else {
                MachineView { idx: (s.idx + s.reg[x]) as u16, pc: pc2, ..s }
            }
        } else if w == 0xF && y == 0x2 && z == 0x9 {
            // point the index register at the font glyph for register x
            MachineView { idx: (FONT_LOCATION + s.reg[x] * 5) as u16, pc: pc2, ..s }
        } else if w == 0xF && y == 0x3 && z == 0x3 {
            // the three decimal digits of register x, in this interpreter's
            // own order: value modulo 100 first, then its tens, then the units
            if s.idx + 2 >= 4096 {
                s
            } else {
                MachineView {
                    memory: s.memory.update(s.idx as int, (s.reg[x] % 100) as u8).update(
                        s.idx + 1,
                        ((s.reg[x] % 100) / 10) as u8,
                    ).update(s.idx + 2, (s.reg[x] % 10) as u8),
                    pc: pc2,
                    ..s
                }
            }
        } else if w == 0xF && y == 0x5 && z == 0x5 {
            // store registers 0 through x at the index register
            if s.idx + x >= 4096 {
                s
            } else {
                MachineView {
                    memory: Seq::new(
                        4096,
                        |j: int|
                            if s.idx <= j <= s.idx + x {
                                s.reg[j - s.idx]
                            } else {
                                s.memory[j]
                            },
                    ),
                    pc: pc2,
                    ..s
                }
            }
        } else if w == 0xF && y == 0x6 && z == 0x5 {
            // load registers 0 through x from the index register
            if s.idx + x >= 4096 {
                s
            } else {
                MachineView {
                    reg: Seq::new(
                        16,
                        |j: int|
                            if 0 <= j <= x {
                                s.memory[s.idx + j]
                            } else {
                                s.reg[j]
                            },
                    ),
                    pc: pc2,
                    ..s
                }
            }
        } else {
            s
        }
    }
}

/// Structural well-formedness: the fixed sizes of the state's parts, and a
/// stack pointer that never leaves the stack.
pub open spec fn wf_machine(s: MachineView) -> bool {
    &&& s.memory.len() == 4096
    &&& s.reg.len() == 16
    &&& s.gfx.len() == 2048
    &&& s.stack.len() == 16
    &&& s.key.len() == 16
    &&& s.sp <= 16
}

/// A vector of `n` zero bytes.
fn zeroed_bytes(n: usize) -> (v: Vec<u8>)
    ensures
        v@.len() == n,
        forall|i: int| 0 <= i < n ==> v@[i] == 0,
{
    let mut v: Vec<u8> = Vec::new();
    let mut i: usize = 0;
    while i < n
        invariant
            i <= n,
            v@.len() == i,
            forall|j: int| 0 <= j < i ==> v@[j] == 0,
        decreases n - i,
    {
        v.push(0);
        i = i + 1;
    }
    v
}

/// A vector of `n` zero words.
fn zeroed_words(n: usize) -> (v: Vec<u16>)
    ensures
        v@.len() == n,
        forall|i: int| 0 <= i < n ==> v@[i] == 0,
{
    let mut v: Vec<u16> = Vec::new();
    let mut i: usize = 0;
    while i < n
        invariant
            i <= n,
            v@.len() == i,
            forall|j: int| 0 <= j < i ==> v@[j] == 0,
        decreases n - i,
    {
        v.push(0);
        i = i + 1;
    }
    v
}

impl Chip8 {
    /// Structural well-formedness of this machine.
    pub open spec fn wf(&self) -> bool {
        wf_machine(self@)
    }

    /// A fresh machine: everything zeroed, the font glyphs at
    /// `FONT_LOCATION`, and the program counter at `CARTRIDGE_LOCATION`.
    pub fn new() -> (c: Chip8)
        ensures
            c.wf(),
            c@.pc == CARTRIDGE_LOCATION,
            c@.idx == 0,
            c@.sp == 0,
            c@.delay_timer == 0,
            c@.sound_timer == 0,
            !c@.draw_flag,
            forall|i: int| 0 <= i < 16 ==> c@.reg[i] == 0,
            forall|i: int| 0 <= i < 16 ==> c@.key[i] == 0,
            forall|i: int| 0 <= i < 16 ==> c@.stack[i] == 0,
            forall|i: int| 0 <= i < 2048 ==> c@.gfx[i] == 0,
            forall|i: int| 0x80 <= i < 0xD0 ==> c@.memory[i] == FONT_SET@[i - 0x80],
            forall|i: int| 0 <= i < 4096 && !(0x80 <= i < 0xD0) ==> c@.memory[i] == 0,
    {
        let mut chip = Chip8 {
            memory: zeroed_bytes(MEMORY_SIZE),
            reg: zeroed_bytes(16),
            gfx: zeroed_bytes(GFX_SIZE),
            stack: zeroed_words(16),
            key: zeroed_bytes(16),
            idx: 0,
            pc: CARTRIDGE_LOCATION,
            sp: 0,
            delay_timer: 0,
            sound_timer: 0,
            draw_flag: false,
        };
        let mut i: usize = 0;
        while i < 80
            invariant
                i <= 80,
                chip.memory@.len() == 4096,
                forall|j: int| 0x80 <= j < 0x80 + i ==> chip.memory@[j] == FONT_SET@[j - 0x80],
                forall|j: int| 0 <= j < 4096 && !(0x80 <= j < 0x80 + i) ==> chip.memory@[j] == 0,
                chip.reg@.len() == 16,
                chip.gfx@.len() == 2048,
                chip.stack@.len() == 16,
                chip.key@.len() == 16,
                forall|j: int| 0 <= j < 16 ==> chip.reg@[j] == 0,
                forall|j: int| 0 <= j < 16 ==> chip.key@[j] == 0,
                forall|j: int| 0 <= j < 16 ==> chip.stack@[j] == 0,
                forall|j: int| 0 <= j < 2048 ==> chip.gfx@[j] == 0,
                chip.idx == 0,
                chip.pc == CARTRIDGE_LOCATION,
                chip.sp == 0,
                chip.delay_timer == 0,
                chip.sound_timer == 0,
                !chip.draw_flag,
            decreases 80 - i,
        {
            chip.memory.set(0x80 + i, FONT_SET[i]);
            i = i + 1;
        }
        chip
    }

    /// One fetch/decode/execute cycle, with the random byte for the `Cxkk`
    /// opcode passed in: a pure, fully specified state transition.
    pub fn cycle_with_random(&mut self, rand_val: u8)
        requires
            old(self).wf(),
        ensures
            final(self).wf(),
            final(self)@ == spec_cycle(old(self)@, rand_val),
    {
        let ghost pre = self@;
        if self.pc >= 4095 {
            return ;
        }
        let hi = self.memory[self.pc as usize];
        let lo = self.memory[self.pc as usize + 1];
        let w = hi >> 4;
        let xn = hi & 0xF;
        let yn = lo >> 4;
        let zn = lo & 0xF;
        assert((hi >> 4) <= 15 && (hi & 0xF) <= 15 && (lo >> 4) <= 15 && (lo & 0xF) <= 15)
            by (bit_vector);
        let x = xn as usize;
        let y = yn as usize;
        let z = zn as usize;
        let xyz: u16 = (xn as u16) * 256 + (lo as u16);
        if w == 0x0 && xn == 0x0 && yn == 0xE && zn == 0x0 {
            self.gfx = zeroed_bytes(GFX_SIZE);
            self.draw_flag = true;
            self.pc = self.pc + 2;
            assert(self.gfx@ =~= Seq::new(2048, |p: int| 0u8));
            assert(self@ =~= spec_cycle(pre, rand_val));
        } else if w == 0x0 && xn == 0x0 && yn == 0xE && zn == 0xE {
            if self.sp == 0 {
                return ;
            }
            self.sp = self.sp - 1;
            self.pc = self.stack[self.sp as usize];
            assert(self@ =~= spec_cycle(pre, rand_val));
        } else if w == 0x1 {
            self.pc = xyz;
            assert(self@ =~= spec_cycle(pre, rand_val));
        } else if w == 0x2 {
            if self.sp >= 16 {
                return ;
            }
            self.stack.set(self.sp as usize, self.pc + 2);
            self.sp = self.sp + 1;
            self.pc = xyz;
            assert(self@ =~= spec_cycle(pre, rand_val));
        } else if w == 0x3 {
            if self.reg[x] == lo {
                self.pc = self.pc + 4;
            } else {
                self.pc = self.pc + 2;
            }
            assert(self@ =~= spec_cycle(pre, rand_val));
        } else if w == 0x4 {
            if self.reg[x] != lo {
                self.pc = self.pc + 4;
            } else {
                self.pc = self.pc + 2;
            }
            assert(self@ =~= spec_cycle(pre, rand_val));
        } else if w == 0x5 && zn == 0x0 {
            if self.reg[x] == self.reg[y] {
                self.pc = self.pc + 4;
            } else {
                self.pc = self.pc + 2;
            }
            assert(self@ =~= spec_cycle(pre, rand_val));
        } else if w == 0x6 {
            self.reg.set(x, lo);
            self.pc = self.pc + 2;
            assert(self@ =~= spec_cycle(pre, rand_val));
        } else if w == 0x7 {
            let sum: u16 = self.reg[x] as u16 + lo as u16;
            self.reg.set(x, (sum % 256) as u8);
            self.pc = self.pc + 2;
            assert(self@ =~= spec_cycle(pre, rand_val));
        } else if w == 0x8 && zn == 0x0 {
            let vy = self.reg[y];
            self.reg.set(x, vy);
            self.pc = self.pc + 2;
            assert(self@ =~= spec_cycle(pre, rand_val));
        } else if w == 0x8 && zn == 0x1 {
            let v = self.reg[x] | self.reg[y];
            self.reg.set(x, v);
            self.pc = self.pc + 2;
            assert(self@ =~= spec_cycle(pre, rand_val));
        } else if w == 0x8 && zn == 0x2 {
            let v = self.reg[x] & self.reg[y];
            self.reg.set(x, v);
            self.pc = self.pc + 2;
            assert(self@ =~= spec_cycle(pre, rand_val));
        } else if w == 0x8 && zn == 0x3 {
            let v = self.reg[x] ^ self.reg[y];
            self.reg.set(x, v);
            self.pc = self.pc + 2;
            assert(self@ =~= spec_cycle(pre, rand_val));
        } else if w == 0x8 && zn == 0x4 {
            let sum: u16 = self.reg[x] as u16 + self.reg[y] as u16;
            self.reg.set(x, (sum % 256) as u8);
            self.reg.set(15, if sum > 255 { 1 } else { 0 });
            self.pc = self.pc + 2;
            assert(self@ =~= spec_cycle(pre, rand_val));
        } else if w == 0x8 && zn == 0x5 {
            let f: u8 = if self.reg[x] < self.reg[y] { 0 } else { 1 };
            self.reg.set(15, f);
            let diff: u16 = self.reg[x] as u16 + 256 - self.reg[y] as u16;
            self.reg.set(x, (diff % 256) as u8);
            self.pc = self.pc + 2;
            assert(self@ =~= spec_cycle(pre, rand_val));
        } else if w == 0x8 && zn == 0x6 {
            let f = self.reg[x] & 1;
            self.reg.set(15, f);
            let v = self.reg[x] >> 1u8;
            self.reg.set(x, v);
            self.pc = self.pc + 2;
            assert(self@ =~= spec_cycle(pre, rand_val));
        } else if w == 0x8 && zn == 0x7 {
            let f: u8 = if self.reg[y] < self.reg[x] { 0 } else { 1 };
            self.reg.set(15, f);
            let diff: u16 = self.reg[y] as u16 + 256 - self.reg[x] as u16;
            self.reg.set(x, (diff % 256) as u8);
            self.pc = self.pc + 2;
            assert(self@ =~= spec_cycle(pre, rand_val));
        } else if w == 0x8 && zn == 0xE {
            let f = (self.reg[x] & 0x80) >> 7u8;
            self.reg.set(15, f);
            let v = self.reg[x] << 1u8;
            self.reg.set(x, v);
            self.pc = self.pc + 2;
            assert(self@ =~= spec_cycle(pre, rand_val));
        } else if w == 0x9 && zn == 0x0 {
            if self.reg[x] != self.reg[y] {
                self.pc = self.pc + 4;
            } else {
                self.pc = self.pc + 2;
            }
            assert(self@ =~= spec_cycle(pre, rand_val));
        } else if w == 0xA {
            self.idx = xyz;
            self.pc = self.pc + 2;
            assert(self@ =~= spec_cycle(pre, rand_val));
        } else if w == 0xB {
            self.pc = xyz + self.reg[0] as u16;
            assert(self@ =~= spec_cycle(pre, rand_val));
        } else if w == 0xC {
            self.reg.set(x, lo & rand_val);
            self.pc = self.pc + 2;
            assert(self@ =~= spec_cycle(pre, rand_val));
        } else if w == 0xD {
            self.op_draw(x, y, z);
            assert(self@ =~= spec_cycle(pre, rand_val));
        } else if w == 0xE && yn == 0x9 && zn == 0xE {
            let rx = self.reg[x];
            if rx >= 16 {
                return ;
            }
            if self.key[rx as usize] != 0 {
                self.pc = self.pc + 4;
            } else {
                self.pc = self.pc + 2;
            }
            assert(self@ =~= spec_cycle(pre, rand_val));
        } else if w == 0xE && yn == 0xA && zn == 0x1 {
            let rx = self.reg[x];
            if rx >= 16 {
                return ;
            }
            if self.key[rx as usize] == 0 {
                self.pc = self.pc + 4;
            } else {
                self.pc = self.pc + 2;
            }
            assert(self@ =~= spec_cycle(pre, rand_val));
        } else if w == 0xF && yn == 0x0 && zn == 0x7 {
            let v = self.delay_timer;
            self.reg.set(x, v);
            self.pc = self.pc + 2;
            assert(self@ =~= spec_cycle(pre, rand_val));
        } else if w == 0xF && yn == 0x0 && zn == 0xA {
            self.op_wait_key(x);
            assert(self@ =~= spec_cycle(pre, rand_val));
        } else if w == 0xF && yn == 0x1 && zn == 0x5 {
            self.delay_timer = self.reg[x];
            self.pc = self.pc + 2;
            assert(self@ =~= spec_cycle(pre, rand_val));
        } else if w == 0xF && yn == 0x1 && zn == 0x8 {
            self.sound_timer = self.reg[x];
            self.pc = self.pc + 2;
            assert(self@ =~= spec_cycle(pre, rand_val));
        } else if w == 0xF && yn == 0x1 && zn == 0xE {
            let sum: u32 = self.idx as u32 + self.reg[x] as u32;
            if sum > 0xFFFF {
                return ;
            }
            self.idx = sum as u16;
            self.pc = self.pc + 2;
            assert(self@ =~= spec_cycle(pre, rand_val));
        } else if w == 0xF && yn == 0x2 && zn == 0x9 {
            self.idx = FONT_LOCATION + self.reg[x] as u16 * 5;
            self.pc = self.pc + 2;
            assert(self@ =~= spec_cycle(pre, rand_val));
        } else if w == 0xF && yn == 0x3 && zn == 0x3 {
            if self.idx >= 4094 {
                return ;
            }
            let vx = self.reg[x];
            self.memory.set(self.idx as usize, vx % 100);
            self.memory.set(self.idx as usize + 1, (vx % 100) / 10);
            self.memory.set(self.idx as usize + 2, vx % 10);
            self.pc = self.pc + 2;
            assert(self@ =~= spec_cycle(pre, rand_val));
        } else if w == 0xF && yn == 0x5 && zn == 0x5 {
            self.op_store_regs(x);
            assert(self@ =~= spec_cycle(pre, rand_val));
        } else if w == 0xF && yn == 0x6 && zn == 0x5 {
            self.op_load_regs(x);
            assert(self@ =~= spec_cycle(pre, rand_val));
        } else {
            // unrecognized: leave the state alone; the same instruction is
            // decoded again next cycle
            assert(self@ =~= spec_cycle(pre, rand_val));
        }
    }

    /// One fetch/decode/execute cycle: draws the random byte that the
    /// `Cxkk` opcode consumes, then takes the specified step with it.
    pub fn cycle(&mut self)
        requires
            old(self).wf(),
        ensures
            final(self).wf(),
            exists|r: u8| final(self)@ == spec_cycle(old(self)@, r),
    {
        let r = random_byte();
        self.cycle_with_random(r);
    }

    /// The draw opcode's body: XOR-composite a sprite onto the frame buffer.
    fn op_draw(&mut self, x: usize, y: usize, n: usize)
        requires
            old(self).wf(),
            x < 16,
            y < 16,
            n <= 15,
            old(self)@.pc < 4095,
        ensures
            final(self).wf(),
            final(self)@ == spec_draw(old(self)@, x as int, y as int, n as int),
    {
        let ghost pre = self@;
        if self.idx as usize + n > 4096 {
            return ;
        }
        let rx = self.reg[x];
        let ry = self.reg[y];
        let mut collided = false;
        let mut i: usize = 0;
        while i < n
            invariant
                i <= n,
                n <= 15,
                x < 16,
                y < 16,
                wf_machine(pre),
                pre.idx + n <= 4096,
                rx == pre.reg[x as int],
                ry == pre.reg[y as int],
                self@.memory == pre.memory,
                self@.reg == pre.reg,
                self@.stack == pre.stack,
                self@.key == pre.key,
                self@.idx == pre.idx,
                self@.pc == pre.pc,
                self@.sp == pre.sp,
                self@.delay_timer == pre.delay_timer,
                self@.sound_timer == pre.sound_timer,
                self@.draw_flag == pre.draw_flag,
                self@.gfx.len() == 2048,
                self@.gfx == spec_draw_rows(
                    pre.gfx,
                    false,
                    pre.memory,
                    pre.idx as int,
                    rx,
                    ry,
                    i as int,
                ).0,
                collided == spec_draw_rows(
                    pre.gfx,
                    false,
                    pre.memory,
                    pre.idx as int,
                    rx,
                    ry,
                    i as int,
                ).1,
            decreases n - i,
        {
            let byte = self.memory[self.idx as usize + i];
            let ghost row_gfx = self@.gfx;
            let ghost row_col = collided;
            let mut j: usize = 0;
            while j < 8
                invariant
                    j <= 8,
                    i < n,
                    n <= 15,
                    wf_machine(pre),
                    pre.idx + n <= 4096,
                    byte == pre.memory[pre.idx + i],
                    self@.memory == pre.memory,
                    self@.reg == pre.reg,
                    self@.stack == pre.stack,
                    self@.key == pre.key,
                    self@.idx == pre.idx,
                    self@.pc == pre.pc,
                    self@.sp == pre.sp,
                    self@.delay_timer == pre.delay_timer,
                    self@.sound_timer == pre.sound_timer,
                    self@.draw_flag == pre.draw_flag,
                    self@.gfx.len() == 2048,
                    self@.gfx == spec_draw_cols(row_gfx, row_col, byte, rx, ry, i as int, j as int).0,
                    collided == spec_draw_cols(row_gfx, row_col, byte, rx, ry, i as int, j as int).1,
                decreases 8 - j,
            {
                let coord = (rx as usize + (ry as usize + i) * 64 + j) % 2048;
                let bit = (byte >> ((7 - j) as u32)) & 1;
                let cur = self.gfx[coord];
                if cur & bit != 0 {
                    collided = true;
                }
                self.gfx.set(coord, cur ^ bit);
                j = j + 1;
            }
            i = i + 1;
        }
        self.reg.set(15, if collided { 1 } else { 0 });
        self.draw_flag = true;
        self.pc = self.pc + 2;
        assert(self@ =~= spec_draw(pre, x as int, y as int, n as int));
    }

    /// The key-wait opcode's body: scan for the lowest-indexed pressed key.
    fn op_wait_key(&mut self, x: usize)
        requires
            old(self).wf(),
            x < 16,
            old(self)@.pc < 4095,
        ensures
            final(self).wf(),
            ({
                let k = first_pressed(old(self)@.key, 0);
                if k == 16 {
                    final(self)@ == old(self)@
                } else {
                    final(self)@ == (MachineView {
                        reg: old(self)@.reg.update(x as int, k as u8),
                        pc: (old(self)@.pc + 2) as u16,
                        ..old(self)@
                    })
                }
            }),
    {
        let ghost pre = self@;
        let mut i: usize = 0;
        while i < 16
            invariant
                i <= 16,
                x < 16,
                self@ == pre,
                wf_machine(pre),
                old(self)@ == pre,
                pre.pc < 4095,
                first_pressed(pre.key, 0) == first_pressed(pre.key, i as int),
            decreases 16 - i,
        {
            if self.key[i] != 0 {
                self.reg.set(x, i as u8);
                self.pc = self.pc + 2;
                return ;
            }
            i = i + 1;
        }
    }

    /// The register-store opcode's body: copy registers 0 through x to
    /// memory at the index register.
    fn op_store_regs(&mut self, x: usize)
        requires
            old(self).wf(),
            x < 16,
            old(self)@.pc < 4095,
        ensures
            final(self).wf(),
            ({
                let s = old(self)@;
                if s.idx + x >= 4096 {
                    final(self)@ == s
                } else {
                    final(self)@ == (MachineView {
                        memory: Seq::new(
                            4096,
                            |j: int|
                                if s.idx <= j <= s.idx + x {
                                    s.reg[j - s.idx]
                                } else {
                                    s.memory[j]
                                },
                        ),
                        pc: (s.pc + 2) as u16,
                        ..s
                    })
                }
            }),
    {
        let ghost pre = self@;
        if self.idx as usize + x >= 4096 {
            return ;
        }
        let mut i: usize = 0;
        while i <= x
            invariant
                i <= x + 1,
                x < 16,
                wf_machine(pre),
                pre.idx + x < 4096,
                self@.reg == pre.reg,
                self@.gfx == pre.gfx,
                self@.stack == pre.stack,
                self@.key == pre.key,
                self@.idx == pre.idx,
                self@.pc == pre.pc,
                self@.sp == pre.sp,
                self@.delay_timer == pre.delay_timer,
                self@.sound_timer == pre.sound_timer,
                self@.draw_flag == pre.draw_flag,
                self@.memory.len() == 4096,
                forall|j: int|
                    pre.idx <= j < pre.idx + i ==> self@.memory[j] == pre.reg[j - pre.idx],
                forall|j: int|
                    0 <= j < 4096 && !(pre.idx <= j < pre.idx + i) ==> self@.memory[j]
                        == pre.memory[j],
            decreases x + 1 - i,
        {
            let v = self.reg[i];
            self.memory.set(self.idx as usize + i, v);
            i = i + 1;
        }
        self.pc = self.pc + 2;
        assert(self@.memory =~= Seq::new(
            4096,
            |j: int|
                if pre.idx <= j <= pre.idx + x {
                    pre.reg[j - pre.idx]
                } else {
                    pre.memory[j]
                },
        ));
        assert(self@ =~= (MachineView {
            memory: Seq::new(
                4096,
                |j: int|
                    if pre.idx <= j <= pre.idx + x {
                        pre.reg[j - pre.idx]
                    } else {
                        pre.memory[j]
                    },
            ),
            pc: (pre.pc + 2) as u16,
            ..pre
        }));
    }

    /// The register-load opcode's body: fill registers 0 through x from
    /// memory at the index register.
    fn op_load_regs(&mut self, x: usize)
        requires
            old(self).wf(),
            x < 16,
            old(self)@.pc < 4095,
        ensures
            final(self).wf(),
            ({
                let s = old(self)@;
                if s.idx + x >= 4096 {
                    final(self)@ == s
                } else {
                    final(self)@ == (MachineView {
                        reg: Seq::new(
                            16,
                            |j: int|
                                if 0 <= j <= x {
                                    s.memory[s.idx + j]
                                } else {
                                    s.reg[j]
                                },
                        ),
                        pc: (s.pc + 2) as u16,
                        ..s
                    })
                }
            }),
    {
        let ghost pre = self@;
        if self.idx as usize + x >= 4096 {
            return ;
        }
        let mut i: usize = 0;
        while i <= x
            invariant
                i <= x + 1,
                x < 16,
                wf_machine(pre),
                pre.idx + x < 4096,
                self@.memory == pre.memory,
                self@.gfx == pre.gfx,
                self@.stack == pre.stack,
                self@.key == pre.key,
                self@.idx == pre.idx,
                self@.pc == pre.pc,
                self@.sp == pre.sp,
                self@.delay_timer == pre.delay_timer,
                self@.sound_timer == pre.sound_timer,
                self@.draw_flag == pre.draw_flag,
                self@.reg.len() == 16,
                forall|j: int| 0 <= j < i ==> self@.reg[j] == pre.memory[pre.idx + j],
                forall|j: int| i <= j < 16 ==> self@.reg[j] == pre.reg[j],
            decreases x + 1 - i,
        {
            let v = self.memory[self.idx as usize + i];
            self.reg.set(i, v);
            i = i + 1;
        }
        self.pc = self.pc + 2;
        assert(self@.reg =~= Seq::new(
            16,
            |j: int|
                if 0 <= j <= x {
                    pre.memory[pre.idx + j]
                } else {
                    pre.reg[j]
                },
        ));
        assert(self@ =~= (MachineView {
            reg: Seq::new(
                16,
                |j: int|
                    if 0 <= j <= x {
                        pre.memory[pre.idx + j]
                    } else {
                        pre.reg[j]
                    },
            ),
            pc: (pre.pc + 2) as u16,
            ..pre
        }));
    }

    /// One tick of the timer clock: decrement each timer while nonzero,
    /// never below zero, independent of the CPU rate.
    pub fn timer_step(&mut self)
        requires
            old(self).wf(),
        ensures
            final(self).wf(),
            final(self)@ == spec_timer_step(old(self)@),
    {
        if self.delay_timer > 0 {
            self.delay_timer = self.delay_timer - 1;
        }
        if self.sound_timer > 0 {
            self.sound_timer = self.sound_timer - 1;
        }
        assert(self@ =~= spec_timer_step(old(self)@));
    }

    /// Copy program bytes into memory at the load address.  Succeeds
    /// exactly when the program fits below the end of memory; a program
    /// too large leaves the machine unchanged.
    pub fn load_rom(&mut self, rom: &Vec<u8>) -> (ok: bool)
        requires
            old(self).wf(),
        ensures
            final(self).wf(),
            ok == (rom@.len() <= 3584),
            ok ==> final(self)@ == (MachineView {
                memory: Seq::new(
                    4096,
                    |j: int|
                        if 0x200 <= j < 0x200 + rom@.len() {
                            rom@[j - 0x200]
                        } else {
                            old(self)@.memory[j]
                        },
                ),
                ..old(self)@
            }),
            !ok ==> final(self)@ == old(self)@,
    {
        let ghost pre = self@;
        if rom.len() > 3584 {
            return false;
        }
        let n = rom.len();
        let mut i: usize = 0;
        while i < n
            invariant
                i <= n,
                n == rom@.len(),
                n <= 3584,
                wf_machine(pre),
                self@.reg == pre.reg,
                self@.gfx == pre.gfx,
                self@.stack == pre.stack,
                self@.key == pre.key,
                self@.idx == pre.idx,
                self@.pc == pre.pc,
                self@.sp == pre.sp,
                self@.delay_timer == pre.delay_timer,
                self@.sound_timer == pre.sound_timer,
                self@.draw_flag == pre.draw_flag,
                self@.memory.len() == 4096,
                forall|j: int| 0x200 <= j < 0x200 + i ==> self@.memory[j] == rom@[j - 0x200],
                forall|j: int|
                    0 <= j < 4096 && !(0x200 <= j < 0x200 + i) ==> self@.memory[j] == pre.memory[j],
            decreases n - i,
        {
            let v = rom[i];
            self.memory.set(0x200 + i, v);
            i = i + 1;
        }
        assert(self@.memory =~= Seq::new(
            4096,
            |j: int|
                if 0x200 <= j < 0x200 + rom@.len() {
                    rom@[j - 0x200]
                } else {
                    pre.memory[j]
                },
        ));
        assert(self@ =~= (MachineView {
            memory: Seq::new(
                4096,
                |j: int|
                    if 0x200 <= j < 0x200 + rom@.len() {
                        rom@[j - 0x200]
                    } else {
                        pre.memory[j]
                    },
            ),
            ..pre
        }));
        true
    }

    /// Replace the whole keypad state from an input snapshot: no latched
    /// or edge state survives an iteration.
    pub fn set_keys(&mut self, keys: &Vec<u8>)
        requires
            old(self).wf(),
            keys@.len() == 16,
        ensures
            final(self).wf(),
            final(self)@ == (MachineView { key: keys@, ..old(self)@ }),
    {
        let ghost pre = self@;
        let mut i: usize = 0;
        while i < 16
            invariant
                i <= 16,
                keys@.len() == 16,
                wf_machine(pre),
                self@.memory == pre.memory,
                self@.reg == pre.reg,
                self@.gfx == pre.gfx,
                self@.stack == pre.stack,
                self@.idx == pre.idx,
                self@.pc == pre.pc,
                self@.sp == pre.sp,
                self@.delay_timer == pre.delay_timer,
                self@.sound_timer == pre.sound_timer,
                self@.draw_flag == pre.draw_flag,
                self@.key.len() == 16,
                forall|j: int| 0 <= j < i ==> self@.key[j] == keys@[j],
                forall|j: int| i <= j < 16 ==> self@.key[j] == pre.key[j],
            decreases 16 - i,
        {
            let v = keys[i];
            self.key.set(i, v);
            i = i + 1;
        }
        assert(self@.key =~= keys@);
        assert(self@ =~= (MachineView { key: keys@, ..pre }));
    }

    /// Hand the redraw flag to the renderer: report it and clear it.
    pub fn take_redraw(&mut self) -> (r: bool)
        requires
            old(self).wf(),
        ensures
            final(self).wf(),
            r == old(self)@.draw_flag,
            final(self)@ == (MachineView { draw_flag: false, ..old(self)@ }),
    {
        let r = self.draw_flag;
        self.draw_flag = false;
        assert(self@ =~= (MachineView { draw_flag: false, ..old(self)@ }));
        r
    }

    /// The current sound timer value.
    pub fn sound_timer(&self) -> (r: u8)
        ensures
            r == self@.sound_timer,
    {
        self.sound_timer
    }

    /// The current program counter.
    pub fn pc(&self) -> (r: u16)
        ensures
            r == self@.pc,
    {
        self.pc
    }

    /// The current index register.
    pub fn idx(&self) -> (r: u16)
        ensures
            r == self@.idx,
    {
        self.idx
    }

    /// The current stack pointer.
    pub fn sp(&self) -> (r: u16)
        ensures
            r == self@.sp,
    {
        self.sp
    }
}

/// The XOR mask that columns `0..j` of sprite row `i` contribute to frame
/// buffer cell `k`.
pub open spec fn spec_col_mask(byte: u8, rx: u8, ry: u8, i: int, j: int, k: int) -> u8
    decreases j,
{
    if j <= 0 {
        0
    } else {
        spec_col_mask(byte, rx, ry, i, j - 1, k) ^ (if pixel_coord(rx, ry, i, j - 1) == k {
            sprite_bit(byte, j - 1)
        } else {
            0
        })
    }
}

/// The XOR mask that rows `0..i` of the sprite at `mem[idx..]` contribute
/// to frame buffer cell `k`.
pub open spec fn spec_rows_mask(mem: Seq<u8>, idx: int, rx: u8, ry: u8, i: int, k: int) -> u8
    decreases i,
{
    if i <= 0 {
        0
    } else {
        spec_rows_mask(mem, idx, rx, ry, i - 1, k) ^ spec_col_mask(
            mem[idx + (i - 1)],
            rx,
            ry,
            i - 1,
            8,
            k,
        )
    }
}

/// Drawing one sprite row changes each cell by exactly its XOR mask.
proof fn lemma_draw_cols_pointwise(
    gfx: Seq<u8>,
    col: bool,
    byte: u8,
    rx: u8,
    ry: u8,
    i: int,
    j: int,
    k: int,
)
    requires
        gfx.len() == 2048,
        0 <= k < 2048,
    ensures
        spec_draw_cols(gfx, col, byte, rx, ry, i, j).0.len() == 2048,
        spec_draw_cols(gfx, col, byte, rx, ry, i, j).0[k] == gfx[k] ^ spec_col_mask(
            byte,
            rx,
            ry,
            i,
            j,
            k,
        ),
    decreases j,
{
    if j <= 0 {
        let v = gfx[k];
        assert(v ^ 0 == v) by (bit_vector);
    } else {
        lemma_draw_cols_pointwise(gfx, col, byte, rx, ry, i, j - 1, k);
        let c = pixel_coord(rx, ry, i, j - 1);
        let b = sprite_bit(byte, j - 1);
        let g = gfx[k];
        let m = spec_col_mask(byte, rx, ry, i, j - 1, k);
        if c == k {
            assert((g ^ m) ^ b == g ^ (m ^ b)) by (bit_vector);
        } else {
            assert(m ^ 0 == m) by (bit_vector);
        }
    }
}

/// Drawing a whole sprite changes each cell by exactly its XOR mask.
proof fn lemma_draw_rows_pointwise(
    gfx: Seq<u8>,
    col: bool,
    mem: Seq<u8>,
    idx: int,
    rx: u8,
    ry: u8,
    i: int,
    k: int,
)
    requires
        gfx.len() == 2048,
        0 <= k < 2048,
    ensures
        spec_draw_rows(gfx, col, mem, idx, rx, ry, i).0.len() == 2048,
        spec_draw_rows(gfx, col, mem, idx, rx, ry, i).0[k] == gfx[k] ^ spec_rows_mask(
            mem,
            idx,
            rx,
            ry,
            i,
            k,
        ),
    decreases i,
{
    if i <= 0 {
        let v = gfx[k];
        assert(v ^ 0 == v) by (bit_vector);
    } else {
        lemma_draw_rows_pointwise(gfx, col, mem, idx, rx, ry, i - 1, k);
        let prev = spec_draw_rows(gfx, col, mem, idx, rx, ry, i - 1);
        lemma_draw_cols_pointwise(prev.0, prev.1, mem[idx + (i - 1)], rx, ry, i - 1, 8, k);
        let g = gfx[k];
        let m1 = spec_rows_mask(mem, idx, rx, ry, i - 1, k);
        let m2 = spec_col_mask(mem[idx + (i - 1)], rx, ry, i - 1, 8, k);
        assert((g ^ m1) ^ m2 == g ^ (m1 ^ m2)) by (bit_vector);
    }
}

/// Draw idempotence under double XOR: compositing the same sprite at the
/// same coordinates twice returns the frame buffer to its pre-draw state,
/// because every cell receives the same XOR mask in both passes and a
/// mask applied twice cancels.
pub proof fn lemma_draw_twice_restores(gfx: Seq<u8>, mem: Seq<u8>, idx: int, rx: u8, ry: u8, n: int)
    requires
        gfx.len() == 2048,
    ensures
        spec_draw_rows(
            spec_draw_rows(gfx, false, mem, idx, rx, ry, n).0,
            false,
            mem,
            idx,
            rx,
            ry,
            n,
        ).0 == gfx,
{
    let g1 = spec_draw_rows(gfx, false, mem, idx, rx, ry, n).0;
    lemma_draw_rows_pointwise(gfx, false, mem, idx, rx, ry, n, 0);
    let g2 = spec_draw_rows(g1, false, mem, idx, rx, ry, n).0;
    lemma_draw_rows_pointwise(g1, false, mem, idx, rx, ry, n, 0);
    assert forall|k: int| 0 <= k < 2048 implies g2[k] == gfx[k] by {
        lemma_draw_rows_pointwise(gfx, false, mem, idx, rx, ry, n, k);
        lemma_draw_rows_pointwise(g1, false, mem, idx, rx, ry, n, k);
        let v = gfx[k];
        let m = spec_rows_mask(mem, idx, rx, ry, n, k);
        assert((v ^ m) ^ m == v) by (bit_vector);
    }
    assert(g2 =~= gfx);
}

/// The machine-level reading of draw idempotence: two consecutive cycles
/// that execute the same draw opcode — the second standing two bytes past
/// the first — leave the frame buffer exactly as it began.  Stated for
/// coordinate registers other than the flag register, which the first
/// draw itself overwrites.
#[verifier::rlimit(80)]
pub proof fn lemma_draw_twice_machine(s: MachineView, r1: u8, r2: u8)
    requires
        wf_machine(s),
        s.pc < 4093,
        (s.memory[s.pc as int] >> 4) == 0xD,
        ((s.memory[s.pc as int] & 0xF) as int) != 15,
        ((s.memory[s.pc as int + 1] >> 4) as int) != 15,
        s.memory[s.pc as int + 2] == s.memory[s.pc as int],
        s.memory[s.pc as int + 3] == s.memory[s.pc as int + 1],
        s.idx + ((s.memory[s.pc as int + 1] & 0xF) as int) <= 4096,
    ensures
        spec_cycle(spec_cycle(s, r1), r2).gfx == s.gfx,
{
    let hi = s.memory[s.pc as int];
    let lo = s.memory[s.pc as int + 1];
    assert((hi & 0xF) <= 15 && (lo >> 4) <= 15 && (lo & 0xF) <= 15) by (bit_vector);
    let x = (hi & 0xF) as int;
    let y = (lo >> 4) as int;
    let n = (lo & 0xF) as int;
    let s1 = spec_cycle(s, r1);
    assert(s1 == spec_draw(s, x, y, n));
    assert(s1.memory == s.memory && s1.idx == s.idx && s1.pc == s.pc + 2);
    assert(s1.reg[x] == s.reg[x] && s1.reg[y] == s.reg[y]);
    let s2 = spec_cycle(s1, r2);
    assert(s2 == spec_draw(s1, x, y, n));
    lemma_draw_rows_pointwise(s.gfx, false, s.memory, s.idx as int, s.reg[x], s.reg[y], n, 0);
    lemma_draw_twice_restores(s.gfx, s.memory, s.idx as int, s.reg[x], s.reg[y], n);
}

/// Two different sprite positions land on two different frame-buffer
/// cells: the row offsets stay within one buffer length of each other, so
/// the wraparound cannot make them collide.
proof fn lemma_coords_distinct(rx: u8, ry: u8, i1: int, j1: int, i2: int, j2: int)
    requires
        0 <= i1 < 32,
        0 <= j1 < 8,
        0 <= i2 < 32,
        0 <= j2 < 8,
        i1 != i2 || j1 != j2,
    ensures
        pixel_coord(rx, ry, i1, j1) != pixel_coord(rx, ry, i2, j2),
{
    let a1 = rx + (ry + i1) * 64 + j1;
    let a2 = rx + (ry + i2) * 64 + j2;
    assert(a1 - a2 == (i1 - i2) * 64 + (j1 - j2));
    assert(a1 != a2);
    assert(-2048 < a1 - a2 < 2048);
}

/// A column fold that maps no step onto cell `k` contributes no mask there.
proof fn lemma_col_mask_zero(byte: u8, rx: u8, ry: u8, i: int, j: int, k: int)
    requires
        forall|q: int| 0 <= q < j ==> pixel_coord(rx, ry, i, q) != k,
    ensures
        spec_col_mask(byte, rx, ry, i, j, k) == 0,
    decreases j,
{
    if j > 0 {
        lemma_col_mask_zero(byte, rx, ry, i, j - 1, k);
        assert(0u8 ^ 0u8 == 0u8) by (bit_vector);
    }
}

/// A column fold whose only step onto cell `k` is column `j0` contributes
/// exactly that step's sprite bit there.
proof fn lemma_col_mask_single(byte: u8, rx: u8, ry: u8, i: int, j: int, j0: int, k: int)
    requires
        0 <= j0 < j,
        pixel_coord(rx, ry, i, j0) == k,
        forall|q: int| 0 <= q < j && q != j0 ==> pixel_coord(rx, ry, i, q) != k,
    ensures
        spec_col_mask(byte, rx, ry, i, j, k) == sprite_bit(byte, j0),
    decreases j,
{
    let b = sprite_bit(byte, j0);
    if j - 1 == j0 {
        lemma_col_mask_zero(byte, rx, ry, i, j - 1, k);
        assert(0u8 ^ b == b) by (bit_vector);
    } else {
        lemma_col_mask_single(byte, rx, ry, i, j - 1, j0, k);
        assert(b ^ 0u8 == b) by (bit_vector);
    }
}

/// A rows fold that maps no step of any row onto cell `k` contributes no
/// mask there.
proof fn lemma_rows_mask_zero(mem: Seq<u8>, idx: int, rx: u8, ry: u8, i: int, k: int)
    requires
        forall|p: int, q: int| 0 <= p < i && 0 <= q < 8 ==> pixel_coord(rx, ry, p, q) != k,
    ensures
        spec_rows_mask(mem, idx, rx, ry, i, k) == 0,
    decreases i,
{
    if i > 0 {
        lemma_rows_mask_zero(mem, idx, rx, ry, i - 1, k);
        lemma_col_mask_zero(mem[idx + (i - 1)], rx, ry, i - 1, 8, k);
        assert(0u8 ^ 0u8 == 0u8) by (bit_vector);
    }
}

/// A rows fold whose only step onto cell `k` is column `j0` of row `i0`
/// contributes exactly that step's sprite bit there.
proof fn lemma_rows_mask_single(
    mem: Seq<u8>,
    idx: int,
    rx: u8,
    ry: u8,
    i: int,
    i0: int,
    j0: int,
    k: int,
)
    requires
        0 <= i0 < i,
        0 <= j0 < 8,
        pixel_coord(rx, ry, i0, j0) == k,
        forall|p: int, q: int|
            0 <= p < i && 0 <= q < 8 && !(p == i0 && q == j0) ==> pixel_coord(rx, ry, p, q) != k,
    ensures
        spec_rows_mask(mem, idx, rx, ry, i, k) == sprite_bit(mem[idx + i0], j0),
    decreases i,
{
    let b = sprite_bit(mem[idx + i0], j0);
    if i - 1 == i0 {
        lemma_rows_mask_zero(mem, idx, rx, ry, i - 1, k);
        lemma_col_mask_single(mem[idx + i0], rx, ry, i0, 8, j0, k);
        assert(0u8 ^ b == b) by (bit_vector);
    } else {
        lemma_rows_mask_single(mem, idx, rx, ry, i - 1, i0, j0, k);
        lemma_col_mask_zero(mem[idx + (i - 1)], rx, ry, i - 1, 8, k);
        assert(b ^ 0u8 == b) by (bit_vector);
    }
}

/// The collision signal only accumulates through a column fold.
proof fn lemma_cols_collision_monotone(gfx: Seq<u8>, byte: u8, rx: u8, ry: u8, i: int, j: int)
    ensures
        spec_draw_cols(gfx, true, byte, rx, ry, i, j).1,
    decreases j,
{
    if j > 0 {
        lemma_cols_collision_monotone(gfx, byte, rx, ry, i, j - 1);
    }
}

/// A column fold reports a collision when some step of it meets a lit bit
/// in the buffer the fold started from, provided no earlier step of the
/// fold lands on the same cell.
proof fn lemma_cols_collision_from_step(
    gfx: Seq<u8>,
    col: bool,
    byte: u8,
    rx: u8,
    ry: u8,
    i: int,
    j0: int,
)
    requires
        gfx.len() == 2048,
        0 <= j0 < 8,
        gfx[pixel_coord(rx, ry, i, j0)] & sprite_bit(byte, j0) != 0,
        forall|q: int|
            0 <= q < j0 ==> pixel_coord(rx, ry, i, q) != pixel_coord(rx, ry, i, j0),
    ensures
        spec_draw_cols(gfx, col, byte, rx, ry, i, 8).1,
{
    let k = pixel_coord(rx, ry, i, j0);
    let prev = spec_draw_cols(gfx, col, byte, rx, ry, i, j0);
    lemma_draw_cols_pointwise(gfx, col, byte, rx, ry, i, j0, k);
    lemma_col_mask_zero(byte, rx, ry, i, j0, k);
    let v = gfx[k];
    assert(v ^ 0 == v) by (bit_vector);
    assert(prev.0[k] == gfx[k]);
    assert(spec_draw_cols(gfx, col, byte, rx, ry, i, j0 + 1).1);
    lemma_cols_collision_steps(gfx, col, byte, rx, ry, i, j0 + 1, 8);
}

/// Once a column fold has collided it stays collided through later steps.
proof fn lemma_cols_collision_steps(
    gfx: Seq<u8>,
    col: bool,
    byte: u8,
    rx: u8,
    ry: u8,
    i: int,
    j1: int,
    j2: int,
)
    requires
        j1 <= j2,
        spec_draw_cols(gfx, col, byte, rx, ry, i, j1).1,
    ensures
        spec_draw_cols(gfx, col, byte, rx, ry, i, j2).1,
    decreases j2 - j1,
{
    if j1 < j2 {
        lemma_cols_collision_steps(gfx, col, byte, rx, ry, i, j1, j2 - 1);
    }
}

/// Once a rows fold has collided it stays collided through later rows.
proof fn lemma_rows_collision_steps(
    gfx: Seq<u8>,
    col: bool,
    mem: Seq<u8>,
    idx: int,
    rx: u8,
    ry: u8,
    i1: int,
    i2: int,
)
    requires
        i1 <= i2,
        spec_draw_rows(gfx, col, mem, idx, rx, ry, i1).1,
    ensures
        spec_draw_rows(gfx, col, mem, idx, rx, ry, i2).1,
    decreases i2 - i1,
{
    if i1 < i2 {
        lemma_rows_collision_steps(gfx, col, mem, idx, rx, ry, i1, i2 - 1);
        lemma_cols_collision_monotone(
            spec_draw_rows(gfx, col, mem, idx, rx, ry, i2 - 1).0,
            mem[idx + (i2 - 1)],
            rx,
            ry,
            i2 - 1,
            8,
        );
    }
}

/// The second half of draw idempotence: when a sprite with at least one
/// lit bit is drawn twice at the same coordinates and the first draw
/// reported no collision, the second draw reports one — it is erasing the
/// pixels the first draw set.
pub proof fn lemma_second_draw_collides(
    gfx: Seq<u8>,
    mem: Seq<u8>,
    idx: int,
    rx: u8,
    ry: u8,
    n: int,
    i0: int,
    j0: int,
)
    requires
        gfx.len() == 2048,
        0 <= i0 < n <= 15,
        0 <= j0 < 8,
        sprite_bit(mem[idx + i0], j0) == 1,
        !spec_draw_rows(gfx, false, mem, idx, rx, ry, n).1,
    ensures
        spec_draw_rows(
            spec_draw_rows(gfx, false, mem, idx, rx, ry, n).0,
            false,
            mem,
            idx,
            rx,
            ry,
            n,
        ).1,
{
    let k = pixel_coord(rx, ry, i0, j0);
    assert forall|p: int, q: int|
        0 <= p < n && 0 <= q < 8 && !(p == i0 && q == j0) implies pixel_coord(rx, ry, p, q)
        != k by {
        lemma_coords_distinct(rx, ry, p, q, i0, j0);
    }

    // the first pass reaches cell k with the buffer still holding gfx[k],
    // and since it did not collide, the lit bit there was clear
    let d1 = spec_draw_rows(gfx, false, mem, idx, rx, ry, n);
    let g_row = spec_draw_rows(gfx, false, mem, idx, rx, ry, i0);
    lemma_draw_rows_pointwise(gfx, false, mem, idx, rx, ry, i0, k);
    lemma_rows_mask_zero(mem, idx, rx, ry, i0, k);
    let v0 = gfx[k];
    assert(v0 ^ 0 == v0) by (bit_vector);
    assert(g_row.0[k] == gfx[k]);
    let prev1 = spec_draw_cols(g_row.0, g_row.1, mem[idx + i0], rx, ry, i0, j0);
    lemma_draw_cols_pointwise(g_row.0, g_row.1, mem[idx + i0], rx, ry, i0, j0, k);
    lemma_col_mask_zero(mem[idx + i0], rx, ry, i0, j0, k);
    assert(prev1.0[k] == gfx[k]);
    // had the first pass met a lit bit at k, it would have collided
    if spec_draw_cols(g_row.0, g_row.1, mem[idx + i0], rx, ry, i0, j0 + 1).1 {
        lemma_cols_collision_steps(g_row.0, g_row.1, mem[idx + i0], rx, ry, i0, j0 + 1, 8);
        assert(spec_draw_rows(gfx, false, mem, idx, rx, ry, i0 + 1).1);
        lemma_rows_collision_steps(gfx, false, mem, idx, rx, ry, i0 + 1, n);
    }
    assert((gfx[k] & sprite_bit(mem[idx + i0], j0)) == 0);

    // after the first pass, cell k holds its old value with the lit bit
    // flipped on
    let g1 = d1.0;
    lemma_draw_rows_pointwise(gfx, false, mem, idx, rx, ry, n, k);
    lemma_rows_mask_single(mem, idx, rx, ry, n, i0, j0, k);
    assert(g1[k] == gfx[k] ^ sprite_bit(mem[idx + i0], j0));

    // the second pass reaches cell k untouched too, and now finds that bit
    let g_row2 = spec_draw_rows(g1, false, mem, idx, rx, ry, i0);
    lemma_draw_rows_pointwise(g1, false, mem, idx, rx, ry, i0, k);
    lemma_rows_mask_zero(mem, idx, rx, ry, i0, k);
    let v1 = g1[k];
    assert(v1 ^ 0 == v1) by (bit_vector);
    let b = sprite_bit(mem[idx + i0], j0);
    let w0 = gfx[k];
    assert(((w0 ^ b) & b) != 0) by (bit_vector)
        requires
            b == 1u8,
            (w0 & b) == 0u8,
    ;
    lemma_cols_collision_from_step(g_row2.0, g_row2.1, mem[idx + i0], rx, ry, i0, j0);
    assert(spec_draw_rows(g1, false, mem, idx, rx, ry, i0 + 1).1);
    lemma_rows_collision_steps(g1, false, mem, idx, rx, ry, i0 + 1, n);
}

/// For the arithmetic opcodes the register result wraps modulo 256 and
/// the flag register holds the carry or borrow: `7xkk` adds the immediate
/// without touching the flag, `8xy4` sets the flag exactly on carry, and
/// `8xy5` and `8xy7` clear it exactly on borrow.  The flagged forms are
/// stated for operand registers other than the flag register itself,
/// which the flag write would alias.
pub proof fn lemma_arithmetic_wraps(s: MachineView, r: u8)
    requires
        wf_machine(s),
        s.pc < 4095,
    ensures
        ({
            let hi = s.memory[s.pc as int];
            let lo = s.memory[s.pc as int + 1];
            let w = hi >> 4;
            let x = (hi & 0xF) as int;
            let y = (lo >> 4) as int;
            let z = (lo & 0xF) as int;
            let t = spec_cycle(s, r);
            &&& (w == 0x7 ==> t.reg[x] == (s.reg[x] + lo) % 256)
            &&& (w == 0x8 && z == 0x4 && x != 15 ==> t.reg[x] == (s.reg[x] + s.reg[y]) % 256
                && t.reg[15] == (if s.reg[x] + s.reg[y] > 255 {
                1u8
            } else {
                0u8
            }))
            &&& (w == 0x8 && z == 0x5 && x != 15 && y != 15 ==> t.reg[x] == (s.reg[x] - s.reg[y]
                + 256) % 256 && t.reg[15] == (if s.reg[x] < s.reg[y] {
                0u8
            } else {
                1u8
            }))
            &&& (w == 0x8 && z == 0x7 && x != 15 && y != 15 ==> t.reg[x] == (s.reg[y] - s.reg[x]
                + 256) % 256 && t.reg[15] == (if s.reg[y] < s.reg[x] {
                0u8
            } else {
                1u8
            }))
        }),
{
    let hi = s.memory[s.pc as int];
    let lo = s.memory[s.pc as int + 1];
    assert((hi & 0xF) <= 15 && (lo >> 4) <= 15 && (lo & 0xF) <= 15) by (bit_vector);
}

/// Call/return round trip: a `2nnn` call followed, at `nnn`, by a `00EE`
/// return leaves the program counter exactly two past the call and the
/// stack pointer where it began, for any valid target and any stack depth
/// below the full sixteen.
pub proof fn lemma_call_return_round_trip(s: MachineView, r1: u8, r2: u8)
    requires
        wf_machine(s),
        s.pc < 4095,
        s.sp < 16,
        (s.memory[s.pc as int] >> 4) == 0x2,
        ({
            let nnn = ((s.memory[s.pc as int] & 0xF) * 256 + s.memory[s.pc as int + 1]) as int;
            &&& nnn < 4095
            &&& s.memory[nnn] == 0x00
            &&& s.memory[nnn + 1] == 0xEE
        }),
    ensures
        spec_cycle(spec_cycle(s, r1), r2).pc == s.pc + 2,
        spec_cycle(spec_cycle(s, r1), r2).sp == s.sp,
{
    assert(0x00u8 >> 4 == 0 && 0x00u8 & 0xF == 0 && 0xEEu8 >> 4 == 0xE && 0xEEu8 & 0xF == 0xE)
        by (bit_vector);
}

/// Every key index below the first pressed one is unpressed, and the
/// first pressed one, when there is one, is pressed.
proof fn lemma_first_pressed_props(key: Seq<u8>, i: int)
    requires
        0 <= i <= 16,
    ensures
        i <= first_pressed(key, i) <= 16,
        first_pressed(key, i) == 16 ==> (forall|j: int| i <= j < 16 ==> key[j] == 0),
        first_pressed(key, i) < 16 ==> i <= first_pressed(key, i) < 16 && key[first_pressed(
            key,
            i,
        )] != 0 && (forall|j: int| i <= j < first_pressed(key, i) ==> key[j] == 0),
    decreases 16 - i,
{
    if i < 16 && key[i] == 0 {
        lemma_first_pressed_props(key, i + 1);
    }
}

/// The key-wait opcode blocks the program counter in place while no key
/// is pressed — the whole machine state is unchanged, so repeated
/// scheduler iterations re-decode the same instruction — and on the first
/// cycle that sees a pressed key it stores the lowest-indexed pressed key
/// and advances by exactly two.
pub proof fn lemma_key_wait(s: MachineView, r: u8)
    requires
        wf_machine(s),
        s.pc < 4095,
        (s.memory[s.pc as int] >> 4) == 0xF,
        s.memory[s.pc as int + 1] == 0x0A,
    ensures
        (forall|k: int| 0 <= k < 16 ==> s.key[k] == 0) ==> spec_cycle(s, r) == s,
        (exists|k: int| 0 <= k < 16 && s.key[k] != 0) ==> ({
            let t = spec_cycle(s, r);
            let k = first_pressed(s.key, 0);
            &&& 0 <= k < 16
            &&& s.key[k] != 0
            &&& (forall|j: int| 0 <= j < k ==> s.key[j] == 0)
            &&& t.pc == s.pc + 2
            &&& t.reg == s.reg.update((s.memory[s.pc as int] & 0xF) as int, k as u8)
        }),
{
    assert(0x0Au8 >> 4 == 0 && 0x0Au8 & 0xF == 0xA) by (bit_vector);
    lemma_first_pressed_props(s.key, 0);
    if forall|k: int| 0 <= k < 16 ==> s.key[k] == 0 {
        assert(first_pressed(s.key, 0) == 16) by {
            if first_pressed(s.key, 0) < 16 {
                assert(s.key[first_pressed(s.key, 0)] != 0);
            }
        }
    }
}

/// `Cx00` sets register x to zero whatever byte the random source drew:
/// the random byte is masked with the immediate, and the immediate is 0.
pub proof fn lemma_random_masked_to_zero(s: MachineView, r: u8)
    requires
        wf_machine(s),
        s.pc < 4095,
        (s.memory[s.pc as int] >> 4) == 0xC,
        s.memory[s.pc as int + 1] == 0x00,
    ensures
        spec_cycle(s, r).reg[(s.memory[s.pc as int] & 0xF) as int] == 0,
        spec_cycle(s, r).pc == s.pc + 2,
{
    let hi = s.memory[s.pc as int];
    assert((hi & 0xF) <= 15) by (bit_vector);
    assert(0x00u8 & r == 0) by (bit_vector);
}

} // verus!
