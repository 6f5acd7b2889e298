use vstd::prelude::*;

use crate::model::{
    Machine, WaitState, Chip8Error, MEMORY_SIZE, PROGRAM_START, DISPLAY_SIZE, DISPLAY_WIDTH,
    DISPLAY_HEIGHT, STACK_DEPTH, FLAG, step, execute_op, alu_op, draw_op, await_key_op, tick,
    in_window, sprite_pixel, painted, collides, first_pressed,
};

verus! {

/// The hexadecimal digit glyphs 0 to F, five rows of one byte each.
pub const FONT_SET: [u8; 80] = [
    0xF0, 0x90, 0x90, 0x90, 0xF0,
    0x20, 0x60, 0x20, 0x20, 0x70,
    0xF0, 0x10, 0xF0, 0x80, 0xF0,
    0xF0, 0x10, 0xF0, 0x10, 0xF0,
    0x90, 0x90, 0xF0, 0x10, 0x10,
    0xF0, 0x80, 0xF0, 0x10, 0xF0,
    0xF0, 0x80, 0xF0, 0x90, 0xF0,
    0xF0, 0x10, 0x20, 0x40, 0x40,
    0xF0, 0x90, 0xF0, 0x90, 0xF0,
    0xF0, 0x90, 0xF0, 0x10, 0xF0,
    0xF0, 0x90, 0xF0, 0x90, 0x90,
    0xE0, 0x90, 0xE0, 0x90, 0xE0,
    0xF0, 0x80, 0x80, 0x80, 0xF0,
    0xE0, 0x90, 0x90, 0x90, 0xE0,
    0xF0, 0x80, 0xF0, 0x80, 0xF0,
    0xF0, 0x80, 0xF0, 0x80, 0x80,
];

/// The machine: memory, registers, stack, timers, display and keypad.
#[allow(non_snake_case)]
pub struct Chip8 {
    pub memory: [u8; 4096],
    /// General registers V0 to VF; VF doubles as the flag.
    pub V: [u8; 16],
    /// Index register.
    pub I: u16,
    pub pc: u16,
    /// The display, 64 pixels per row, row after row; each pixel 0 or 1.
    pub gfx: [u8; 2048],
    pub delay_timer: u8,
    pub sound_timer: u8,
    /// Addresses of the calls in progress.
    pub stack: [u16; 16],
    /// Next free slot of `stack`.
    pub sp: u16,
    /// Keypad state: key `k` is down when `key[k] != 0`.
    pub key: [u8; 16],
    /// Set while a key-wait instruction blocks; the timers are frozen then.
    pub wait: WaitState,
}

impl View for Chip8 {
    type V = Machine;

    open spec fn view(&self) -> Machine {
        Machine {
            memory: self.memory@,
            v: self.V@,
            i: self.I,
            pc: self.pc,
            gfx: self.gfx@,
            delay_timer: self.delay_timer,
            sound_timer: self.sound_timer,
            stack: self.stack@,
            sp: self.sp,
            key: self.key@,
            wait: self.wait,
        }
    }
}

/// The state of a freshly built machine.
pub open spec fn initial_machine() -> Machine {
    Machine {
        memory: Seq::new(MEMORY_SIZE as nat, |a: int| if a < 80 { FONT_SET@[a] } else { 0u8 }),
        v: Seq::new(16, |r: int| 0u8),
        i: 0,
        pc: PROGRAM_START,
        gfx: Seq::new(DISPLAY_SIZE as nat, |p: int| 0u8),
        delay_timer: 0,
        sound_timer: 0,
        stack: Seq::new(STACK_DEPTH as nat, |s: int| 0u16),
        sp: 0,
        key: Seq::new(16, |k: int| 0u8),
        wait: WaitState::Running,
    }
}

/// A position splits into its row and column.
proof fn lemma_row_col(p: int)
    ensures
        p == 64 * (p / 64) + p % 64,
        0 <= p ==> 0 <= p % 64 < 64,
{
    vstd::arithmetic::div_mod::lemma_fundamental_div_mod(p, 64);
    if 0 <= p {
        vstd::arithmetic::div_mod::lemma_mod_bound(p, 64);
    }
}

/// Painting one more on-display pixel at `pos` changes that pixel alone.
proof fn lemma_paint_pixel(gfx: Seq<u8>, memory: Seq<u8>, i: int, vx: int, vy: int, row: int, col: int, pos: int)
    requires
        gfx.len() == DISPLAY_SIZE,
        0 <= col < 8,
        0 <= vx,
        0 <= vy,
        0 <= row,
        vx + col < 64,
        pos == (vy + row) * 64 + vx + col,
        pos / 64 == vy + row,
        pos % 64 == vx + col,
        0 <= pos < DISPLAY_SIZE,
    ensures
        painted(gfx, memory, i, vx, vy, row, col).update(pos, sprite_pixel(memory, i, vx, vy, pos))
            =~= painted(gfx, memory, i, vx, vy, row, col + 1),
        !in_window(vx, vy, row, col, pos),
        in_window(vx, vy, row, col + 1, pos),
        collides(gfx, memory, i, vx, vy, row, col + 1) == (collides(gfx, memory, i, vx, vy, row, col)
            || (sprite_pixel(memory, i, vx, vy, pos) == 1 && gfx[pos] != 0)),
{
    assert forall|p: int| 0 <= p < DISPLAY_SIZE && p != pos implies in_window(vx, vy, row, col + 1, p)
        == in_window(vx, vy, row, col, p) by {
        lemma_row_col(p);
    }
    let c1 = collides(gfx, memory, i, vx, vy, row, col + 1);
    let c0 = collides(gfx, memory, i, vx, vy, row, col);
    if c1 {
        let p = choose|p: int|
            0 <= p < gfx.len() && in_window(vx, vy, row, col + 1, p) && sprite_pixel(memory, i, vx, vy, p)
                == 1 && gfx[p] != 0;
        if p != pos {
            assert(in_window(vx, vy, row, col, p));
        }
    }
    if c0 {
        let p = choose|p: int|
            0 <= p < gfx.len() && in_window(vx, vy, row, col, p) && sprite_pixel(memory, i, vx, vy, p)
                == 1 && gfx[p] != 0;
        assert(in_window(vx, vy, row, col + 1, p));
    }
    if sprite_pixel(memory, i, vx, vy, pos) == 1 && gfx[pos] != 0 {
        assert(in_window(vx, vy, row, col + 1, pos));
    }
}

/// A column beyond the right edge paints nothing.
proof fn lemma_paint_clipped(gfx: Seq<u8>, memory: Seq<u8>, i: int, vx: int, vy: int, row: int, col: int)
    requires
        gfx.len() == DISPLAY_SIZE,
        vx + col >= 64,
    ensures
        painted(gfx, memory, i, vx, vy, row, col) == painted(gfx, memory, i, vx, vy, row, col + 1),
        collides(gfx, memory, i, vx, vy, row, col) == collides(gfx, memory, i, vx, vy, row, col + 1),
{
    assert forall|p: int| 0 <= p < DISPLAY_SIZE implies in_window(vx, vy, row, col + 1, p)
        == in_window(vx, vy, row, col, p) by {
        lemma_row_col(p);
    }
    assert(painted(gfx, memory, i, vx, vy, row, col) =~= painted(gfx, memory, i, vx, vy, row, col + 1));
}

/// A finished row is the start of the next one.
proof fn lemma_paint_next_row(gfx: Seq<u8>, memory: Seq<u8>, i: int, vx: int, vy: int, row: int)
    requires
        0 <= row,
    ensures
        painted(gfx, memory, i, vx, vy, row, 8) == painted(gfx, memory, i, vx, vy, row + 1, 0),
        collides(gfx, memory, i, vx, vy, row, 8) == collides(gfx, memory, i, vx, vy, row + 1, 0),
{
    assert forall|p: int| #[trigger] in_window(vx, vy, row, 8, p) == in_window(vx, vy, row + 1, 0, p) by {}
    assert(painted(gfx, memory, i, vx, vy, row, 8) =~= painted(gfx, memory, i, vx, vy, row + 1, 0));
}

/// A row below the bottom edge paints nothing.
proof fn lemma_paint_row_off_display(gfx: Seq<u8>, memory: Seq<u8>, i: int, vx: int, vy: int, row: int)
    requires
        gfx.len() == DISPLAY_SIZE,
        vy + row >= 32,
    ensures
        painted(gfx, memory, i, vx, vy, row, 0) == painted(gfx, memory, i, vx, vy, row + 1, 0),
        collides(gfx, memory, i, vx, vy, row, 0) == collides(gfx, memory, i, vx, vy, row + 1, 0),
{
    assert forall|p: int| 0 <= p < DISPLAY_SIZE implies in_window(vx, vy, row + 1, 0, p)
        == in_window(vx, vy, row, 0, p) by {
        lemma_row_col(p);
    }
    assert(painted(gfx, memory, i, vx, vy, row, 0) =~= painted(gfx, memory, i, vx, vy, row + 1, 0));
}

impl Chip8 {
    /// A machine with the glyphs at address 0, everything else zero, and the
    /// program counter at the program start.
    pub fn new() -> (r: Chip8)
        ensures
            r@ == initial_machine(),
    {
        let mut memory = [0u8; 4096];
        let mut a: usize = 0;
        while a < 80
            invariant
                a <= 80,
                forall|b: int| 0 <= b < a ==> memory@[b] == FONT_SET@[b],
                forall|b: int| a <= b < MEMORY_SIZE ==> memory@[b] == 0,
            decreases 80 - a,
        {
            memory[a] = FONT_SET[a];
            a = a + 1;
        }
        let r = Chip8 {
            memory,
            V: [0u8; 16],
            I: 0,
            pc: PROGRAM_START,
            gfx: [0u8; 2048],
            delay_timer: 0,
            sound_timer: 0,
            stack: [0u16; 16],
            sp: 0,
            key: [0u8; 16],
            wait: WaitState::Running,
        };
        assert(r@.memory =~= initial_machine().memory);
        assert(r@.v =~= initial_machine().v);
        assert(r@.gfx =~= initial_machine().gfx);
        assert(r@.stack =~= initial_machine().stack);
        assert(r@.key =~= initial_machine().key);
        r
    }

    /// Runs one cycle: fetches the instruction word at the program counter,
    /// executes it, then counts the timers down (see `step`). On an error the
    /// machine is left unchanged.
    pub fn cycle(&mut self) -> (r: Result<(), Chip8Error>)
        ensures
            match step(old(self)@) {
                Ok(m) => r is Ok && final(self)@ == m,
                Err(e) => r == Err::<(), Chip8Error>(e) && final(self)@ == old(self)@,
            },
    {
        if self.pc as usize + 1 >= MEMORY_SIZE {
            return Err(Chip8Error::AddressOutOfRange { pc: self.pc });
        }
        let opcode: u16 = ((self.memory[self.pc as usize] as u16) << 8u16) | (self.memory[self.pc
            as usize + 1] as u16);
        match self.execute(opcode) {
            Ok(()) => {
                self.tick_timers();
                Ok(())
            },
            Err(e) => Err(e),
        }
    }

    fn tick_timers(&mut self)
        ensures
            final(self)@ == tick(old(self)@),
    {
        if self.wait == WaitState::Running {
            if self.delay_timer > 0 {
                self.delay_timer = self.delay_timer - 1;
            }
            if self.sound_timer > 0 {
                self.sound_timer = self.sound_timer - 1;
            }
        }
    }

    fn execute(&mut self, opcode: u16) -> (r: Result<(), Chip8Error>)
        requires
            old(self).pc + 1 < MEMORY_SIZE,
        ensures
            match execute_op(old(self)@, opcode) {
                Ok(m) => r is Ok && final(self)@ == m,
                Err(e) => r == Err::<(), Chip8Error>(e) && final(self)@ == old(self)@,
            },
    {
        assert((opcode & 0x0F00u16) >> 8u16 < 16u16) by (bit_vector);
        assert((opcode & 0x00F0u16) >> 4u16 < 16u16) by (bit_vector);
        assert(opcode & 0x0FFFu16 < 0x1000u16) by (bit_vector);
        let x = ((opcode & 0x0F00) >> 8) as usize;
        let y = ((opcode & 0x00F0) >> 4) as usize;
        let n = opcode & 0x000F;
        let nn = (opcode & 0x00FF) as u8;
        let nnn = opcode & 0x0FFF;
        let group = opcode & 0xF000;
        let unknown = Chip8Error::UnrecognizedOpcode { pc: self.pc, opcode };
        if group == 0x0000 {
            if opcode == 0x00E0 {
                self.clear_display();
                self.pc = self.pc + 2;
                Ok(())
            } else if opcode == 0x00EE {
                if self.sp == 0 {
                    Err(Chip8Error::StackUnderflow { pc: self.pc })
                } else if self.sp as usize > STACK_DEPTH {
                    Err(Chip8Error::StackOverflow { pc: self.pc })
                } else {
                    let target = self.stack[self.sp as usize - 1];
                    if target > u16::MAX - 2 {
                        Err(Chip8Error::AddressOutOfRange { pc: self.pc })
                    } else {
                        self.sp = self.sp - 1;
                        self.pc = target + 2;
                        Ok(())
                    }
                }
            } else {
                Err(unknown)
            }
        } else if group == 0x1000 {
            self.pc = nnn;
            Ok(())
        } else if group == 0x2000 {
            if self.sp as usize >= STACK_DEPTH {
                Err(Chip8Error::StackOverflow { pc: self.pc })
            } else {
                self.stack[self.sp as usize] = self.pc;
                self.sp = self.sp + 1;
                self.pc = nnn;
                Ok(())
            }
        } else if group == 0x3000 {
            self.pc = if self.V[x] == nn { self.pc + 4 } else { self.pc + 2 };
            Ok(())
        } else if group == 0x4000 {
            self.pc = if self.V[x] != nn { self.pc + 4 } else { self.pc + 2 };
            Ok(())
        } else if group == 0x5000 && n == 0 {
            self.pc = if self.V[x] == self.V[y] { self.pc + 4 } else { self.pc + 2 };
            Ok(())
        } else if group == 0x6000 {
            self.V[x] = nn;
            self.pc = self.pc + 2;
            Ok(())
        } else if group == 0x7000 {
            self.V[x] = ((self.V[x] as u16 + nn as u16) % 256) as u8;
            self.pc = self.pc + 2;
            Ok(())
        } else if group == 0x8000 {
            self.execute_alu(opcode)
        } else if group == 0x9000 && n == 0 {
            self.pc = if self.V[x] != self.V[y] { self.pc + 4 } else { self.pc + 2 };
            Ok(())
        } else if group == 0xA000 {
            self.I = nnn;
            self.pc = self.pc + 2;
            Ok(())
        } else if group == 0xB000 {
            // Conventional semantics: the target is NNN plus V0 (not the word
            // masked by 0x0FFF + V0).
            self.pc = nnn + self.V[0] as u16;
            Ok(())
        } else if group == 0xD000 {
            self.draw_sprite(opcode)
        } else if group == 0xF000 && nn == 0x07 {
            self.V[x] = self.delay_timer;
            self.pc = self.pc + 2;
            Ok(())
        } else if group == 0xF000 && nn == 0x0A {
            self.await_key(opcode);
            Ok(())
        } else {
            Err(unknown)
        }
    }

    fn clear_display(&mut self)
        ensures
            final(self)@ == (Machine { gfx: Seq::new(DISPLAY_SIZE as nat, |p: int| 0u8), ..old(self)@ }),
    {
        let mut p: usize = 0;
        while p < DISPLAY_SIZE
            invariant
                p <= DISPLAY_SIZE,
                self@ == (Machine { gfx: self@.gfx, ..old(self)@ }),
                forall|q: int| 0 <= q < p ==> self@.gfx[q] == 0,
            decreases DISPLAY_SIZE - p,
        {
            self.gfx[p] = 0;
            p = p + 1;
        }
        assert(self@.gfx =~= Seq::new(DISPLAY_SIZE as nat, |p: int| 0u8));
    }

    /// Group 8, whose operations read and write registers in turn.
    #[verifier::rlimit(60)]
    fn execute_alu(&mut self, opcode: u16) -> (r: Result<(), Chip8Error>)
        requires
            old(self).pc + 1 < MEMORY_SIZE,
        ensures
            match alu_op(old(self)@.advance(false), opcode) {
                Some(m) => r is Ok && final(self)@ == m,
                None => r == Err::<(), Chip8Error>(
                    Chip8Error::UnrecognizedOpcode { pc: old(self).pc, opcode },
                ) && final(self)@ == old(self)@,
            },
    {
        assert((opcode & 0x0F00u16) >> 8u16 < 16u16) by (bit_vector);
        assert((opcode & 0x00F0u16) >> 4u16 < 16u16) by (bit_vector);
        let x = ((opcode & 0x0F00) >> 8) as usize;
        let y = ((opcode & 0x00F0) >> 4) as usize;
        let sub = opcode & 0x000F;
        if !(sub <= 7 || sub == 0xE) {
            return Err(Chip8Error::UnrecognizedOpcode { pc: self.pc, opcode });
        }
        self.pc = self.pc + 2;
        if sub == 0 {
            self.V[x] = self.V[y];
        } else if sub == 1 {
            self.V[x] = self.V[x] | self.V[y];
        } else if sub == 2 {
            self.V[x] = self.V[x] & self.V[y];
        } else if sub == 3 {
            self.V[x] = self.V[x] ^ self.V[y];
        } else if sub == 4 {
            let sum: u16 = self.V[x] as u16 + self.V[y] as u16;
            self.V[x] = (sum % 256) as u8;
            self.V[FLAG] = if sum > 255 { 1 } else { 0 };
        } else if sub == 5 {
            let vx = self.V[x];
            let vy = self.V[y];
            self.V[x] = ((vx as u16 + 256 - vy as u16) % 256) as u8;
            self.V[FLAG] = if vx >= vy { 1 } else { 0 };
        } else if sub == 6 {
            self.V[FLAG] = self.V[y] & 1;
            self.V[y] = self.V[y] >> 1u8;
            self.V[x] = self.V[y];
        } else if sub == 7 {
            self.V[FLAG] = if self.V[y] > self.V[x] { 1 } else { 0 };
            let vx = self.V[x];
            let vy = self.V[y];
            self.V[x] = ((vy as u16 + 256 - vx as u16) % 256) as u8;
        } else {
            self.V[FLAG] = self.V[y] & 0x80;
            self.V[y] = self.V[y] << 1u8;
            self.V[x] = self.V[y];
        }
        Ok(())
    }

    /// DXYN: draws row after row, pixel after pixel, clipping at the edges.
    fn draw_sprite(&mut self, opcode: u16) -> (r: Result<(), Chip8Error>)
        requires
            old(self).pc + 1 < MEMORY_SIZE,
        ensures
            match draw_op(old(self)@, opcode) {
                Ok(m) => r is Ok && final(self)@ == m,
                Err(e) => r == Err::<(), Chip8Error>(e) && final(self)@ == old(self)@,
            },
    {
        assert((opcode & 0x0F00u16) >> 8u16 < 16u16) by (bit_vector);
        assert((opcode & 0x00F0u16) >> 4u16 < 16u16) by (bit_vector);
        let vx = self.V[((opcode & 0x0F00) >> 8) as usize] as usize;
        let vy = self.V[((opcode & 0x00F0) >> 4) as usize] as usize;
        let n = (opcode & 0x000F) as usize;
        let base = self.I as usize;
        if n > 0 && base + n > MEMORY_SIZE {
            return Err(Chip8Error::AddressOutOfRange { pc: self.pc });
        }
        let ghost start = self@;
        let mut hit = false;
        let mut row: usize = 0;
        while row < n
            invariant
                row <= n,
                n > 0 ==> base + n <= MEMORY_SIZE,
                vx < 256,
                vy < 256,
                base == start.i,
                start.gfx.len() == DISPLAY_SIZE,
                self@ == (Machine { gfx: self@.gfx, ..start }),
                self@.gfx == painted(start.gfx, start.memory, base as int, vx as int, vy as int, row as int, 0),
                hit == collides(start.gfx, start.memory, base as int, vx as int, vy as int, row as int, 0),
            decreases n - row,
        {
            if vy + row < DISPLAY_HEIGHT {
                let sprite = self.memory[base + row];
                let mut col: usize = 0;
                while col < 8
                    invariant
                        col <= 8,
                        row < n,
                        vy + row < DISPLAY_HEIGHT,
                        base + n <= MEMORY_SIZE,
                        vx < 256,
                        base == start.i,
                        start.gfx.len() == DISPLAY_SIZE,
                        sprite == start.memory[base + row],
                        self@ == (Machine { gfx: self@.gfx, ..start }),
                        self@.gfx == painted(start.gfx, start.memory, base as int, vx as int, vy as int, row as int, col as int),
                        hit == collides(start.gfx, start.memory, base as int, vx as int, vy as int, row as int, col as int),
                    decreases 8 - col,
                {
                    let ghost before = self@.gfx;
                    if vx + col < DISPLAY_WIDTH {
                        let pos = (vy + row) * DISPLAY_WIDTH + vx + col;
                        let bit = (sprite >> ((7 - col) as u8)) & 1u8;
                        assert(bit < 2) by (bit_vector)
                            requires bit == (sprite >> ((7 - col) as u8)) & 1u8;
                        proof {
                            vstd::arithmetic::div_mod::lemma_fundamental_div_mod_converse(
                                pos as int, 64, (vy + row) as int, (vx + col) as int);
                        }
                        if bit != 0 && self.gfx[pos] != 0 {
                            hit = true;
                        }
                        self.gfx[pos] = bit;
                        proof {
                            lemma_paint_pixel(start.gfx, start.memory, base as int, vx as int, vy as int, row as int, col as int, pos as int);
                        }
                        assert(self@.gfx =~= painted(start.gfx, start.memory, base as int, vx as int, vy as int, row as int, col + 1));
                    } else {
                        proof {
                            lemma_paint_clipped(start.gfx, start.memory, base as int, vx as int, vy as int, row as int, col as int);
                        }
                    }
                    col = col + 1;
                }
                proof {
                    lemma_paint_next_row(start.gfx, start.memory, base as int, vx as int, vy as int, row as int);
                }
            } else {
                proof {
                    lemma_paint_row_off_display(start.gfx, start.memory, base as int, vx as int, vy as int, row as int);
                }
            }
            row = row + 1;
        }
        self.V[FLAG] = if hit { 1 } else { 0 };
        self.pc = self.pc + 2;
        Ok(())
    }

    /// FX0A: scans the keypad from key 0 upwards.
    fn await_key(&mut self, opcode: u16)
        requires
            old(self).pc + 1 < MEMORY_SIZE,
        ensures
            final(self)@ == await_key_op(old(self)@, opcode),
    {
        assert((opcode & 0x0F00u16) >> 8u16 < 16u16) by (bit_vector);
        let x = ((opcode & 0x0F00) >> 8) as usize;
        let mut k: usize = 0;
        while k < 16 && self.key[k] == 0
            invariant
                k <= 16,
                first_pressed(self.key@, 0) == first_pressed(self.key@, k as int),
            decreases 16 - k,
        {
            k = k + 1;
        }
        if k < 16 {
            self.V[x] = k as u8;
            self.pc = self.pc + 2;
            self.wait = WaitState::Running;
        } else {
            self.wait = WaitState::AwaitingKey(x as u8);
        }
    }

    /// Copies `program` into memory from the program start on, as far as
    /// memory reaches; returns how many bytes were copied.
    pub fn load(&mut self, program: &[u8]) -> (r: usize)
        ensures
            r == vstd::math::min(program@.len() as int, MEMORY_SIZE - PROGRAM_START),
            final(self)@ == (Machine {
                memory: Seq::new(
                    MEMORY_SIZE as nat,
                    |a: int|
                        if PROGRAM_START <= a < PROGRAM_START + r {
                            program@[a - PROGRAM_START]
                        } else {
                            old(self)@.memory[a]
                        },
                ),
                ..old(self)@
            }),
    {
        let room: usize = MEMORY_SIZE - PROGRAM_START as usize;
        let count: usize = if program.len() < room { program.len() } else { room };
        let mut k: usize = 0;
        while k < count
            invariant
                k <= count,
                count == vstd::math::min(program@.len() as int, MEMORY_SIZE - PROGRAM_START),
                self@ == (Machine { memory: self@.memory, ..old(self)@ }),
                forall|a: int|
                    0 <= a < MEMORY_SIZE ==> self@.memory[a] == if PROGRAM_START <= a
                        < PROGRAM_START + k {
                        program@[a - PROGRAM_START]
                    } else {
                        old(self)@.memory[a]
                    },
            decreases count - k,
        {
            self.memory[PROGRAM_START as usize + k] = program[k];
            k = k + 1;
        }
        assert(self@.memory =~= Seq::new(
            MEMORY_SIZE as nat,
            |a: int|
                if PROGRAM_START <= a < PROGRAM_START + count {
                    program@[a - PROGRAM_START]
                } else {
                    old(self)@.memory[a]
                },
        ));
        count
    }
}

} // verus!
