use vstd::prelude::*;

verus! {

/// Bytes of addressable memory.
pub const MEMORY_SIZE: usize = 4096;

/// Address at which programs are loaded and execution starts.
pub const PROGRAM_START: u16 = 0x200;

/// Width of the display in pixels.
pub const DISPLAY_WIDTH: usize = 64;

/// Height of the display in pixels.
pub const DISPLAY_HEIGHT: usize = 32;

/// Number of pixels of the display, one byte each.
pub const DISPLAY_SIZE: usize = 2048;

/// Depth of the call stack.
pub const STACK_DEPTH: usize = 16;

/// Index of the register that arithmetic and drawing use as a flag.
pub const FLAG: usize = 15;

/// Whether the engine is running or blocked on a key-wait instruction
/// (the payload is the register that receives the key).
#[derive(PartialEq, Eq, Structural, Clone, Copy, Debug)]
pub enum WaitState {
    Running,
    AwaitingKey(u8),
}

/// Recoverable failures of one cycle. `pc` is the address of the offending
/// instruction; the machine is left exactly as it was.
#[derive(PartialEq, Eq, Structural, Clone, Copy, Debug)]
pub enum Chip8Error {
    /// The word at `pc` is no instruction of the set.
    UnrecognizedOpcode { pc: u16, opcode: u16 },
    /// A call with all sixteen stack slots in use.
    StackOverflow { pc: u16 },
    /// A return with an empty stack.
    StackUnderflow { pc: u16 },
    /// A fetch, a sprite read or a return target beyond memory or the
    /// program counter's range.
    AddressOutOfRange { pc: u16 },
}

/// Mathematical model of the whole machine state.
pub ghost struct Machine {
    pub memory: Seq<u8>,
    pub v: Seq<u8>,
    pub i: u16,
    pub pc: u16,
    pub gfx: Seq<u8>,
    pub delay_timer: u8,
    pub sound_timer: u8,
    pub stack: Seq<u16>,
    pub sp: u16,
    pub key: Seq<u8>,
    pub wait: WaitState,
}

impl Machine {
    /// Every component has its fixed size.
    pub open spec fn wf(self) -> bool {
        &&& self.memory.len() == MEMORY_SIZE
        &&& self.v.len() == 16
        &&& self.gfx.len() == DISPLAY_SIZE
        &&& self.stack.len() == STACK_DEPTH
        &&& self.key.len() == 16
    }

    pub open spec fn set_reg(self, r: int, val: u8) -> Machine {
        Machine { v: self.v.update(r, val), ..self }
    }

    pub open spec fn jump(self, target: int) -> Machine {
        Machine { pc: target as u16, ..self }
    }

    /// The program counter moved past one instruction, or two when `skip`.
    pub open spec fn advance(self, skip: bool) -> Machine {
        self.jump(self.pc + if skip { 4int } else { 2int })
    }
}

/// The instruction word at the program counter, high byte first.
pub open spec fn fetch_word(m: Machine) -> u16 {
    ((m.memory[m.pc as int] as u16) << 8u16) | (m.memory[m.pc + 1] as u16)
}

pub open spec fn op_x(op: u16) -> int {
    ((op & 0x0F00u16) >> 8u16) as int
}

pub open spec fn op_y(op: u16) -> int {
    ((op & 0x00F0u16) >> 4u16) as int
}

pub open spec fn op_n(op: u16) -> int {
    (op & 0x000Fu16) as int
}

pub open spec fn op_nn(op: u16) -> u8 {
    (op & 0x00FFu16) as u8
}

pub open spec fn op_nnn(op: u16) -> u16 {
    op & 0x0FFFu16
}

/// A value reduced to a byte, wrapping around.
pub open spec fn wrap8(val: int) -> u8 {
    (val % 256) as u8
}

/// Pixel `col` (0 = leftmost) of a sprite row, as 0 or 1.
pub open spec fn sprite_bit(row: u8, col: int) -> u8 {
    (row >> ((7 - col) as u8)) & 1u8
}

/// Whether pixel `p` lies in the first `rows` full rows of a sprite at
/// (`vx`, `vy`), or in the first `cols` columns of the row after them.
/// Pixels off the 64x32 grid are clipped: no `p` in range names them.
pub open spec fn in_window(vx: int, vy: int, rows: int, cols: int, p: int) -> bool {
    ||| (vy <= p / 64 < vy + rows && vx <= p % 64 < vx + 8)
    ||| (p / 64 == vy + rows && vx <= p % 64 < vx + cols)
}

/// The sprite bit that lands on pixel `p` of a sprite at (`vx`, `vy`) whose
/// rows start at address `i`.
pub open spec fn sprite_pixel(memory: Seq<u8>, i: int, vx: int, vy: int, p: int) -> u8 {
    sprite_bit(memory[i + p / 64 - vy], p % 64 - vx)
}

/// The display after the part `in_window(vx, vy, rows, cols, _)` of a sprite
/// has been drawn over `gfx`.
pub open spec fn painted(
    gfx: Seq<u8>,
    memory: Seq<u8>,
    i: int,
    vx: int,
    vy: int,
    rows: int,
    cols: int,
) -> Seq<u8> {
    Seq::new(
        gfx.len(),
        |p: int|
            if in_window(vx, vy, rows, cols, p) {
                sprite_pixel(memory, i, vx, vy, p)
            } else {
                gfx[p]
            },
    )
}

/// Some set pixel of that part of the sprite falls on a lit pixel of `gfx`.
pub open spec fn collides(
    gfx: Seq<u8>,
    memory: Seq<u8>,
    i: int,
    vx: int,
    vy: int,
    rows: int,
    cols: int,
) -> bool {
    exists|p: int|
        0 <= p < gfx.len() && in_window(vx, vy, rows, cols, p) && sprite_pixel(memory, i, vx, vy, p)
            == 1 && gfx[p] != 0
}

/// The lowest index at or after `from` whose key is down, or 16 if none is.
pub open spec fn first_pressed(key: Seq<u8>, from: int) -> int
    decreases 16 - from,
{
    if from >= 16 {
        16
    } else if key[from] != 0 {
        from
    } else {
        first_pressed(key, from + 1)
    }
}

/// Group 8: register-to-register arithmetic and logic, applied in order to
/// `m` (whose program counter has already moved on).
pub open spec fn alu_op(m: Machine, op: u16) -> Option<Machine> {
    let x = op_x(op);
    let y = op_y(op);
    let f = FLAG as int;
    let sub = op & 0x000Fu16;
    if sub == 0 {
        Some(m.set_reg(x, m.v[y]))
    } else if sub == 1 {
        Some(m.set_reg(x, m.v[x] | m.v[y]))
    } else if sub == 2 {
        Some(m.set_reg(x, m.v[x] & m.v[y]))
    } else if sub == 3 {
        Some(m.set_reg(x, m.v[x] ^ m.v[y]))
    } else if sub == 4 {
        let sum = m.v[x] as int + m.v[y] as int;
        Some(m.set_reg(x, wrap8(sum)).set_reg(f, if sum > 255 { 1 } else { 0 }))
    } else if sub == 5 {
        let no_borrow = m.v[x] >= m.v[y];
        Some(m.set_reg(x, wrap8(m.v[x] - m.v[y])).set_reg(f, if no_borrow { 1 } else { 0 }))
    } else if sub == 6 {
        let m1 = m.set_reg(f, m.v[y] & 1u8);
        let m2 = m1.set_reg(y, m1.v[y] >> 1u8);
        Some(m2.set_reg(x, m2.v[y]))
    } else if sub == 7 {
        let m1 = m.set_reg(f, if m.v[y] > m.v[x] { 1 } else { 0 });
        Some(m1.set_reg(x, wrap8(m1.v[y] - m1.v[x])))
    } else if sub == 0xE {
        let m1 = m.set_reg(f, m.v[y] & 0x80u8);
        let m2 = m1.set_reg(y, m1.v[y] << 1u8);
        Some(m2.set_reg(x, m2.v[y]))
    } else {
        None
    }
}

/// Group D: draws an `n`-row sprite from address `i` at (V[X], V[Y]),
/// clipping what falls off the display; V[F] tells whether a set sprite
/// pixel met a lit one. Fails only when some row read lies past memory.
pub open spec fn draw_op(m: Machine, op: u16) -> Result<Machine, Chip8Error> {
    let vx = m.v[op_x(op)] as int;
    let vy = m.v[op_y(op)] as int;
    let n = op_n(op);
    if n > 0 && m.i + n > MEMORY_SIZE {
        Err(Chip8Error::AddressOutOfRange { pc: m.pc })
    } else {
        let hit = collides(m.gfx, m.memory, m.i as int, vx, vy, n, 0);
        let drawn = Machine {
            gfx: painted(m.gfx, m.memory, m.i as int, vx, vy, n, 0),
            ..m
        };
        Ok(drawn.set_reg(FLAG as int, if hit { 1 } else { 0 }).advance(false))
    }
}

/// FX0A: store the lowest pressed key in V[X] and move on, or block.
pub open spec fn await_key_op(m: Machine, op: u16) -> Machine {
    let k = first_pressed(m.key, 0);
    if k < 16 {
        Machine { wait: WaitState::Running, ..m.set_reg(op_x(op), k as u8).advance(false) }
    } else {
        Machine { wait: WaitState::AwaitingKey(op_x(op) as u8), ..m }
    }
}

/// The effect of instruction `op` on `m`, before the timers count down.
pub open spec fn execute_op(m: Machine, op: u16) -> Result<Machine, Chip8Error> {
    let x = op_x(op);
    let y = op_y(op);
    let group = op & 0xF000u16;
    let unknown = Chip8Error::UnrecognizedOpcode { pc: m.pc, opcode: op };
    if group == 0x0000 {
        if op == 0x00E0 {
            Ok(Machine { gfx: Seq::new(DISPLAY_SIZE as nat, |p: int| 0u8), ..m }.advance(false))
        } else if op == 0x00EE {
            if m.sp == 0 {
                Err(Chip8Error::StackUnderflow { pc: m.pc })
            } else if m.sp > STACK_DEPTH {
                Err(Chip8Error::StackOverflow { pc: m.pc })
            } else if m.stack[m.sp - 1] + 2 > u16::MAX {
                Err(Chip8Error::AddressOutOfRange { pc: m.pc })
            } else {
                Ok(Machine { sp: (m.sp - 1) as u16, ..m }.jump(m.stack[m.sp - 1] + 2))
            }
        } else {
            Err(unknown)
        }
    } else if group == 0x1000 {
        Ok(m.jump(op_nnn(op) as int))
    } else if group == 0x2000 {
        if m.sp >= STACK_DEPTH {
            Err(Chip8Error::StackOverflow { pc: m.pc })
        } else {
            Ok(
                Machine {
                    stack: m.stack.update(m.sp as int, m.pc),
                    sp: (m.sp + 1) as u16,
                    ..m
                }.jump(op_nnn(op) as int),
            )
        }
    } else if group == 0x3000 {
        Ok(m.advance(m.v[x] == op_nn(op)))
    } else if group == 0x4000 {
        Ok(m.advance(m.v[x] != op_nn(op)))
    } else if group == 0x5000 && op_n(op) == 0 {
        Ok(m.advance(m.v[x] == m.v[y]))
    } else if group == 0x6000 {
        Ok(m.set_reg(x, op_nn(op)).advance(false))
    } else if group == 0x7000 {
        Ok(m.set_reg(x, wrap8(m.v[x] + op_nn(op))).advance(false))
    } else if group == 0x8000 {
        match alu_op(m.advance(false), op) {
            Some(m2) => Ok(m2),
            None => Err(unknown),
        }
    } else if group == 0x9000 && op_n(op) == 0 {
        Ok(m.advance(m.v[x] != m.v[y]))
    } else if group == 0xA000 {
        Ok(Machine { i: op_nnn(op), ..m }.advance(false))
    } else if group == 0xB000 {
        Ok(m.jump(op_nnn(op) + m.v[0]))
    } else if group == 0xD000 {
        draw_op(m, op)
    } else if group == 0xF000 && op_nn(op) == 0x07 {
        Ok(m.set_reg(x, m.delay_timer).advance(false))
    } else if group == 0xF000 && op_nn(op) == 0x0A {
        Ok(await_key_op(m, op))
    } else {
        Err(unknown)
    }
}

/// Both timers count down towards zero, unless a key wait is blocking.
pub open spec fn tick(m: Machine) -> Machine {
    if m.wait == WaitState::Running {
        Machine {
            delay_timer: if m.delay_timer > 0 { (m.delay_timer - 1) as u8 } else { 0 },
            sound_timer: if m.sound_timer > 0 { (m.sound_timer - 1) as u8 } else { 0 },
            ..m
        }
    } else {
        m
    }
}

/// One whole cycle: fetch at the program counter, execute, count down.
pub open spec fn step(m: Machine) -> Result<Machine, Chip8Error> {
    if m.pc + 1 >= MEMORY_SIZE {
        Err(Chip8Error::AddressOutOfRange { pc: m.pc })
    } else {
        match execute_op(m, fetch_word(m)) {
            Ok(m2) => Ok(tick(m2)),
            Err(e) => Err(e),
        }
    }
}

/// The outcome of `k` cycles in a row, stopping at the first error.
pub open spec fn run(m: Machine, k: nat) -> Result<Machine, Chip8Error>
    decreases k,
{
    if k == 0 {
        Ok(m)
    } else {
        match step(m) {
            Ok(m2) => run(m2, (k - 1) as nat),
            Err(e) => Err(e),
        }
    }
}

} // verus!
