use vstd::prelude::*;

use crate::model::{
    Machine, WaitState, Chip8Error, MEMORY_SIZE, DISPLAY_SIZE, STACK_DEPTH, step, run, tick, fetch_word, wrap8,
    first_pressed,
};

verus! {

/// The lowest pressed key: every key before it is up, and it is down
/// unless it is 16 (no key is down).
pub proof fn lemma_first_pressed(key: Seq<u8>, from: int)
    requires
        key.len() == 16,
        0 <= from <= 16,
    ensures
        from <= first_pressed(key, from) <= 16,
        forall|j: int| from <= j < first_pressed(key, from) ==> key[j] == 0,
        first_pressed(key, from) < 16 ==> key[first_pressed(key, from)] != 0,
    decreases 16 - from,
{
    if from < 16 && key[from] == 0 {
        lemma_first_pressed(key, from + 1);
    }
}

/// Loading an immediate into any register X and reading X back gives that
/// value, and the program counter moves on by exactly 2.
pub proof fn law_load_immediate(m: Machine, x: u16, nn: u8)
    requires
        m.wf(),
        m.pc + 1 < MEMORY_SIZE,
        x < 16,
        fetch_word(m) == 0x6000u16 | (x << 8u16) | (nn as u16),
    ensures
        match step(m) {
            Ok(m2) => m2.v[x as int] == nn && m2.pc == m.pc + 2,
            Err(_) => false,
        },
{
    let op = fetch_word(m);
    assert(op & 0xF000u16 == 0x6000u16 && (op & 0x0F00u16) >> 8u16 == x && (op & 0x00FFu16) as u8
        == nn) by (bit_vector)
        requires
            op == 0x6000u16 | (x << 8u16) | (nn as u16),
            x < 16,
    ;
}

/// One cycle on a call instruction with room on the stack.
proof fn lemma_step_call(m: Machine, a: u16)
    requires
        m.wf(),
        m.pc + 1 < MEMORY_SIZE,
        a < 0x1000,
        m.sp < STACK_DEPTH,
        fetch_word(m) == 0x2000u16 | a,
    ensures
        step(m) == Ok::<Machine, Chip8Error>(
            tick(Machine { stack: m.stack.update(m.sp as int, m.pc), sp: (m.sp + 1) as u16, pc: a, ..m }),
        ),
{
    let op = fetch_word(m);
    assert(op & 0xF000u16 == 0x2000u16 && op & 0x0FFFu16 == a) by (bit_vector)
        requires
            op == 0x2000u16 | a,
            a < 0x1000,
    ;
}

/// One cycle on a return instruction with a call on the stack.
proof fn lemma_step_return(m: Machine)
    requires
        m.wf(),
        m.pc + 1 < MEMORY_SIZE,
        0 < m.sp <= STACK_DEPTH,
        m.stack[m.sp - 1] + 2 <= u16::MAX,
        fetch_word(m) == 0x00EEu16,
    ensures
        step(m) == Ok::<Machine, Chip8Error>(
            tick(Machine { sp: (m.sp - 1) as u16, pc: (m.stack[m.sp - 1] + 2) as u16, ..m }),
        ),
{
    assert(0x00EEu16 & 0xF000u16 == 0u16) by (bit_vector);
}

/// A call to address A made at P, followed by a return, leaves the program
/// counter at P + 2 and the stack as deep as before the call.
pub proof fn law_call_return(m: Machine, a: u16)
    requires
        m.wf(),
        m.pc + 1 < MEMORY_SIZE,
        a < 0x1000,
        a + 1 < MEMORY_SIZE,
        m.sp < STACK_DEPTH,
        fetch_word(m) == 0x2000u16 | a,
        m.memory[a as int] == 0x00,
        m.memory[a + 1] == 0xEE,
    ensures
        match run(m, 2) {
            Ok(m2) => m2.pc == m.pc + 2 && m2.sp == m.sp,
            Err(_) => false,
        },
{
    lemma_step_call(m, a);
    let m1 = tick(Machine { stack: m.stack.update(m.sp as int, m.pc), sp: (m.sp + 1) as u16, pc: a, ..m });
    assert(((0u8 as u16) << 8u16) | (0xEEu8 as u16) == 0x00EEu16) by (bit_vector);
    assert(fetch_word(m1) == 0x00EE);
    lemma_step_return(m1);
    let m2 = tick(Machine { sp: (m1.sp - 1) as u16, pc: (m1.stack[m1.sp - 1] + 2) as u16, ..m1 });
    assert(run(m2, 0) == Ok::<Machine, Chip8Error>(m2));
    assert(run(m1, 1) == Ok::<Machine, Chip8Error>(m2));
}

/// A skip instruction moves the program counter on by 4 when its condition
/// holds and by 2 when it does not: 3XNN on V[X] == NN, 4XNN on V[X] != NN,
/// 5XY0 on V[X] == V[Y], 9XY0 on V[X] != V[Y].
pub proof fn law_skip(m: Machine, group: u16, x: u16, y: u16, nn: u8)
    requires
        m.wf(),
        m.pc + 1 < MEMORY_SIZE,
        group == 3 || group == 4 || group == 5 || group == 9,
        x < 16,
        y < 16,
        group == 3 || group == 4 ==> fetch_word(m) == (group << 12u16) | (x << 8u16) | (nn as u16),
        group == 5 || group == 9 ==> fetch_word(m) == (group << 12u16) | (x << 8u16) | (y << 4u16),
    ensures
        match step(m) {
            Ok(m2) => m2.pc == m.pc + if (group == 3 && m.v[x as int] == nn) || (group == 4
                && m.v[x as int] != nn) || (group == 5 && m.v[x as int] == m.v[y as int]) || (
            group == 9 && m.v[x as int] != m.v[y as int]) {
                4int
            } else {
                2int
            },
            Err(_) => false,
        },
{
    let op = fetch_word(m);
    if group == 3 || group == 4 {
        assert(op & 0xF000u16 == group << 12u16 && (op & 0x0F00u16) >> 8u16 == x && (op & 0x00FFu16)
            as u8 == nn) by (bit_vector)
            requires
                op == (group << 12u16) | (x << 8u16) | (nn as u16),
                group < 16,
                x < 16,
        ;
        assert(3u16 << 12u16 == 0x3000u16 && 4u16 << 12u16 == 0x4000u16) by (bit_vector);
    } else {
        assert(op & 0xF000u16 == group << 12u16 && (op & 0x0F00u16) >> 8u16 == x && (op & 0x00F0u16)
            >> 4u16 == y && op & 0x000Fu16 == 0) by (bit_vector)
            requires
                op == (group << 12u16) | (x << 8u16) | (y << 4u16),
                group < 16,
                x < 16,
                y < 16,
        ;
        assert(5u16 << 12u16 == 0x5000u16 && 9u16 << 12u16 == 0x9000u16) by (bit_vector);
    }
}

/// 8XY4 (X not the flag register): V[X] becomes (a + b) mod 256, and the
/// flag is 1 exactly when a + b exceeds 255.
pub proof fn law_add_carry(m: Machine, x: u16, y: u16)
    requires
        m.wf(),
        m.pc + 1 < MEMORY_SIZE,
        x < 15,
        y < 16,
        fetch_word(m) == 0x8004u16 | (x << 8u16) | (y << 4u16),
    ensures
        match step(m) {
            Ok(m2) => {
                let sum = m.v[x as int] + m.v[y as int];
                &&& m2.v[x as int] == sum % 256
                &&& m2.v[15] == if sum > 255 { 1u8 } else { 0u8 }
            },
            Err(_) => false,
        },
{
    let op = fetch_word(m);
    assert(op & 0xF000u16 == 0x8000u16 && (op & 0x0F00u16) >> 8u16 == x && (op & 0x00F0u16) >> 4u16
        == y && op & 0x000Fu16 == 4) by (bit_vector)
        requires
            op == 0x8004u16 | (x << 8u16) | (y << 4u16),
            x < 16,
            y < 16,
    ;
}

/// 8XY5: the flag is 1 exactly when V[X] >= V[Y] before the subtraction (no
/// borrow), whatever the wrapped difference; for X not the flag register,
/// V[X] becomes that difference mod 256.
pub proof fn law_sub_no_borrow(m: Machine, x: u16, y: u16)
    requires
        m.wf(),
        m.pc + 1 < MEMORY_SIZE,
        x < 16,
        y < 16,
        fetch_word(m) == 0x8005u16 | (x << 8u16) | (y << 4u16),
    ensures
        match step(m) {
            Ok(m2) => {
                &&& m2.v[15] == if m.v[x as int] >= m.v[y as int] { 1u8 } else { 0u8 }
                &&& x != 15 ==> m2.v[x as int] == wrap8(m.v[x as int] - m.v[y as int])
            },
            Err(_) => false,
        },
{
    let op = fetch_word(m);
    assert(op & 0xF000u16 == 0x8000u16 && (op & 0x0F00u16) >> 8u16 == x && (op & 0x00F0u16) >> 4u16
        == y && op & 0x000Fu16 == 5) by (bit_vector)
        requires
            op == 0x8005u16 | (x << 8u16) | (y << 4u16),
            x < 16,
            y < 16,
    ;
}

/// A key wait with no key down blocks: each of `k >= 1` cycles leaves the
/// program counter, the registers and both timers as they were, with the
/// engine marked as waiting on register X.
pub proof fn law_key_wait_blocks(m: Machine, x: u16, k: nat)
    requires
        m.wf(),
        m.pc + 1 < MEMORY_SIZE,
        x < 16,
        fetch_word(m) == 0xF00Au16 | (x << 8u16),
        forall|j: int| 0 <= j < 16 ==> m.key[j] == 0,
        k >= 1,
    ensures
        run(m, k) == Ok::<Machine, Chip8Error>(Machine { wait: WaitState::AwaitingKey(x as u8), ..m }),
    decreases k,
{
    let op = fetch_word(m);
    assert(op & 0xF000u16 == 0xF000u16 && (op & 0x0F00u16) >> 8u16 == x && (op & 0x00FFu16) as u8
        == 0x0Au8) by (bit_vector)
        requires
            op == 0xF00Au16 | (x << 8u16),
            x < 16,
    ;
    lemma_first_pressed(m.key, 0);
    let m1 = Machine { wait: WaitState::AwaitingKey(x as u8), ..m };
    assert(step(m) == Ok::<Machine, Chip8Error>(m1));
    if k > 1 {
        law_key_wait_blocks(m1, x, (k - 1) as nat);
        assert(Machine { wait: WaitState::AwaitingKey(x as u8), ..m1 } == m1);
    } else {
        assert(run(m1, 0) == Ok::<Machine, Chip8Error>(m1));
    }
}

/// A key wait with some key down resolves in one cycle: V[X] receives the
/// lowest index of a pressed key, the program counter moves on by 2, the
/// wait ends and both timers count down again.
pub proof fn law_key_wait_resolves(m: Machine, x: u16)
    requires
        m.wf(),
        m.pc + 1 < MEMORY_SIZE,
        x < 16,
        fetch_word(m) == 0xF00Au16 | (x << 8u16),
        exists|j: int| 0 <= j < 16 && m.key[j] != 0,
    ensures
        match step(m) {
            Ok(m2) => {
                let k = m2.v[x as int] as int;
                &&& 0 <= k < 16
                &&& m.key[k] != 0
                &&& forall|j: int| 0 <= j < k ==> m.key[j] == 0
                &&& m2.pc == m.pc + 2
                &&& m2.wait == WaitState::Running
                &&& m2.delay_timer == if m.delay_timer > 0 { m.delay_timer - 1 } else { 0 }
                &&& m2.sound_timer == if m.sound_timer > 0 { m.sound_timer - 1 } else { 0 }
            },
            Err(_) => false,
        },
{
    let op = fetch_word(m);
    assert(op & 0xF000u16 == 0xF000u16 && (op & 0x0F00u16) >> 8u16 == x && (op & 0x00FFu16) as u8
        == 0x0Au8) by (bit_vector)
        requires
            op == 0xF00Au16 | (x << 8u16),
            x < 16,
    ;
    lemma_first_pressed(m.key, 0);
}

/// Clearing the display twice in a row leaves it as clearing it once: every
/// pixel off.
pub proof fn law_clear_idempotent(m: Machine)
    requires
        m.wf(),
        m.pc + 3 < MEMORY_SIZE,
        fetch_word(m) == 0x00E0u16,
        m.memory[m.pc + 2] == 0x00,
        m.memory[m.pc + 3] == 0xE0,
    ensures
        match (run(m, 1), run(m, 2)) {
            (Ok(m1), Ok(m2)) => m2.gfx == m1.gfx && m1.gfx == Seq::new(DISPLAY_SIZE as nat, |p: int| 0u8),
            _ => false,
        },
{
    assert(0x00E0u16 & 0xF000u16 == 0u16) by (bit_vector);
    assert(((0u8 as u16) << 8u16) | (0xE0u8 as u16) == 0x00E0u16) by (bit_vector);
    let m1 = step(m)->Ok_0;
    assert(m1.pc == m.pc + 2 && m1.memory == m.memory);
    assert(fetch_word(m1) == 0x00E0);
    let m2 = step(m1)->Ok_0;
    assert(run(m1, 0) == Ok::<Machine, Chip8Error>(m1));
    assert(run(m2, 0) == Ok::<Machine, Chip8Error>(m2));
    assert(run(m1, 1) == Ok::<Machine, Chip8Error>(m2));
}

} // verus!
