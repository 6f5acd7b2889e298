#![allow(non_snake_case)]

use chip8::Chip8;

#[test]
fn test_00E0() {
    let mut game = Chip8::new();
    game.memory[0x200] = 0x00;
    game.memory[0x201] = 0xE0;
    game.gfx[0] = 1;
    game.gfx[2047] = 1;

    game.cycle().unwrap();

    assert!(game.gfx.iter().all(|p| *p == 0));
    assert_eq!(game.pc, 0x202);
}

#[test]
fn test_00EE() {
    let mut game = Chip8::new();
    game.memory[0x200] = 0x23;
    game.memory[0x201] = 0x00;
    game.memory[0x300] = 0x00;
    game.memory[0x301] = 0xEE;

    game.cycle().unwrap();
    game.cycle().unwrap();

    assert_eq!(game.pc, 0x202);
    assert_eq!(game.sp, 0);
}

#[test]
fn test_1NNN() {
    let mut game = Chip8::new();
    game.memory[0x200] = 0x13;
    game.memory[0x201] = 0x45;

    game.cycle().unwrap();

    assert_eq!(game.pc, 0x345);
}

#[test]
fn test_2NNN() {
    let mut game = Chip8::new();
    game.memory[0x200] = 0x21;
    game.memory[0x201] = 0x23;

    game.cycle().unwrap();

    assert_eq!(game.stack[0], 0x200);
    assert_eq!(game.stack[1], 0);
    assert_eq!(game.sp, 1);
    assert_eq!(game.pc, 0x123);
}

#[test]
// 3XNN - Skips the next instruction if VX equals NN.
fn test_3XNN() {
    let mut game = Chip8::new();
    game.memory[0x200] = 0x31;
    game.memory[0x201] = 0x42;
    game.memory[0x202] = 0x00;
    game.memory[0x203] = 0x00;
    game.memory[0x204] = 0x32;
    game.memory[0x205] = 0x42;

    game.V[1] = 0x42;
    game.V[2] = 0x22;

    game.cycle().unwrap();

    assert_eq!(game.pc, 0x204);

    game.cycle().unwrap();

    assert_eq!(game.pc, 0x206);
}

#[test]
// 4XNN - Skips the next instruction if VX doesn't equal NN.
fn test_4XNN() {
    let mut game = Chip8::new();
    game.memory[0x200] = 0x41;
    game.memory[0x201] = 0x42;
    game.memory[0x202] = 0x00;
    game.memory[0x203] = 0x00;
    game.memory[0x204] = 0x42;
    game.memory[0x205] = 0x42;

    game.V[1] = 0x22;
    game.V[2] = 0x42;

    game.cycle().unwrap();

    assert_eq!(game.pc, 0x204);

    game.cycle().unwrap();

    assert_eq!(game.pc, 0x206);
}

#[test]
// 5XY0 - Skips the next instruction if VX equals VY.
fn test_5XY0() {
    let mut game = Chip8::new();
    game.memory[0x200] = 0x51;
    game.memory[0x201] = 0x20;
    game.memory[0x202] = 0x00;
    game.memory[0x203] = 0x00;
    game.memory[0x204] = 0x53;
    game.memory[0x205] = 0x40;

    game.V[1] = 0x42;
    game.V[2] = 0x42;
    game.V[3] = 0x22;
    game.V[4] = 0x42;

    game.cycle().unwrap();

    assert_eq!(game.pc, 0x204);

    game.cycle().unwrap();

    assert_eq!(game.pc, 0x206);
}

#[test]
// 6XNN - Sets VX to NN.
fn test_6XNN() {
    let mut game = Chip8::new();
    game.memory[0x200] = 0x61;
    game.memory[0x201] = 0x23;

    game.cycle().unwrap();

    assert_eq!(game.V[1], 0x23);
    assert_eq!(game.pc, 0x202);
}

#[test]
// 7XNN - Adds NN to VX. (Carry flag is not changed).
fn test_7XNN() {
    let mut game = Chip8::new();
    game.memory[0x200] = 0x71;
    game.memory[0x201] = 0x23;
    game.memory[0x202] = 0x71;
    game.memory[0x203] = 0xFF;

    game.cycle().unwrap();

    assert_eq!(game.V[0xF], 0);
    assert_eq!(game.V[1], 0x23);
    assert_eq!(game.pc, 0x202);

    game.cycle().unwrap();

    assert_eq!(game.V[0xF], 0);
    assert_eq!(game.V[1], 0x22);
    assert_eq!(game.pc, 0x204);
}

#[test]
// 8XY0 - Sets VX to the value of VY.
fn test_8XY0() {
    let mut game = Chip8::new();
    game.memory[0x200] = 0x81;
    game.memory[0x201] = 0x20;
    game.V[0x2] = 0x42;

    game.cycle().unwrap();

    assert_eq!(game.V[0x2], 0x42);
    assert_eq!(game.V[0x1], 0x42);
    assert_eq!(game.pc, 0x202);
}

#[test]
// 8XY4 - Adds VY to VX. VF is set to 1 when there's a carry, and to 0 when there isn't.
fn test_8XY4() {
    let mut game = Chip8::new();
    game.memory[0x200] = 0x81;
    game.memory[0x201] = 0x24;
    game.memory[0x202] = 0x81;
    game.memory[0x203] = 0x34;
    game.V[0x1] = 0x42;
    game.V[0x2] = 0x16;
    game.V[0x3] = 0xFF;

    game.cycle().unwrap();

    assert_eq!(game.V[0xF], 0);
    assert_eq!(game.V[0x1], 0x58);
    assert_eq!(game.pc, 0x202);

    game.cycle().unwrap();

    assert_eq!(game.V[0xF], 1);
    assert_eq!(game.V[0x1], 0x57);
    assert_eq!(game.pc, 0x204);
}

#[test]
// 8XY5 - VY is subtracted from VX. VF is set to 0 when there's a borrow, and 1 when there isn't.
fn test_8XY5() {
    let mut game = Chip8::new();
    game.memory[0x200] = 0x81;
    game.memory[0x201] = 0x25;
    game.memory[0x202] = 0x81;
    game.memory[0x203] = 0x35;
    game.V[0x1] = 0x42;
    game.V[0x2] = 0x16;
    game.V[0x3] = 0xFF;

    game.cycle().unwrap();

    // 0x42 - 0x16 = 0x2C, no borrow.
    assert_eq!(game.V[0xF], 1);
    assert_eq!(game.V[0x1], 0x2C);
    assert_eq!(game.pc, 0x202);

    game.cycle().unwrap();

    // 0x2C - 0xFF wraps to 0x2D, with a borrow.
    assert_eq!(game.V[0xF], 0);
    assert_eq!(game.V[0x1], 0x2D);
    assert_eq!(game.pc, 0x204);
}

#[test]
// 9XY0 - Skips the next instruction if VX doesn't equal VY.
fn test_9XY0() {
    let mut game = Chip8::new();
    game.memory[0x200] = 0x91;
    game.memory[0x201] = 0x20;
    game.memory[0x202] = 0x00;
    game.memory[0x203] = 0x00;
    game.memory[0x204] = 0x93;
    game.memory[0x205] = 0x40;

    game.V[1] = 0x22;
    game.V[2] = 0x42;
    game.V[3] = 0x42;
    game.V[4] = 0x42;

    game.cycle().unwrap();

    assert_eq!(game.pc, 0x204);

    game.cycle().unwrap();

    assert_eq!(game.pc, 0x206);
}

#[test]
fn test_ANNN() {
    let mut game = Chip8::new();
    game.memory[0x200] = 0xA1;
    game.memory[0x201] = 0x23;

    game.cycle().unwrap();

    assert_eq!(game.I, 0x123);
    assert_eq!(game.pc, 0x202);
}

#[test]
fn test_BNNN() {
    let mut game = Chip8::new();
    game.memory[0x200] = 0xB3;
    game.memory[0x201] = 0x00;
    game.V[0] = 0x12;

    game.cycle().unwrap();

    assert_eq!(game.pc, 0x312);
}

#[test]
fn test_DXYN() {
    let mut game = Chip8::new();
    game.memory[0x200] = 0xD0;
    game.memory[0x201] = 0x04;

    game.memory[0x210] = 0b00011000;
    game.memory[0x211] = 0b00111100;
    game.memory[0x212] = 0b01111110;
    game.memory[0x213] = 0b11111111;

    game.I = 0x210;

    game.cycle().unwrap();

    assert_eq!(game.gfx[0..8], [0, 0, 0, 1, 1, 0, 0, 0]);
    assert_eq!(game.gfx[64..64 + 8], [0, 0, 1, 1, 1, 1, 0, 0]);
    assert_eq!(game.gfx[2 * 64..2 * 64 + 8], [0, 1, 1, 1, 1, 1, 1, 0]);
    assert_eq!(game.gfx[3 * 64..3 * 64 + 8], [1, 1, 1, 1, 1, 1, 1, 1]);
    assert_eq!(game.I, 0x210);
    assert_eq!(game.pc, 0x202);

    let mut game = Chip8::new();
    game.memory[0x200] = 0xD0;
    game.memory[0x201] = 0x05;

    game.memory[0x210] = 0xF0;
    game.memory[0x211] = 0x90;
    game.memory[0x212] = 0x90;
    game.memory[0x213] = 0x90;
    game.memory[0x214] = 0xF0;

    game.I = 0x210;

    game.cycle().unwrap();

    assert_eq!(game.gfx[0..8], [1, 1, 1, 1, 0, 0, 0, 0]);
    assert_eq!(game.gfx[64..64 + 8], [1, 0, 0, 1, 0, 0, 0, 0]);
    assert_eq!(game.gfx[2 * 64..2 * 64 + 8], [1, 0, 0, 1, 0, 0, 0, 0]);
    assert_eq!(game.gfx[3 * 64..3 * 64 + 8], [1, 0, 0, 1, 0, 0, 0, 0]);
    assert_eq!(game.gfx[4 * 64..4 * 64 + 8], [1, 1, 1, 1, 0, 0, 0, 0]);
    assert_eq!(game.I, 0x210);
    assert_eq!(game.pc, 0x202);
}

#[test]
// FX07 - Sets VX to the value of the delay timer.
fn test_FX07() {
    let mut game = Chip8::new();
    game.memory[0x200] = 0xF3;
    game.memory[0x201] = 0x07;
    game.delay_timer = 23;

    game.cycle().unwrap();

    assert_eq!(game.V[0x3], 23);
    assert_eq!(game.pc, 0x202);
}

#[test]
// FX0A - A key press is awaited, and then stored in VX.
fn test_FX0A() {
    let mut game = Chip8::new();
    game.memory[0x200] = 0xF4;
    game.memory[0x201] = 0x0A;
    game.delay_timer = 5;

    game.cycle().unwrap();

    assert_eq!(game.delay_timer, 5);

    game.cycle().unwrap();

    assert_eq!(game.delay_timer, 5);

    game.key[0x8] = 1;

    game.cycle().unwrap();

    assert_eq!(game.V[0x4], 0x8);
    assert_eq!(game.pc, 0x202);
}
