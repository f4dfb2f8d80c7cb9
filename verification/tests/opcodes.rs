//! Per-opcode checks of the execute stage, driven through the `opcode`
//! register the way the fetch stage would fill it.

use chip8::exec::chip8_execute;
use chip8::machine::chip8_initialise;

#[test]
fn test_opcode_0x0000() {
    let mut c8 = chip8_initialise();
    c8.opcode = 0x00E0;
    c8.gfx = vec![255; 2048];

    let _ = chip8_execute(&mut c8);

    assert!(
        c8.gfx.iter().zip([0; 2048].iter()).all(|(a, b)| a == b),
        "c8.gfx not cleared properly."
    );
    assert_eq!(c8.pc, 514);
}

#[test]
fn test_opcode_0x000e() {
    let mut c8 = chip8_initialise();
    c8.opcode = 0x00EE;
    c8.sp = 1;
    c8.stack[0] = 524;

    let _ = chip8_execute(&mut c8);

    assert_eq!(c8.pc, 524, "Program counter set to new address.");
    assert_eq!(c8.sp, 0, "Stack pointer decremented.");
}

#[test]
fn test_opcode_0x1000() {
    let mut c8 = chip8_initialise();
    c8.opcode = 0x1A2A;

    let _ = chip8_execute(&mut c8);

    assert_eq!(c8.pc, 0x0A2A, "Program counter updated.");
}

#[test]
fn test_opcode_0x2000() {
    let mut c8 = chip8_initialise();
    c8.opcode = 0x2ABC;
    c8.pc = 0x23;

    let _ = chip8_execute(&mut c8);

    assert_eq!(c8.pc, 0x0ABC, "Program counter updated to new address.");
    assert_eq!(c8.sp, 1, "Stack poiter incremented.");
    assert_eq!(c8.stack[0], 0x23 + 2, "Stack holds previous address.");
}

#[test]
fn test_opcode_0x3000() {
    let mut c8 = chip8_initialise();
    c8.opcode = 0x31AB;
    c8.v[1] = 0xAB;

    let _ = chip8_execute(&mut c8);

    assert_eq!(c8.pc, 516, "Instruction skipped.");

    c8.opcode = 0x31AA;

    let _ = chip8_execute(&mut c8);

    assert_eq!(c8.pc, 518, "Program counter incremented.");
}

#[test]
fn test_opcode_0x4000() {
    let mut c8 = chip8_initialise();
    c8.opcode = 0x41AA;
    c8.v[1] = 0xAB;

    let _ = chip8_execute(&mut c8);

    assert_eq!(c8.pc, 516, "Instruction skipped.");

    c8.opcode = 0x41AB;

    let _ = chip8_execute(&mut c8);

    assert_eq!(c8.pc, 518, "Program counter incremented.");
}

#[test]
fn test_opcode_0x5000() {
    let mut c8 = chip8_initialise();
    c8.opcode = 0x5AB0;
    c8.v[0xA] = 1;
    c8.v[0xB] = 1;

    let _ = chip8_execute(&mut c8);

    assert_eq!(c8.pc, 516, "Instruction skipped.");

    c8.v[0xB] = 0;

    let _ = chip8_execute(&mut c8);

    assert_eq!(c8.pc, 518, "Program counter incremented.");
}

#[test]
fn test_opcode_0x7000() {
    let mut c8 = chip8_initialise();
    c8.opcode = 0x71FF;
    c8.v[1] = 0xFF;

    let _ = chip8_execute(&mut c8);
    assert_eq!(c8.v[1], 0xFE);

    c8.opcode = 0x71FF;
    c8.v[1] = 0;

    let _ = chip8_execute(&mut c8);
    assert_eq!(c8.v[1], 0xFF);

    c8.opcode = 0x7100;
    c8.v[1] = 0;

    let _ = chip8_execute(&mut c8);
    assert_eq!(c8.v[1], 0);

    c8.opcode = 0x71AB;
    c8.v[1] = 0x11;

    let _ = chip8_execute(&mut c8);
    assert_eq!(c8.v[1], 0xBC);
}

#[test]
fn test_opcode_0x8006() {
    let mut c8 = chip8_initialise();
    c8.opcode = 0x8106;
    c8.v[1] = 0b00110000;
    c8.v[15] = 1;

    let _ = chip8_execute(&mut c8);
    assert_eq!(c8.v[1], 0b00011000, "Vx shifted 1 bit right.");
    assert_eq!(c8.v[15], 0, "Carry flag set to 0.");

    c8.v[1] = 0b00110001;
    c8.v[15] = 0;
    let _ = chip8_execute(&mut c8);
    assert_eq!(c8.v[1], 0b00011000, "Vx shifted 1 bit right.");
    assert_eq!(c8.v[15], 1, "Carry flag set to 1.");
}
