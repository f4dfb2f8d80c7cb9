//! Construction, fontset installation, ROM loading, keypad input, fetch,
//! and every error the core can report.

use chip8::exec::{chip8_execute, chip8_step};
use chip8::machine::{
    chip8_fetch, chip8_initialise, chip8_load_fontset, chip8_load_rom, chip8_set_keys, Chip8Error,
};

const FONTSET: [u8; 80] = [
    0xF0, 0x90, 0x90, 0x90, 0xF0, 0x20, 0x60, 0x20, 0x20, 0x70, 0xF0, 0x10, 0xF0, 0x80, 0xF0,
    0xF0, 0x10, 0xF0, 0x10, 0xF0, 0x90, 0x90, 0xF0, 0x10, 0x10, 0xF0, 0x80, 0xF0, 0x10, 0xF0,
    0xF0, 0x80, 0xF0, 0x90, 0xF0, 0xF0, 0x10, 0x20, 0x40, 0x40, 0xF0, 0x90, 0xF0, 0x90, 0xF0,
    0xF0, 0x90, 0xF0, 0x10, 0xF0, 0xF0, 0x90, 0xF0, 0x90, 0x90, 0xE0, 0x90, 0xE0, 0x90, 0xE0,
    0xF0, 0x80, 0x80, 0x80, 0xF0, 0xE0, 0x90, 0x90, 0x90, 0xE0, 0xF0, 0x80, 0xF0, 0x80, 0xF0,
    0xF0, 0x80, 0xF0, 0x80, 0x80,
];

#[test]
fn zero_init_and_fontset() {
    let mut c8 = chip8_initialise();
    assert_eq!(c8.pc, 0x200);
    assert_eq!(c8.sp, 0);
    assert_eq!(c8.i, 0);
    assert_eq!(c8.opcode, 0);
    assert_eq!(c8.delay_timer, 0);
    assert_eq!(c8.sound_timer, 0);
    assert!(!c8.draw_flag);
    assert!(c8.v.iter().all(|&b| b == 0));
    assert!(c8.stack.iter().all(|&w| w == 0));
    assert!(c8.gfx.iter().all(|&b| b == 0));
    assert!(c8.key.iter().all(|&b| b == 0));
    assert!(c8.memory.iter().all(|&b| b == 0));

    chip8_load_fontset(&mut c8);
    assert_eq!(&c8.memory[0..80], &FONTSET[..]);
    assert!(c8.memory[80..4096].iter().all(|&b| b == 0));
}

#[test]
fn load_rom_places_image_at_0x200() {
    let mut c8 = chip8_initialise();
    let rom = [0x1A, 0x2A, 0xFF];
    assert_eq!(chip8_load_rom(&mut c8, &rom), Ok(()));
    assert_eq!(c8.memory[0x200], 0x1A);
    assert_eq!(c8.memory[0x201], 0x2A);
    assert_eq!(c8.memory[0x202], 0xFF);
    assert_eq!(c8.memory[0x203], 0);
    assert_eq!(c8.memory[0x1FF], 0);
}

#[test]
fn load_rom_accepts_maximum_and_refuses_larger() {
    let mut c8 = chip8_initialise();
    let full = vec![0xABu8; 3584];
    assert_eq!(chip8_load_rom(&mut c8, &full), Ok(()));
    assert_eq!(c8.memory[4095], 0xAB);

    let mut c8 = chip8_initialise();
    let too_big = vec![0xABu8; 3585];
    assert_eq!(chip8_load_rom(&mut c8, &too_big), Err(Chip8Error::RomTooLarge));
    assert_eq!(c8.memory[0x200], 0, "a refused ROM leaves memory untouched");
    assert_eq!(c8.pc, 0x200);
}

#[test]
fn set_keys_overwrites_the_keypad() {
    let mut c8 = chip8_initialise();
    let keys: [u8; 16] = [0, 1, 0, 0, 1, 0, 0, 0, 0, 0, 0, 0, 0, 0, 0, 1];
    chip8_set_keys(&mut c8, &keys);
    assert_eq!(&c8.key[..], &keys[..]);
    let clear: [u8; 16] = [0; 16];
    chip8_set_keys(&mut c8, &clear);
    assert!(c8.key.iter().all(|&b| b == 0));
}

#[test]
fn fetch_combines_two_bytes_and_checks_pc() {
    let mut c8 = chip8_initialise();
    c8.memory[0x200] = 0xAB;
    c8.memory[0x201] = 0xCD;
    assert_eq!(chip8_fetch(&mut c8), Ok(()));
    assert_eq!(c8.opcode, 0xABCD);
    assert_eq!(c8.pc, 0x200, "fetch itself does not move pc");

    c8.pc = 0xFFF;
    assert_eq!(chip8_fetch(&mut c8), Err(Chip8Error::PcOutOfBounds));
    assert_eq!(c8.opcode, 0xABCD, "a refused fetch changes nothing");
}

#[test]
fn step_reports_pc_out_of_bounds() {
    let mut c8 = chip8_initialise();
    c8.pc = 0xFFF;
    assert_eq!(chip8_step(&mut c8), Err(Chip8Error::PcOutOfBounds));
    assert_eq!(c8.pc, 0xFFF);
}

#[test]
fn return_with_empty_stack_underflows() {
    let mut c8 = chip8_initialise();
    c8.opcode = 0x00EE;
    assert_eq!(chip8_execute(&mut c8), Err(Chip8Error::StackUnderflow));
    assert_eq!(c8.pc, 0x200, "a stopped machine is left untouched");
}

#[test]
fn call_with_full_stack_overflows() {
    let mut c8 = chip8_initialise();
    c8.sp = 16;
    c8.opcode = 0x2ABC;
    assert_eq!(chip8_execute(&mut c8), Err(Chip8Error::StackOverflow));
    assert_eq!(c8.pc, 0x200);
    assert_eq!(c8.sp, 16);
}

#[test]
fn unknown_patterns_are_refused() {
    for op in [0x0000u16, 0x000E, 0x5AB1, 0x8ABA, 0x9AB3, 0xE1FF, 0xF1FF] {
        let mut c8 = chip8_initialise();
        c8.opcode = op;
        assert_eq!(
            chip8_execute(&mut c8),
            Err(Chip8Error::UnknownOpcode),
            "opcode {op:#06X} must be refused"
        );
        assert_eq!(c8.pc, 0x200);
    }
}

#[test]
fn bcd_past_memory_end_is_refused() {
    let mut c8 = chip8_initialise();
    c8.i = 4094;
    c8.v[1] = 7;
    c8.opcode = 0xF133;
    assert_eq!(chip8_execute(&mut c8), Err(Chip8Error::MemoryAccessOutOfBounds));
    assert_eq!(c8.memory[4094], 0);
}

#[test]
fn draw_past_memory_end_is_refused() {
    let mut c8 = chip8_initialise();
    c8.i = 4090;
    c8.opcode = 0xD00F;
    assert_eq!(chip8_execute(&mut c8), Err(Chip8Error::MemoryAccessOutOfBounds));
    assert!(!c8.draw_flag);
}

#[test]
fn register_store_past_memory_end_is_refused() {
    let mut c8 = chip8_initialise();
    c8.i = 4090;
    c8.opcode = 0xF755;
    assert_eq!(chip8_execute(&mut c8), Err(Chip8Error::MemoryAccessOutOfBounds));
    c8.opcode = 0xF765;
    assert_eq!(chip8_execute(&mut c8), Err(Chip8Error::MemoryAccessOutOfBounds));
    c8.opcode = 0xF555;
    assert_eq!(chip8_execute(&mut c8), Ok(false), "i + x + 1 == 4096 still fits");
}
