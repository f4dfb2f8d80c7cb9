//! End-to-end cycles through `chip8_step`, the arithmetic flags, drawing,
//! BCD, register transfer, timers, keypad waits, and the quirk switches.

use chip8::exec::{chip8_execute, chip8_step, test_opcode_0x8000, test_opcode_0x9000};
use chip8::machine::{
    chip8_initialise, chip8_load_fontset, chip8_load_rom, chip8_set_keys, Chip8Error,
};

#[test]
fn jump_scenario() {
    let mut c8 = chip8_initialise();
    assert_eq!(chip8_load_rom(&mut c8, &[0x1A, 0x2A]), Ok(()));
    assert_eq!(chip8_step(&mut c8), Ok(false));
    assert_eq!(c8.pc, 0x0A2A);
}

#[test]
fn call_then_return_scenario() {
    let mut c8 = chip8_initialise();
    assert_eq!(chip8_load_rom(&mut c8, &[0x2A, 0xBC]), Ok(()));
    c8.memory[0x0ABC] = 0x00;
    c8.memory[0x0ABD] = 0xEE;
    assert_eq!(chip8_step(&mut c8), Ok(false));
    assert_eq!(c8.pc, 0x0ABC);
    assert_eq!(c8.sp, 1);
    assert_eq!(chip8_step(&mut c8), Ok(false));
    assert_eq!(c8.pc, 0x202);
    assert_eq!(c8.sp, 0);
    assert_eq!(c8.stack[0], 0x202);
}

#[test]
fn skip_equal_scenario() {
    let mut c8 = chip8_initialise();
    assert_eq!(chip8_load_rom(&mut c8, &[0x31, 0xAB, 0x00, 0x00, 0x31, 0xAA]), Ok(()));
    c8.v[1] = 0xAB;
    assert_eq!(chip8_step(&mut c8), Ok(false));
    assert_eq!(c8.pc, 0x204);
    assert_eq!(chip8_step(&mut c8), Ok(false));
    assert_eq!(c8.pc, 0x206);
}

#[test]
fn add_with_carry_scenario() {
    let mut c8 = chip8_initialise();
    assert_eq!(chip8_load_rom(&mut c8, &[0x81, 0x24]), Ok(()));
    c8.v[1] = 0xFF;
    c8.v[2] = 0x01;
    assert_eq!(chip8_step(&mut c8), Ok(false));
    assert_eq!(c8.v[1], 0x00);
    assert_eq!(c8.v[15], 1);
}

#[test]
fn add_without_carry_clears_vf() {
    let mut c8 = chip8_initialise();
    c8.opcode = 0x8124;
    c8.v[1] = 0x0F;
    c8.v[2] = 0x01;
    c8.v[15] = 1;
    assert_eq!(chip8_execute(&mut c8), Ok(false));
    assert_eq!(c8.v[1], 0x10);
    assert_eq!(c8.v[15], 0);
}

#[test]
fn clear_screen_scenario() {
    let mut c8 = chip8_initialise();
    assert_eq!(chip8_load_rom(&mut c8, &[0x00, 0xE0]), Ok(()));
    c8.gfx = vec![1; 2048];
    assert_eq!(chip8_step(&mut c8), Ok(false));
    assert!(c8.gfx.iter().all(|&b| b == 0));
    assert!(c8.draw_flag);
    assert_eq!(c8.pc, 0x202);
}

#[test]
fn draw_digit_zero_scenario() {
    let mut c8 = chip8_initialise();
    chip8_load_fontset(&mut c8);
    c8.v[0] = 0;
    c8.v[1] = 0;
    c8.opcode = 0xF029;
    assert_eq!(chip8_execute(&mut c8), Ok(false));
    assert_eq!(c8.i, 0);
    c8.opcode = 0xD015;
    assert_eq!(chip8_execute(&mut c8), Ok(false));
    let glyph: [u8; 5] = [0xF0, 0x90, 0x90, 0x90, 0xF0];
    for (row, byte) in glyph.iter().enumerate() {
        for col in 0..8 {
            let expected = (byte >> (7 - col)) & 1;
            assert_eq!(c8.gfx[row * 64 + col], expected, "pixel ({col}, {row})");
        }
    }
    assert_eq!(c8.v[15], 0);
    assert!(c8.draw_flag);
}

#[test]
fn draw_wraps_both_axes() {
    let mut c8 = chip8_initialise();
    c8.i = 0x400;
    for r in 0..4 {
        c8.memory[0x400 + r] = 0xFF;
    }
    c8.v[0] = 60;
    c8.v[1] = 30;
    c8.opcode = 0xD014;
    assert_eq!(chip8_execute(&mut c8), Ok(false));
    let cols = [60usize, 61, 62, 63, 0, 1, 2, 3];
    let rows = [30usize, 31, 0, 1];
    let mut lit = 0;
    for py in 0..32 {
        for px in 0..64 {
            let expected = cols.contains(&px) && rows.contains(&py);
            assert_eq!(c8.gfx[py * 64 + px] == 1, expected, "pixel ({px}, {py})");
            if c8.gfx[py * 64 + px] == 1 {
                lit += 1;
            }
        }
    }
    assert_eq!(lit, 32);
    assert_eq!(c8.v[15], 0);
}

#[test]
fn draw_twice_collides_and_clears() {
    let mut c8 = chip8_initialise();
    chip8_load_fontset(&mut c8);
    c8.v[0] = 10;
    c8.v[1] = 12;
    c8.i = 0;
    c8.opcode = 0xD015;
    assert_eq!(chip8_execute(&mut c8), Ok(false));
    assert_eq!(c8.v[15], 0, "first draw on a dark region does not collide");
    assert!(c8.gfx.iter().any(|&b| b == 1));
    c8.opcode = 0xD015;
    assert_eq!(chip8_execute(&mut c8), Ok(false));
    assert_eq!(c8.v[15], 1, "second identical draw collides");
    assert!(c8.gfx.iter().all(|&b| b == 0), "the region is dark again");
}

#[test]
fn bcd_of_254() {
    let mut c8 = chip8_initialise();
    c8.v[1] = 254;
    c8.i = 0x300;
    c8.opcode = 0xF133;
    assert_eq!(chip8_execute(&mut c8), Ok(false));
    assert_eq!(c8.memory[0x300], 2);
    assert_eq!(c8.memory[0x301], 5);
    assert_eq!(c8.memory[0x302], 4);
}

#[test]
fn store_load_round_trip() {
    let mut c8 = chip8_initialise();
    let values: [u8; 6] = [7, 0, 255, 3, 128, 42];
    for (k, &val) in values.iter().enumerate() {
        c8.v[k] = val;
    }
    c8.i = 0x250;
    c8.memory[0x256] = 0xEE;
    c8.opcode = 0xF555;
    assert_eq!(chip8_execute(&mut c8), Ok(false));
    assert_eq!(c8.memory[0x256], 0xEE, "the byte after the block is untouched");
    assert_eq!(c8.i, 0x250, "i is unchanged without the quirk");
    for k in 0..6 {
        c8.v[k] = 0;
    }
    c8.opcode = 0xF565;
    assert_eq!(chip8_execute(&mut c8), Ok(false));
    assert_eq!(&c8.v[0..6], &values[..]);
    assert_eq!(c8.v[6], 0, "registers past x are untouched");
}

#[test]
fn timers_count_down_and_beep_once() {
    let mut c8 = chip8_initialise();
    c8.delay_timer = 5;
    c8.opcode = 0x6007;
    assert_eq!(chip8_execute(&mut c8), Ok(false));
    assert_eq!(c8.v[0], 7);
    assert_eq!(c8.delay_timer, 4);

    let mut c8 = chip8_initialise();
    c8.opcode = 0x6007;
    assert_eq!(chip8_execute(&mut c8), Ok(false));
    assert_eq!(c8.delay_timer, 0, "a zero timer stays zero");

    let mut c8 = chip8_initialise();
    c8.v[0] = 2;
    c8.opcode = 0xF018;
    assert_eq!(chip8_execute(&mut c8), Ok(false));
    assert_eq!(c8.sound_timer, 1);
    c8.opcode = 0x6007;
    assert_eq!(chip8_execute(&mut c8), Ok(true), "the 1 to 0 transition beeps");
    assert_eq!(c8.sound_timer, 0);
    assert_eq!(chip8_execute(&mut c8), Ok(false), "no second beep");
}

#[test]
fn delay_timer_read_and_write() {
    let mut c8 = chip8_initialise();
    c8.v[3] = 9;
    c8.opcode = 0xF315;
    assert_eq!(chip8_execute(&mut c8), Ok(false));
    assert_eq!(c8.delay_timer, 8, "the set timer ticks once in the same cycle");
    c8.opcode = 0xF407;
    assert_eq!(chip8_execute(&mut c8), Ok(false));
    assert_eq!(c8.v[4], 8);
}

#[test]
fn key_skip_instructions() {
    let mut c8 = chip8_initialise();
    let mut keys: [u8; 16] = [0; 16];
    keys[7] = 1;
    chip8_set_keys(&mut c8, &keys);
    c8.v[2] = 7;
    c8.opcode = 0xE29E;
    assert_eq!(chip8_execute(&mut c8), Ok(false));
    assert_eq!(c8.pc, 0x204, "key 7 pressed: skip");
    c8.opcode = 0xE2A1;
    assert_eq!(chip8_execute(&mut c8), Ok(false));
    assert_eq!(c8.pc, 0x206, "key 7 pressed: no skip");
    c8.v[2] = 8;
    c8.opcode = 0xE29E;
    assert_eq!(chip8_execute(&mut c8), Ok(false));
    assert_eq!(c8.pc, 0x208, "key 8 not pressed: no skip");
    c8.opcode = 0xE2A1;
    assert_eq!(chip8_execute(&mut c8), Ok(false));
    assert_eq!(c8.pc, 0x20C, "key 8 not pressed: skip");
}

#[test]
fn key_wait_rewinds_until_pressed() {
    let mut c8 = chip8_initialise();
    c8.opcode = 0xF30A;
    assert_eq!(chip8_execute(&mut c8), Ok(false));
    assert_eq!(c8.pc, 0x200, "no key: pc stays on the wait");
    assert_eq!(chip8_execute(&mut c8), Ok(false));
    assert_eq!(c8.pc, 0x200);
    let mut keys: [u8; 16] = [0; 16];
    keys[5] = 1;
    keys[9] = 1;
    chip8_set_keys(&mut c8, &keys);
    assert_eq!(chip8_execute(&mut c8), Ok(false));
    assert_eq!(c8.v[3], 5, "the lowest pressed key is stored");
    assert_eq!(c8.pc, 0x202);
}

#[test]
fn random_masked_with_zero_is_zero() {
    let mut c8 = chip8_initialise();
    c8.v[1] = 0xAA;
    c8.opcode = 0xC100;
    assert_eq!(chip8_execute(&mut c8), Ok(false));
    assert_eq!(c8.v[1], 0, "a zero mask forces zero whatever the random byte");
    c8.opcode = 0xC20F;
    assert_eq!(chip8_execute(&mut c8), Ok(false));
    assert!(c8.v[2] <= 0x0F, "the mask bounds the stored byte");
}

#[test]
fn register_ops() {
    let mut c8 = chip8_initialise();
    c8.v[1] = 0b1100;
    c8.v[2] = 0b1010;
    c8.opcode = 0x8120;
    let _ = chip8_execute(&mut c8);
    assert_eq!(c8.v[1], 0b1010);
    c8.v[1] = 0b1100;
    c8.opcode = 0x8121;
    let _ = chip8_execute(&mut c8);
    assert_eq!(c8.v[1], 0b1110);
    c8.v[1] = 0b1100;
    c8.opcode = 0x8122;
    let _ = chip8_execute(&mut c8);
    assert_eq!(c8.v[1], 0b1000);
    c8.v[1] = 0b1100;
    c8.opcode = 0x8123;
    let _ = chip8_execute(&mut c8);
    assert_eq!(c8.v[1], 0b0110);
}

#[test]
fn subtraction_flags() {
    let mut c8 = chip8_initialise();
    c8.v[1] = 10;
    c8.v[2] = 3;
    c8.opcode = 0x8125;
    let _ = chip8_execute(&mut c8);
    assert_eq!(c8.v[1], 7);
    assert_eq!(c8.v[15], 1, "no borrow");

    c8.v[1] = 3;
    c8.v[2] = 10;
    c8.opcode = 0x8125;
    let _ = chip8_execute(&mut c8);
    assert_eq!(c8.v[1], 249);
    assert_eq!(c8.v[15], 0, "borrow");

    c8.v[1] = 3;
    c8.v[2] = 10;
    c8.opcode = 0x8127;
    let _ = chip8_execute(&mut c8);
    assert_eq!(c8.v[1], 7);
    assert_eq!(c8.v[15], 1, "no borrow the other way");
}

#[test]
fn shift_left_keeps_top_bit_in_vf() {
    let mut c8 = chip8_initialise();
    c8.v[1] = 0b1000_0001;
    c8.opcode = 0x810E;
    let _ = chip8_execute(&mut c8);
    assert_eq!(c8.v[1], 0b0000_0010);
    assert_eq!(c8.v[15], 1);
    c8.opcode = 0x810E;
    let _ = chip8_execute(&mut c8);
    assert_eq!(c8.v[1], 0b0000_0100);
    assert_eq!(c8.v[15], 0);
}

#[test]
fn index_register_ops() {
    let mut c8 = chip8_initialise();
    c8.opcode = 0xA123;
    let _ = chip8_execute(&mut c8);
    assert_eq!(c8.i, 0x123);
    c8.v[4] = 0x10;
    c8.opcode = 0xF41E;
    let _ = chip8_execute(&mut c8);
    assert_eq!(c8.i, 0x133);
    c8.i = 0xFFFF;
    c8.v[4] = 2;
    c8.opcode = 0xF41E;
    let _ = chip8_execute(&mut c8);
    assert_eq!(c8.i, 1, "i wraps at 16 bits");
    c8.v[5] = 0xB;
    c8.opcode = 0xF529;
    let _ = chip8_execute(&mut c8);
    assert_eq!(c8.i, 55, "the glyph of digit 0xB sits at 11 * 5");
}

#[test]
fn jump_plus_v0() {
    let mut c8 = chip8_initialise();
    c8.v[0] = 0x10;
    c8.opcode = 0xB300;
    let _ = chip8_execute(&mut c8);
    assert_eq!(c8.pc, 0x310);
}

#[test]
fn shift_quirk_uses_vy() {
    let mut c8 = chip8_initialise();
    c8.quirk_shift_vy = true;
    c8.v[1] = 0;
    c8.v[2] = 0b1010_0101;
    c8.opcode = 0x8126;
    let _ = chip8_execute(&mut c8);
    assert_eq!(c8.v[1], 0b0101_0010);
    assert_eq!(c8.v[15], 1);
    c8.v[1] = 0;
    c8.v[2] = 0b0100_0001;
    c8.opcode = 0x812E;
    let _ = chip8_execute(&mut c8);
    assert_eq!(c8.v[1], 0b1000_0010);
    assert_eq!(c8.v[15], 0);
}

#[test]
fn load_quirk_advances_i() {
    let mut c8 = chip8_initialise();
    c8.quirk_load_inc_i = true;
    c8.i = 0x300;
    c8.opcode = 0xF255;
    assert_eq!(chip8_execute(&mut c8), Ok(false));
    assert_eq!(c8.i, 0x303);
    c8.opcode = 0xF265;
    assert_eq!(chip8_execute(&mut c8), Ok(false));
    assert_eq!(c8.i, 0x306);
}

#[test]
fn opcode_probes_leave_a_fresh_machine() {
    let a = test_opcode_0x8000();
    assert_eq!(a.pc, 0x200);
    assert_eq!(a.opcode, 0);
    assert!(a.gfx.iter().all(|&b| b == 0));
    let b = test_opcode_0x9000();
    assert_eq!(b.pc, 0x200);
    assert_eq!(b.sp, 0);
}

#[test]
fn halting_error_leaves_state_inspectable() {
    let mut c8 = chip8_initialise();
    assert_eq!(chip8_load_rom(&mut c8, &[0x6A, 0x42, 0xFF, 0xFF]), Ok(()));
    assert_eq!(chip8_step(&mut c8), Ok(false));
    assert_eq!(c8.v[0xA], 0x42);
    assert_eq!(chip8_step(&mut c8), Err(Chip8Error::UnknownOpcode));
    assert_eq!(c8.pc, 0x202, "pc still points at the bad word");
    assert_eq!(c8.opcode, 0xFFFF);
    assert_eq!(c8.v[0xA], 0x42);
}
