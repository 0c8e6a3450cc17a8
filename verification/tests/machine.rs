//! Tests of the machine state and the decode/execute cycle, driven through
//! the public interface with a fixed random byte where determinism matters.

use chip8::chip8::Chip8;

/// A machine with `program` loaded at the cartridge address.
fn boot(program: &[u8]) -> Chip8 {
    let mut chip = Chip8::new();
    let rom: Vec<u8> = program.to_vec();
    assert!(chip.load_rom(&rom));
    chip
}

#[test]
fn new_machine_layout() {
    let chip = Chip8::new();
    assert_eq!(chip.pc(), 0x200);
    assert_eq!(chip.idx(), 0);
    assert_eq!(chip.sp(), 0);
    assert_eq!(chip.delay_timer, 0);
    assert_eq!(chip.sound_timer, 0);
    assert!(!chip.draw_flag);
    assert_eq!(chip.memory.len(), 4096);
    assert_eq!(chip.memory[0x80], 0xF0);
    assert_eq!(chip.memory[0x80 + 79], 0x80);
    assert_eq!(chip.memory[0x7F], 0);
    assert_eq!(chip.memory[0xD0], 0);
    assert!(chip.gfx.iter().all(|&p| p == 0));
    assert!(chip.reg.iter().all(|&r| r == 0));
    assert!(chip.key.iter().all(|&k| k == 0));
}

#[test]
fn load_rom_boundaries() {
    let mut chip = Chip8::new();
    let largest: Vec<u8> = vec![0xAB; 3584];
    assert!(chip.load_rom(&largest));
    assert_eq!(chip.memory[0x200], 0xAB);
    assert_eq!(chip.memory[4095], 0xAB);

    let mut chip = Chip8::new();
    let too_big: Vec<u8> = vec![0xAB; 3585];
    assert!(!chip.load_rom(&too_big));
    assert_eq!(chip.memory[0x200], 0);
}

#[test]
fn set_then_add_immediate() {
    // 6105: reg1 = 5; 7103: reg1 += 3
    let mut chip = boot(&[0x61, 0x05, 0x71, 0x03]);
    chip.cycle_with_random(0);
    chip.cycle_with_random(0);
    assert_eq!(chip.reg[1], 8);
    assert_eq!(chip.pc(), 0x204);
}

#[test]
fn add_immediate_wraps() {
    // 61FF: reg1 = 0xFF; 7103: reg1 += 3 wraps to 0x02
    let mut chip = boot(&[0x61, 0xFF, 0x71, 0x03]);
    chip.cycle_with_random(0);
    chip.cycle_with_random(0);
    assert_eq!(chip.reg[1], 0x02);
}

#[test]
fn add_registers_carry_flag() {
    // 61FF 6201 8124: 0xFF + 0x01 wraps to 0, carry set
    let mut chip = boot(&[0x61, 0xFF, 0x62, 0x01, 0x81, 0x24]);
    for _ in 0..3 {
        chip.cycle_with_random(0);
    }
    assert_eq!(chip.reg[1], 0);
    assert_eq!(chip.reg[0xF], 1);

    // 6110 6220 8124: 0x10 + 0x20 = 0x30, no carry
    let mut chip = boot(&[0x61, 0x10, 0x62, 0x20, 0x81, 0x24]);
    for _ in 0..3 {
        chip.cycle_with_random(0);
    }
    assert_eq!(chip.reg[1], 0x30);
    assert_eq!(chip.reg[0xF], 0);

    // 6100 6200 8124: 0 + 0 = 0, no carry
    let mut chip = boot(&[0x61, 0x00, 0x62, 0x00, 0x81, 0x24]);
    for _ in 0..3 {
        chip.cycle_with_random(0);
    }
    assert_eq!(chip.reg[1], 0);
    assert_eq!(chip.reg[0xF], 0);
}

#[test]
fn sub_registers_borrow_flag() {
    // 6105 6203 8125: 5 - 3 = 2, no borrow: flag 1
    let mut chip = boot(&[0x61, 0x05, 0x62, 0x03, 0x81, 0x25]);
    for _ in 0..3 {
        chip.cycle_with_random(0);
    }
    assert_eq!(chip.reg[1], 2);
    assert_eq!(chip.reg[0xF], 1);

    // 6103 6205 8125: 3 - 5 wraps to 0xFE, borrow: flag 0
    let mut chip = boot(&[0x61, 0x03, 0x62, 0x05, 0x81, 0x25]);
    for _ in 0..3 {
        chip.cycle_with_random(0);
    }
    assert_eq!(chip.reg[1], 0xFE);
    assert_eq!(chip.reg[0xF], 0);
}

#[test]
fn reversed_sub_borrow_flag() {
    // 6103 6205 8127: reg1 = 5 - 3 = 2, no borrow: flag 1
    let mut chip = boot(&[0x61, 0x03, 0x62, 0x05, 0x81, 0x27]);
    for _ in 0..3 {
        chip.cycle_with_random(0);
    }
    assert_eq!(chip.reg[1], 2);
    assert_eq!(chip.reg[0xF], 1);

    // 6105 6203 8127: reg1 = 3 - 5 wraps to 0xFE, borrow: flag 0
    let mut chip = boot(&[0x61, 0x05, 0x62, 0x03, 0x81, 0x27]);
    for _ in 0..3 {
        chip.cycle_with_random(0);
    }
    assert_eq!(chip.reg[1], 0xFE);
    assert_eq!(chip.reg[0xF], 0);
}

#[test]
fn shift_right_and_left() {
    // 6105 8106: reg1 = 5 >> 1 = 2, flag takes bit 0
    let mut chip = boot(&[0x61, 0x05, 0x81, 0x06]);
    chip.cycle_with_random(0);
    chip.cycle_with_random(0);
    assert_eq!(chip.reg[1], 2);
    assert_eq!(chip.reg[0xF], 1);

    // 6181 810E: reg1 = 0x81 << 1 = 0x02 (top bit lost), flag takes bit 7
    let mut chip = boot(&[0x61, 0x81, 0x81, 0x0E]);
    chip.cycle_with_random(0);
    chip.cycle_with_random(0);
    assert_eq!(chip.reg[1], 0x02);
    assert_eq!(chip.reg[0xF], 1);
}

#[test]
fn bitwise_register_ops() {
    // 610C 620A 8121: reg1 = 0x0C | 0x0A = 0x0E
    let mut chip = boot(&[0x61, 0x0C, 0x62, 0x0A, 0x81, 0x21]);
    for _ in 0..3 {
        chip.cycle_with_random(0);
    }
    assert_eq!(chip.reg[1], 0x0E);

    // 610C 620A 8122: reg1 = 0x0C & 0x0A = 0x08
    let mut chip = boot(&[0x61, 0x0C, 0x62, 0x0A, 0x81, 0x22]);
    for _ in 0..3 {
        chip.cycle_with_random(0);
    }
    assert_eq!(chip.reg[1], 0x08);

    // 610C 620A 8123: reg1 = 0x0C ^ 0x0A = 0x06
    let mut chip = boot(&[0x61, 0x0C, 0x62, 0x0A, 0x81, 0x23]);
    for _ in 0..3 {
        chip.cycle_with_random(0);
    }
    assert_eq!(chip.reg[1], 0x06);
}

#[test]
fn skip_instructions() {
    // 3105 with reg1 == 5: skip
    let mut chip = boot(&[0x61, 0x05, 0x31, 0x05]);
    chip.cycle_with_random(0);
    chip.cycle_with_random(0);
    assert_eq!(chip.pc(), 0x206);

    // 3106 with reg1 == 5: no skip
    let mut chip = boot(&[0x61, 0x05, 0x31, 0x06]);
    chip.cycle_with_random(0);
    chip.cycle_with_random(0);
    assert_eq!(chip.pc(), 0x204);

    // 4106 with reg1 == 5: skip
    let mut chip = boot(&[0x61, 0x05, 0x41, 0x06]);
    chip.cycle_with_random(0);
    chip.cycle_with_random(0);
    assert_eq!(chip.pc(), 0x206);

    // 5120 with reg1 == reg2 == 5: skip
    let mut chip = boot(&[0x61, 0x05, 0x62, 0x05, 0x51, 0x20]);
    for _ in 0..3 {
        chip.cycle_with_random(0);
    }
    assert_eq!(chip.pc(), 0x208);

    // 9120 with reg1 == 5, reg2 == 4: skip
    let mut chip = boot(&[0x61, 0x05, 0x62, 0x04, 0x91, 0x20]);
    for _ in 0..3 {
        chip.cycle_with_random(0);
    }
    assert_eq!(chip.pc(), 0x208);
}

#[test]
fn jumps() {
    // 1234: jump to 0x234
    let mut chip = boot(&[0x12, 0x34]);
    chip.cycle_with_random(0);
    assert_eq!(chip.pc(), 0x234);

    // 6010 B300: jump to 0x300 + reg0
    let mut chip = boot(&[0x60, 0x10, 0xB3, 0x00]);
    chip.cycle_with_random(0);
    chip.cycle_with_random(0);
    assert_eq!(chip.pc(), 0x310);
}

#[test]
fn call_return_round_trip() {
    // 2300 at 0x200 calls 0x300; 00EE there returns to 0x202
    let mut rom: Vec<u8> = vec![0; 0x102];
    rom[0] = 0x23;
    rom[1] = 0x00;
    rom[0x100] = 0x00;
    rom[0x101] = 0xEE;
    let mut chip = Chip8::new();
    assert!(chip.load_rom(&rom));
    chip.cycle_with_random(0);
    assert_eq!(chip.pc(), 0x300);
    assert_eq!(chip.sp(), 1);
    chip.cycle_with_random(0);
    assert_eq!(chip.pc(), 0x202);
    assert_eq!(chip.sp(), 0);
}

#[test]
fn return_on_empty_stack_halts_in_place() {
    let mut chip = boot(&[0x00, 0xEE]);
    chip.cycle_with_random(0);
    assert_eq!(chip.pc(), 0x200);
    assert_eq!(chip.sp(), 0);
}

#[test]
fn unknown_opcode_halts_in_place() {
    let mut chip = boot(&[0xFF, 0xFF]);
    chip.cycle_with_random(0);
    assert_eq!(chip.pc(), 0x200);
    chip.cycle_with_random(0);
    assert_eq!(chip.pc(), 0x200);
}

#[test]
fn clear_screen_zeroes_and_flags() {
    let mut chip = boot(&[0x00, 0xE0]);
    chip.gfx[5] = 1;
    chip.gfx[2047] = 1;
    chip.cycle_with_random(0);
    assert!(chip.gfx.iter().all(|&p| p == 0));
    assert!(chip.draw_flag);
    assert_eq!(chip.pc(), 0x202);
}

#[test]
fn draw_then_redraw_restores() {
    // A206: idx = 0x206; D001 twice draws the 0xFF sprite row at (0, 0)
    let mut chip = boot(&[0xA2, 0x06, 0xD0, 0x01, 0xD0, 0x01, 0xFF]);
    chip.cycle_with_random(0);
    chip.cycle_with_random(0);
    for j in 0..8 {
        assert_eq!(chip.gfx[j], 1);
    }
    assert_eq!(chip.reg[0xF], 0);
    assert!(chip.draw_flag);
    chip.draw_flag = false;
    chip.cycle_with_random(0);
    assert!(chip.gfx.iter().all(|&p| p == 0));
    assert_eq!(chip.reg[0xF], 1);
    assert!(chip.draw_flag);
}

#[test]
fn draw_wraps_around_buffer_end() {
    // reg0 = 60, reg1 = 31: columns 60..67 of the last row wrap to cells 0..3
    let mut chip = boot(&[0x60, 0x3C, 0x61, 0x1F, 0xA2, 0x08, 0xD0, 0x11, 0xFF]);
    for _ in 0..4 {
        chip.cycle_with_random(0);
    }
    for j in 2044..2048 {
        assert_eq!(chip.gfx[j], 1, "cell {} should be lit", j);
    }
    for j in 0..4 {
        assert_eq!(chip.gfx[j], 1, "cell {} should be lit", j);
    }
    assert_eq!(chip.gfx[4], 0);
    assert_eq!(chip.gfx[2043], 0);
}

#[test]
fn key_wait_blocks_until_pressed() {
    let mut chip = boot(&[0xF1, 0x0A]);
    chip.cycle_with_random(0);
    assert_eq!(chip.pc(), 0x200);
    chip.cycle_with_random(0);
    assert_eq!(chip.pc(), 0x200);
    let mut keys: Vec<u8> = vec![0; 16];
    keys[5] = 1;
    keys[7] = 1;
    chip.set_keys(&keys);
    chip.cycle_with_random(0);
    assert_eq!(chip.reg[1], 5);
    assert_eq!(chip.pc(), 0x202);
}

#[test]
fn skip_on_key_state() {
    // 6105, E19E with key 5 pressed: skip
    let mut chip = boot(&[0x61, 0x05, 0xE1, 0x9E]);
    chip.cycle_with_random(0);
    let mut keys: Vec<u8> = vec![0; 16];
    keys[5] = 1;
    chip.set_keys(&keys);
    chip.cycle_with_random(0);
    assert_eq!(chip.pc(), 0x206);

    // 6105, E1A1 with key 5 pressed: no skip
    let mut chip = boot(&[0x61, 0x05, 0xE1, 0xA1]);
    chip.cycle_with_random(0);
    let mut keys: Vec<u8> = vec![0; 16];
    keys[5] = 1;
    chip.set_keys(&keys);
    chip.cycle_with_random(0);
    assert_eq!(chip.pc(), 0x204);
}

#[test]
fn random_masked_with_zero_is_zero() {
    // C100: whatever the random byte, AND 0x00 gives 0
    let mut chip = boot(&[0xC1, 0x00]);
    chip.reg[1] = 0xAA;
    chip.cycle();
    assert_eq!(chip.reg[1], 0);
    assert_eq!(chip.pc(), 0x202);
}

#[test]
fn timer_opcodes() {
    // 6105 F115: delay timer = 5
    let mut chip = boot(&[0x61, 0x05, 0xF1, 0x15]);
    chip.cycle_with_random(0);
    chip.cycle_with_random(0);
    assert_eq!(chip.delay_timer, 5);

    // 6105 F118: sound timer = 5
    let mut chip = boot(&[0x61, 0x05, 0xF1, 0x18]);
    chip.cycle_with_random(0);
    chip.cycle_with_random(0);
    assert_eq!(chip.sound_timer, 5);

    // F207: reg2 = delay timer
    let mut chip = boot(&[0xF2, 0x07]);
    chip.delay_timer = 9;
    chip.cycle_with_random(0);
    assert_eq!(chip.reg[2], 9);
}

#[test]
fn index_register_opcodes() {
    // A123: idx = 0x123
    let mut chip = boot(&[0xA1, 0x23]);
    chip.cycle_with_random(0);
    assert_eq!(chip.idx(), 0x123);

    // 6105 F11E on top: idx += 5
    let mut chip = boot(&[0xA1, 0x23, 0x61, 0x05, 0xF1, 0x1E]);
    for _ in 0..3 {
        chip.cycle_with_random(0);
    }
    assert_eq!(chip.idx(), 0x128);
}

#[test]
fn font_glyph_address() {
    // 6107 F129: idx points at glyph 7, five bytes each from 0x80
    let mut chip = boot(&[0x61, 0x07, 0xF1, 0x29]);
    chip.cycle_with_random(0);
    chip.cycle_with_random(0);
    assert_eq!(chip.idx(), 0x80 + 7 * 5);
    assert_eq!(chip.memory[chip.idx() as usize], 0xF0);
}

#[test]
fn bcd_digit_order() {
    // 61EA A300 F133: 234 stored as [234 % 100, (234 % 100) / 10, 234 % 10]
    let mut chip = boot(&[0x61, 0xEA, 0xA3, 0x00, 0xF1, 0x33]);
    for _ in 0..3 {
        chip.cycle_with_random(0);
    }
    assert_eq!(chip.memory[0x300], 34);
    assert_eq!(chip.memory[0x301], 3);
    assert_eq!(chip.memory[0x302], 4);
}

#[test]
fn store_and_load_registers() {
    // 6005 6107 A300 F155: memory[0x300..] = reg0..=reg1
    let mut chip = boot(&[0x60, 0x05, 0x61, 0x07, 0xA3, 0x00, 0xF1, 0x55]);
    for _ in 0..4 {
        chip.cycle_with_random(0);
    }
    assert_eq!(chip.memory[0x300], 5);
    assert_eq!(chip.memory[0x301], 7);
    assert_eq!(chip.idx(), 0x300);

    // A204 F165: reg0..=reg1 loaded from the two bytes at 0x204
    let mut chip = boot(&[0xA2, 0x04, 0xF1, 0x65, 0x2A, 0x31]);
    chip.cycle_with_random(0);
    chip.cycle_with_random(0);
    assert_eq!(chip.reg[0], 0x2A);
    assert_eq!(chip.reg[1], 0x31);
    assert_eq!(chip.idx(), 0x204);
}

#[test]
fn copy_register() {
    // 6209 8120: reg1 = reg2
    let mut chip = boot(&[0x62, 0x09, 0x81, 0x20]);
    chip.cycle_with_random(0);
    chip.cycle_with_random(0);
    assert_eq!(chip.reg[1], 9);
}

#[test]
fn timer_step_floors_at_zero() {
    let mut chip = Chip8::new();
    chip.delay_timer = 2;
    chip.sound_timer = 1;
    chip.timer_step();
    assert_eq!(chip.delay_timer, 1);
    assert_eq!(chip.sound_timer, 0);
    chip.timer_step();
    assert_eq!(chip.delay_timer, 0);
    assert_eq!(chip.sound_timer, 0);
    chip.timer_step();
    assert_eq!(chip.delay_timer, 0);
    assert_eq!(chip.sound_timer, 0);
}
