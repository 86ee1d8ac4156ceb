use chip8::cpu::Fault;
use chip8::emu::Emu;
use chip8::emu::FONT_SPRITES;

fn emu_with(rom: &[u8]) -> Emu {
    let mut emu = Emu::new();
    emu.init();
    emu.load_rom(rom);
    emu
}

fn step_ok(emu: &mut Emu) -> u16 {
    emu.run_instruction().unwrap()
}

#[test]
fn load_rom_places_bytes_at_0x200() {
    let mut emu = emu_with(&[0x12, 0x34, 0x56]);
    assert_eq!(emu.cpu.bus.read_mem_byte(0x200), 0x12);
    assert_eq!(emu.cpu.bus.read_mem_byte(0x201), 0x34);
    assert_eq!(emu.cpu.bus.read_mem_byte(0x202), 0x56);
    assert_eq!(emu.cpu.bus.read_mem_byte(0x203), 0x00);
}

#[test]
fn init_loads_font_table_at_zero() {
    let mut emu = Emu::new();
    emu.init();
    assert_eq!(emu.cpu.bus.read_mem_byte(0), 0xf0);
    assert_eq!(emu.cpu.bus.read_mem_byte(1), 0x90);
    assert_eq!(emu.cpu.bus.read_mem_byte(4), 0xf0);
    for a in 0..80u16 {
        assert_eq!(emu.cpu.bus.read_mem_byte(a), FONT_SPRITES[a as usize]);
    }
    assert_eq!(emu.cpu.bus.read_mem_byte(80), 0x00);
}

#[test]
fn jump_and_load_immediate() {
    let mut emu = emu_with(&[0x6a, 0x42, 0x12, 0x34]);
    assert_eq!(step_ok(&mut emu), 0x202);
    assert_eq!(emu.cpu.vx[0xa], 0x42);
    assert_eq!(step_ok(&mut emu), 0x234);
}

#[test]
fn add_immediate_wraps() {
    let mut emu = emu_with(&[0x60, 0xff, 0x70, 0x02]);
    step_ok(&mut emu);
    step_ok(&mut emu);
    assert_eq!(emu.cpu.vx[0], 0x01);
}

#[test]
fn alu_assign_or_and_xor() {
    let mut emu = emu_with(&[
        0x60, 0x0f, 0x61, 0x33, 0x82, 0x10, 0x83, 0x00, 0x83, 0x11, 0x84, 0x10, 0x84, 0x02, 0x85,
        0x10, 0x85, 0x03,
    ]);
    for _ in 0..9 {
        step_ok(&mut emu);
    }
    assert_eq!(emu.cpu.vx[2], 0x33); // 8xy0 assign
    assert_eq!(emu.cpu.vx[3], 0x0f | 0x33); // 8xy1 OR
    assert_eq!(emu.cpu.vx[4], 0x33 & 0x0f); // 8xy2 AND
    assert_eq!(emu.cpu.vx[5], 0x33 ^ 0x0f); // 8xy3 XOR
}

#[test]
fn alu_add_wraps_without_carry_flag() {
    // 8xy4 with Vx = 0xFF, Vy = 0x01 yields 0x00; VF is not written.
    let mut emu = emu_with(&[0x60, 0xff, 0x61, 0x01, 0x80, 0x14]);
    step_ok(&mut emu);
    step_ok(&mut emu);
    step_ok(&mut emu);
    assert_eq!(emu.cpu.vx[0], 0x00);
    assert_eq!(emu.cpu.vx[0xf], 0x00);
}

#[test]
fn alu_sub_equal_operands_clears_flag() {
    // 8xy5 with Vx == Vy: result 0, VF = 0 under the signed-compare rule.
    let mut emu = emu_with(&[0x60, 0x42, 0x61, 0x42, 0x80, 0x15]);
    step_ok(&mut emu);
    step_ok(&mut emu);
    step_ok(&mut emu);
    assert_eq!(emu.cpu.vx[0], 0x00);
    assert_eq!(emu.cpu.vx[0xf], 0x00);
}

#[test]
fn alu_sub_sets_flag_on_positive_difference() {
    let mut emu = emu_with(&[0x60, 0x05, 0x61, 0x03, 0x80, 0x15]);
    for _ in 0..3 {
        step_ok(&mut emu);
    }
    assert_eq!(emu.cpu.vx[0], 0x02);
    assert_eq!(emu.cpu.vx[0xf], 0x01);
}

#[test]
fn alu_sub_borrow_clears_flag() {
    // 3 - 5 wraps to 0xFE, which reads as negative: VF = 0.
    let mut emu = emu_with(&[0x60, 0x03, 0x61, 0x05, 0x80, 0x15]);
    for _ in 0..3 {
        step_ok(&mut emu);
    }
    assert_eq!(emu.cpu.vx[0], 0xfe);
    assert_eq!(emu.cpu.vx[0xf], 0x00);
}

#[test]
fn alu_subn_sets_flag_on_borrow() {
    // 8xy7 computes Vy - Vx; VF = 1 exactly when that is negative.
    let mut emu = emu_with(&[0x60, 0x05, 0x61, 0x03, 0x80, 0x17]);
    for _ in 0..3 {
        step_ok(&mut emu);
    }
    assert_eq!(emu.cpu.vx[0], 0xfe);
    assert_eq!(emu.cpu.vx[0xf], 0x01);
}

#[test]
fn alu_shift_right_keeps_dropped_bit() {
    let mut emu = emu_with(&[0x60, 0x05, 0x80, 0x06]);
    step_ok(&mut emu);
    step_ok(&mut emu);
    assert_eq!(emu.cpu.vx[0], 0x02);
    assert_eq!(emu.cpu.vx[0xf], 0x01);
}

#[test]
fn alu_shift_left_keeps_dropped_bit() {
    let mut emu = emu_with(&[0x60, 0x81, 0x80, 0x0e]);
    step_ok(&mut emu);
    step_ok(&mut emu);
    assert_eq!(emu.cpu.vx[0], 0x02);
    assert_eq!(emu.cpu.vx[0xf], 0x01);
}

#[test]
fn skip_if_equal_immediate() {
    // 3xnn advances by 4 when satisfied, by 2 otherwise.
    let mut emu = emu_with(&[0x60, 0x07, 0x30, 0x07]);
    step_ok(&mut emu);
    assert_eq!(step_ok(&mut emu), 0x206);
    let mut emu2 = emu_with(&[0x60, 0x07, 0x30, 0x08]);
    step_ok(&mut emu2);
    assert_eq!(step_ok(&mut emu2), 0x204);
}

#[test]
fn skip_if_not_equal_immediate() {
    let mut emu = emu_with(&[0x60, 0x07, 0x40, 0x08]);
    step_ok(&mut emu);
    assert_eq!(step_ok(&mut emu), 0x206);
    let mut emu2 = emu_with(&[0x60, 0x07, 0x40, 0x07]);
    step_ok(&mut emu2);
    assert_eq!(step_ok(&mut emu2), 0x204);
}

#[test]
fn skip_if_registers_equal() {
    // 5xy0 satisfied and unsatisfied; 9xy0 the other way round.
    let mut emu = emu_with(&[0x60, 0x09, 0x61, 0x09, 0x50, 0x10]);
    step_ok(&mut emu);
    step_ok(&mut emu);
    assert_eq!(step_ok(&mut emu), 0x208);
    let mut emu2 = emu_with(&[0x60, 0x09, 0x61, 0x08, 0x50, 0x10]);
    step_ok(&mut emu2);
    step_ok(&mut emu2);
    assert_eq!(step_ok(&mut emu2), 0x206);
}

#[test]
fn skip_if_registers_not_equal() {
    let mut emu = emu_with(&[0x60, 0x09, 0x61, 0x08, 0x90, 0x10]);
    step_ok(&mut emu);
    step_ok(&mut emu);
    assert_eq!(step_ok(&mut emu), 0x208);
    let mut emu2 = emu_with(&[0x60, 0x09, 0x61, 0x09, 0x90, 0x10]);
    step_ok(&mut emu2);
    step_ok(&mut emu2);
    assert_eq!(step_ok(&mut emu2), 0x206);
}

#[test]
fn call_then_ret_returns_past_the_call() {
    // CALL at 0x200, RET at the call target: PC comes back to 0x202.
    let mut emu = emu_with(&[0x23, 0x00]);
    emu.cpu.bus.write_mem_byte(0x300, 0x00);
    emu.cpu.bus.write_mem_byte(0x301, 0xee);
    assert_eq!(step_ok(&mut emu), 0x300);
    assert_eq!(emu.cpu.stack.len(), 1);
    assert_eq!(step_ok(&mut emu), 0x202);
    assert_eq!(emu.cpu.stack.len(), 0);
}

#[test]
fn ret_on_empty_stack_faults() {
    let mut emu = emu_with(&[0x00, 0xee]);
    assert_eq!(emu.run_instruction(), Err(Fault::StackUnderflow { pc: 0x200 }));
    // The failed step changed nothing.
    assert_eq!(emu.cpu.pc, 0x200);
}

#[test]
fn set_index_and_jump_with_offset() {
    let mut emu = emu_with(&[0xa1, 0x23, 0x60, 0x05, 0xb3, 0x00]);
    step_ok(&mut emu);
    assert_eq!(emu.cpu.i, 0x123);
    step_ok(&mut emu);
    assert_eq!(step_ok(&mut emu), 0x305);
}

#[test]
fn random_with_zero_mask_is_zero() {
    // Cxnn ANDs the random byte with nn; a zero mask pins the result.
    let mut emu = emu_with(&[0x60, 0x55, 0xc0, 0x00]);
    step_ok(&mut emu);
    step_ok(&mut emu);
    assert_eq!(emu.cpu.vx[0], 0x00);
    assert_eq!(emu.cpu.pc, 0x204);
}

#[test]
fn draw_instruction_sets_collision_flag() {
    // Two identical draws: the first leaves VF = 0, the second erases
    // the sprite and sets VF = 1.
    let rom = [
        0x60, 0x07, 0x61, 0x03, 0xa3, 0x00, 0xd0, 0x11, 0xd0, 0x11,
    ];
    let mut emu = emu_with(&rom);
    emu.cpu.bus.write_mem_byte(0x300, 0xff);
    for _ in 0..4 {
        step_ok(&mut emu);
    }
    assert_eq!(emu.cpu.vx[0xf], 0x00);
    assert!(emu.get_display_buffer()[7 + 3 * 64]);
    step_ok(&mut emu);
    assert_eq!(emu.cpu.vx[0xf], 0x01);
    assert!(!emu.get_display_buffer()[7 + 3 * 64]);
}

#[test]
fn clear_display_instruction() {
    let rom = [0xa3, 0x00, 0xd0, 0x11, 0x00, 0xe0];
    let mut emu = emu_with(&rom);
    emu.cpu.bus.write_mem_byte(0x300, 0xff);
    for _ in 0..3 {
        step_ok(&mut emu);
    }
    let buf = emu.get_display_buffer();
    for k in 0..buf.len() {
        assert!(!buf[k]);
    }
    assert_eq!(emu.cpu.pc, 0x206);
}

#[test]
fn skip_on_key_pressed_and_not_pressed() {
    let mut emu = emu_with(&[0x60, 0x05, 0xe0, 0x9e]);
    emu.key_pressed(5, true);
    step_ok(&mut emu);
    assert_eq!(step_ok(&mut emu), 0x206);
    let mut emu2 = emu_with(&[0x60, 0x05, 0xe0, 0x9e]);
    step_ok(&mut emu2);
    assert_eq!(step_ok(&mut emu2), 0x204);
    let mut emu3 = emu_with(&[0x60, 0x05, 0xe0, 0xa1]);
    step_ok(&mut emu3);
    assert_eq!(step_ok(&mut emu3), 0x206);
}

#[test]
fn key_test_with_bad_register_value_faults() {
    let mut emu = emu_with(&[0x60, 0x10, 0xe0, 0x9e]);
    step_ok(&mut emu);
    assert_eq!(
        emu.run_instruction(),
        Err(Fault::KeyOutOfRange { key: 0x10, pc: 0x202 })
    );
}

#[test]
fn wait_for_key_busy_polls() {
    let mut emu = emu_with(&[0xf0, 0x0a]);
    // No key: the same instruction re-executes, PC does not move.
    assert_eq!(step_ok(&mut emu), 0x200);
    assert_eq!(step_ok(&mut emu), 0x200);
    emu.key_pressed(0x9, true);
    assert_eq!(step_ok(&mut emu), 0x202);
    assert_eq!(emu.cpu.vx[0], 0x9);
}

#[test]
fn wait_for_key_last_scanned_wins() {
    // With several keys down, the largest index wins the upward scan.
    let mut emu = emu_with(&[0xf0, 0x0a]);
    emu.key_pressed(0x2, true);
    emu.key_pressed(0x7, true);
    assert_eq!(step_ok(&mut emu), 0x202);
    assert_eq!(emu.cpu.vx[0], 0x7);
}

#[test]
fn timers_load_read_and_tick() {
    let mut emu = emu_with(&[0x61, 0x02, 0xf1, 0x15, 0xf1, 0x18, 0xf2, 0x07]);
    for _ in 0..4 {
        step_ok(&mut emu);
    }
    assert_eq!(emu.cpu.delay_timer, 2);
    assert_eq!(emu.cpu.sound_timer, 2);
    assert_eq!(emu.cpu.vx[2], 2);
    emu.tick_timers();
    assert_eq!(emu.cpu.delay_timer, 1);
    emu.tick_timers();
    assert_eq!(emu.cpu.delay_timer, 0);
    assert_eq!(emu.cpu.sound_timer, 0);
    // Already zero: stays at zero, never wraps below.
    emu.tick_timers();
    assert_eq!(emu.cpu.delay_timer, 0);
    assert_eq!(emu.cpu.sound_timer, 0);
}

#[test]
fn add_to_index_register() {
    let mut emu = emu_with(&[0xa1, 0x00, 0x60, 0x05, 0xf0, 0x1e]);
    for _ in 0..3 {
        step_ok(&mut emu);
    }
    assert_eq!(emu.cpu.i, 0x105);
}

#[test]
fn font_address_lookup() {
    // Fx29: I = Vx * 5, the 5-byte glyph slot.
    let mut emu = emu_with(&[0x60, 0x0a, 0xf0, 0x29]);
    step_ok(&mut emu);
    step_ok(&mut emu);
    assert_eq!(emu.cpu.i, 50);
}

#[test]
fn bcd_of_123_and_of_5() {
    // Fx33 writes the decimal digits, most significant first.
    let mut emu = emu_with(&[0x60, 0x7b, 0xa4, 0x00, 0xf0, 0x33]);
    for _ in 0..3 {
        step_ok(&mut emu);
    }
    assert_eq!(emu.cpu.bus.read_mem_byte(0x400), 1);
    assert_eq!(emu.cpu.bus.read_mem_byte(0x401), 2);
    assert_eq!(emu.cpu.bus.read_mem_byte(0x402), 3);
    let mut emu2 = emu_with(&[0x60, 0x05, 0xa4, 0x00, 0xf0, 0x33]);
    for _ in 0..3 {
        step_ok(&mut emu2);
    }
    assert_eq!(emu2.cpu.bus.read_mem_byte(0x400), 0);
    assert_eq!(emu2.cpu.bus.read_mem_byte(0x401), 0);
    assert_eq!(emu2.cpu.bus.read_mem_byte(0x402), 5);
}

#[test]
fn store_then_load_round_trips() {
    // Fx55 stores V0..V3 = {1,2,3,4} at I; Fx65 loads them back.
    let rom = [
        0x60, 0x01, 0x61, 0x02, 0x62, 0x03, 0x63, 0x04, 0xa5, 0x00, 0xf3, 0x55, 0xf3, 0x65,
    ];
    let mut emu = emu_with(&rom);
    for _ in 0..7 {
        step_ok(&mut emu);
    }
    assert_eq!(emu.cpu.bus.read_mem_byte(0x500), 1);
    assert_eq!(emu.cpu.bus.read_mem_byte(0x501), 2);
    assert_eq!(emu.cpu.bus.read_mem_byte(0x502), 3);
    assert_eq!(emu.cpu.bus.read_mem_byte(0x503), 4);
    assert_eq!(emu.cpu.vx[0], 1);
    assert_eq!(emu.cpu.vx[1], 2);
    assert_eq!(emu.cpu.vx[2], 3);
    assert_eq!(emu.cpu.vx[3], 4);
}

#[test]
fn load_overwrites_registers_from_memory() {
    let mut emu = emu_with(&[0x60, 0xaa, 0xa3, 0x00, 0xf1, 0x65]);
    emu.cpu.bus.write_mem_byte(0x300, 0x11);
    emu.cpu.bus.write_mem_byte(0x301, 0x22);
    for _ in 0..3 {
        step_ok(&mut emu);
    }
    assert_eq!(emu.cpu.vx[0], 0x11);
    assert_eq!(emu.cpu.vx[1], 0x22);
    assert_eq!(emu.cpu.vx[2], 0x00);
}

#[test]
fn invalid_opcodes_fault_without_state_change() {
    let mut emu = emu_with(&[0xf0, 0xff]);
    assert_eq!(
        emu.run_instruction(),
        Err(Fault::InvalidOpcode { opcode: 0xf0ff, pc: 0x200 })
    );
    assert_eq!(emu.cpu.pc, 0x200);
    let mut emu2 = emu_with(&[0x00, 0x00]);
    assert_eq!(
        emu2.run_instruction(),
        Err(Fault::InvalidOpcode { opcode: 0x0000, pc: 0x200 })
    );
    let mut emu3 = emu_with(&[0x80, 0x18]);
    assert_eq!(
        emu3.run_instruction(),
        Err(Fault::InvalidOpcode { opcode: 0x8018, pc: 0x200 })
    );
    // 5xyN and 9xyN with a nonzero low nibble are not in the
    // recognized instruction set.
    let mut emu4 = emu_with(&[0x50, 0x11]);
    assert_eq!(
        emu4.run_instruction(),
        Err(Fault::InvalidOpcode { opcode: 0x5011, pc: 0x200 })
    );
    let mut emu5 = emu_with(&[0xe0, 0x55]);
    assert_eq!(
        emu5.run_instruction(),
        Err(Fault::InvalidOpcode { opcode: 0xe055, pc: 0x200 })
    );
}

#[test]
fn bcd_near_end_of_memory_faults() {
    let mut emu = emu_with(&[0xaf, 0xfe, 0xf0, 0x33]);
    step_ok(&mut emu);
    assert_eq!(
        emu.run_instruction(),
        Err(Fault::AddressOutOfRange { addr: 0xffe, pc: 0x202 })
    );
}

#[test]
fn fetch_past_end_of_memory_faults() {
    let mut emu = emu_with(&[0x1f, 0xff]);
    step_ok(&mut emu);
    assert_eq!(
        emu.run_instruction(),
        Err(Fault::AddressOutOfRange { addr: 0xfff, pc: 0xfff })
    );
}

#[test]
fn draw_past_end_of_memory_faults() {
    let mut emu = emu_with(&[0xaf, 0xff, 0xd0, 0x02]);
    step_ok(&mut emu);
    assert_eq!(
        emu.run_instruction(),
        Err(Fault::AddressOutOfRange { addr: 0xfff, pc: 0x202 })
    );
}

#[test]
fn store_past_end_of_memory_faults() {
    let mut emu = emu_with(&[0xaf, 0xfd, 0xf3, 0x55]);
    step_ok(&mut emu);
    assert_eq!(
        emu.run_instruction(),
        Err(Fault::AddressOutOfRange { addr: 0xffd, pc: 0x202 })
    );
}
