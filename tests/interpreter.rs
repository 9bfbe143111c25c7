use chip8::chip8::{add_with_carry, sub_without_borrow, Chip8, Fault, Instruction, LoadError, FONT_SET};

fn machine_with(program: &[u8]) -> Chip8 {
    let mut c = Chip8::new();
    assert_eq!(c.load_game(program), Ok(()));
    c
}

fn run(c: &mut Chip8, steps: usize) {
    for _ in 0..steps {
        assert_eq!(c.step(), Ok(()));
    }
}

#[test]
fn jump_sets_program_counter() {
    let mut c = machine_with(&[0x12, 0x34]);
    assert_eq!(c.program_counter(), 0x200);
    run(&mut c, 1);
    assert_eq!(c.program_counter(), 0x234);
}

#[test]
fn load_then_add_immediate() {
    let mut c = machine_with(&[0x60, 0x05, 0x70, 0x03]);
    run(&mut c, 2);
    assert_eq!(c.register(0), 8);
    assert_eq!(c.program_counter(), 0x204);
}

#[test]
fn add_immediate_wraps_without_flag() {
    let mut c = machine_with(&[0x6F, 0x07, 0x61, 0xFF, 0x71, 0x02]);
    run(&mut c, 3);
    assert_eq!(c.register(1), 1);
    assert_eq!(c.register(15), 7);
}

#[test]
fn add_registers_sets_carry() {
    let mut c = machine_with(&[0x61, 200, 0x62, 100, 0x81, 0x24]);
    run(&mut c, 3);
    assert_eq!(c.register(1), 44);
    assert_eq!(c.register(15), 1);
    let mut d = machine_with(&[0x61, 20, 0x62, 100, 0x81, 0x24]);
    run(&mut d, 3);
    assert_eq!(d.register(1), 120);
    assert_eq!(d.register(15), 0);
}

#[test]
fn add_registers_exactly_256() {
    let mut c = machine_with(&[0x61, 128, 0x62, 128, 0x81, 0x24]);
    run(&mut c, 3);
    assert_eq!(c.register(1), 0);
    assert_eq!(c.register(15), 1);
}

#[test]
fn subtract_registers_flag_is_no_borrow() {
    let mut c = machine_with(&[0x61, 5, 0x62, 7, 0x81, 0x25]);
    run(&mut c, 3);
    assert_eq!(c.register(1), 254);
    assert_eq!(c.register(15), 0);
    let mut d = machine_with(&[0x61, 7, 0x62, 7, 0x81, 0x25]);
    run(&mut d, 3);
    assert_eq!(d.register(1), 0);
    assert_eq!(d.register(15), 1);
}

#[test]
fn subtract_negated() {
    let mut c = machine_with(&[0x61, 5, 0x62, 7, 0x81, 0x27]);
    run(&mut c, 3);
    assert_eq!(c.register(1), 2);
    assert_eq!(c.register(15), 1);
    let mut d = machine_with(&[0x61, 9, 0x62, 7, 0x81, 0x27]);
    run(&mut d, 3);
    assert_eq!(d.register(1), 254);
    assert_eq!(d.register(15), 0);
}

#[test]
fn shifts_keep_quirky_flags() {
    let mut c = machine_with(&[0x61, 0x83, 0x81, 0x06]);
    run(&mut c, 2);
    assert_eq!(c.register(1), 0x41);
    assert_eq!(c.register(15), 1);
    let mut d = machine_with(&[0x61, 0x83, 0x81, 0x0E]);
    run(&mut d, 2);
    assert_eq!(d.register(1), 0x06);
    assert_eq!(d.register(15), 0x80);
}

#[test]
fn bitwise_and_copy() {
    let mut c = machine_with(&[
        0x61, 0b1100, 0x62, 0b1010, 0x83, 0x10, 0x83, 0x21, 0x84, 0x10, 0x84, 0x22, 0x85, 0x10, 0x85,
        0x23,
    ]);
    run(&mut c, 8);
    assert_eq!(c.register(3), 0b1110);
    assert_eq!(c.register(4), 0b1000);
    assert_eq!(c.register(5), 0b0110);
}

#[test]
fn skips() {
    // 3xkk taken, then 4xkk not taken, then 5xy0 taken, 9xy0 not taken
    let mut c = machine_with(&[0x61, 3, 0x31, 3]);
    run(&mut c, 2);
    assert_eq!(c.program_counter(), 0x206);
    let mut d = machine_with(&[0x61, 3, 0x41, 3]);
    run(&mut d, 2);
    assert_eq!(d.program_counter(), 0x204);
    let mut e = machine_with(&[0x61, 3, 0x62, 3, 0x51, 0x20]);
    run(&mut e, 3);
    assert_eq!(e.program_counter(), 0x208);
    let mut f = machine_with(&[0x61, 3, 0x62, 3, 0x91, 0x20]);
    run(&mut f, 3);
    assert_eq!(f.program_counter(), 0x206);
}

#[test]
fn call_and_return() {
    let mut c = machine_with(&[0x22, 0x06, 0x00, 0x00, 0x00, 0x00, 0x00, 0xEE]);
    run(&mut c, 1);
    assert_eq!(c.program_counter(), 0x206);
    assert_eq!(c.stack_depth(), 1);
    run(&mut c, 1);
    assert_eq!(c.program_counter(), 0x202);
    assert_eq!(c.stack_depth(), 0);
}

#[test]
fn return_with_empty_stack_faults() {
    let mut c = machine_with(&[0x00, 0xEE]);
    assert_eq!(c.step(), Err(Fault::StackUnderflow));
    assert_eq!(c.program_counter(), 0x200);
}

#[test]
fn call_past_sixteen_faults() {
    let mut c = machine_with(&[0x22, 0x00]);
    run(&mut c, 16);
    assert_eq!(c.stack_depth(), 16);
    assert_eq!(c.step(), Err(Fault::StackOverflow));
    assert_eq!(c.stack_depth(), 16);
}

#[test]
fn unsupported_opcode_faults() {
    let mut c = machine_with(&[0x51, 0x21]);
    assert_eq!(c.step(), Err(Fault::UnsupportedOpcode(0x5121)));
    assert_eq!(c.program_counter(), 0x200);
    assert_eq!(Instruction::decode(0xFFFF), None);
}

#[test]
fn index_overflow_faults() {
    let mut c = machine_with(&[0x61, 0x10, 0xAF, 0xFF, 0xF1, 0x1E]);
    run(&mut c, 2);
    assert_eq!(c.index_register(), 0xFFF);
    assert_eq!(c.step(), Ok(()));
    assert_eq!(c.index_register(), 0x100F);
    let mut d = Chip8::new();
    d.reset();
    assert_eq!(d.process_op(0x61FF, 0), Ok(()));
    for _ in 0..257 {
        assert_eq!(d.process_op(0xF11E, 0), Ok(()));
    }
    assert_eq!(d.index_register(), 0xFFFF);
    assert_eq!(d.process_op(0xF11E, 0), Err(Fault::IndexOverflow));
    assert_eq!(d.index_register(), 0xFFFF);
}

#[test]
fn jump_with_offset() {
    let mut c = machine_with(&[0x60, 0x10, 0xB3, 0x00]);
    run(&mut c, 2);
    assert_eq!(c.program_counter(), 0x310);
}

#[test]
fn random_is_masked() {
    let mut c = machine_with(&[0xC3, 0x00]);
    run(&mut c, 1);
    assert_eq!(c.register(3), 0);
    let mut d = Chip8::new();
    d.reset();
    assert_eq!(d.process_op(0xC30F, 0xAB), Ok(()));
    assert_eq!(d.register(3), 0x0B);
}

#[test]
fn timers_count_down_to_zero() {
    let mut c = machine_with(&[0x61, 2, 0xF1, 0x15, 0xF1, 0x18, 0xF2, 0x07]);
    run(&mut c, 3);
    assert_eq!(c.delay_timer(), 2);
    assert_eq!(c.sound_timer(), 2);
    c.decrement_timers();
    run(&mut c, 1);
    assert_eq!(c.register(2), 1);
    c.decrement_timers();
    c.decrement_timers();
    assert_eq!(c.delay_timer(), 0);
    assert_eq!(c.sound_timer(), 0);
}

#[test]
fn glyph_address() {
    let mut c = machine_with(&[0x61, 0x0A, 0xF1, 0x29]);
    run(&mut c, 2);
    assert_eq!(c.index_register(), 50);
    assert_eq!(c.ram().read8(50), 0xF0);
}

#[test]
fn binary_coded_decimal() {
    let mut c = machine_with(&[0x61, 254, 0xA3, 0x00, 0xF1, 0x33]);
    run(&mut c, 3);
    assert_eq!(c.ram().read8(0x300), 2);
    assert_eq!(c.ram().read8(0x301), 5);
    assert_eq!(c.ram().read8(0x302), 4);
}

#[test]
fn store_and_load_registers_inclusive() {
    let mut c = machine_with(&[0x60, 1, 0x61, 2, 0x62, 3, 0xA3, 0x00, 0xF2, 0x55, 0x60, 0, 0x61, 0, 0x62, 0, 0xF1, 0x65]);
    run(&mut c, 5);
    assert_eq!(c.ram().read8(0x300), 1);
    assert_eq!(c.ram().read8(0x301), 2);
    assert_eq!(c.ram().read8(0x302), 3);
    assert_eq!(c.ram().read8(0x303), 0);
    run(&mut c, 4);
    assert_eq!(c.register(0), 1);
    assert_eq!(c.register(1), 2);
    assert_eq!(c.register(2), 0);
}

#[test]
fn store_past_memory_end_faults() {
    let mut c = machine_with(&[0xAF, 0xFE, 0xF2, 0x55]);
    run(&mut c, 1);
    assert_eq!(c.step(), Err(Fault::AddressOutOfRange));
    let mut d = machine_with(&[0xAF, 0xFE, 0xF2, 0x33]);
    run(&mut d, 1);
    assert_eq!(d.step(), Err(Fault::AddressOutOfRange));
}

#[test]
fn fetch_past_memory_end_faults() {
    let mut c = machine_with(&[0x1F, 0xFF]);
    run(&mut c, 1);
    assert_eq!(c.program_counter(), 0xFFF);
    assert_eq!(c.step(), Err(Fault::AddressOutOfRange));
}

#[test]
fn draw_glyph_and_collide() {
    // draw glyph 0 at (0, 0) twice
    let mut c = machine_with(&[0xA0, 0x00, 0xD0, 0x05, 0xD0, 0x05]);
    run(&mut c, 2);
    assert_eq!(c.register(15), 0);
    assert!(c.display.is_pixel_set(0, 0));
    assert!(c.display.is_pixel_set(3, 0));
    assert!(!c.display.is_pixel_set(4, 0));
    assert!(!c.display.is_pixel_set(1, 1));
    run(&mut c, 1);
    assert_eq!(c.register(15), 1);
    for x in 0..64 {
        for y in 0..32 {
            assert!(!c.display.is_pixel_set(x, y));
        }
    }
}

#[test]
fn clear_screen() {
    let mut c = machine_with(&[0xA0, 0x00, 0xD0, 0x05, 0x00, 0xE0]);
    run(&mut c, 2);
    assert!(c.display.is_pixel_set(0, 0));
    run(&mut c, 1);
    assert!(!c.display.is_pixel_set(0, 0));
}

#[test]
fn skip_on_key_state() {
    let mut c = machine_with(&[0x61, 4, 0xE1, 0x9E]);
    c.keypad.set_key_down(4);
    run(&mut c, 2);
    assert_eq!(c.program_counter(), 0x206);
    let mut d = machine_with(&[0x61, 4, 0xE1, 0xA1]);
    run(&mut d, 2);
    assert_eq!(d.program_counter(), 0x206);
    let mut e = machine_with(&[0x61, 4, 0xE1, 0xA1]);
    e.keypad.set_key_down(4);
    run(&mut e, 2);
    assert_eq!(e.program_counter(), 0x204);
}

#[test]
fn key_register_out_of_range_faults() {
    let mut c = machine_with(&[0x61, 16, 0xE1, 0x9E]);
    run(&mut c, 1);
    assert_eq!(c.step(), Err(Fault::KeyOutOfRange));
}

#[test]
fn wait_for_key() {
    let mut c = machine_with(&[0xF3, 0x0A]);
    run(&mut c, 1);
    assert_eq!(c.program_counter(), 0x200);
    run(&mut c, 1);
    assert_eq!(c.program_counter(), 0x200);
    c.keypad.set_key_down(9);
    c.keypad.set_key_down(5);
    run(&mut c, 1);
    assert_eq!(c.register(3), 5);
    assert_eq!(c.program_counter(), 0x202);
}

#[test]
fn reset_installs_font() {
    let mut c = machine_with(&[0x60, 0x05]);
    run(&mut c, 1);
    c.reset();
    for i in 0..80u16 {
        assert_eq!(c.ram().read8(i), FONT_SET[i as usize]);
    }
    assert_eq!(c.ram().read8(0x200), 0);
    assert_eq!(c.program_counter(), 0x200);
    assert_eq!(c.stack_depth(), 0);
    assert_eq!(c.register(0), 0);
    assert_eq!(c.index_register(), 0);
}

#[test]
fn new_machine_is_zeroed() {
    let c = Chip8::new();
    assert_eq!(c.program_counter(), 0);
    assert_eq!(c.ram().read8(0), 0);
    assert_eq!(c.stack_depth(), 0);
}

#[test]
fn load_places_program() {
    let c = machine_with(&[0xAB, 0xCD]);
    assert_eq!(c.ram().read16(0x200), 0xABCD);
    let biggest = vec![0x11u8; 4096 - 0x200];
    let mut d = Chip8::new();
    assert_eq!(d.load_game(&biggest), Ok(()));
    assert_eq!(d.ram().read8(0xFFF), 0x11);
}

#[test]
fn load_refuses_too_large() {
    let mut c = machine_with(&[0x12, 0x34]);
    let big = vec![0u8; 4096 - 0x200 + 1];
    assert_eq!(c.load_game(&big), Err(LoadError::ProgramTooLarge));
    assert_eq!(c.ram().read16(0x200), 0x1234);
}

#[test]
fn arithmetic_helpers() {
    assert_eq!(add_with_carry(250, 10), (4, true));
    assert_eq!(add_with_carry(250, 5), (255, false));
    assert_eq!(sub_without_borrow(3, 5), (254, false));
    assert_eq!(sub_without_borrow(5, 5), (0, true));
}

#[test]
fn decode_table() {
    assert_eq!(Instruction::decode(0x00E0), Some(Instruction::Clear));
    assert_eq!(Instruction::decode(0x8AB4), Some(Instruction::AddReg { x: 0xA, y: 0xB }));
    assert_eq!(Instruction::decode(0xD12F), Some(Instruction::Draw { x: 1, y: 2, n: 15 }));
    assert_eq!(Instruction::decode(0xFE65), Some(Instruction::LoadRegs { x: 0xE }));
    assert_eq!(Instruction::decode(0x0123), None);
}
