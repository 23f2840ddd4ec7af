use chip8::cpu::{Cpu, FaultKind, KeyWait, MEMORY_SIZE, PROGRAM_START};
use chip8::WIDTH;

fn machine(program: &[u8]) -> Cpu {
    let mut cpu = Cpu::new();
    cpu.load_binary(&program.to_vec());
    cpu
}

fn run(cpu: &mut Cpu, steps: usize) {
    for _ in 0..steps {
        cpu.cycle_with(0).unwrap();
    }
}

#[test]
fn new_machine_starts_at_program_start_with_font() {
    let cpu = Cpu::new();
    assert_eq!(cpu.pc() as usize, PROGRAM_START);
    assert_eq!(cpu.index_register(), 0);
    assert_eq!(cpu.stack_depth(), 0);
    assert_eq!(cpu.key_wait(), KeyWait::Running);
    let zero: Vec<u8> = (0..5).map(|a| cpu.memory_at(a)).collect();
    assert_eq!(zero, vec![0xF0, 0x90, 0x90, 0x90, 0xF0]);
    let f: Vec<u8> = (75..80).map(|a| cpu.memory_at(a)).collect();
    assert_eq!(f, vec![0xF0, 0x80, 0xF0, 0x80, 0x80]);
    assert_eq!(cpu.memory_at(80), 0);
    assert!((0..16).all(|x| cpu.register(x) == 0));
}

#[test]
fn load_binary_places_program() {
    let cpu = machine(&[0xAB, 0xCD]);
    assert_eq!(cpu.memory_at(PROGRAM_START), 0xAB);
    assert_eq!(cpu.memory_at(PROGRAM_START + 1), 0xCD);
    assert_eq!(cpu.memory_at(PROGRAM_START + 2), 0);
}

#[test]
fn load_binary_largest_image() {
    let program = vec![0x11u8; MEMORY_SIZE - PROGRAM_START];
    let mut cpu = Cpu::new();
    cpu.load_binary(&program);
    assert_eq!(cpu.memory_at(MEMORY_SIZE - 1), 0x11);
}

#[test]
fn two_step_program() {
    let mut cpu = machine(&[0x60, 0x0A, 0x70, 0x05]);
    run(&mut cpu, 2);
    assert_eq!(cpu.register(0), 0x0F);
    assert_eq!(cpu.pc(), 0x204);
}

#[test]
fn bcd_of_156() {
    let mut cpu = machine(&[0x60, 156, 0xA3, 0x00, 0xF0, 0x33]);
    run(&mut cpu, 2);
    assert_eq!(cpu.register(0), 156);
    assert_eq!(cpu.index_register(), 0x300);
    run(&mut cpu, 1);
    assert_eq!(cpu.memory_at(0x300), 1);
    assert_eq!(cpu.memory_at(0x301), 5);
    assert_eq!(cpu.memory_at(0x302), 6);
}

#[test]
fn add_with_carry() {
    let mut cpu = machine(&[0x61, 200, 0x62, 100, 0x81, 0x24]);
    run(&mut cpu, 3);
    assert_eq!(cpu.register(1), 44);
    assert_eq!(cpu.register(0xF), 1);
}

#[test]
fn add_without_carry() {
    let mut cpu = machine(&[0x6F, 7, 0x61, 200, 0x62, 55, 0x81, 0x24]);
    run(&mut cpu, 4);
    assert_eq!(cpu.register(1), 255);
    assert_eq!(cpu.register(0xF), 0);
}

#[test]
fn sub_with_borrow() {
    let mut cpu = machine(&[0x61, 10, 0x62, 20, 0x81, 0x25]);
    run(&mut cpu, 3);
    assert_eq!(cpu.register(1), 246);
    assert_eq!(cpu.register(0xF), 0);
}

#[test]
fn sub_equal_sets_no_borrow() {
    let mut cpu = machine(&[0x61, 20, 0x62, 20, 0x81, 0x25]);
    run(&mut cpu, 3);
    assert_eq!(cpu.register(1), 0);
    assert_eq!(cpu.register(0xF), 1);
}

#[test]
fn subn_reverses_operands() {
    let mut cpu = machine(&[0x61, 10, 0x62, 20, 0x81, 0x27]);
    run(&mut cpu, 3);
    assert_eq!(cpu.register(1), 10);
    assert_eq!(cpu.register(0xF), 1);
}

#[test]
fn shifts_set_flag_from_lost_bit() {
    let mut cpu = machine(&[0x61, 0x81, 0x81, 0x06, 0x62, 0x81, 0x82, 0x0E]);
    run(&mut cpu, 2);
    assert_eq!(cpu.register(1), 0x40);
    assert_eq!(cpu.register(0xF), 1);
    run(&mut cpu, 2);
    assert_eq!(cpu.register(2), 0x02);
    assert_eq!(cpu.register(0xF), 1);
}

#[test]
fn logic_ops() {
    let mut cpu = machine(&[
        0x61, 0xF0, 0x62, 0x3C, 0x83, 0x10, 0x83, 0x21, 0x84, 0x10, 0x84, 0x22, 0x85, 0x10,
        0x85, 0x23,
    ]);
    run(&mut cpu, 8);
    assert_eq!(cpu.register(3), 0xFC);
    assert_eq!(cpu.register(4), 0x30);
    assert_eq!(cpu.register(5), 0xCC);
}

#[test]
fn add_byte_wraps_without_flag() {
    let mut cpu = machine(&[0x60, 0xFF, 0x70, 0x02]);
    run(&mut cpu, 2);
    assert_eq!(cpu.register(0), 1);
    assert_eq!(cpu.register(0xF), 0);
}

#[test]
fn skips_on_register_pairs() {
    // 9xy0 taken, then not taken
    let mut cpu = machine(&[0x60, 5, 0x90, 0x10, 0x00, 0x00, 0x61, 5, 0x90, 0x10]);
    run(&mut cpu, 2);
    assert_eq!(cpu.pc(), 0x206);
    run(&mut cpu, 2);
    assert_eq!(cpu.pc(), 0x20A);
}

#[test]
fn skips() {
    // 3xkk taken, 4xkk not taken, 5xy0 taken
    let mut cpu = machine(&[0x60, 5, 0x30, 5, 0x00, 0x00, 0x40, 5, 0x61, 5, 0x50, 0x10]);
    run(&mut cpu, 2);
    assert_eq!(cpu.pc(), 0x206);
    run(&mut cpu, 1);
    assert_eq!(cpu.pc(), 0x208);
    run(&mut cpu, 2);
    assert_eq!(cpu.pc(), 0x20E);
}

#[test]
fn jumps() {
    let mut cpu = machine(&[0x13, 0x00]);
    run(&mut cpu, 1);
    assert_eq!(cpu.pc(), 0x300);
    let mut cpu = machine(&[0x60, 0x10, 0xB3, 0x00]);
    run(&mut cpu, 2);
    assert_eq!(cpu.pc(), 0x310);
}

#[test]
fn call_and_return() {
    // 0x200: CALL 0x206; 0x202: LD V1, 1; 0x204: JP 0x204; 0x206: CALL 0x20A; 0x208: RET; 0x20A: RET
    let mut cpu = machine(&[
        0x22, 0x06, 0x61, 0x01, 0x12, 0x04, 0x22, 0x0A, 0x00, 0xEE, 0x00, 0xEE,
    ]);
    run(&mut cpu, 1);
    assert_eq!(cpu.pc(), 0x206);
    assert_eq!(cpu.stack_depth(), 1);
    run(&mut cpu, 1);
    assert_eq!(cpu.pc(), 0x20A);
    assert_eq!(cpu.stack_depth(), 2);
    run(&mut cpu, 1);
    assert_eq!(cpu.pc(), 0x208);
    run(&mut cpu, 1);
    assert_eq!(cpu.pc(), 0x202);
    assert_eq!(cpu.stack_depth(), 0);
    run(&mut cpu, 1);
    assert_eq!(cpu.register(1), 1);
}

#[test]
fn call_sixteen_deep_then_overflow() {
    let mut program = Vec::new();
    for k in 0..17u16 {
        let target = 0x200 + 2 * (k + 1);
        program.push(0x20 | (target >> 8) as u8);
        program.push(target as u8);
    }
    let mut cpu = machine(&program);
    run(&mut cpu, 16);
    assert_eq!(cpu.stack_depth(), 16);
    let fault = cpu.cycle_with(0).unwrap_err();
    assert_eq!(fault.kind, FaultKind::StackOverflow);
    assert_eq!(fault.addr, 0x220);
    assert_eq!(fault.opcode, Some(0x2222));
    assert_eq!(cpu.pc(), 0x220);
    assert_eq!(cpu.stack_depth(), 16);
}

#[test]
fn return_with_empty_stack_is_fatal() {
    let mut cpu = machine(&[0x00, 0xEE]);
    let fault = cpu.cycle_with(0).unwrap_err();
    assert_eq!(fault.kind, FaultKind::StackUnderflow);
    assert_eq!(fault.addr, 0x200);
    assert_eq!(fault.opcode, Some(0x00EE));
    assert_eq!(cpu.pc(), 0x200);
}

#[test]
fn unknown_opcodes_are_fatal() {
    for op in [0x5121u16, 0x800F, 0x9121, 0xE0FF, 0xF0FF] {
        let mut cpu = machine(&[(op >> 8) as u8, op as u8]);
        let fault = cpu.cycle_with(0).unwrap_err();
        assert_eq!(fault.kind, FaultKind::UnknownOpcode);
        assert_eq!(fault.opcode, Some(op));
    }
}

#[test]
fn fetch_past_memory_is_fatal() {
    let mut cpu = machine(&[0x1F, 0xFF]);
    run(&mut cpu, 1);
    let fault = cpu.cycle_with(0).unwrap_err();
    assert_eq!(fault.kind, FaultKind::MemoryOutOfBounds);
    assert_eq!(fault.addr, 0xFFF);
    assert_eq!(fault.opcode, None);
}

#[test]
fn sprite_past_memory_is_fatal() {
    let mut cpu = machine(&[0xAF, 0xFF, 0xD0, 0x02]);
    run(&mut cpu, 1);
    let fault = cpu.cycle_with(0).unwrap_err();
    assert_eq!(fault.kind, FaultKind::MemoryOutOfBounds);
    assert_eq!(fault.addr, 0x202);
}

#[test]
fn bcd_past_memory_is_fatal() {
    let mut cpu = machine(&[0xAF, 0xFE, 0xF0, 0x33]);
    run(&mut cpu, 1);
    let fault = cpu.cycle_with(0).unwrap_err();
    assert_eq!(fault.kind, FaultKind::MemoryOutOfBounds);
}

#[test]
fn register_block_past_memory_is_fatal() {
    let mut cpu = machine(&[0xAF, 0xFE, 0xF2, 0x55, 0xF2, 0x65]);
    run(&mut cpu, 1);
    assert_eq!(cpu.cycle_with(0).unwrap_err().kind, FaultKind::MemoryOutOfBounds);
    let mut cpu = machine(&[0xAF, 0xFE, 0xF2, 0x65]);
    run(&mut cpu, 1);
    assert_eq!(cpu.cycle_with(0).unwrap_err().kind, FaultKind::MemoryOutOfBounds);
    let mut cpu = machine(&[0xAF, 0xFE, 0xF1, 0x55]);
    run(&mut cpu, 2);
    assert_eq!(cpu.pc(), 0x204);
}

#[test]
fn key_out_of_range_is_fatal() {
    let mut cpu = machine(&[0x60, 16, 0xE0, 0x9E]);
    run(&mut cpu, 1);
    let fault = cpu.cycle_with(0).unwrap_err();
    assert_eq!(fault.kind, FaultKind::KeyOutOfRange);
    assert_eq!(fault.opcode, Some(0xE09E));
}

#[test]
fn key_wait_then_delivery() {
    let mut cpu = machine(&[0x63, 0x09, 0xF3, 0x0A, 0x64, 0x01]);
    run(&mut cpu, 1);
    for _ in 0..5 {
        assert_eq!(cpu.cycle_with(0), Ok(false));
        assert_eq!(cpu.pc(), 0x202);
        assert_eq!(cpu.register(3), 9);
    }
    assert_eq!(cpu.key_wait(), KeyWait::Awaiting { reg: 3 });
    cpu.key_press_interrupt(0xB);
    assert_eq!(cpu.pc(), 0x202);
    run(&mut cpu, 1);
    assert_eq!(cpu.register(3), 0xB);
    assert_eq!(cpu.pc(), 0x204);
    assert_eq!(cpu.key_wait(), KeyWait::Running);
    run(&mut cpu, 1);
    assert_eq!(cpu.register(4), 1);
}

#[test]
fn key_press_without_wait_is_ignored() {
    let mut cpu = machine(&[0x63, 0x09]);
    cpu.key_press_interrupt(4);
    assert_eq!(cpu.key_wait(), KeyWait::Running);
    run(&mut cpu, 1);
    assert_eq!(cpu.register(3), 9);
}

#[test]
fn keypad_skips() {
    let mut cpu = machine(&[0x60, 0x05, 0xE0, 0x9E, 0x00, 0x00, 0xE0, 0xA1, 0x00, 0x00]);
    cpu.update_keyboard(&[5, 1]);
    assert!(cpu.is_key_down(5) && cpu.is_key_down(1) && !cpu.is_key_down(0));
    run(&mut cpu, 2);
    assert_eq!(cpu.pc(), 0x206);
    cpu.update_keyboard(&[]);
    assert!(!cpu.is_key_down(5));
    run(&mut cpu, 1);
    assert_eq!(cpu.pc(), 0x20A);
}

#[test]
fn timers_count_down_to_zero() {
    let mut cpu = machine(&[0x60, 0x02, 0xF0, 0x15, 0xF0, 0x18, 0xF1, 0x07]);
    run(&mut cpu, 3);
    assert_eq!(cpu.delay_timer(), 2);
    assert_eq!(cpu.sound_timer(), 2);
    cpu.timer_interrupt();
    run(&mut cpu, 1);
    assert_eq!(cpu.register(1), 1);
    cpu.timer_interrupt();
    cpu.timer_interrupt();
    assert_eq!(cpu.delay_timer(), 0);
    assert_eq!(cpu.sound_timer(), 0);
}

#[test]
fn index_register_ops() {
    let mut cpu = machine(&[0x60, 0x0A, 0xF0, 0x29, 0x61, 0x20, 0xF1, 0x1E]);
    run(&mut cpu, 2);
    assert_eq!(cpu.index_register(), 50);
    run(&mut cpu, 2);
    assert_eq!(cpu.index_register(), 82);
}

#[test]
fn index_register_wraps() {
    // I = 0xFFF, then I += 0xFF in a loop: after 241 additions it passes 0xFFFF
    let mut cpu = machine(&[0x60, 0xFF, 0xAF, 0xFF, 0xF0, 0x1E, 0x12, 0x04]);
    run(&mut cpu, 3);
    assert_eq!(cpu.index_register(), 0x10FE);
    run(&mut cpu, 240 * 2);
    assert_eq!(cpu.index_register(), 14);
}

#[test]
fn store_and_load_registers() {
    let mut cpu = machine(&[
        0x60, 1, 0x61, 2, 0x62, 3, 0x63, 4, 0xA4, 0x00, 0xF2, 0x55, 0x60, 0, 0x61, 0, 0x62, 0,
        0xF1, 0x65,
    ]);
    run(&mut cpu, 6);
    let stored: Vec<u8> = (0x400..0x404).map(|a| cpu.memory_at(a)).collect();
    assert_eq!(stored, vec![1, 2, 3, 0]);
    run(&mut cpu, 4);
    assert_eq!(cpu.register(0), 1);
    assert_eq!(cpu.register(1), 2);
    assert_eq!(cpu.register(2), 0);
    assert_eq!(cpu.register(3), 4);
}

#[test]
fn random_byte_is_masked() {
    let mut cpu = machine(&[0xC0, 0x0F, 0xC1, 0xF0]);
    cpu.cycle_with(0xAB).unwrap();
    assert_eq!(cpu.register(0), 0x0B);
    cpu.cycle().unwrap();
    assert_eq!(cpu.register(1) & 0x0F, 0);
}

#[test]
fn draw_instruction_sets_collision_and_asks_redraw() {
    // I = glyph of 0; draw at (V0, V1) = (0, 0) twice; then clear
    let mut cpu = machine(&[0xA0, 0x00, 0xD0, 0x15, 0xD0, 0x15, 0xD0, 0x15, 0x00, 0xE0]);
    run(&mut cpu, 1);
    assert_eq!(cpu.cycle_with(0), Ok(true));
    assert_eq!(cpu.register(0xF), 0);
    let buf = cpu.display_buffer();
    assert!(buf[0] && buf[1] && buf[2] && buf[3] && !buf[4]);
    assert!(buf[WIDTH] && !buf[WIDTH + 1] && buf[WIDTH + 3]);
    assert_eq!(cpu.cycle_with(0), Ok(true));
    assert_eq!(cpu.register(0xF), 1);
    assert!(cpu.display_buffer().iter().all(|p| !*p));
    assert_eq!(cpu.cycle_with(0), Ok(true));
    assert_eq!(cpu.cycle_with(0), Ok(false));
    assert!(cpu.display_buffer().iter().all(|p| !*p));
}

#[test]
fn sys_is_ignored() {
    let mut cpu = machine(&[0x03, 0x45]);
    assert_eq!(cpu.cycle_with(0), Ok(false));
    assert_eq!(cpu.pc(), 0x202);
}
