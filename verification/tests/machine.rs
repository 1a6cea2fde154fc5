use asm8::vm::{Machine, RunStatus, VmFault};

fn run_program(bytes: Vec<u8>, max_steps: u64) -> (Machine, Vec<String>, RunStatus) {
    let mut m = Machine::from_program(&bytes);
    let mut out: Vec<String> = Vec::new();
    let status = m.run(&mut out, max_steps);
    (m, out, status)
}

#[test]
fn memory_loads_low_and_zeroes_rest() {
    let m = Machine::from_program(&vec![1, 2, 3]);
    assert_eq!(m.memory.read(0), 1);
    assert_eq!(m.memory.read(1), 2);
    assert_eq!(m.memory.read(2), 3);
    assert_eq!(m.memory.read(3), 0);
    assert_eq!(m.memory.read(255), 0);
    assert_eq!(m.pc, 0);
    assert_eq!(m.acc, 0);
}

#[test]
fn ldi_then_stop() {
    // ldi 5; stop
    let (m, out, status) = run_program(vec![0x11, 0x05, 0x50], 1000);
    assert_eq!(status, RunStatus::Stopped);
    assert_eq!(m.acc, 5);
    assert_eq!(m.pc, 2);
    assert!(out.is_empty());
}

#[test]
fn addi_wraps_on_overflow() {
    // acc starts 0: addi 255 wraps nothing yet; a further addi 2 wraps to 1.
    let (m, _, status) = run_program(vec![0x31, 0xFF, 0x50], 1000);
    assert_eq!(status, RunStatus::Stopped);
    assert_eq!(m.acc, 255);
    let (m, _, _) = run_program(vec![0x31, 0xFF, 0x31, 0x02, 0x50], 1000);
    assert_eq!(m.acc, 1);
}

#[test]
fn print_length_prefixed_string() {
    // print the string at address 10, stored as [len=2, 'H', 'I'].
    let mut bytes = vec![0u8; 13];
    bytes[0] = 0x40;
    bytes[1] = 10;
    bytes[2] = 0x50;
    bytes[10] = 2;
    bytes[11] = b'H';
    bytes[12] = b'I';
    let (m, out, status) = run_program(bytes, 1000);
    assert_eq!(out, vec!["HI".to_string()]);
    assert_eq!(status, RunStatus::Stopped);
    assert_eq!(m.pc, 2);
}

#[test]
fn print_wraps_around_address_space() {
    // The string starts at 254: length 2, content at 255 and, wrapping, 0.
    let mut bytes = vec![0u8; 256];
    bytes[0] = 0x40;
    bytes[1] = 254;
    bytes[2] = 0x50;
    bytes[254] = 2;
    bytes[255] = b'H';
    // content byte 2 wraps to address 0, which holds 0x40 ('@').
    let (_, out, status) = run_program(bytes, 1000);
    assert_eq!(status, RunStatus::Stopped);
    assert_eq!(out, vec!["H@".to_string()]);
}

#[test]
fn print_replaces_invalid_utf8() {
    // A lone 0xFF byte is not valid UTF-8 and must decode to U+FFFD,
    // never fault.
    let mut bytes = vec![0u8; 7];
    bytes[0] = 0x40;
    bytes[1] = 5;
    bytes[2] = 0x50;
    bytes[5] = 1;
    bytes[6] = 0xFF;
    let (_, out, status) = run_program(bytes, 1000);
    assert_eq!(status, RunStatus::Stopped);
    assert_eq!(out, vec!["\u{FFFD}".to_string()]);
}

#[test]
fn unknown_opcode_is_fatal_with_byte_and_position() {
    let (m, out, status) = run_program(vec![0x00, 0x60], 1000);
    assert_eq!(
        status,
        RunStatus::Faulted(VmFault { opcode: 0x60, at: 1 })
    );
    assert_eq!(m.pc, 1);
    assert!(out.is_empty());
}

#[test]
fn runs_are_deterministic() {
    let mut bytes = vec![0u8; 16];
    // ldi 3; add [9]; print 10; stop — with data at 9 and a string at 10.
    bytes[0] = 0x11; // ldi 3
    bytes[1] = 3;
    bytes[2] = 0x30; // add [9]
    bytes[3] = 9;
    bytes[4] = 0x40; // print 10
    bytes[5] = 10;
    bytes[6] = 0x50; // stop
    bytes[9] = 7;
    bytes[10] = 2;
    bytes[11] = b'o';
    bytes[12] = b'k';
    let (m1, out1, s1) = run_program(bytes.clone(), 1000);
    let (m2, out2, s2) = run_program(bytes, 1000);
    assert_eq!(s1, s2);
    assert_eq!(out1, out2);
    assert_eq!(m1.pc, m2.pc);
    assert_eq!(m1.acc, m2.acc);
    assert_eq!(m1.acc, 10);
}

#[test]
fn infinite_loop_runs_out_of_steps() {
    // jmp 0 loops forever; the budget stops it.
    let (m, out, status) = run_program(vec![0x20, 0x00], 10);
    assert_eq!(status, RunStatus::OutOfSteps);
    assert_eq!(m.pc, 0);
    assert!(out.is_empty());
}

#[test]
fn load_and_store() {
    // ldi 7; st 50; ld 51; stop  (51 holds 9)
    let mut bytes = vec![0u8; 52];
    bytes[0] = 0x11;
    bytes[1] = 7;
    bytes[2] = 0x12;
    bytes[3] = 50;
    bytes[4] = 0x10;
    bytes[5] = 51;
    bytes[6] = 0x50;
    bytes[51] = 9;
    let (m, _, status) = run_program(bytes, 1000);
    assert_eq!(status, RunStatus::Stopped);
    assert_eq!(m.memory.read(50), 7);
    assert_eq!(m.acc, 9);
}

#[test]
fn store_immediate_and_move() {
    // sti 0x27 64; mov 64 65; stop
    let (m, _, status) = run_program(vec![0x13, 0x27, 64, 0x14, 64, 65, 0x50], 1000);
    assert_eq!(status, RunStatus::Stopped);
    assert_eq!(m.memory.read(64), 0x27);
    assert_eq!(m.memory.read(65), 0x27);
}

#[test]
fn jumps_and_jump_zero() {
    // jmp 3; (skipped: 0x60 fault byte); stop at 3.
    let (m, _, status) = run_program(vec![0x20, 3, 0x60, 0x50], 1000);
    assert_eq!(status, RunStatus::Stopped);
    assert_eq!(m.pc, 3);
    // jz taken when acc == 0.
    let (m, _, status) = run_program(vec![0x21, 4, 0x60, 0x60, 0x50], 1000);
    assert_eq!(status, RunStatus::Stopped);
    assert_eq!(m.pc, 4);
    // jz not taken when acc != 0: falls through to the next instruction,
    // which here holds an unknown byte, so the fault position shows the
    // fall-through.
    let (m, _, status) = run_program(vec![0x11, 1, 0x21, 5, 0x60, 0x50], 1000);
    assert_eq!(status, RunStatus::Faulted(VmFault { opcode: 0x60, at: 4 }));
    assert_eq!(m.acc, 1);
}

#[test]
fn subtraction_wraps_under_zero() {
    // subi 1 from acc == 0 wraps to 255.
    let (m, _, _) = run_program(vec![0x33, 1, 0x50], 1000);
    assert_eq!(m.acc, 255);
    // sub [5] with memory[5] == 2 from acc 255 gives 253.
    let (m, _, _) = run_program(vec![0x33, 1, 0x32, 5, 0x50, 0x02], 1000);
    assert_eq!(m.pc, 4);
    assert_eq!(m.acc, 253);
}

#[test]
fn shifts_and_bitwise_and() {
    // ldi 0x81; shl; stop -> 0x02 (bit shifted out is dropped)
    let (m, _, _) = run_program(vec![0x11, 0x81, 0x35, 0x50], 1000);
    assert_eq!(m.acc, 0x02);
    // ldi 5; shr; stop -> 2
    let (m, _, _) = run_program(vec![0x11, 5, 0x34, 0x50], 1000);
    assert_eq!(m.acc, 2);
    // ldi 0xF0; andi 0x3C; stop -> 0x30
    let (m, _, _) = run_program(vec![0x11, 0xF0, 0x37, 0x3C, 0x50], 1000);
    assert_eq!(m.acc, 0x30);
    // ldi 0xFF; and [5]; stop with memory[5] == 0x0F -> 0x0F
    let (m, _, _) = run_program(vec![0x11, 0xFF, 0x36, 5, 0x50, 0x0F], 1000);
    assert_eq!(m.acc, 0x0F);
}

#[test]
fn nop_only_advances() {
    let (m, _, status) = run_program(vec![0x00, 0x00, 0x50], 1000);
    assert_eq!(status, RunStatus::Stopped);
    assert_eq!(m.pc, 2);
    assert_eq!(m.acc, 0);
}

#[test]
fn all_zero_memory_runs_nops_until_budget() {
    // Memory is all zero, and zero is nop: an empty program runs nops
    // until the budget runs out.
    let (m, _, status) = run_program(vec![], 300);
    assert_eq!(status, RunStatus::OutOfSteps);
    assert_eq!(m.acc, 0);
}
