use ruvm32::{MiniRV32IMAState, MmioBus, MINIRV32_RAM_IMAGE_OFFSET, UVM32_MEMORY_SIZE, UVM32_SYSCALL_HALT};

const BASE: u32 = MINIRV32_RAM_IMAGE_OFFSET;

struct Recorder {
    loads: Vec<u32>,
    stores: Vec<(u32, u32)>,
    answer: u32,
}

impl Recorder {
    fn new() -> Recorder {
        Recorder { loads: Vec::new(), stores: Vec::new(), answer: 0 }
    }
}

impl MmioBus for Recorder {
    fn load(&mut self, addr: u32) -> u32 {
        self.loads.push(addr);
        self.answer
    }

    fn store(&mut self, addr: u32, value: u32) {
        self.stores.push((addr, value));
    }
}

fn i_type(op: u32, rd: u32, f3: u32, rs1: u32, imm: i32) -> u32 {
    (((imm as u32) & 0xfff) << 20) | (rs1 << 15) | (f3 << 12) | (rd << 7) | op
}

fn addi(rd: u32, rs1: u32, imm: i32) -> u32 {
    i_type(0x13, rd, 0, rs1, imm)
}

fn s_type(f3: u32, rs2: u32, rs1: u32, imm: i32) -> u32 {
    let imm = imm as u32;
    (((imm >> 5) & 0x7f) << 25) | (rs2 << 20) | (rs1 << 15) | (f3 << 12) | ((imm & 0x1f) << 7) | 0x23
}

fn b_type(f3: u32, rs1: u32, rs2: u32, imm: i32) -> u32 {
    let imm = imm as u32;
    (((imm >> 12) & 1) << 31)
        | (((imm >> 5) & 0x3f) << 25)
        | (rs2 << 20)
        | (rs1 << 15)
        | (f3 << 12)
        | (((imm >> 1) & 0xf) << 8)
        | (((imm >> 11) & 1) << 7)
        | 0x63
}

fn jal(rd: u32, imm: i32) -> u32 {
    let imm = imm as u32;
    (((imm >> 20) & 1) << 31)
        | (((imm >> 1) & 0x3ff) << 21)
        | (((imm >> 11) & 1) << 20)
        | (((imm >> 12) & 0xff) << 12)
        | (rd << 7)
        | 0x6f
}

fn r_type(f7: u32, f3: u32, rd: u32, rs1: u32, rs2: u32) -> u32 {
    (f7 << 25) | (rs2 << 20) | (rs1 << 15) | (f3 << 12) | (rd << 7) | 0x33
}

fn lui(rd: u32, imm20: u32) -> u32 {
    (imm20 << 12) | (rd << 7) | 0x37
}

fn csr(f3: u32, rd: u32, csr: u32, rs1: u32) -> u32 {
    (csr << 20) | (rs1 << 15) | (f3 << 12) | (rd << 7) | 0x73
}

const ECALL: u32 = 0x0000_0073;
const EBREAK: u32 = 0x0010_0073;
const MRET: u32 = 0x3020_0073;
const WFI: u32 = 0x1050_0073;

fn image(words: &[u32]) -> Vec<u8> {
    let mut m = vec![0u8; UVM32_MEMORY_SIZE as usize];
    for (i, w) in words.iter().enumerate() {
        m[4 * i..4 * i + 4].copy_from_slice(&w.to_le_bytes());
    }
    m
}

fn run(words: &[u32], count: i32) -> (MiniRV32IMAState, Vec<u8>, i32) {
    let mut cpu = MiniRV32IMAState::new();
    let mut mem = image(words);
    let mut bus = Recorder::new();
    let r = cpu.step(&mut mem, &mut bus, count);
    (cpu, mem, r)
}

#[test]
fn addi_chain() {
    let (cpu, _, r) = run(&[addi(1, 0, 5), addi(1, 1, -2), addi(2, 1, 0x10)], 3);
    assert_eq!(r, 0);
    assert_eq!(cpu.get_reg(1), 3);
    assert_eq!(cpu.get_reg(2), 19);
    assert_eq!(cpu.get_pc(), BASE + 12);
}

#[test]
fn unconditional_jump() {
    let (cpu, _, r) = run(&[jal(1, 8), addi(2, 0, 1), addi(3, 0, 2)], 2);
    assert_eq!(r, 0);
    assert_eq!(cpu.get_reg(1), BASE + 4);
    assert_eq!(cpu.get_reg(3), 2);
    // The skipped addi never ran: x2 still holds the reset stack pointer.
    assert_eq!(cpu.get_reg(2), MiniRV32IMAState::new().get_reg(2));
    assert_eq!(cpu.get_pc(), BASE + 12);
}

#[test]
fn load_store_through_ram_base() {
    // x5 holds the RAM base, so offset 0 is the first byte of the image.
    let prog = [lui(5, 0x80000), addi(1, 0, 0x55), s_type(2, 1, 5, 0), i_type(0x03, 2, 2, 5, 0)];
    let (cpu, mem, r) = run(&prog, 4);
    assert_eq!(r, 0);
    assert_eq!(&mem[0..4], &[0x55, 0, 0, 0]);
    assert_eq!(cpu.get_reg(2), 0x55);
}

#[test]
fn store_to_absolute_zero_faults() {
    // Address 0 lies neither in RAM nor in the MMIO window.
    let (cpu, _, r) = run(&[addi(1, 0, 0x55), s_type(2, 1, 0, 0)], 2);
    assert_eq!(r, 8);
    assert_eq!(cpu.read_csr(0x342), Some(7));
    assert_eq!(cpu.read_csr(0x343), Some(0));
    assert_eq!(cpu.read_csr(0x341), Some(BASE + 4));
}

#[test]
fn signed_branch() {
    let prog = [addi(1, 0, -1), addi(2, 0, 1), b_type(4, 1, 2, 8), addi(3, 0, 7), addi(4, 0, 9)];
    let (cpu, _, r) = run(&prog, 4);
    assert_eq!(r, 0);
    assert_eq!(cpu.get_reg(3), 0);
    assert_eq!(cpu.get_reg(4), 9);
}

#[test]
fn unsigned_branch_not_taken_for_negative() {
    // bltu: 0xffffffff is not below 1.
    let prog = [addi(1, 0, -1), addi(2, 0, 1), b_type(6, 1, 2, 8), addi(3, 0, 7), addi(4, 0, 9)];
    let (cpu, _, r) = run(&prog, 5);
    assert_eq!(r, 0);
    assert_eq!(cpu.get_reg(3), 7);
    assert_eq!(cpu.get_reg(4), 9);
}

#[test]
fn m_extension() {
    let prog = [addi(1, 0, -6), addi(2, 0, 4), r_type(1, 4, 3, 1, 2), r_type(1, 6, 4, 1, 2)];
    let (cpu, _, r) = run(&prog, 4);
    assert_eq!(r, 0);
    assert_eq!(cpu.get_reg(3), 0xFFFF_FFFF);
    assert_eq!(cpu.get_reg(4), 0xFFFF_FFFE);
}

#[test]
fn ecall_halt() {
    // The 32-bit syscall number does not fit an addi immediate: lui loads it.
    let (mut cpu, _, r) = run(&[lui(17, 0x1000), ECALL], 5);
    assert_eq!(r, 12);
    assert_eq!(cpu.get_reg(17), 0x0100_0000);
    assert_eq!(cpu.get_reg(17), UVM32_SYSCALL_HALT);
    assert_eq!(cpu.get_pc(), BASE + 4);
    cpu.increment_pc(4);
    assert_eq!(cpu.get_pc(), BASE + 8);
}

#[test]
fn wfi_idles() {
    let prog = [addi(1, 0, 1), csr(1, 0, 0x304, 1), WFI, addi(5, 0, 3)];
    let mut cpu = MiniRV32IMAState::new();
    let mut mem = image(&prog);
    let mut bus = Recorder::new();
    assert_eq!(cpu.step(&mut mem, &mut bus, 10), 1);
    assert_eq!(cpu.read_csr(0x300).unwrap() & 8, 8);
    assert_eq!(cpu.read_csr(0x304), Some(1));
    assert_eq!(cpu.get_pc(), BASE + 12);
    assert_eq!(cpu.step(&mut mem, &mut bus, 10), 1);
    assert_eq!(cpu.get_pc(), BASE + 12);
    cpu.interrupt(0x80);
    assert_eq!(cpu.read_csr(0x344), Some(0x80));
    assert_eq!(cpu.step(&mut mem, &mut bus, 1), 0);
    assert_eq!(cpu.get_reg(5), 3);
}

#[test]
fn x0_ignores_writes() {
    let (cpu, _, r) = run(&[addi(0, 0, 5), lui(0, 0x12345), r_type(0, 0, 0, 0, 0)], 3);
    assert_eq!(r, 0);
    assert_eq!(cpu.get_reg(0), 0);
}

#[test]
fn pc_aligned_after_successful_steps() {
    let prog = [addi(1, 0, 3), jal(0, 8), addi(1, 0, 1), b_type(1, 1, 0, -4)];
    let mut cpu = MiniRV32IMAState::new();
    let mut mem = image(&prog);
    let mut bus = Recorder::new();
    for _ in 0..6 {
        assert_eq!(cpu.step(&mut mem, &mut bus, 1), 0);
        assert_eq!(cpu.get_pc() & 3, 0);
    }
}

#[test]
fn misaligned_jump_faults_at_next_fetch() {
    // jalr to base + 2: the jump itself succeeds, the fetch after it traps.
    let prog = [lui(5, 0x80000), i_type(0x67, 0, 0, 5, 2)];
    let mut cpu = MiniRV32IMAState::new();
    let mut mem = image(&prog);
    let mut bus = Recorder::new();
    assert_eq!(cpu.step(&mut mem, &mut bus, 2), 0);
    assert_eq!(cpu.get_pc(), BASE + 2);
    assert_eq!(cpu.step(&mut mem, &mut bus, 1), 1);
    assert_eq!(cpu.read_csr(0x342), Some(0));
    assert_eq!(cpu.read_csr(0x341), Some(BASE + 2));
    assert_eq!(cpu.read_csr(0x343), Some(BASE + 2));
    assert_eq!(cpu.get_pc(), 0);
}

#[test]
fn fetch_outside_ram_faults() {
    let mut cpu = MiniRV32IMAState::new();
    let mut mem = image(&[]);
    let mut bus = Recorder::new();
    cpu.increment_pc(UVM32_MEMORY_SIZE);
    assert_eq!(cpu.step(&mut mem, &mut bus, 1), 2);
    assert_eq!(cpu.read_csr(0x342), Some(1));
}

#[test]
fn illegal_opcode_traps() {
    let (cpu, _, r) = run(&[addi(1, 0, 1), 0xffff_ffff], 2);
    assert_eq!(r, 3);
    assert_eq!(cpu.read_csr(0x342), Some(2));
    assert_eq!(cpu.read_csr(0x341), Some(BASE + 4));
    assert_eq!(cpu.read_csr(0x343), Some(BASE + 4));
    assert_eq!(cpu.get_reg(1), 1);
}

#[test]
fn reserved_branch_funct3_is_illegal() {
    let (_, _, r) = run(&[b_type(2, 0, 0, 8)], 1);
    assert_eq!(r, 3);
}

#[test]
fn unknown_csr_is_illegal() {
    let (cpu, _, r) = run(&[csr(2, 1, 0x7c0, 0)], 1);
    assert_eq!(r, 3);
    assert_eq!(cpu.get_reg(1), 0);
}

#[test]
fn load_fault_records_address() {
    let (cpu, _, r) = run(&[addi(1, 0, 0x40), i_type(0x03, 2, 2, 1, 4)], 2);
    assert_eq!(r, 6);
    assert_eq!(cpu.read_csr(0x342), Some(5));
    assert_eq!(cpu.read_csr(0x343), Some(0x44));
}

#[test]
fn ebreak_then_mret_restores_state() {
    // mtvec = base + 0x100, where an mret waits.
    let mut words = vec![lui(5, 0x80000), addi(5, 5, 0x100), csr(1, 0, 0x305, 5), addi(6, 0, 8), csr(1, 0, 0x300, 6), EBREAK];
    words.resize(0x40, 0);
    words.push(MRET);
    let mut cpu = MiniRV32IMAState::new();
    let mut mem = image(&words);
    let mut bus = Recorder::new();
    assert_eq!(cpu.step(&mut mem, &mut bus, 10), 4);
    assert_eq!(cpu.get_mvtec(), BASE + 0x100);
    assert_eq!(cpu.get_pc(), BASE + 0x100);
    assert_eq!(cpu.read_csr(0x342), Some(3));
    assert_eq!(cpu.read_csr(0x341), Some(BASE + 20));
    let st = cpu.read_csr(0x300).unwrap();
    assert_eq!(st & 8, 0);
    assert_eq!(st & 0x80, 0x80);
    assert_eq!((st >> 11) & 3, 3);
    assert_eq!(cpu.step(&mut mem, &mut bus, 1), 0);
    assert_eq!(cpu.get_pc(), BASE + 20);
    let st = cpu.read_csr(0x300).unwrap();
    assert_eq!(st & 8, 8);
    assert_eq!(st & 0x80, 0x80);
    assert_eq!((st >> 11) & 3, 0);
}

#[test]
fn ecall_from_user_mode_enters_trap() {
    // mret with MPP = 0 drops to user mode at mepc; the ecall there traps.
    let mut words = vec![lui(5, 0x80000), addi(6, 5, 0x100), csr(1, 0, 0x305, 6), addi(7, 5, 0x20), csr(1, 0, 0x341, 7), MRET];
    words.resize(8, 0);
    words.push(ECALL);
    let (cpu, _, r) = run(&words, 10);
    assert_eq!(r, 9);
    assert_eq!(cpu.read_csr(0x342), Some(8));
    assert_eq!(cpu.read_csr(0x341), Some(BASE + 0x20));
    assert_eq!(cpu.get_pc(), BASE + 0x100);
    assert_eq!((cpu.read_csr(0x300).unwrap() >> 11) & 3, 0);
}

#[test]
fn csrrs_x0_reads_without_writing() {
    let prog = [addi(1, 0, 0x2a), csr(1, 0, 0x340, 1), csr(2, 5, 0x340, 0)];
    let (cpu, _, r) = run(&prog, 3);
    assert_eq!(r, 0);
    assert_eq!(cpu.get_reg(5), 0x2a);
    assert_eq!(cpu.read_csr(0x340), Some(0x2a));
}

#[test]
fn csr_set_clear_and_immediates() {
    let prog = [
        addi(1, 0, 0x0f),
        csr(1, 0, 0x340, 1),  // csrrw mscratch = 0xf
        csr(3, 2, 0x340, 1),  // csrrc: x2 = 0xf, mscratch = 0
        csr(6, 3, 0x340, 0x12), // csrrsi: x3 = 0, mscratch = 0x12
        csr(7, 4, 0x340, 0x02), // csrrci: x4 = 0x12, mscratch = 0x10
        csr(5, 0, 0x344, 0x05), // csrrwi: mip = 5
        csr(2, 6, 0x301, 0),
        csr(2, 7, 0xf11, 0),
    ];
    let (cpu, _, r) = run(&prog, 8);
    assert_eq!(r, 0);
    assert_eq!(cpu.get_reg(2), 0x0f);
    assert_eq!(cpu.get_reg(3), 0);
    assert_eq!(cpu.get_reg(4), 0x12);
    assert_eq!(cpu.read_csr(0x340), Some(0x10));
    assert_eq!(cpu.read_csr(0x344), Some(5));
    assert_eq!(cpu.get_reg(6), 0x4040_1101);
    assert_eq!(cpu.get_reg(7), 0xff0f_f0ff);
}

#[test]
fn byte_and_half_loads_extend() {
    let mut words = vec![lui(5, 0x80000), i_type(0x03, 1, 0, 5, 0x40), i_type(0x03, 2, 4, 5, 0x40), i_type(0x03, 3, 1, 5, 0x40), i_type(0x03, 4, 5, 5, 0x40)];
    words.resize(0x10, 0);
    words.push(0x0000_8081);
    let (cpu, _, r) = run(&words, 5);
    assert_eq!(r, 0);
    assert_eq!(cpu.get_reg(1), 0xffff_ff81);
    assert_eq!(cpu.get_reg(2), 0x81);
    assert_eq!(cpu.get_reg(3), 0xffff_8081);
    assert_eq!(cpu.get_reg(4), 0x8081);
}

#[test]
fn byte_and_half_stores() {
    let prog = [lui(5, 0x80000), lui(1, 0xabcde), addi(1, 1, 0x123), s_type(0, 1, 5, 0x40), s_type(1, 1, 5, 0x44)];
    let (_, mem, r) = run(&prog, 5);
    assert_eq!(r, 0);
    assert_eq!(&mem[0x40..0x48], &[0x23, 0, 0, 0, 0x23, 0xe1, 0, 0]);
}

#[test]
fn mmio_accesses_reach_the_bus() {
    let prog = [lui(5, 0x10000), addi(1, 0, 7), s_type(2, 1, 5, 8), i_type(0x03, 2, 2, 5, 4)];
    let mut cpu = MiniRV32IMAState::new();
    let mut mem = image(&prog);
    let mut bus = Recorder::new();
    bus.answer = 0x99;
    assert_eq!(cpu.step(&mut mem, &mut bus, 4), 0);
    assert_eq!(bus.stores, vec![(0x1000_0008, 7)]);
    assert_eq!(bus.loads, vec![0x1000_0004]);
    assert_eq!(cpu.get_reg(2), 0x99);
}

#[test]
fn alu_register_operations() {
    let prog = [
        addi(1, 0, -8),
        addi(2, 0, 2),
        r_type(0x20, 0, 3, 2, 1),  // sub: 2 - (-8) = 10
        r_type(0, 1, 4, 1, 2),     // sll: -8 << 2
        r_type(0, 5, 5, 1, 2),     // srl
        r_type(0x20, 5, 6, 1, 2),  // sra
        r_type(0, 2, 7, 1, 2),     // slt: -8 < 2
        r_type(0, 3, 8, 1, 2),     // sltu: 0xfffffff8 < 2 is false
        r_type(0, 4, 9, 1, 2),     // xor
        r_type(0, 6, 10, 1, 2),    // or
        r_type(0, 7, 11, 1, 2),    // and
    ];
    let (cpu, _, r) = run(&prog, prog.len() as i32);
    assert_eq!(r, 0);
    assert_eq!(cpu.get_reg(3), 10);
    assert_eq!(cpu.get_reg(4), 0xffff_ffe0);
    assert_eq!(cpu.get_reg(5), 0x3fff_fffe);
    assert_eq!(cpu.get_reg(6), 0xffff_fffe);
    assert_eq!(cpu.get_reg(7), 1);
    assert_eq!(cpu.get_reg(8), 0);
    assert_eq!(cpu.get_reg(9), 0xffff_fffa);
    assert_eq!(cpu.get_reg(10), 0xffff_fffa);
    assert_eq!(cpu.get_reg(11), 0);
}

#[test]
fn immediate_shifts_and_compares() {
    let prog = [
        addi(1, 0, -16),
        i_type(0x13, 2, 5, 1, 0x402), // srai x2, x1, 2
        i_type(0x13, 3, 5, 1, 2),     // srli
        i_type(0x13, 4, 1, 1, 4),     // slli
        i_type(0x13, 5, 2, 1, 0),     // slti: -16 < 0
        i_type(0x13, 6, 3, 1, -1),    // sltiu: 0xfffffff0 < 0xffffffff
    ];
    let (cpu, _, r) = run(&prog, 6);
    assert_eq!(r, 0);
    assert_eq!(cpu.get_reg(2), 0xffff_fffc);
    assert_eq!(cpu.get_reg(3), 0x3fff_fffc);
    assert_eq!(cpu.get_reg(4), 0xffff_ff00);
    assert_eq!(cpu.get_reg(5), 1);
    assert_eq!(cpu.get_reg(6), 1);
}

#[test]
fn auipc_and_jalr_link() {
    // auipc x5, 1; auipc x6, 0; jalr x1, 17(x6) (bit 0 of the target is dropped)
    let prog = [0x0000_1297, 0x0000_0317, i_type(0x67, 1, 0, 6, 17)];
    let (cpu, _, r) = run(&prog, 3);
    assert_eq!(r, 0);
    assert_eq!(cpu.get_reg(5), BASE + 0x1000);
    assert_eq!(cpu.get_reg(6), BASE + 4);
    assert_eq!(cpu.get_reg(1), BASE + 12);
    assert_eq!(cpu.get_pc(), BASE + 20);
}

#[test]
fn fence_does_nothing() {
    let (cpu, _, r) = run(&[0x0ff0_000f | (3 << 7)], 1);
    assert_eq!(r, 0);
    assert_eq!(cpu.get_reg(3), 0);
    assert_eq!(cpu.get_pc(), BASE + 4);
}

#[test]
fn reset_state() {
    let cpu = MiniRV32IMAState::new();
    assert_eq!(cpu.get_pc(), BASE);
    assert_eq!(cpu.get_reg(2), 0x8000_fff0);
    assert_eq!(cpu.get_reg(1), 0);
    assert_eq!(cpu.get_mvtec(), 0);
    assert_eq!(cpu.read_csr(0x300), Some(0));
    assert_eq!(cpu.read_csr(0x123), None);
}

#[test]
fn increment_pc_wraps() {
    let mut cpu = MiniRV32IMAState::new();
    cpu.increment_pc(0x8000_0004);
    assert_eq!(cpu.get_pc(), 4);
}

#[test]
fn zero_and_negative_counts_run_nothing() {
    let (cpu, _, r) = run(&[addi(1, 0, 5)], 0);
    assert_eq!(r, 0);
    assert_eq!(cpu.get_pc(), BASE);
    let (cpu, _, r) = run(&[addi(1, 0, 5)], -3);
    assert_eq!(r, 0);
    assert_eq!(cpu.get_reg(1), 0);
}
