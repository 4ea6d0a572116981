//! Architectural state of the hart, the meaning of one instruction over a
//! model of that state, and the stepping engine proved against it.
use vstd::prelude::*;
use vstd::arithmetic::div_mod::{lemma_fundamental_div_mod, lemma_mod_multiples_vanish};
use crate::MINIRV32_RAM_IMAGE_OFFSET;
use crate::UVM32_MEMORY_SIZE;
use crate::alu::{alu_op, alu_result, muldiv_op, muldiv_result};
use crate::decode::{
    funct3,
    funct3_of,
    imm_b,
    imm_b_value,
    imm_i,
    imm_i_value,
    imm_j,
    imm_j_value,
    imm_s,
    imm_s_value,
    imm_u,
    imm_u_value,
    opcode,
    opcode_of,
    rd,
    rd_of,
    rs1,
    rs1_of,
    rs2,
    rs2_of,
    sval,
    word,
};
use crate::memory::{
    byte_at,
    half_at,
    in_mmio,
    minirv32_load1,
    minirv32_load1_signed,
    minirv32_load2,
    minirv32_load2_signed,
    minirv32_load4,
    minirv32_mmio_range,
    minirv32_store1,
    minirv32_store2,
    minirv32_store4,
    put_byte,
    put_half,
    put_word,
    signed16,
    signed8,
    word_at,
};

verus! {

/// Trap code (cause + 1) of an illegal instruction.
pub const TRAP_ILLEGAL: u32 = 3;

/// The hart as a mathematical value.
pub struct HartView {
    pub regs: Seq<u32>,
    pub pc: u32,
    pub mstatus: u32,
    pub mscratch: u32,
    pub mtvec: u32,
    pub mie: u32,
    pub mip: u32,
    pub mepc: u32,
    pub mtval: u32,
    pub mcause: u32,
    /// Bits 0-1: privilege (3 machine, 0 user); bit 2: waiting for an
    /// interrupt; bits 3 and up: reservation bookkeeping.
    pub extraflags: u32,
}

/// What executing an instruction leaves behind: the hart, the RAM, and the
/// status for the harness (0 to go on, 1 for WFI, 12 for the ECALL
/// shortcut, otherwise the trap code).
pub struct Outcome {
    pub hart: HartView,
    pub mem: Seq<u8>,
    pub status: u32,
}

/// Device hook for loads and stores in the MMIO window.
pub trait MmioBus {
    /// Value for a load from `addr`.
    fn load(&mut self, addr: u32) -> u32;

    /// Takes a store of `value` (the whole source register) to `addr`.
    fn store(&mut self, addr: u32, value: u32);
}

pub open spec fn hart_wf(h: HartView) -> bool {
    h.regs.len() == 32 && h.regs[0] == 0
}

pub open spec fn reg(h: HartView, i: u32) -> u32 {
    h.regs[i as int]
}

pub open spec fn next_pc(h: HartView) -> u32 {
    word(h.pc + 4)
}

/// The hart after writing `v` to register `rd` (discarded for x0) and
/// moving the pc to `next`.
pub open spec fn retired(h: HartView, rd: u32, v: u32, next: u32) -> HartView {
    HartView {
        regs: if rd == 0 {
            h.regs
        } else {
            h.regs.update(rd as int, v)
        },
        pc: next,
        ..h
    }
}

pub open spec fn retire(h: HartView, m: Seq<u8>, rd: u32, v: u32, next: u32) -> Outcome {
    Outcome { hart: retired(h, rd, v, next), mem: m, status: 0 }
}

/// Trap entry: save pc, cause and trap value, stack MIE into MPIE, record
/// the privilege in MPP, enter machine mode and jump to `mtvec`.
pub open spec fn trap_entry(h: HartView, cause: u32, tval: u32) -> HartView {
    HartView {
        mepc: h.pc,
        mcause: cause,
        mtval: tval,
        mstatus: (h.mstatus & 0xffff_e777) | ((h.mstatus & 0x8) << 4) | ((h.extraflags & 3) << 11),
        extraflags: h.extraflags | 3,
        pc: h.mtvec,
        ..h
    }
}

/// The hart after trap code `code`: the ECALL shortcut (12) leaves it as it
/// is, with the pc on the ECALL; every other code goes through trap entry.
pub open spec fn trapped(h: HartView, code: u32, tval: u32) -> HartView {
    if code == 12 {
        h
    } else {
        trap_entry(h, (code - 1) as u32, tval)
    }
}

pub open spec fn take_trap(h: HartView, m: Seq<u8>, code: u32, tval: u32) -> Outcome {
    Outcome { hart: trapped(h, code, tval), mem: m, status: code }
}

/// MRET: MIE from MPIE, MPIE set, privilege from MPP, MPP cleared, pc from
/// `mepc`.
pub open spec fn mret(h: HartView) -> HartView {
    HartView {
        mstatus: (h.mstatus & 0xffff_e777) | ((h.mstatus & 0x80) >> 4) | 0x80,
        extraflags: (h.extraflags & 0xffff_fffc) | ((h.mstatus >> 11) & 3),
        pc: h.mepc,
        ..h
    }
}

/// WFI: interrupts enabled, the wait flag raised, pc past the instruction.
pub open spec fn wfi(h: HartView) -> HartView {
    HartView { mstatus: h.mstatus | 8, extraflags: h.extraflags | 4, pc: next_pc(h), ..h }
}

/// Current value of a CSR, or `None` for an address the core does not have.
pub open spec fn csr_value(h: HartView, csr: u32) -> Option<u32> {
    if csr == 0x300 {
        Some(h.mstatus)
    } else if csr == 0x301 {
        Some(0x4040_1101)
    } else if csr == 0x304 {
        Some(h.mie)
    } else if csr == 0x305 {
        Some(h.mtvec)
    } else if csr == 0x340 {
        Some(h.mscratch)
    } else if csr == 0x341 {
        Some(h.mepc)
    } else if csr == 0x342 {
        Some(h.mcause)
    } else if csr == 0x343 {
        Some(h.mtval)
    } else if csr == 0x344 {
        Some(h.mip)
    } else if csr == 0xf11 {
        Some(0xff0f_f0ff)
    } else {
        None
    }
}

pub open spec fn csr_writable(csr: u32) -> bool {
    csr == 0x300 || csr == 0x304 || csr == 0x305 || csr == 0x340 || csr == 0x341 || csr == 0x342
        || csr == 0x343 || csr == 0x344
}

/// The hart after writing `v` to a CSR; writes to the read-only constants
/// are dropped.
pub open spec fn csr_store(h: HartView, csr: u32, v: u32) -> HartView {
    if csr == 0x300 {
        HartView { mstatus: v, ..h }
    } else if csr == 0x304 {
        HartView { mie: v, ..h }
    } else if csr == 0x305 {
        HartView { mtvec: v, ..h }
    } else if csr == 0x340 {
        HartView { mscratch: v, ..h }
    } else if csr == 0x341 {
        HartView { mepc: v, ..h }
    } else if csr == 0x342 {
        HartView { mcause: v, ..h }
    } else if csr == 0x343 {
        HartView { mtval: v, ..h }
    } else if csr == 0x344 {
        HartView { mip: v, ..h }
    } else {
        h
    }
}

/// New CSR value for CSRRW/CSRRS/CSRRC (and their immediate forms).
pub open spec fn csr_update(funct3: u32, old: u32, src: u32) -> u32 {
    if funct3 & 3 == 1 {
        src
    } else if funct3 & 3 == 2 {
        old | src
    } else {
        old & !src
    }
}

pub open spec fn branch_taken(funct3: u32, a: u32, b: u32) -> bool {
    if funct3 == 0 {
        a == b
    } else if funct3 == 1 {
        a != b
    } else if funct3 == 4 {
        sval(a) < sval(b)
    } else if funct3 == 5 {
        sval(a) >= sval(b)
    } else if funct3 == 6 {
        a < b
    } else {
        a >= b
    }
}

/// Offset into RAM of an absolute address.
pub open spec fn ram_offset(addr: u32) -> u32 {
    word(addr - MINIRV32_RAM_IMAGE_OFFSET)
}

/// Whether a four-byte access at `ofs` stays inside RAM.
pub open spec fn in_ram(m: Seq<u8>, ofs: u32) -> bool {
    ofs + 4 <= m.len()
}

pub open spec fn load_value(m: Seq<u8>, ofs: int, funct3: u32) -> u32 {
    if funct3 == 0 {
        word(signed8(byte_at(m, ofs)))
    } else if funct3 == 1 {
        word(signed16(half_at(m, ofs)))
    } else if funct3 == 2 {
        word_at(m, ofs) as u32
    } else if funct3 == 4 {
        byte_at(m, ofs) as u32
    } else {
        half_at(m, ofs) as u32
    }
}

pub open spec fn store_bytes(m: Seq<u8>, ofs: int, funct3: u32, v: u32) -> Seq<u8> {
    if funct3 == 0 {
        put_byte(m, ofs, v as u8)
    } else if funct3 == 1 {
        put_half(m, ofs, v as u16)
    } else {
        put_word(m, ofs, v)
    }
}

pub open spec fn exec_branch(h: HartView, m: Seq<u8>, ir: u32) -> Outcome {
    let f3 = funct3_of(ir);
    if f3 == 2 || f3 == 3 {
        take_trap(h, m, TRAP_ILLEGAL, h.pc)
    } else if branch_taken(f3, reg(h, rs1_of(ir)), reg(h, rs2_of(ir))) {
        retire(h, m, 0, 0, word(h.pc + imm_b_value(ir)))
    } else {
        retire(h, m, 0, 0, next_pc(h))
    }
}

/// LOAD; `io` is what the device hook returns for an MMIO address.
pub open spec fn exec_load(h: HartView, m: Seq<u8>, ir: u32, io: u32) -> Outcome {
    let addr = word(reg(h, rs1_of(ir)) + imm_i_value(ir));
    let ofs = ram_offset(addr);
    let f3 = funct3_of(ir);
    if !in_ram(m, ofs) {
        if in_mmio(addr) {
            retire(h, m, rd_of(ir), io, next_pc(h))
        } else {
            take_trap(h, m, 6, addr)
        }
    } else if f3 == 0 || f3 == 1 || f3 == 2 || f3 == 4 || f3 == 5 {
        retire(h, m, rd_of(ir), load_value(m, ofs as int, f3), next_pc(h))
    } else {
        take_trap(h, m, TRAP_ILLEGAL, h.pc)
    }
}

/// STORE; a store to an MMIO address goes to the device hook and leaves RAM
/// alone.
pub open spec fn exec_store(h: HartView, m: Seq<u8>, ir: u32) -> Outcome {
    let addr = word(reg(h, rs1_of(ir)) + imm_s_value(ir));
    let ofs = ram_offset(addr);
    let f3 = funct3_of(ir);
    if !in_ram(m, ofs) {
        if in_mmio(addr) {
            retire(h, m, 0, 0, next_pc(h))
        } else {
            take_trap(h, m, 8, addr)
        }
    } else if f3 <= 2 {
        retire(h, store_bytes(m, ofs as int, f3, reg(h, rs2_of(ir))), 0, 0, next_pc(h))
    } else {
        take_trap(h, m, TRAP_ILLEGAL, h.pc)
    }
}

/// OP-IMM and OP, including the multiply/divide extension.
pub open spec fn exec_op(h: HartView, m: Seq<u8>, ir: u32) -> Outcome {
    let is_reg = ir & 0x20 != 0;
    let a = reg(h, rs1_of(ir));
    let b = if is_reg {
        reg(h, rs2_of(ir))
    } else {
        word(imm_i_value(ir))
    };
    let f3 = funct3_of(ir);
    let v = if is_reg && ir & 0x0200_0000 != 0 {
        muldiv_result(f3, a, b)
    } else {
        alu_result(f3, is_reg && ir & 0x4000_0000 != 0, ir & 0x4000_0000 != 0, a, b)
    };
    retire(h, m, rd_of(ir), v, next_pc(h))
}

/// SYSTEM: ECALL, EBREAK, MRET, WFI and the CSR instructions.
pub open spec fn exec_system(h: HartView, m: Seq<u8>, ir: u32) -> Outcome {
    let f3 = funct3_of(ir);
    let csr = ir >> 20;
    if f3 == 0 {
        if csr == 0x302 {
            Outcome { hart: mret(h), mem: m, status: 0 }
        } else if csr == 0 {
            take_trap(
                h,
                m,
                if h.extraflags & 3 != 0 {
                    12
                } else {
                    9
                },
                h.pc,
            )
        } else if csr == 1 {
            take_trap(h, m, 4, h.pc)
        } else if csr == 0x105 {
            Outcome { hart: wfi(h), mem: m, status: 1 }
        } else {
            take_trap(h, m, TRAP_ILLEGAL, h.pc)
        }
    } else if f3 == 4 {
        take_trap(h, m, TRAP_ILLEGAL, h.pc)
    } else {
        match csr_value(h, csr) {
            None => take_trap(h, m, TRAP_ILLEGAL, h.pc),
            Some(old) => {
                let src = if f3 >= 5 {
                    rs1_of(ir)
                } else {
                    reg(h, rs1_of(ir))
                };
                retire(csr_store(h, csr, csr_update(f3, old, src)), m, rd_of(ir), old, next_pc(h))
            },
        }
    }
}

/// Effect of the instruction word `ir`, fetched at `h.pc`.
pub open spec fn exec_insn(h: HartView, m: Seq<u8>, ir: u32, io: u32) -> Outcome {
    let op = opcode_of(ir);
    if op == 0x37 {
        retire(h, m, rd_of(ir), word(imm_u_value(ir)), next_pc(h))
    } else if op == 0x17 {
        retire(h, m, rd_of(ir), word(h.pc + imm_u_value(ir)), next_pc(h))
    } else if op == 0x6f {
        retire(h, m, rd_of(ir), next_pc(h), word(h.pc + imm_j_value(ir)))
    } else if op == 0x67 {
        retire(
            h,
            m,
            rd_of(ir),
            next_pc(h),
            word(reg(h, rs1_of(ir)) + imm_i_value(ir)) & 0xffff_fffe,
        )
    } else if op == 0x63 {
        exec_branch(h, m, ir)
    } else if op == 0x03 {
        exec_load(h, m, ir, io)
    } else if op == 0x23 {
        exec_store(h, m, ir)
    } else if op == 0x13 || op == 0x33 {
        exec_op(h, m, ir)
    } else if op == 0x0f {
        retire(h, m, 0, 0, next_pc(h))
    } else if op == 0x73 {
        exec_system(h, m, ir)
    } else {
        take_trap(h, m, TRAP_ILLEGAL, h.pc)
    }
}

/// One instruction: fetch at the pc (faulting outside RAM or off a word
/// boundary), then execute.
pub open spec fn step_one(h: HartView, m: Seq<u8>, io: u32) -> Outcome {
    let ofs = ram_offset(h.pc);
    if ofs >= m.len() {
        take_trap(h, m, 2, h.pc)
    } else if ofs & 3 != 0 {
        take_trap(h, m, 1, h.pc)
    } else if !in_ram(m, ofs) {
        take_trap(h, m, 2, h.pc)
    } else {
        exec_insn(h, m, word_at(m, ofs as int) as u32, io)
    }
}

/// Instructions run one after another, one device value each, until one of
/// them returns a nonzero status.
pub open spec fn run(h: HartView, m: Seq<u8>, ios: Seq<u32>) -> Outcome
    decreases ios.len(),
{
    if ios.len() == 0 {
        Outcome { hart: h, mem: m, status: 0 }
    } else {
        let prev = run(h, m, ios.drop_last());
        if prev.status != 0 {
            prev
        } else {
            step_one(prev.hart, prev.mem, ios.last())
        }
    }
}

/// `wrapping_add` on words is addition modulo 2^32.
proof fn lemma_wrapping_add(a: u32, b: u32)
    ensures
        a.wrapping_add(b) == word(a + b),
{
}

/// `wrapping_sub` on words is subtraction modulo 2^32.
proof fn lemma_wrapping_sub(a: u32, b: u32)
    ensures
        a.wrapping_sub(b) == word(a - b),
{
}

/// Adding a value or its 32-bit wrap gives the same word.
proof fn lemma_word_add(a: u32, v: int)
    ensures
        word(a + word(v)) == word(a + v),
{
    let m: int = 0x1_0000_0000;
    lemma_fundamental_div_mod(v, m);
    lemma_mod_multiples_vanish(v / m, a + word(v), m);
}

/// `a` plus the value `v` whose wrap is `b`, modulo 2^32.
fn add_word(a: u32, b: u32, Ghost(v): Ghost<int>) -> (r: u32)
    requires
        b == word(v),
    ensures
        r == word(a + v),
{
    proof {
        lemma_wrapping_add(a, b);
        lemma_word_add(a, v);
    }
    a.wrapping_add(b)
}

/// The word of a sign-extended value.
fn to_word(x: i32) -> (r: u32)
    ensures
        r == word(x as int),
{
    let r = x as u32;
    assert(r == x as u32 ==> r as int == (if x < 0 { x as int + 0x1_0000_0000 } else { x as int }))
        by (bit_vector);
    r
}

/// The state of one hart: registers, pc, machine CSRs and internal flags.
#[derive(Clone, Copy)]
pub struct MiniRV32IMAState {
    regs: [u32; 32],
    pc: u32,
    mstatus: u32,
    mscratch: u32,
    mtvec: u32,
    mie: u32,
    mip: u32,
    mepc: u32,
    mtval: u32,
    mcause: u32,
    extraflags: u32,
}

impl View for MiniRV32IMAState {
    type V = HartView;

    closed spec fn view(&self) -> HartView {
        HartView {
            regs: self.regs@,
            pc: self.pc,
            mstatus: self.mstatus,
            mscratch: self.mscratch,
            mtvec: self.mtvec,
            mie: self.mie,
            mip: self.mip,
            mepc: self.mepc,
            mtval: self.mtval,
            mcause: self.mcause,
            extraflags: self.extraflags,
        }
    }
}

/// Reset value of the stack pointer: 16 below the 16-byte aligned top of
/// the default RAM.
pub open spec fn initial_sp() -> u32 {
    (((MINIRV32_RAM_IMAGE_OFFSET + UVM32_MEMORY_SIZE) as u32 & 0xffff_fff0) - 16) as u32
}

impl MiniRV32IMAState {
    pub open spec fn wf(&self) -> bool {
        hart_wf(self@)
    }

    /// Reset state: registers zero but the stack pointer, pc at the RAM base,
    /// machine mode, CSRs zero.
    pub fn new() -> (r: Self)
        ensures
            r.wf(),
            r@.pc == MINIRV32_RAM_IMAGE_OFFSET,
            r@.regs[2] == initial_sp(),
            forall|i: int| 0 <= i < 32 && i != 2 ==> r@.regs[i] == 0,
            r@.extraflags == 3,
            r@.mstatus == 0 && r@.mscratch == 0 && r@.mtvec == 0 && r@.mie == 0 && r@.mip == 0
                && r@.mepc == 0 && r@.mtval == 0 && r@.mcause == 0,
    {
        let mut me = MiniRV32IMAState {
            regs: [0u32; 32],
            pc: MINIRV32_RAM_IMAGE_OFFSET,
            mstatus: 0,
            mscratch: 0,
            mtvec: 0,
            mie: 0,
            mip: 0,
            mepc: 0,
            mtval: 0,
            mcause: 0,
            extraflags: 3,
        };
        let top: u32 = (MINIRV32_RAM_IMAGE_OFFSET + UVM32_MEMORY_SIZE) & 0xffff_fff0;
        assert(top == 0x8001_0000u32 & 0xffff_fff0 ==> top >= 16) by (bit_vector);
        me.regs[2] = top - 16;
        me
    }

    /// Value of register `regnum`.
    pub fn get_reg(&self, regnum: usize) -> (r: u32)
        requires
            regnum < 32,
        ensures
            r == self@.regs[regnum as int],
    {
        self.regs[regnum]
    }

    /// The program counter.
    pub fn get_pc(&self) -> (r: u32)
        ensures
            r == self@.pc,
    {
        self.pc
    }

    /// The trap vector base (`mtvec`).
    pub fn get_mvtec(&self) -> (r: u32)
        ensures
            r == self@.mtvec,
    {
        self.mtvec
    }

    /// Moves the pc by `delta`, wrapping; the harness uses it to step past an
    /// ECALL it has served.
    pub fn increment_pc(&mut self, delta: u32)
        ensures
            final(self)@ == (HartView { pc: word(old(self)@.pc + delta), ..old(self)@ }),
    {
        proof {
            lemma_wrapping_add(self.pc, delta);
        }
        self.pc = self.pc.wrapping_add(delta);
    }

    /// Wakes the hart from WFI: sets `pending` in `mip` and clears the wait
    /// flag.
    pub fn interrupt(&mut self, pending: u32)
        requires
            old(self).wf(),
        ensures
            final(self).wf(),
            final(self)@ == (HartView {
                mip: old(self)@.mip | pending,
                extraflags: old(self)@.extraflags & 0xffff_fffb,
                ..old(self)@
            }),
    {
        self.mip = self.mip | pending;
        self.extraflags = self.extraflags & 0xffff_fffb;
    }

    /// Value of register `i`.
    fn reg_at(&self, i: u32) -> (r: u32)
        requires
            i < 32,
        ensures
            r == reg(self@, i),
    {
        self.regs[i as usize]
    }

    /// Writes `v` back to `rd` (not to x0) and moves the pc to `next`.
    fn retire(&mut self, rd: u32, v: u32, next: u32)
        requires
            old(self).wf(),
            rd < 32,
        ensures
            final(self).wf(),
            final(self)@ == retired(old(self)@, rd, v, next),
    {
        if rd != 0 {
            self.regs[rd as usize] = v;
        }
        self.pc = next;
    }

    /// Address of the instruction after the current one.
    fn next_pc(&self) -> (r: u32)
        ensures
            r == next_pc(self@),
    {
        proof {
            lemma_wrapping_add(self.pc, 4);
        }
        self.pc.wrapping_add(4)
    }

    /// Raises trap code `code` at the current pc; returns the code.
    fn trap(&mut self, code: u32, tval: u32) -> (r: u32)
        requires
            old(self).wf(),
            1 <= code <= 12,
        ensures
            final(self).wf(),
            final(self)@ == trapped(old(self)@, code, tval),
            r == code,
    {
        if code != 12 {
            self.mepc = self.pc;
            self.mcause = code - 1;
            self.mtval = tval;
            self.mstatus = (self.mstatus & 0xffff_e777) | ((self.mstatus & 0x8) << 4) | ((
            self.extraflags & 3) << 11);
            self.extraflags = self.extraflags | 3;
            self.pc = self.mtvec;
        }
        code
    }

    /// Conditional branch.
    fn branch(&mut self, ir: u32) -> (r: u32)
        requires
            old(self).wf(),
            opcode_of(ir) == 0x63,
        ensures
            final(self).wf(),
            r <= 12,
            (Outcome { hart: final(self)@, mem: Seq::empty(), status: r }) == exec_branch(
                old(self)@,
                Seq::empty(),
                ir,
            ),
    {
        let f3 = funct3(ir);
        if f3 == 2 || f3 == 3 {
            return self.trap(TRAP_ILLEGAL, self.pc);
        }
        let a = self.reg_at(rs1(ir));
        let b = self.reg_at(rs2(ir));
        let taken = if f3 == 0 {
            a == b
        } else if f3 == 1 {
            a != b
        } else if f3 == 4 {
            (a as i32) < (b as i32)
        } else if f3 == 5 {
            (a as i32) >= (b as i32)
        } else if f3 == 6 {
            a < b
        } else {
            a >= b
        };
        assert((a as i32) as int == sval(a) && (b as i32) as int == sval(b)) by {
            assert(a < 0x8000_0000 ==> (a as i32) as int == a as int) by (bit_vector);
            assert(a >= 0x8000_0000 ==> (a as i32) as int == a as int - 0x1_0000_0000)
                by (bit_vector);
            assert(b < 0x8000_0000 ==> (b as i32) as int == b as int) by (bit_vector);
            assert(b >= 0x8000_0000 ==> (b as i32) as int == b as int - 0x1_0000_0000)
                by (bit_vector);
        }
        let next = if taken {
            add_word(self.pc, imm_b(ir), Ghost(imm_b_value(ir)))
        } else {
            self.next_pc()
        };
        self.retire(0, 0, next);
        0
    }

    /// Load from RAM or, in the MMIO window, from the device hook; also
    /// returns the value the hook gave.
    fn load<M: MmioBus>(&mut self, image: &[u8], mmio: &mut M, ir: u32) -> (r: (u32, u32))
        requires
            old(self).wf(),
        ensures
            final(self).wf(),
            r.0 <= 12,
            (Outcome { hart: final(self)@, mem: image@, status: r.0 }) == exec_load(
                old(self)@,
                image@,
                ir,
                r.1,
            ),
    {
        let rd = rd(ir);
        let f3 = funct3(ir);
        let addr = add_word(self.reg_at(rs1(ir)), imm_i(ir), Ghost(imm_i_value(ir)));
        let ofs = addr.wrapping_sub(MINIRV32_RAM_IMAGE_OFFSET);
        proof {
            lemma_wrapping_sub(addr, MINIRV32_RAM_IMAGE_OFFSET);
        }
        let next = self.next_pc();
        if image.len() < 4 || ofs as usize > image.len() - 4 {
            if minirv32_mmio_range(addr) {
                let v = mmio.load(addr);
                self.retire(rd, v, next);
                return (0, v);
            } else {
                return (self.trap(6, addr), 0);
            }
        }
        let v = if f3 == 0 {
            to_word(minirv32_load1_signed(ofs, image) as i32)
        } else if f3 == 1 {
            to_word(minirv32_load2_signed(ofs, image) as i32)
        } else if f3 == 2 {
            minirv32_load4(ofs, image)
        } else if f3 == 4 {
            minirv32_load1(ofs, image) as u32
        } else if f3 == 5 {
            minirv32_load2(ofs, image) as u32
        } else {
            return (self.trap(TRAP_ILLEGAL, self.pc), 0);
        };
        self.retire(rd, v, next);
        (0, 0)
    }

    /// Store to RAM or, in the MMIO window, to the device hook.
    fn store<M: MmioBus>(&mut self, image: &mut [u8], mmio: &mut M, ir: u32) -> (r: u32)
        requires
            old(self).wf(),
        ensures
            final(self).wf(),
            r <= 12,
            (Outcome { hart: final(self)@, mem: final(image)@, status: r }) == exec_store(
                old(self)@,
                old(image)@,
                ir,
            ),
    {
        let f3 = funct3(ir);
        let v = self.reg_at(rs2(ir));
        let addr = add_word(self.reg_at(rs1(ir)), imm_s(ir), Ghost(imm_s_value(ir)));
        let ofs = addr.wrapping_sub(MINIRV32_RAM_IMAGE_OFFSET);
        proof {
            lemma_wrapping_sub(addr, MINIRV32_RAM_IMAGE_OFFSET);
        }
        let next = self.next_pc();
        if image.len() < 4 || ofs as usize > image.len() - 4 {
            if minirv32_mmio_range(addr) {
                mmio.store(addr, v);
                self.retire(0, 0, next);
                return 0;
            } else {
                return self.trap(8, addr);
            }
        }
        if f3 == 0 {
            minirv32_store1(ofs, v as u8, image);
        } else if f3 == 1 {
            minirv32_store2(ofs, v as u16, image);
        } else if f3 == 2 {
            minirv32_store4(ofs, v, image);
        } else {
            return self.trap(TRAP_ILLEGAL, self.pc);
        }
        self.retire(0, 0, next);
        0
    }

    /// Register-immediate and register-register arithmetic.
    fn op(&mut self, ir: u32) -> (r: u32)
        requires
            old(self).wf(),
        ensures
            final(self).wf(),
            r == 0,
            (Outcome { hart: final(self)@, mem: Seq::empty(), status: r }) == exec_op(
                old(self)@,
                Seq::empty(),
                ir,
            ),
    {
        let is_reg = ir & 0x20 != 0;
        let f3 = funct3(ir);
        let a = self.reg_at(rs1(ir));
        let b = if is_reg {
            self.reg_at(rs2(ir))
        } else {
            imm_i(ir)
        };
        let v = if is_reg && ir & 0x0200_0000 != 0 {
            muldiv_op(f3, a, b)
        } else {
            alu_op(f3, is_reg && ir & 0x4000_0000 != 0, ir & 0x4000_0000 != 0, a, b)
        };
        let next = self.next_pc();
        self.retire(rd(ir), v, next);
        0
    }

    /// Value of the CSR at address `csr`, or `None` where the core has none.
    pub fn read_csr(&self, csr: u32) -> (r: Option<u32>)
        ensures
            r == csr_value(self@, csr),
    {
        if csr == 0x300 {
            Some(self.mstatus)
        } else if csr == 0x301 {
            Some(0x4040_1101)
        } else if csr == 0x304 {
            Some(self.mie)
        } else if csr == 0x305 {
            Some(self.mtvec)
        } else if csr == 0x340 {
            Some(self.mscratch)
        } else if csr == 0x341 {
            Some(self.mepc)
        } else if csr == 0x342 {
            Some(self.mcause)
        } else if csr == 0x343 {
            Some(self.mtval)
        } else if csr == 0x344 {
            Some(self.mip)
        } else if csr == 0xf11 {
            Some(0xff0f_f0ff)
        } else {
            None
        }
    }

    /// Writes a CSR; writes to read-only or unknown addresses are dropped.
    fn csr_write(&mut self, csr: u32, v: u32)
        ensures
            final(self)@ == csr_store(old(self)@, csr, v),
    {
        if csr == 0x300 {
            self.mstatus = v;
        } else if csr == 0x304 {
            self.mie = v;
        } else if csr == 0x305 {
            self.mtvec = v;
        } else if csr == 0x340 {
            self.mscratch = v;
        } else if csr == 0x341 {
            self.mepc = v;
        } else if csr == 0x342 {
            self.mcause = v;
        } else if csr == 0x343 {
            self.mtval = v;
        } else if csr == 0x344 {
            self.mip = v;
        }
    }

    /// ECALL, EBREAK, MRET, WFI and the CSR instructions.
    fn system(&mut self, ir: u32) -> (r: u32)
        requires
            old(self).wf(),
        ensures
            final(self).wf(),
            r <= 12,
            (Outcome { hart: final(self)@, mem: Seq::empty(), status: r }) == exec_system(
                old(self)@,
                Seq::empty(),
                ir,
            ),
    {
        let f3 = funct3(ir);
        let csr = ir >> 20;
        if f3 == 0 {
            if csr == 0x302 {
                let st = self.mstatus;
                let fl = self.extraflags;
                self.mstatus = (st & 0xffff_e777) | ((st & 0x80) >> 4) | 0x80;
                self.extraflags = (fl & 0xffff_fffc) | ((st >> 11) & 3);
                self.pc = self.mepc;
                0
            } else if csr == 0 {
                let code = if self.extraflags & 3 != 0 {
                    12
                } else {
                    9
                };
                self.trap(code, self.pc)
            } else if csr == 1 {
                self.trap(4, self.pc)
            } else if csr == 0x105 {
                self.mstatus = self.mstatus | 8;
                self.extraflags = self.extraflags | 4;
                self.pc = self.next_pc();
                1
            } else {
                self.trap(TRAP_ILLEGAL, self.pc)
            }
        } else if f3 == 4 {
            self.trap(TRAP_ILLEGAL, self.pc)
        } else {
            match self.read_csr(csr) {
                None => self.trap(TRAP_ILLEGAL, self.pc),
                Some(old) => {
                    let i = rs1(ir);
                    let src = if f3 >= 5 {
                        i
                    } else {
                        self.reg_at(i)
                    };
                    let op = f3 & 3;
                    let new = if op == 1 {
                        src
                    } else if op == 2 {
                        old | src
                    } else {
                        old & !src
                    };
                    let next = self.next_pc();
                    self.csr_write(csr, new);
                    self.retire(rd(ir), old, next);
                    0
                },
            }
        }
    }

    /// Executes the instruction word `ir`, fetched at the pc.
    fn execute<M: MmioBus>(&mut self, image: &mut [u8], mmio: &mut M, ir: u32) -> (r: (u32, u32))
        requires
            old(self).wf(),
        ensures
            final(self).wf(),
            r.0 <= 12,
            (Outcome { hart: final(self)@, mem: final(image)@, status: r.0 }) == exec_insn(
                old(self)@,
                old(image)@,
                ir,
                r.1,
            ),
    {
        let op = opcode(ir);
        let rd = rd(ir);
        if op == 0x37 {
            let next = self.next_pc();
            self.retire(rd, imm_u(ir), next);
            (0, 0)
        } else if op == 0x17 {
            let v = add_word(self.pc, imm_u(ir), Ghost(imm_u_value(ir)));
            let next = self.next_pc();
            self.retire(rd, v, next);
            (0, 0)
        } else if op == 0x6f {
            let target = add_word(self.pc, imm_j(ir), Ghost(imm_j_value(ir)));
            let link = self.next_pc();
            self.retire(rd, link, target);
            (0, 0)
        } else if op == 0x67 {
            let base = self.reg_at(rs1(ir));
            let target = add_word(base, imm_i(ir), Ghost(imm_i_value(ir))) & 0xffff_fffe;
            let link = self.next_pc();
            self.retire(rd, link, target);
            (0, 0)
        } else if op == 0x63 {
            (self.branch(ir), 0)
        } else if op == 0x03 {
            self.load(image, mmio, ir)
        } else if op == 0x23 {
            (self.store(image, mmio, ir), 0)
        } else if op == 0x13 || op == 0x33 {
            (self.op(ir), 0)
        } else if op == 0x0f {
            let next = self.next_pc();
            self.retire(0, 0, next);
            (0, 0)
        } else if op == 0x73 {
            (self.system(ir), 0)
        } else {
            (self.trap(TRAP_ILLEGAL, self.pc), 0)
        }
    }

    /// Fetches and executes one instruction; also returns the value that the
    /// device hook gave, if it was asked.
    fn step_once<M: MmioBus>(&mut self, image: &mut [u8], mmio: &mut M) -> (r: (u32, u32))
        requires
            old(self).wf(),
        ensures
            final(self).wf(),
            r.0 <= 12,
            (Outcome { hart: final(self)@, mem: final(image)@, status: r.0 }) == step_one(
                old(self)@,
                old(image)@,
                r.1,
            ),
    {
        let ofs = self.pc.wrapping_sub(MINIRV32_RAM_IMAGE_OFFSET);
        proof {
            lemma_wrapping_sub(self.pc, MINIRV32_RAM_IMAGE_OFFSET);
        }
        if ofs as usize >= image.len() {
            (self.trap(2, self.pc), 0)
        } else if ofs & 3 != 0 {
            (self.trap(1, self.pc), 0)
        } else if image.len() < 4 || ofs as usize > image.len() - 4 {
            (self.trap(2, self.pc), 0)
        } else {
            let ir = minirv32_load4(ofs, image);
            self.execute(image, mmio, ir)
        }
    }

    /// Runs up to `count` instructions. Returns 0 when all of them ran, 1 when
    /// the hart waits for an interrupt (at once if it already did), 12 on an
    /// ECALL (pc left on it), and otherwise the code of the trap taken.
    pub fn step<M: MmioBus>(&mut self, image: &mut [u8], mmio: &mut M, count: i32) -> (r: i32)
        requires
            old(self).wf(),
        ensures
            final(self).wf(),
            old(self)@.extraflags & 4 != 0 ==> r == 1 && final(self)@ == old(self)@
                && final(image)@ == old(image)@,
            old(self)@.extraflags & 4 == 0 ==> exists|ios: Seq<u32>|
                #![trigger run(old(self)@, old(image)@, ios)]
                {
                    &&& run(old(self)@, old(image)@, ios) == (Outcome {
                        hart: final(self)@,
                        mem: final(image)@,
                        status: r as u32,
                    })
                    &&& ios.len() <= (if count > 0 { count as int } else { 0 })
                    &&& (r == 0 ==> ios.len() == (if count > 0 { count as int } else { 0 }))
                },
            0 <= r <= 12,
    {
        if self.extraflags & 4 != 0 {
            return 1;
        }
        let ghost h0 = self@;
        let ghost m0 = image@;
        let ghost mut ios: Seq<u32> = Seq::empty();
        let mut i: i32 = 0;
        while i < count
            invariant
                self.wf(),
                h0 == old(self)@,
                m0 == old(image)@,
                h0.extraflags & 4 == 0,
                0 <= i,
                i == 0 || i <= count,
                ios.len() == i,
                run(h0, m0, ios) == (Outcome { hart: self@, mem: image@, status: 0 }),
            decreases count - i,
        {
            let ghost before = ios;
            let (status, io) = self.step_once(image, mmio);
            proof {
                ios = ios.push(io);
                assert(ios.drop_last() == before);
            }
            if status != 0 {
                assert(run(h0, m0, ios) == (Outcome {
                    hart: self@,
                    mem: image@,
                    status: status,
                }));
                return status as i32;
            }
            i += 1;
        }
        assert(run(h0, m0, ios) == (Outcome { hart: self@, mem: image@, status: 0 }));
        0
    }
}

/// Whether `ir` may set the pc to a computed target: JAL, JALR, a branch,
/// or MRET.
pub open spec fn transfers_control(ir: u32) -> bool {
    let op = opcode_of(ir);
    op == 0x6f || op == 0x67 || op == 0x63 || (op == 0x73 && funct3_of(ir) == 0 && ir >> 20
        == 0x302)
}

/// The instruction word at the pc.
pub open spec fn fetched(h: HartView, m: Seq<u8>) -> u32 {
    word_at(m, ram_offset(h.pc) as int) as u32
}

/// A destination register index names one of the 32 registers.
proof fn lemma_rd_bound(ir: u32)
    ensures
        rd_of(ir) < 32,
{
    assert((ir >> 7) & 0x1f < 32) by (bit_vector);
}

/// After an instruction that completes without a trap, the pc is
/// word-aligned, unless that instruction was a jump, a branch or MRET whose
/// target is not (such a target faults at the next fetch).
pub proof fn lemma_pc_aligned_after_step(h: HartView, m: Seq<u8>, io: u32)
    requires
        hart_wf(h),
        step_one(h, m, io).status == 0,
    ensures
        step_one(h, m, io).hart.pc & 3 == 0 || transfers_control(fetched(h, m)),
{
    let o = ram_offset(h.pc);
    let n = next_pc(h);
    let pc = h.pc;
    assert(o as int == pc as int - 0x8000_0000 || o as int == pc as int + 0x8000_0000);
    assert(n as int == pc as int + 4 || n as int == pc as int + 4 - 0x1_0000_0000);
    assert(n & 3 == 0) by (bit_vector)
        requires
            o & 3 == 0,
            o as int == pc as int - 0x8000_0000 || o as int == pc as int + 0x8000_0000,
            n as int == pc as int + 4 || n as int == pc as int + 4 - 0x1_0000_0000,
    ;
}

/// Register x0 reads as zero after every instruction.
pub proof fn lemma_x0_stays_zero(h: HartView, m: Seq<u8>, io: u32)
    requires
        hart_wf(h),
    ensures
        hart_wf(step_one(h, m, io).hart),
{
    lemma_rd_bound(fetched(h, m));
}

/// Register x0 reads as zero after any run of instructions.
pub proof fn lemma_run_keeps_x0_zero(h: HartView, m: Seq<u8>, ios: Seq<u32>)
    requires
        hart_wf(h),
    ensures
        hart_wf(run(h, m, ios).hart),
    decreases ios.len(),
{
    if ios.len() > 0 {
        lemma_run_keeps_x0_zero(h, m, ios.drop_last());
        let prev = run(h, m, ios.drop_last());
        lemma_x0_stays_zero(prev.hart, prev.mem, ios.last());
    }
}

/// MRET right after trap entry gives back the privilege and MIE of before
/// the trap, leaves MPIE set and MPP cleared, and returns to the trapping
/// pc when the handler left `mepc` alone.
pub proof fn lemma_mret_undoes_trap(h: HartView, cause: u32, tval: u32)
    ensures
        mret(trap_entry(h, cause, tval)).extraflags & 3 == h.extraflags & 3,
        mret(trap_entry(h, cause, tval)).extraflags & 0xffff_fffc == h.extraflags & 0xffff_fffc,
        mret(trap_entry(h, cause, tval)).mstatus & 8 == h.mstatus & 8,
        mret(trap_entry(h, cause, tval)).mstatus & 0x80 == 0x80,
        (mret(trap_entry(h, cause, tval)).mstatus >> 11) & 3 == 0,
        mret(trap_entry(h, cause, tval)).pc == h.pc,
{
    let ms = h.mstatus;
    let fl = h.extraflags;
    let tms = trap_entry(h, cause, tval).mstatus;
    let tfl = trap_entry(h, cause, tval).extraflags;
    let rms = mret(trap_entry(h, cause, tval)).mstatus;
    let rfl = mret(trap_entry(h, cause, tval)).extraflags;
    assert(rfl & 3 == fl & 3 && rfl & 0xffff_fffc == fl & 0xffff_fffc && rms & 8 == ms & 8 && rms
        & 0x80 == 0x80 && (rms >> 11) & 3 == 0) by (bit_vector)
        requires
            tms == (ms & 0xffff_e777) | ((ms & 0x8) << 4) | ((fl & 3) << 11),
            tfl == fl | 3,
            rms == (tms & 0xffff_e777) | ((tms & 0x80) >> 4) | 0x80,
            rfl == (tfl & 0xffff_fffc) | ((tms >> 11) & 3),
    ;
}

/// CSRRS with rs1 = x0 reads a CSR into rd and changes no CSR.
pub proof fn lemma_csrrs_x0_only_reads(h: HartView, m: Seq<u8>, ir: u32, io: u32)
    requires
        hart_wf(h),
        opcode_of(ir) == 0x73,
        funct3_of(ir) == 2,
        rs1_of(ir) == 0,
        csr_value(h, ir >> 20) is Some,
    ensures
        exec_insn(h, m, ir, io).status == 0,
        exec_insn(h, m, ir, io).mem == m,
        exec_insn(h, m, ir, io).hart.pc == next_pc(h),
        forall|c: u32| csr_value(exec_insn(h, m, ir, io).hart, c) == csr_value(h, c),
        rd_of(ir) != 0 ==> reg(exec_insn(h, m, ir, io).hart, rd_of(ir)) == csr_value(
            h,
            ir >> 20,
        )->Some_0,
{
    let old = csr_value(h, ir >> 20)->Some_0;
    assert(old | 0 == old && 2u32 & 3 == 2) by (bit_vector);
    assert(csr_update(2, old, 0) == old);
    assert(csr_store(h, ir >> 20, old) == h);
    lemma_rd_bound(ir);
}

/// CSRRW with rd = x0 writes rs1 into a writable CSR and leaves every
/// register as it was.
pub proof fn lemma_csrrw_x0_only_writes(h: HartView, m: Seq<u8>, ir: u32, io: u32)
    requires
        hart_wf(h),
        opcode_of(ir) == 0x73,
        funct3_of(ir) == 1,
        rd_of(ir) == 0,
        csr_writable(ir >> 20),
    ensures
        exec_insn(h, m, ir, io).status == 0,
        exec_insn(h, m, ir, io).mem == m,
        exec_insn(h, m, ir, io).hart.regs == h.regs,
        csr_value(exec_insn(h, m, ir, io).hart, ir >> 20) == Some(reg(h, rs1_of(ir))),
{
    assert(1u32 & 3 == 1) by (bit_vector);
}

/// A run that ends without a trap leaves the pc word-aligned, unless its
/// last instruction was a jump, a branch or MRET to an address that is not.
pub proof fn lemma_run_pc_aligned(h: HartView, m: Seq<u8>, ios: Seq<u32>)
    requires
        hart_wf(h),
        ios.len() > 0,
        run(h, m, ios).status == 0,
    ensures
        run(h, m, ios).hart.pc & 3 == 0 || transfers_control(
            fetched(run(h, m, ios.drop_last()).hart, run(h, m, ios.drop_last()).mem),
        ),
{
    let prev = run(h, m, ios.drop_last());
    lemma_run_keeps_x0_zero(h, m, ios.drop_last());
    lemma_pc_aligned_after_step(prev.hart, prev.mem, ios.last());
}

} // verus!
