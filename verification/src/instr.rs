//! The instruction set: the closed set of opcodes, their mnemonic names,
//! byte encodings, and fixed operand-byte counts.

use vstd::prelude::*;

verus! {

/// The ghost image of an instruction operand.
pub ghost enum ArgView {
    Value(u8),
    Label(Seq<char>),
}

/// An argument to an instruction in the source code.
#[derive(Debug, Clone, PartialEq, Eq)]
pub enum Arg {
    /// A value is directly specified.
    Value(u8),
    /// A label is used and must be resolved to the actual value later.
    Label(String),
}

impl View for Arg {
    type V = ArgView;

    open spec fn view(&self) -> ArgView {
        match self {
            Arg::Value(v) => ArgView::Value(*v),
            Arg::Label(s) => ArgView::Label(s@),
        }
    }
}

impl DeepView for Arg {
    type V = ArgView;

    open spec fn deep_view(&self) -> ArgView {
        self.view()
    }
}

/// The ghost image of a full instruction.
pub ghost enum InstructionView {
    Nop,
    Ld { src: ArgView },
    Ldi { v: ArgView },
    St { dst: ArgView },
    Sti { v: ArgView, dst: ArgView },
    Mov { src: ArgView, dst: ArgView },
    Jmp { target: ArgView },
    Jz { target: ArgView },
    Add { src: ArgView },
    Addi { v: ArgView },
    Sub { src: ArgView },
    Subi { v: ArgView },
    Shr,
    Shl,
    And { src: ArgView },
    Andi { v: ArgView },
    Print { src: ArgView },
    Stop,
}

/// Represents a full instruction in the source code, including arguments.
#[derive(Debug, Clone, PartialEq, Eq)]
pub enum Instruction {
    Nop,
    Ld { src: Arg },
    Ldi { v: Arg },
    St { dst: Arg },
    Sti { v: Arg, dst: Arg },
    Mov { src: Arg, dst: Arg },
    Jmp { target: Arg },
    Jz { target: Arg },
    Add { src: Arg },
    Addi { v: Arg },
    Sub { src: Arg },
    Subi { v: Arg },
    Shr,
    Shl,
    And { src: Arg },
    Andi { v: Arg },
    Print { src: Arg },
    Stop,
}

impl View for Instruction {
    type V = InstructionView;

    open spec fn view(&self) -> InstructionView {
        match self {
            Instruction::Nop => InstructionView::Nop,
            Instruction::Ld { src } => InstructionView::Ld { src: src@ },
            Instruction::Ldi { v } => InstructionView::Ldi { v: v@ },
            Instruction::St { dst } => InstructionView::St { dst: dst@ },
            Instruction::Sti { v, dst } => InstructionView::Sti { v: v@, dst: dst@ },
            Instruction::Mov { src, dst } => InstructionView::Mov { src: src@, dst: dst@ },
            Instruction::Jmp { target } => InstructionView::Jmp { target: target@ },
            Instruction::Jz { target } => InstructionView::Jz { target: target@ },
            Instruction::Add { src } => InstructionView::Add { src: src@ },
            Instruction::Addi { v } => InstructionView::Addi { v: v@ },
            Instruction::Sub { src } => InstructionView::Sub { src: src@ },
            Instruction::Subi { v } => InstructionView::Subi { v: v@ },
            Instruction::Shr => InstructionView::Shr,
            Instruction::Shl => InstructionView::Shl,
            Instruction::And { src } => InstructionView::And { src: src@ },
            Instruction::Andi { v } => InstructionView::Andi { v: v@ },
            Instruction::Print { src } => InstructionView::Print { src: src@ },
            Instruction::Stop => InstructionView::Stop,
        }
    }
}

impl DeepView for Instruction {
    type V = InstructionView;

    open spec fn deep_view(&self) -> InstructionView {
        self.view()
    }
}

/// Represents an instruction without the arguments.
#[derive(Debug, Clone, Copy, PartialEq, Eq, Structural)]
pub enum Opcode {
    Nop,
    Ld,
    Ldi,
    St,
    Sti,
    Mov,
    Jmp,
    Jz,
    Add,
    Addi,
    Sub,
    Subi,
    Shr,
    Shl,
    And,
    Andi,
    Print,
    Stop,
}

/// The opcode of an instruction: the projection that drops the operands.
pub open spec fn opcode_of(i: InstructionView) -> Opcode {
    match i {
        InstructionView::Nop => Opcode::Nop,
        InstructionView::Ld { .. } => Opcode::Ld,
        InstructionView::Ldi { .. } => Opcode::Ldi,
        InstructionView::St { .. } => Opcode::St,
        InstructionView::Sti { .. } => Opcode::Sti,
        InstructionView::Mov { .. } => Opcode::Mov,
        InstructionView::Jmp { .. } => Opcode::Jmp,
        InstructionView::Jz { .. } => Opcode::Jz,
        InstructionView::Add { .. } => Opcode::Add,
        InstructionView::Addi { .. } => Opcode::Addi,
        InstructionView::Sub { .. } => Opcode::Sub,
        InstructionView::Subi { .. } => Opcode::Subi,
        InstructionView::Shr => Opcode::Shr,
        InstructionView::Shl => Opcode::Shl,
        InstructionView::And { .. } => Opcode::And,
        InstructionView::Andi { .. } => Opcode::Andi,
        InstructionView::Print { .. } => Opcode::Print,
        InstructionView::Stop => Opcode::Stop,
    }
}

impl Instruction {
    /// Returns the opcode of this instruction. This just removes the
    /// information about the arguments.
    pub fn opcode(&self) -> (op: Opcode)
        ensures
            op == opcode_of(self@),
    {
        match self {
            Instruction::Nop => Opcode::Nop,
            Instruction::Ld { .. } => Opcode::Ld,
            Instruction::Ldi { .. } => Opcode::Ldi,
            Instruction::St { .. } => Opcode::St,
            Instruction::Sti { .. } => Opcode::Sti,
            Instruction::Mov { .. } => Opcode::Mov,
            Instruction::Jmp { .. } => Opcode::Jmp,
            Instruction::Jz { .. } => Opcode::Jz,
            Instruction::Add { .. } => Opcode::Add,
            Instruction::Addi { .. } => Opcode::Addi,
            Instruction::Sub { .. } => Opcode::Sub,
            Instruction::Subi { .. } => Opcode::Subi,
            Instruction::Shr => Opcode::Shr,
            Instruction::Shl => Opcode::Shl,
            Instruction::And { .. } => Opcode::And,
            Instruction::Andi { .. } => Opcode::Andi,
            Instruction::Print { .. } => Opcode::Print,
            Instruction::Stop => Opcode::Stop,
        }
    }
}

/// The byte encoding of each opcode.
pub open spec fn opcode_byte(op: Opcode) -> u8 {
    match op {
        Opcode::Nop => 0x00,
        Opcode::Ld => 0x10,
        Opcode::Ldi => 0x11,
        Opcode::St => 0x12,
        Opcode::Sti => 0x13,
        Opcode::Mov => 0x14,
        Opcode::Jmp => 0x20,
        Opcode::Jz => 0x21,
        Opcode::Add => 0x30,
        Opcode::Addi => 0x31,
        Opcode::Sub => 0x32,
        Opcode::Subi => 0x33,
        Opcode::Shr => 0x34,
        Opcode::Shl => 0x35,
        Opcode::And => 0x36,
        Opcode::Andi => 0x37,
        Opcode::Print => 0x40,
        Opcode::Stop => 0x50,
    }
}

/// The number of bytes an instruction with this opcode occupies, the opcode
/// byte and its operand bytes together.
pub open spec fn opcode_len(op: Opcode) -> u8 {
    match op {
        Opcode::Nop => 1,
        Opcode::Ld => 2,
        Opcode::Ldi => 2,
        Opcode::St => 2,
        Opcode::Sti => 3,
        Opcode::Mov => 3,
        Opcode::Jmp => 2,
        Opcode::Jz => 2,
        Opcode::Add => 2,
        Opcode::Addi => 2,
        Opcode::Sub => 2,
        Opcode::Subi => 2,
        Opcode::Shr => 1,
        Opcode::Shl => 1,
        Opcode::And => 2,
        Opcode::Andi => 2,
        Opcode::Print => 2,
        Opcode::Stop => 1,
    }
}

/// The decoding direction of the opcode table: which opcode, if any, a byte
/// stands for.
pub open spec fn byte_to_opcode(b: u8) -> Option<Opcode> {
    if b == 0x00 {
        Some(Opcode::Nop)
    } else if b == 0x10 {
        Some(Opcode::Ld)
    } else if b == 0x11 {
        Some(Opcode::Ldi)
    } else if b == 0x12 {
        Some(Opcode::St)
    } else if b == 0x13 {
        Some(Opcode::Sti)
    } else if b == 0x14 {
        Some(Opcode::Mov)
    } else if b == 0x20 {
        Some(Opcode::Jmp)
    } else if b == 0x21 {
        Some(Opcode::Jz)
    } else if b == 0x30 {
        Some(Opcode::Add)
    } else if b == 0x31 {
        Some(Opcode::Addi)
    } else if b == 0x32 {
        Some(Opcode::Sub)
    } else if b == 0x33 {
        Some(Opcode::Subi)
    } else if b == 0x34 {
        Some(Opcode::Shr)
    } else if b == 0x35 {
        Some(Opcode::Shl)
    } else if b == 0x36 {
        Some(Opcode::And)
    } else if b == 0x37 {
        Some(Opcode::Andi)
    } else if b == 0x40 {
        Some(Opcode::Print)
    } else if b == 0x50 {
        Some(Opcode::Stop)
    } else {
        None
    }
}

/// The two directions of the opcode table agree: decoding the byte of any
/// opcode gives that opcode back, so the byte encoding is injective.
pub proof fn lemma_opcode_table_round_trip(op: Opcode)
    ensures
        byte_to_opcode(opcode_byte(op)) == Some(op),
{
}

impl Opcode {
    /// Decodes a byte against the opcode table.
    pub fn from_byte(b: u8) -> (r: Option<Opcode>)
        ensures
            r == byte_to_opcode(b),
    {
        match b {
            0x00 => Some(Opcode::Nop),
            0x10 => Some(Opcode::Ld),
            0x11 => Some(Opcode::Ldi),
            0x12 => Some(Opcode::St),
            0x13 => Some(Opcode::Sti),
            0x14 => Some(Opcode::Mov),
            0x20 => Some(Opcode::Jmp),
            0x21 => Some(Opcode::Jz),
            0x30 => Some(Opcode::Add),
            0x31 => Some(Opcode::Addi),
            0x32 => Some(Opcode::Sub),
            0x33 => Some(Opcode::Subi),
            0x34 => Some(Opcode::Shr),
            0x35 => Some(Opcode::Shl),
            0x36 => Some(Opcode::And),
            0x37 => Some(Opcode::Andi),
            0x40 => Some(Opcode::Print),
            0x50 => Some(Opcode::Stop),
            _ => None,
        }
    }

    /// Returns the byte of this opcode.
    pub fn to_byte(&self) -> (b: u8)
        ensures
            b == opcode_byte(*self),
    {
        match self {
            Opcode::Nop => 0x00,
            Opcode::Ld => 0x10,
            Opcode::Ldi => 0x11,
            Opcode::St => 0x12,
            Opcode::Sti => 0x13,
            Opcode::Mov => 0x14,
            Opcode::Jmp => 0x20,
            Opcode::Jz => 0x21,
            Opcode::Add => 0x30,
            Opcode::Addi => 0x31,
            Opcode::Sub => 0x32,
            Opcode::Subi => 0x33,
            Opcode::Shr => 0x34,
            Opcode::Shl => 0x35,
            Opcode::And => 0x36,
            Opcode::Andi => 0x37,
            Opcode::Print => 0x40,
            Opcode::Stop => 0x50,
        }
    }

    /// Returns the number of bytes this instruction (with its arguments)
    /// will occupy in the assembled binary.
    pub fn len(&self) -> (n: u8)
        ensures
            n == opcode_len(*self),
    {
        match self {
            Opcode::Nop => 1,
            Opcode::Ld => 2,
            Opcode::Ldi => 2,
            Opcode::St => 2,
            Opcode::Sti => 3,
            Opcode::Mov => 3,
            Opcode::Jmp => 2,
            Opcode::Jz => 2,
            Opcode::Add => 2,
            Opcode::Addi => 2,
            Opcode::Sub => 2,
            Opcode::Subi => 2,
            Opcode::Shr => 1,
            Opcode::Shl => 1,
            Opcode::And => 2,
            Opcode::Andi => 2,
            Opcode::Print => 2,
            Opcode::Stop => 1,
        }
    }
}

} // verus!
