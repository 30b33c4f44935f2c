//! Instruction decoder: a pure, total function from a raw 32-bit
//! instruction word to a typed operation.
//!
//! Bit fields are extracted according to the base integer instruction
//! formats (R/I/S/B/U/J); the opcode, `funct3` and (where applicable)
//! `funct7` fields select the variant. Every bit pattern decodes:
//! anything that matches no known opcode/funct combination yields
//! [`Instruction::Ill`].

use vstd::prelude::*;

verus! {

/// All decodable operations, each carrying only the operand fields
/// relevant to its format. Immediates are kept zero-extended, exactly
/// as the bits stand in the word; no sign extension is performed.
#[derive(Debug, Clone, Copy, PartialEq, Eq, Structural)]
pub enum Instruction {
    // Loads
    Lb { rd: u32, rs1: u32, imm: u32 },
    Lh { rd: u32, rs1: u32, imm: u32 },
    Lw { rd: u32, rs1: u32, imm: u32 },
    Lbu { rd: u32, rs1: u32, imm: u32 },
    Lhu { rd: u32, rs1: u32, imm: u32 },
    // Stores
    Sb { rs1: u32, rs2: u32, imm: u32 },
    Sh { rs1: u32, rs2: u32, imm: u32 },
    Sw { rs1: u32, rs2: u32, imm: u32 },
    // Shifts
    Sll { rd: u32, rs1: u32, rs2: u32 },
    Slli { rd: u32, rs1: u32, shamt: u32 },
    Srl { rd: u32, rs1: u32, rs2: u32 },
    Srli { rd: u32, rs1: u32, shamt: u32 },
    Sra { rd: u32, rs1: u32, rs2: u32 },
    Srai { rd: u32, rs1: u32, shamt: u32 },
    // Arithmetic
    Add { rd: u32, rs1: u32, rs2: u32 },
    Addi { rd: u32, rs1: u32, imm: u32 },
    Sub { rd: u32, rs1: u32, rs2: u32 },
    Subi { rd: u32, rs1: u32, imm: u32 },
    Lui { rd: u32, imm: u32 },
    Auipc { rd: u32, imm: u32 },
    // Logical
    Xor { rd: u32, rs1: u32, rs2: u32 },
    Xori { rd: u32, rs1: u32, imm: u32 },
    Or { rd: u32, rs1: u32, rs2: u32 },
    Ori { rd: u32, rs1: u32, imm: u32 },
    And { rd: u32, rs1: u32, rs2: u32 },
    Andi { rd: u32, rs1: u32, imm: u32 },
    // Compare
    Slt { rd: u32, rs1: u32, rs2: u32 },
    Slti { rd: u32, rs1: u32, imm: u32 },
    Sltu { rd: u32, rs1: u32, rs2: u32 },
    Sltiu { rd: u32, rs1: u32, imm: u32 },
    // Branches
    Beq { rs1: u32, rs2: u32, imm: u32 },
    Bne { rs1: u32, rs2: u32, imm: u32 },
    Blt { rs1: u32, rs2: u32, imm: u32 },
    Bge { rs1: u32, rs2: u32, imm: u32 },
    Bltu { rs1: u32, rs2: u32, imm: u32 },
    Bgeu { rs1: u32, rs2: u32, imm: u32 },
    // Jumps
    Jal { rd: u32, imm: u32 },
    Jalr { rd: u32, rs1: u32, imm: u32 },
    // Illegal instruction
    Ill,
}

/// Bits `[6:0]`: the opcode of every format.
pub open spec fn spec_opcode(inst: u32) -> u32 {
    inst & 0x7F
}

/// Bits `[11:7]`: the destination register.
pub open spec fn spec_rd(inst: u32) -> u32 {
    (inst >> 7) & 0x1F
}

/// Bits `[14:12]`: the minor opcode.
pub open spec fn spec_funct3(inst: u32) -> u32 {
    (inst >> 12) & 0x7
}

/// Bits `[19:15]`: the first source register.
pub open spec fn spec_rs1(inst: u32) -> u32 {
    (inst >> 15) & 0x1F
}

/// Bits `[24:20]`: the second source register.
pub open spec fn spec_rs2(inst: u32) -> u32 {
    (inst >> 20) & 0x1F
}

/// Bits `[31:25]`: the major function field of the R format.
pub open spec fn spec_funct7(inst: u32) -> u32 {
    (inst >> 25) & 0x7F
}

/// I-format immediate, bits `[31:20]`, zero-extended.
pub open spec fn spec_imm_i(inst: u32) -> u32 {
    (inst >> 20) & 0xFFF
}

/// S-format immediate, reassembled from its two split fields:
/// `imm[11:5]` from bits `[31:25]` and `imm[4:0]` from bits `[11:7]`.
pub open spec fn spec_imm_s(inst: u32) -> u32 {
    (((inst >> 25) & 0x7F) << 5) | ((inst >> 7) & 0x1F)
}

/// B-format immediate (branch offset), reassembled from its four split
/// fields: `imm[12]` from bit 31, `imm[11]` from bit 7, `imm[10:5]`
/// from bits `[30:25]` and `imm[4:1]` from bits `[11:8]`; bit 0 is 0.
pub open spec fn spec_imm_b(inst: u32) -> u32 {
    (((inst >> 31) & 0x1) << 12) | (((inst >> 7) & 0x1) << 11) | (((inst >> 25) & 0x3F) << 5) | (
    ((inst >> 8) & 0xF) << 1)
}

/// U-format immediate: bits `[31:12]`.
pub open spec fn spec_imm_u(inst: u32) -> u32 {
    inst >> 12
}

/// J-format immediate, reassembled from its scrambled 20-bit encoding:
/// `imm[20]` from bit 31, `imm[19:12]` from bits `[19:12]`, `imm[11]`
/// from bit 20 and `imm[10:1]` from bits `[30:21]`; bit 0 is 0.
pub open spec fn spec_imm_j(inst: u32) -> u32 {
    (((inst >> 31) & 0x1) << 20) | (((inst >> 12) & 0xFF) << 12) | (((inst >> 20) & 0x1) << 11) | (
    ((inst >> 21) & 0x3FF) << 1)
}

/// What `decode_inst` returns for every 32-bit word: the decoder's
/// full opcode/funct dispatch, total over all of `u32`.
pub open spec fn spec_decode(inst: u32) -> Instruction {
    let opcode = spec_opcode(inst);
    let rd = spec_rd(inst);
    let funct3 = spec_funct3(inst);
    let rs1 = spec_rs1(inst);
    let rs2 = spec_rs2(inst);
    let funct7 = spec_funct7(inst);
    if opcode == 0b0110111 {
        Instruction::Lui { imm: spec_imm_u(inst), rd }
    } else if opcode == 0b0010111 {
        Instruction::Auipc { imm: spec_imm_u(inst), rd }
    } else if opcode == 0b1101111 {
        Instruction::Jal { imm: spec_imm_j(inst), rd }
    } else if opcode == 0b1100111 {
        Instruction::Jalr { rd, rs1, imm: spec_imm_i(inst) }
    } else if opcode == 0b1100011 {
        let imm = spec_imm_b(inst);
        if funct3 == 0b000 {
            Instruction::Beq { rs1, rs2, imm }
        } else if funct3 == 0b001 {
            Instruction::Bne { rs1, rs2, imm }
        } else if funct3 == 0b100 {
            Instruction::Blt { rs1, rs2, imm }
        } else if funct3 == 0b101 {
            Instruction::Bge { rs1, rs2, imm }
        } else if funct3 == 0b110 {
            Instruction::Bltu { rs1, rs2, imm }
        } else if funct3 == 0b111 {
            Instruction::Bgeu { rs1, rs2, imm }
        } else {
            Instruction::Ill
        }
    } else if opcode == 0b0000011 {
        let imm = spec_imm_i(inst);
        if funct3 == 0b000 {
            Instruction::Lb { rd, rs1, imm }
        } else if funct3 == 0b001 {
            Instruction::Lh { rd, rs1, imm }
        } else if funct3 == 0b010 {
            Instruction::Lw { rd, rs1, imm }
        } else if funct3 == 0b100 {
            Instruction::Lbu { rd, rs1, imm }
        } else if funct3 == 0b101 {
            Instruction::Lhu { rd, rs1, imm }
        } else {
            Instruction::Ill
        }
    } else if opcode == 0b0100011 {
        let imm = spec_imm_s(inst);
        if funct3 == 0b000 {
            Instruction::Sb { rs1, rs2, imm }
        } else if funct3 == 0b001 {
            Instruction::Sh { rs1, rs2, imm }
        } else if funct3 == 0b010 {
            Instruction::Sw { rs1, rs2, imm }
        } else {
            Instruction::Ill
        }
    } else if opcode == 0b0010011 {
        let imm = spec_imm_i(inst);
        let shamt = imm & 0x1F;
        let funct7i = imm >> 5;
        if funct3 == 0b000 {
            Instruction::Addi { rd, rs1, imm }
        } else if funct3 == 0b010 {
            Instruction::Slti { rd, rs1, imm }
        } else if funct3 == 0b011 {
            Instruction::Sltiu { rd, rs1, imm }
        } else if funct3 == 0b100 {
            Instruction::Xori { rd, rs1, imm }
        } else if funct3 == 0b110 {
            Instruction::Ori { rd, rs1, imm }
        } else if funct3 == 0b111 {
            Instruction::Andi { rd, rs1, imm }
        } else if funct3 == 0b001 {
            Instruction::Slli { rd, rs1, shamt }
        } else {
            // funct3 == 0b101: right shifts, split on the funct7 bits
            // of the immediate
            if funct7i == 0b0000000 {
                Instruction::Srli { rd, rs1, shamt }
            } else if funct7i == 0b0100000 {
                Instruction::Srai { rd, rs1, shamt }
            } else {
                Instruction::Ill
            }
        }
    } else if opcode == 0b0110011 {
        if funct3 == 0b000 {
            if funct7 == 0b0000000 {
                Instruction::Add { rd, rs1, rs2 }
            } else if funct7 == 0b0100000 {
                Instruction::Sub { rd, rs1, rs2 }
            } else {
                Instruction::Ill
            }
        } else if funct3 == 0b001 {
            Instruction::Sll { rd, rs1, rs2 }
        } else if funct3 == 0b010 {
            Instruction::Slt { rd, rs1, rs2 }
        } else if funct3 == 0b011 {
            Instruction::Sltu { rd, rs1, rs2 }
        } else if funct3 == 0b100 {
            Instruction::Xor { rd, rs1, rs2 }
        } else if funct3 == 0b101 {
            if funct7 == 0b0000000 {
                Instruction::Srl { rd, rs1, rs2 }
            } else if funct7 == 0b0100000 {
                Instruction::Sra { rd, rs1, rs2 }
            } else {
                Instruction::Ill
            }
        } else if funct3 == 0b110 {
            Instruction::Or { rd, rs1, rs2 }
        } else {
            // funct3 == 0b111
            Instruction::And { rd, rs1, rs2 }
        }
    } else {
        Instruction::Ill
    }
}

/// Extracts the R-format fields `(funct7, rs2, rs1, funct3, rd, opcode)`.
pub fn parse_r_type(inst: u32) -> (r: (u32, u32, u32, u32, u32, u32))
    ensures
        r == (
            spec_funct7(inst),
            spec_rs2(inst),
            spec_rs1(inst),
            spec_funct3(inst),
            spec_rd(inst),
            spec_opcode(inst),
        ),
{
    let funct7 = (inst >> 25) & 0x7F;
    let rs2 = (inst >> 20) & 0x1F;
    let rs1 = (inst >> 15) & 0x1F;
    let funct3 = (inst >> 12) & 0x7;
    let rd = (inst >> 7) & 0x1F;
    let opcode = inst & 0x7F;
    (funct7, rs2, rs1, funct3, rd, opcode)
}

/// Extracts the I-format fields `(imm, rs1, funct3, rd, opcode)`;
/// the immediate is zero-extended.
pub fn parse_i_type(inst: u32) -> (r: (u32, u32, u32, u32, u32))
    ensures
        r == (spec_imm_i(inst), spec_rs1(inst), spec_funct3(inst), spec_rd(inst), spec_opcode(inst)),
{
    let imm = (inst >> 20) & 0xFFF;
    let rs1 = (inst >> 15) & 0x1F;
    let funct3 = (inst >> 12) & 0x7;
    let rd: u32 = (inst >> 7) & 0x1F;
    let opcode = inst & 0x7F;
    (imm, rs1, funct3, rd, opcode)
}

/// Extracts the S-format fields `(imm, rs2, rs1, funct3, opcode)`,
/// reassembling the immediate from its two split fields.
pub fn parse_s_type(inst: u32) -> (r: (u32, u32, u32, u32, u32))
    ensures
        r == (spec_imm_s(inst), spec_rs2(inst), spec_rs1(inst), spec_funct3(inst), spec_opcode(
            inst,
        )),
{
    let imm = (((inst >> 25) & 0x7F) << 5) | ((inst >> 7) & 0x1F);
    let rs2 = (inst >> 20) & 0x1F;
    let rs1 = (inst >> 15) & 0x1F;
    let funct3 = (inst >> 12) & 0x7;
    let opcode = inst & 0x7F;
    (imm, rs2, rs1, funct3, opcode)
}

/// Extracts the B-format fields `(imm, rs2, rs1, funct3, opcode)`,
/// reassembling the branch offset from its four split fields.
pub fn parse_b_type(inst: u32) -> (r: (u32, u32, u32, u32, u32))
    ensures
        r == (spec_imm_b(inst), spec_rs2(inst), spec_rs1(inst), spec_funct3(inst), spec_opcode(
            inst,
        )),
{
    let imm = (((inst >> 31) & 0x1) << 12) | (((inst >> 7) & 0x1) << 11) | (((inst >> 25) & 0x3F)
        << 5) | (((inst >> 8) & 0xF) << 1);
    let rs2 = (inst >> 20) & 0x1F;
    let rs1 = (inst >> 15) & 0x1F;
    let funct3 = (inst >> 12) & 0x7;
    let opcode = inst & 0x7F;
    (imm, rs2, rs1, funct3, opcode)
}

/// Extracts the U-format fields `(imm, rd, opcode)`.
pub fn parse_u_type(inst: u32) -> (r: (u32, u32, u32))
    ensures
        r == (spec_imm_u(inst), spec_rd(inst), spec_opcode(inst)),
{
    let imm = inst >> 12;
    let rd: u32 = (inst >> 7) & 0x1F;
    let opcode = inst & 0x7F;
    (imm, rd, opcode)
}

/// Extracts the J-format fields `(imm, rd, opcode)`, reassembling the
/// jump offset from its scrambled 20-bit encoding.
pub fn parse_j_type(inst: u32) -> (r: (u32, u32, u32))
    ensures
        r == (spec_imm_j(inst), spec_rd(inst), spec_opcode(inst)),
{
    let imm = (((inst >> 31) & 0x1) << 20) | (((inst >> 12) & 0xFF) << 12) | (((inst >> 20) & 0x1)
        << 11) | (((inst >> 21) & 0x3FF) << 1);
    let rd: u32 = (inst >> 7) & 0x1F;
    let opcode = inst & 0x7F;
    (imm, rd, opcode)
}

/// Decodes a raw 32-bit instruction word into a typed operation.
///
/// Total over all of `u32`: every word that matches no known
/// opcode/funct combination decodes to `Instruction::Ill`; the
/// function never fails.
pub fn decode_inst(inst: u32) -> (r: Instruction)
    ensures
        r == spec_decode(inst),
{
    let opcode: u32 = inst & 0x7F;
    match opcode {
        0b0110111 => {
            let (imm, rd, _) = parse_u_type(inst);
            Instruction::Lui { imm, rd }
        },
        0b0010111 => {
            let (imm, rd, _) = parse_u_type(inst);
            Instruction::Auipc { imm, rd }
        },
        0b1101111 => {
            let (imm, rd, _) = parse_j_type(inst);
            Instruction::Jal { imm, rd }
        },
        0b1100111 => {
            let (imm, rs1, _, rd, _) = parse_i_type(inst);
            Instruction::Jalr { rd, rs1, imm }
        },
        // Branches
        0b1100011 => {
            let (imm, rs2, rs1, funct3, _) = parse_b_type(inst);
            match funct3 {
                0b000 => Instruction::Beq { rs1, rs2, imm },
                0b001 => Instruction::Bne { rs1, rs2, imm },
                0b100 => Instruction::Blt { rs1, rs2, imm },
                0b101 => Instruction::Bge { rs1, rs2, imm },
                0b110 => Instruction::Bltu { rs1, rs2, imm },
                0b111 => Instruction::Bgeu { rs1, rs2, imm },
                _ => Instruction::Ill,
            }
        },
        // Loads
        0b0000011 => {
            let (imm, rs1, funct3, rd, _) = parse_i_type(inst);
            match funct3 {
                0b000 => Instruction::Lb { rd, rs1, imm },
                0b001 => Instruction::Lh { rd, rs1, imm },
                0b010 => Instruction::Lw { rd, rs1, imm },
                0b100 => Instruction::Lbu { rd, rs1, imm },
                0b101 => Instruction::Lhu { rd, rs1, imm },
                _ => Instruction::Ill,
            }
        },
        // Stores
        0b0100011 => {
            let (imm, rs2, rs1, funct3, _) = parse_s_type(inst);
            match funct3 {
                0b000 => Instruction::Sb { rs1, rs2, imm },
                0b001 => Instruction::Sh { rs1, rs2, imm },
                0b010 => Instruction::Sw { rs1, rs2, imm },
                _ => Instruction::Ill,
            }
        },
        // Immediates
        0b0010011 => {
            let (imm, rs1, funct3, rd, _) = parse_i_type(inst);
            let shamt = imm & 0x1F;
            let funct7 = imm >> 5;
            match funct3 {
                0b000 => Instruction::Addi { rd, rs1, imm },
                0b010 => Instruction::Slti { rd, rs1, imm },
                0b011 => Instruction::Sltiu { rd, rs1, imm },
                0b100 => Instruction::Xori { rd, rs1, imm },
                0b110 => Instruction::Ori { rd, rs1, imm },
                0b111 => Instruction::Andi { rd, rs1, imm },
                0b001 => Instruction::Slli { rd, rs1, shamt },
                _ => {
                    // funct3 == 0b101: right shifts
                    match funct7 {
                        0b0000000 => Instruction::Srli { rd, rs1, shamt },
                        0b0100000 => Instruction::Srai { rd, rs1, shamt },
                        _ => Instruction::Ill,
                    }
                },
            }
        },
        // R-type (standard)
        0b0110011 => {
            let (funct7, rs2, rs1, funct3, rd, _) = parse_r_type(inst);
            match funct3 {
                0b000 => match funct7 {
                    0b0000000 => Instruction::Add { rd, rs1, rs2 },
                    0b0100000 => Instruction::Sub { rd, rs1, rs2 },
                    _ => Instruction::Ill,
                },
                0b001 => Instruction::Sll { rd, rs1, rs2 },
                0b010 => Instruction::Slt { rd, rs1, rs2 },
                0b011 => Instruction::Sltu { rd, rs1, rs2 },
                0b100 => Instruction::Xor { rd, rs1, rs2 },
                0b101 => match funct7 {
                    0b0000000 => Instruction::Srl { rd, rs1, rs2 },
                    0b0100000 => Instruction::Sra { rd, rs1, rs2 },
                    _ => Instruction::Ill,
                },
                0b110 => Instruction::Or { rd, rs1, rs2 },
                _ => Instruction::And { rd, rs1, rs2 },
            }
        },
        _ => Instruction::Ill,
    }
}

} // verus!
