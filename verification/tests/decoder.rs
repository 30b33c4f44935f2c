use rv_core::instructions::{decode_inst, Instruction};

/// Builds an R-format word from its fields.
fn encode_r(funct7: u32, rs2: u32, rs1: u32, funct3: u32, rd: u32, opcode: u32) -> u32 {
    (funct7 << 25) | (rs2 << 20) | (rs1 << 15) | (funct3 << 12) | (rd << 7) | opcode
}

/// Builds an I-format word from its fields.
fn encode_i(imm: u32, rs1: u32, funct3: u32, rd: u32, opcode: u32) -> u32 {
    (imm << 20) | (rs1 << 15) | (funct3 << 12) | (rd << 7) | opcode
}

/// Builds an S-format word from its fields.
fn encode_s(imm: u32, rs2: u32, rs1: u32, funct3: u32, opcode: u32) -> u32 {
    (((imm >> 5) & 0x7F) << 25) | (rs2 << 20) | (rs1 << 15) | (funct3 << 12) | ((imm & 0x1F) << 7)
        | opcode
}

/// Builds a B-format word from its fields.
fn encode_b(imm: u32, rs2: u32, rs1: u32, funct3: u32, opcode: u32) -> u32 {
    (((imm >> 12) & 0x1) << 31) | (((imm >> 5) & 0x3F) << 25) | (rs2 << 20) | (rs1 << 15)
        | (funct3 << 12) | (((imm >> 1) & 0xF) << 8) | (((imm >> 11) & 0x1) << 7) | opcode
}

/// Builds a J-format word from its fields.
fn encode_j(imm: u32, rd: u32, opcode: u32) -> u32 {
    (((imm >> 20) & 0x1) << 31) | (((imm >> 1) & 0x3FF) << 21) | (((imm >> 11) & 0x1) << 20)
        | (((imm >> 12) & 0xFF) << 12) | (rd << 7) | opcode
}

#[test]
fn decode_addi_literal() {
    assert_eq!(decode_inst(0x00500093), Instruction::Addi { rd: 1, rs1: 0, imm: 5 });
}

#[test]
fn decode_add_literal() {
    assert_eq!(decode_inst(0x002081B3), Instruction::Add { rd: 3, rs1: 1, rs2: 2 });
}

#[test]
fn decode_nop_literal() {
    assert_eq!(decode_inst(0x00000013), Instruction::Addi { rd: 0, rs1: 0, imm: 0 });
}

#[test]
fn decode_total_on_extreme_words() {
    // all-zero and all-one bit patterns decode without failing
    assert_eq!(decode_inst(0x00000000), Instruction::Ill);
    assert_eq!(decode_inst(0xFFFFFFFF), Instruction::Ill);
}

#[test]
fn decode_total_on_sweep() {
    // a spread of arbitrary words decodes to some instruction
    let mut w: u32 = 0;
    loop {
        let _ = decode_inst(w);
        if w > u32::MAX - 0x01000193 {
            break;
        }
        w += 0x01000193;
    }
}

#[test]
fn decode_loads() {
    assert_eq!(
        decode_inst(encode_i(12, 6, 0b010, 5, 0b0000011)),
        Instruction::Lw { rd: 5, rs1: 6, imm: 12 }
    );
    assert_eq!(
        decode_inst(encode_i(3, 1, 0b000, 2, 0b0000011)),
        Instruction::Lb { rd: 2, rs1: 1, imm: 3 }
    );
    assert_eq!(
        decode_inst(encode_i(3, 1, 0b001, 2, 0b0000011)),
        Instruction::Lh { rd: 2, rs1: 1, imm: 3 }
    );
    assert_eq!(
        decode_inst(encode_i(3, 1, 0b100, 2, 0b0000011)),
        Instruction::Lbu { rd: 2, rs1: 1, imm: 3 }
    );
    assert_eq!(
        decode_inst(encode_i(3, 1, 0b101, 2, 0b0000011)),
        Instruction::Lhu { rd: 2, rs1: 1, imm: 3 }
    );
    // unknown load width decodes to Ill
    assert_eq!(decode_inst(encode_i(3, 1, 0b011, 2, 0b0000011)), Instruction::Ill);
}

#[test]
fn decode_stores() {
    assert_eq!(
        decode_inst(encode_s(20, 7, 8, 0b010, 0b0100011)),
        Instruction::Sw { rs1: 8, rs2: 7, imm: 20 }
    );
    assert_eq!(
        decode_inst(encode_s(1, 2, 3, 0b000, 0b0100011)),
        Instruction::Sb { rs1: 3, rs2: 2, imm: 1 }
    );
    assert_eq!(
        decode_inst(encode_s(2047, 2, 3, 0b001, 0b0100011)),
        Instruction::Sh { rs1: 3, rs2: 2, imm: 2047 }
    );
    assert_eq!(decode_inst(encode_s(1, 2, 3, 0b111, 0b0100011)), Instruction::Ill);
}

#[test]
fn decode_r_type_arithmetic_and_logic() {
    let op = 0b0110011;
    assert_eq!(decode_inst(encode_r(0x20, 3, 2, 0b000, 4, op)), Instruction::Sub {
        rd: 4,
        rs1: 2,
        rs2: 3
    });
    assert_eq!(decode_inst(encode_r(0, 3, 2, 0b001, 4, op)), Instruction::Sll {
        rd: 4,
        rs1: 2,
        rs2: 3
    });
    assert_eq!(decode_inst(encode_r(0, 3, 2, 0b010, 4, op)), Instruction::Slt {
        rd: 4,
        rs1: 2,
        rs2: 3
    });
    assert_eq!(decode_inst(encode_r(0, 3, 2, 0b011, 4, op)), Instruction::Sltu {
        rd: 4,
        rs1: 2,
        rs2: 3
    });
    assert_eq!(decode_inst(encode_r(0, 3, 2, 0b100, 4, op)), Instruction::Xor {
        rd: 4,
        rs1: 2,
        rs2: 3
    });
    assert_eq!(decode_inst(encode_r(0, 3, 2, 0b101, 4, op)), Instruction::Srl {
        rd: 4,
        rs1: 2,
        rs2: 3
    });
    assert_eq!(decode_inst(encode_r(0x20, 3, 2, 0b101, 4, op)), Instruction::Sra {
        rd: 4,
        rs1: 2,
        rs2: 3
    });
    assert_eq!(decode_inst(encode_r(0, 3, 2, 0b110, 4, op)), Instruction::Or {
        rd: 4,
        rs1: 2,
        rs2: 3
    });
    assert_eq!(decode_inst(encode_r(0, 3, 2, 0b111, 4, op)), Instruction::And {
        rd: 4,
        rs1: 2,
        rs2: 3
    });
    // an unknown funct7 under add/sub or the shifts decodes to Ill
    assert_eq!(decode_inst(encode_r(0x11, 3, 2, 0b000, 4, op)), Instruction::Ill);
    assert_eq!(decode_inst(encode_r(0x11, 3, 2, 0b101, 4, op)), Instruction::Ill);
}

#[test]
fn decode_immediates() {
    let op = 0b0010011;
    assert_eq!(decode_inst(encode_i(7, 2, 0b010, 1, op)), Instruction::Slti {
        rd: 1,
        rs1: 2,
        imm: 7
    });
    assert_eq!(decode_inst(encode_i(7, 2, 0b011, 1, op)), Instruction::Sltiu {
        rd: 1,
        rs1: 2,
        imm: 7
    });
    assert_eq!(decode_inst(encode_i(7, 2, 0b100, 1, op)), Instruction::Xori {
        rd: 1,
        rs1: 2,
        imm: 7
    });
    assert_eq!(decode_inst(encode_i(7, 2, 0b110, 1, op)), Instruction::Ori {
        rd: 1,
        rs1: 2,
        imm: 7
    });
    assert_eq!(decode_inst(encode_i(7, 2, 0b111, 1, op)), Instruction::Andi {
        rd: 1,
        rs1: 2,
        imm: 7
    });
    // immediates are zero-extended, never sign-extended
    assert_eq!(decode_inst(encode_i(0xFFF, 2, 0b000, 1, op)), Instruction::Addi {
        rd: 1,
        rs1: 2,
        imm: 0xFFF
    });
}

#[test]
fn decode_immediate_shifts() {
    let op = 0b0010011;
    assert_eq!(decode_inst(encode_i(3, 2, 0b001, 1, op)), Instruction::Slli {
        rd: 1,
        rs1: 2,
        shamt: 3
    });
    assert_eq!(decode_inst(0x00315093), Instruction::Srli { rd: 1, rs1: 2, shamt: 3 });
    assert_eq!(decode_inst(0x40315093), Instruction::Srai { rd: 1, rs1: 2, shamt: 3 });
    // an unknown funct7 under the right shifts decodes to Ill
    assert_eq!(decode_inst(encode_i(0x103, 2, 0b101, 1, op)), Instruction::Ill);
}

#[test]
fn decode_upper_immediates() {
    assert_eq!(decode_inst(0x123452B7), Instruction::Lui { rd: 5, imm: 0x12345 });
    assert_eq!(decode_inst(0x00001117), Instruction::Auipc { rd: 2, imm: 1 });
}

#[test]
fn decode_jumps() {
    assert_eq!(decode_inst(encode_j(8, 1, 0b1101111)), Instruction::Jal { rd: 1, imm: 8 });
    assert_eq!(decode_inst(0x008000EF), Instruction::Jal { rd: 1, imm: 8 });
    assert_eq!(
        decode_inst(encode_i(4, 2, 0b000, 1, 0b1100111)),
        Instruction::Jalr { rd: 1, rs1: 2, imm: 4 }
    );
}

#[test]
fn decode_branches() {
    let op = 0b1100011;
    assert_eq!(decode_inst(encode_b(16, 2, 1, 0b000, op)), Instruction::Beq {
        rs1: 1,
        rs2: 2,
        imm: 16
    });
    assert_eq!(decode_inst(0x00208863), Instruction::Beq { rs1: 1, rs2: 2, imm: 16 });
    assert_eq!(decode_inst(encode_b(16, 2, 1, 0b001, op)), Instruction::Bne {
        rs1: 1,
        rs2: 2,
        imm: 16
    });
    assert_eq!(decode_inst(encode_b(16, 2, 1, 0b100, op)), Instruction::Blt {
        rs1: 1,
        rs2: 2,
        imm: 16
    });
    assert_eq!(decode_inst(encode_b(16, 2, 1, 0b101, op)), Instruction::Bge {
        rs1: 1,
        rs2: 2,
        imm: 16
    });
    assert_eq!(decode_inst(encode_b(16, 2, 1, 0b110, op)), Instruction::Bltu {
        rs1: 1,
        rs2: 2,
        imm: 16
    });
    assert_eq!(decode_inst(encode_b(16, 2, 1, 0b111, op)), Instruction::Bgeu {
        rs1: 1,
        rs2: 2,
        imm: 16
    });
    // the two remaining funct3 values are not branches
    assert_eq!(decode_inst(encode_b(16, 2, 1, 0b010, op)), Instruction::Ill);
    assert_eq!(decode_inst(encode_b(16, 2, 1, 0b011, op)), Instruction::Ill);
}

#[test]
fn decode_branch_immediate_reassembly() {
    // a branch offset using all four split fields: imm = 0b1111111111110
    let imm = 0x1FFE;
    let word = encode_b(imm, 2, 1, 0b000, 0b1100011);
    assert_eq!(decode_inst(word), Instruction::Beq { rs1: 1, rs2: 2, imm });
}

#[test]
fn decode_jump_immediate_reassembly() {
    // a jump offset using all four split fields: imm = 0b111111111111111111110
    let imm = 0x1FFFFE;
    let word = encode_j(imm, 3, 0b1101111);
    assert_eq!(decode_inst(word), Instruction::Jal { rd: 3, imm });
}

#[test]
fn parse_helpers_extract_fields() {
    let word = encode_r(0x20, 3, 2, 0b101, 4, 0b0110011);
    assert_eq!(rv_core::instructions::parse_r_type(word), (0x20, 3, 2, 0b101, 4, 0b0110011));
    let word = encode_i(0xABC, 9, 0b110, 10, 0b0010011);
    assert_eq!(rv_core::instructions::parse_i_type(word), (0xABC, 9, 0b110, 10, 0b0010011));
    let word = encode_s(0x7E5, 11, 12, 0b010, 0b0100011);
    assert_eq!(rv_core::instructions::parse_s_type(word), (0x7E5, 11, 12, 0b010, 0b0100011));
    let word = encode_b(0x1ABC, 13, 14, 0b111, 0b1100011);
    assert_eq!(rv_core::instructions::parse_b_type(word), (0x1ABC, 13, 14, 0b111, 0b1100011));
    let word = (0xFEDCB << 12) | (15 << 7) | 0b0110111;
    assert_eq!(rv_core::instructions::parse_u_type(word), (0xFEDCB, 15, 0b0110111));
    let word = encode_j(0x1F5432, 16, 0b1101111);
    assert_eq!(rv_core::instructions::parse_j_type(word), (0x1F5432, 16, 0b1101111));
}
