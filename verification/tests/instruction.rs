//! The two plain notations of an instruction.

use bpfasm::instruction::ParseInstructionError;
use bpfasm::Instruction;

#[test]
fn writes_four_decimal_fields() {
    let instruction = Instruction { code: 21, jt: 0, jf: 1, k: 2054 };
    assert_eq!(instruction.to_string(), "21 0 1 2054");
    let instruction = Instruction { code: 65535, jt: 255, jf: 255, k: 4294967295 };
    assert_eq!(instruction.to_string(), "65535 255 255 4294967295");
    assert_eq!(Instruction::default().to_string(), "0 0 0 0");
    let instruction = Instruction { code: 10, jt: 100, jf: 9, k: 1000000000 };
    assert_eq!(instruction.to_string(), "10 100 9 1000000000");
}

#[test]
fn default_is_all_zero() {
    assert_eq!(Instruction::default(), Instruction { code: 0, jt: 0, jf: 0, k: 0 });
}

#[test]
fn unpacks_sixty_four_bits() {
    let instruction = Instruction::from(0x0015_00_01_0000_0806u64);
    assert_eq!(instruction, Instruction { code: 0x15, jt: 0, jf: 1, k: 0x806 });
    let instruction: Instruction = 0xFFFF_FE_FD_FFFF_FFFCu64.into();
    assert_eq!(instruction, Instruction { code: 0xFFFF, jt: 0xFE, jf: 0xFD, k: 0xFFFF_FFFC });
    assert_eq!(Instruction::from(0u64), Instruction::default());
    assert_eq!(
        Instruction::from(0x1234_56_78_9ABC_DEF0u64),
        Instruction { code: 0x1234, jt: 0x56, jf: 0x78, k: 0x9ABC_DEF0 }
    );
}

#[test]
fn reads_four_decimal_fields() {
    assert_eq!(Instruction::parse("21 0 1 2054"), Ok(Instruction { code: 21, jt: 0, jf: 1, k: 2054 }));
    assert_eq!(
        "65535 255 255 4294967295".parse::<Instruction>(),
        Ok(Instruction { code: 65535, jt: 255, jf: 255, k: 4294967295 })
    );
    assert_eq!(
        "+6 +0 +0 +0007".parse::<Instruction>(),
        Ok(Instruction { code: 6, jt: 0, jf: 0, k: 7 })
    );
}

#[test]
fn reading_undoes_writing() {
    for instruction in [
        Instruction { code: 0x28, jt: 0, jf: 0, k: 12 },
        Instruction { code: 0x15, jt: 3, jf: 200, k: 0xFFFF_FFFF },
        Instruction::default(),
    ] {
        assert_eq!(instruction.to_string().parse::<Instruction>(), Ok(instruction));
    }
}

#[test]
fn names_the_field_that_fails() {
    assert_eq!(Instruction::parse(""), Err(ParseInstructionError::Code));
    assert_eq!(Instruction::parse("x 0 0 0"), Err(ParseInstructionError::Code));
    assert_eq!(Instruction::parse("65536 0 0 0"), Err(ParseInstructionError::Code));
    assert_eq!(Instruction::parse("-1 0 0 0"), Err(ParseInstructionError::Code));
    assert_eq!(Instruction::parse(" 1 0 0"), Err(ParseInstructionError::Code));
    assert_eq!(Instruction::parse("+ 0 0 0"), Err(ParseInstructionError::Code));
    assert_eq!(Instruction::parse("1"), Err(ParseInstructionError::Jt));
    assert_eq!(Instruction::parse("1 256 0 0"), Err(ParseInstructionError::Jt));
    assert_eq!(Instruction::parse("1  0 0"), Err(ParseInstructionError::Jt));
    assert_eq!(Instruction::parse("1 2"), Err(ParseInstructionError::Jf));
    assert_eq!(Instruction::parse("1 2 300 0"), Err(ParseInstructionError::Jf));
    assert_eq!(Instruction::parse("1 2 3"), Err(ParseInstructionError::K));
    assert_eq!(Instruction::parse("1 2 3 "), Err(ParseInstructionError::K));
    assert_eq!(Instruction::parse("1 2 3 4294967296"), Err(ParseInstructionError::K));
    assert_eq!(Instruction::parse("1 2 3 4 5"), Err(ParseInstructionError::K));
    assert_eq!(Instruction::parse("1 2 3 4 "), Err(ParseInstructionError::K));
    assert_eq!(Instruction::parse("1\t2 3 4"), Err(ParseInstructionError::Code));
}
