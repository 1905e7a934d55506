use bternary::{ArchError, Immediate, InvalidOpCode, OpCode, Register};

#[test]
fn test_opcode_try_from() {
    assert_eq!(OpCode::try_from(0x00), Ok(OpCode::NOP));
    assert_eq!(OpCode::try_from(0x01), Err(InvalidOpCode(0x01)));
    assert_eq!(OpCode::try_from(0xff), Err(InvalidOpCode(0xff)));
    assert_eq!(OpCode::NOP.to_u8(), 0x00);
}

#[test]
fn test_register_and_immediate_hold_their_values() {
    assert_eq!(Register(3).0, 3);
    assert_eq!(Immediate(-7).0, -7);
    assert_eq!(Register(3), Register(3));
    assert_ne!(Immediate(1), Immediate(2));
}

#[test]
fn test_arch_error_holds_its_cause() {
    match ArchError::InvalidOpcode(0x2a) {
        ArchError::InvalidOpcode(byte) => assert_eq!(byte, 0x2a),
        ArchError::ValueOutOfRange(_) => panic!("the byte was lost"),
    }
    let cause = i8::try_from(300i32).unwrap_err();
    assert!(matches!(ArchError::ValueOutOfRange(cause), ArchError::ValueOutOfRange(_)));
}
