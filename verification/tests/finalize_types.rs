use snarkvm::finalize_types::{FinalizeTypes, TypeError};
use snarkvm::program::{
    get_function, get_member, get_program, get_struct, Access, FinalizeType, FunctionDecl, Identifier, Literal, LiteralType,
    Locator, Operand, PlaintextType, ProgramDecl, ProgramID, Register, Stack, StructDecl,
};
use snarkvm::types::Field;

fn id(n: u64) -> Identifier {
    Identifier(Field(n, 0, 0, 0))
}

fn program_id(n: u64) -> ProgramID {
    ProgramID { name: id(n), network: id(0) }
}

fn literal(t: LiteralType) -> FinalizeType {
    FinalizeType::Plaintext(PlaintextType::Literal(t))
}

/// Program 1 declares struct 10 { 11: u64, 12: [bool; 3] } and a function 20 whose finalize
/// takes (u8, field); program 2 declares a function 21 without finalize.
fn stack() -> Stack {
    Stack {
        programs: vec![
            ProgramDecl {
                id: program_id(1),
                structs: vec![StructDecl {
                    name: id(10),
                    members: vec![
                        (id(11), PlaintextType::Literal(LiteralType::U64)),
                        (id(12), PlaintextType::Array(Box::new(PlaintextType::Literal(LiteralType::Boolean)), 3)),
                    ],
                }],
                functions: vec![FunctionDecl {
                    name: id(20),
                    finalize_inputs: Some(vec![literal(LiteralType::U8), literal(LiteralType::Field)]),
                }],
            },
            ProgramDecl {
                id: program_id(2),
                structs: vec![],
                functions: vec![FunctionDecl { name: id(21), finalize_inputs: None }],
            },
        ],
    }
}

fn types() -> FinalizeTypes {
    FinalizeTypes::new(
        vec![
            (0, FinalizeType::Plaintext(PlaintextType::Struct(id(10)))),
            (1, FinalizeType::Future(Locator { program_id: program_id(1), resource: id(20) })),
        ],
        vec![
            (2, literal(LiteralType::Address)),
            (3, FinalizeType::Future(Locator { program_id: program_id(2), resource: id(21) })),
            (4, FinalizeType::Future(Locator { program_id: program_id(5), resource: id(21) })),
            (5, FinalizeType::Plaintext(PlaintextType::Struct(id(99)))),
        ],
    )
}

fn access(locator: u64, path: Vec<Access>) -> Register {
    Register::Access(locator, path)
}

#[test]
fn contains_and_is_input() {
    let t = types();
    assert!(t.contains(&Register::Locator(0)));
    assert!(t.contains(&Register::Locator(2)));
    assert!(!t.contains(&Register::Locator(9)));
    assert!(t.is_input(&Register::Locator(1)));
    assert!(!t.is_input(&access(2, vec![])));
}

#[test]
fn types_of_registers_and_paths() {
    let t = types();
    let s = stack();
    assert!(matches!(t.get_type(&s, &Register::Locator(2)), Ok(FinalizeType::Plaintext(PlaintextType::Literal(LiteralType::Address)))));
    assert!(matches!(
        t.get_type(&s, &access(0, vec![Access::Member(id(11))])),
        Ok(FinalizeType::Plaintext(PlaintextType::Literal(LiteralType::U64)))
    ));
    assert!(matches!(
        t.get_type(&s, &access(0, vec![Access::Member(id(12)), Access::Index(2)])),
        Ok(FinalizeType::Plaintext(PlaintextType::Literal(LiteralType::Boolean)))
    ));
    assert!(matches!(
        t.get_type(&s, &access(1, vec![Access::Index(1)])),
        Ok(FinalizeType::Plaintext(PlaintextType::Literal(LiteralType::Field)))
    ));
}

#[test]
fn type_errors() {
    let t = types();
    let s = stack();
    assert_eq!(t.get_type(&s, &Register::Locator(9)).err(), Some(TypeError::RegisterNotFound));
    assert_eq!(t.get_type(&s, &access(0, vec![])).err(), Some(TypeError::NoAccesses));
    assert_eq!(t.get_type(&s, &access(2, vec![Access::Index(0)])).err(), Some(TypeError::AccessOnLiteral));
    assert_eq!(t.get_type(&s, &access(5, vec![Access::Member(id(11))])).err(), Some(TypeError::StructNotFound));
    assert_eq!(t.get_type(&s, &access(0, vec![Access::Member(id(13))])).err(), Some(TypeError::MemberNotFound));
    assert_eq!(
        t.get_type(&s, &access(0, vec![Access::Member(id(12)), Access::Index(3)])).err(),
        Some(TypeError::IndexOutOfBounds)
    );
    assert_eq!(t.get_type(&s, &access(1, vec![Access::Index(2)])).err(), Some(TypeError::IndexOutOfBounds));
    assert_eq!(t.get_type(&s, &access(4, vec![Access::Index(0)])).err(), Some(TypeError::ProgramNotFound));
    assert_eq!(t.get_type(&s, &access(3, vec![Access::Index(0)])).err(), Some(TypeError::NoFinalize));
    assert_eq!(t.get_type(&s, &access(0, vec![Access::Index(0)])).err(), Some(TypeError::InvalidAccess));
    assert_eq!(t.get_type(&s, &access(1, vec![Access::Member(id(11))])).err(), Some(TypeError::InvalidAccess));
}

#[test]
fn types_of_operands() {
    let t = types();
    let s = stack();
    assert!(matches!(
        t.get_type_from_operand(&s, &Operand::Literal(Literal::I8(-3))),
        Ok(FinalizeType::Plaintext(PlaintextType::Literal(LiteralType::I8)))
    ));
    assert!(matches!(
        t.get_type_from_operand(&s, &Operand::ProgramID(program_id(2))),
        Ok(FinalizeType::Plaintext(PlaintextType::Literal(LiteralType::Address)))
    ));
    assert!(matches!(
        t.get_type_from_operand(&s, &Operand::BlockHeight),
        Ok(FinalizeType::Plaintext(PlaintextType::Literal(LiteralType::U32)))
    ));
    assert!(matches!(
        t.get_type_from_operand(&s, &Operand::NetworkID),
        Ok(FinalizeType::Plaintext(PlaintextType::Literal(LiteralType::U16)))
    ));
    assert_eq!(t.get_type_from_operand(&s, &Operand::Signer).err(), Some(TypeError::InvalidOperand));
    assert_eq!(t.get_type_from_operand(&s, &Operand::Caller).err(), Some(TypeError::InvalidOperand));
    assert!(matches!(
        t.get_type_from_operand(&s, &Operand::Register(access(0, vec![Access::Member(id(11))]))),
        Ok(FinalizeType::Plaintext(PlaintextType::Literal(LiteralType::U64)))
    ));
}

#[test]
fn program_lookups() {
    let s = stack();
    assert!(get_program(&s.programs, &program_id(2)).is_some());
    assert!(get_program(&s.programs, &program_id(3)).is_none());
    assert!(get_struct(&s.programs[0].structs, &id(10)).is_some());
    assert!(get_struct(&s.programs[0].structs, &id(11)).is_none());
    let members = &s.programs[0].structs[0].members;
    assert!(matches!(get_member(members, &id(11)), Some(PlaintextType::Literal(LiteralType::U64))));
    assert!(get_member(members, &id(10)).is_none());
    assert!(get_function(&s.programs[1].functions, &id(21)).is_some());
    assert!(get_function(&s.programs[1].functions, &id(20)).is_none());
}
