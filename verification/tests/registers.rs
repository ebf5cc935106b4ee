use snarkvm::program::{Access, Identifier, Literal, Operand, ProgramID, Register};
use snarkvm::registers::{Registers, RegistersError};
use snarkvm::types::{Address, Field};

/// A value of the test: a literal number, an address, or a list of values.
#[derive(Debug, Clone, PartialEq)]
enum Value {
    Number(u64),
    Address(Address),
    List(Vec<Value>),
}

fn literal(l: &Literal) -> Value {
    match l {
        Literal::U64(n) => Value::Number(*n),
        Literal::Address(a) => Value::Address(*a),
        _ => Value::List(vec![]),
    }
}

/// Programs named 0 have no address.
fn program_address(id: &ProgramID) -> Option<Address> {
    if id.name.0 .0 == 0 {
        None
    } else {
        Some(Address(id.name.0 .0, 0, 0, 0))
    }
}

fn address(a: &Address) -> Value {
    Value::Address(*a)
}

fn find(value: &Value, path: &Vec<Access>) -> Option<Value> {
    let mut current = value.clone();
    for access in path {
        current = match (current, access) {
            (Value::List(items), Access::Index(i)) => items.get(*i as usize)?.clone(),
            _ => return None,
        };
    }
    Some(current)
}

/// Register 0 holds numbers, register 1 lists; register 9 has no type.
fn check(register: &Register, value: &Value) -> Option<bool> {
    match register.locator() {
        0 => Some(matches!(value, Value::Number(_))),
        1 => Some(match register {
            Register::Locator(_) => matches!(value, Value::List(_)),
            Register::Access(..) => true,
        }),
        2 => Some(true),
        _ => None,
    }
}

fn signer() -> Address {
    Address(1, 2, 3, 4)
}

#[test]
fn context_getters_and_setters() {
    let mut regs: Registers<Value> = Registers::new();
    assert_eq!(regs.signer(), Err(RegistersError::SignerNotSet));
    assert_eq!(regs.root_tvk(), Err(RegistersError::RootTvkNotSet));
    assert_eq!(regs.caller(), Err(RegistersError::CallerNotSet));
    assert_eq!(regs.tvk(), Err(RegistersError::TvkNotSet));
    regs.set_signer(signer());
    regs.set_root_tvk(Field(5, 0, 0, 0));
    regs.set_caller(Address(6, 0, 0, 0));
    regs.set_tvk(Field(7, 0, 0, 0));
    assert_eq!(regs.signer(), Ok(signer()));
    assert_eq!(regs.root_tvk(), Ok(Field(5, 0, 0, 0)));
    assert_eq!(regs.caller(), Ok(Address(6, 0, 0, 0)));
    assert_eq!(regs.tvk(), Ok(Field(7, 0, 0, 0)));
}

#[test]
fn store_then_load() {
    let mut regs: Registers<Value> = Registers::new();
    assert_eq!(regs.store(&Register::Locator(0), Value::Number(3), check), Ok(()));
    let list = Value::List(vec![Value::Number(1), Value::List(vec![Value::Number(2)])]);
    assert_eq!(regs.store(&Register::Locator(1), list.clone(), check), Ok(()));
    let load = |regs: &Registers<Value>, operand: &Operand| regs.load(operand, literal, program_address, address, find, check);
    assert_eq!(load(&regs, &Operand::Register(Register::Locator(0))), Ok(Value::Number(3)));
    assert_eq!(load(&regs, &Operand::Register(Register::Locator(1))), Ok(list));
    assert_eq!(
        load(&regs, &Operand::Register(Register::Access(1, vec![Access::Index(1), Access::Index(0)]))),
        Ok(Value::Number(2))
    );
}

#[test]
fn store_errors() {
    let mut regs: Registers<Value> = Registers::new();
    assert_eq!(regs.store(&Register::Locator(1), Value::Number(3), check), Err(RegistersError::OutOfOrderWrite(1)));
    assert_eq!(
        regs.store(&Register::Access(0, vec![Access::Index(0)]), Value::Number(3), check),
        Err(RegistersError::StoreToAccess(0))
    );
    assert_eq!(regs.store(&Register::Locator(0), Value::List(vec![]), check), Err(RegistersError::TypeMismatch(0)));
    assert_eq!(regs.store(&Register::Locator(0), Value::Number(3), check), Ok(()));
    // A register is written once: writing it again is out of order.
    assert_eq!(regs.store(&Register::Locator(0), Value::Number(4), check), Err(RegistersError::OutOfOrderWrite(0)));
    let no_type = |_r: &Register, _v: &Value| None;
    assert_eq!(regs.store(&Register::Locator(1), Value::Number(3), no_type), Err(RegistersError::MissingType(1)));
    let load = regs.load(&Operand::Register(Register::Locator(0)), literal, program_address, address, find, check);
    assert_eq!(load, Ok(Value::Number(3)));
}

#[test]
fn load_operands() {
    let mut regs: Registers<Value> = Registers::new();
    let load = |regs: &Registers<Value>, operand: &Operand| regs.load(operand, literal, program_address, address, find, check);
    assert_eq!(load(&regs, &Operand::Literal(Literal::U64(64))), Ok(Value::Number(64)));
    assert_eq!(load(&regs, &Operand::Literal(Literal::U64(7))), Ok(Value::Number(7)));
    assert_eq!(load(&regs, &Operand::Literal(Literal::Address(signer()))), Ok(Value::Address(signer())));
    let id = ProgramID { name: Identifier(Field(8, 0, 0, 0)), network: Identifier(Field(0, 0, 0, 0)) };
    assert_eq!(load(&regs, &Operand::ProgramID(id)), Ok(Value::Address(Address(8, 0, 0, 0))));
    let nameless = ProgramID { name: Identifier(Field(0, 0, 0, 0)), network: Identifier(Field(0, 0, 0, 0)) };
    assert_eq!(load(&regs, &Operand::ProgramID(nameless)), Err(RegistersError::ProgramAddressUnavailable));
    assert_eq!(load(&regs, &Operand::Signer), Err(RegistersError::SignerNotSet));
    assert_eq!(load(&regs, &Operand::Caller), Err(RegistersError::CallerNotSet));
    regs.set_signer(signer());
    regs.set_caller(Address(6, 0, 0, 0));
    assert_eq!(load(&regs, &Operand::Signer), Ok(Value::Address(signer())));
    assert_eq!(load(&regs, &Operand::Caller), Ok(Value::Address(Address(6, 0, 0, 0))));
    assert_eq!(load(&regs, &Operand::BlockHeight), Err(RegistersError::BlockHeightOutsideFinalize));
    assert_eq!(load(&regs, &Operand::NetworkID), Err(RegistersError::NetworkIdOutsideFinalize));
}

#[test]
fn load_errors() {
    let mut regs: Registers<Value> = Registers::new();
    let load = |regs: &Registers<Value>, operand: &Operand| regs.load(operand, literal, program_address, address, find, check);
    assert_eq!(load(&regs, &Operand::Register(Register::Locator(0))), Err(RegistersError::MissingRegister(0)));
    regs.store(&Register::Locator(0), Value::Number(3), check).unwrap();
    regs.store(&Register::Locator(1), Value::List(vec![Value::Number(1)]), check).unwrap();
    regs.store(&Register::Locator(2), Value::Number(5), check).unwrap();
    assert_eq!(
        load(&regs, &Operand::Register(Register::Access(1, vec![Access::Index(4)]))),
        Err(RegistersError::AccessNotFound(1))
    );
    let strict = |_r: &Register, _v: &Value| Some(false);
    assert_eq!(
        regs.load(&Operand::Register(Register::Locator(2)), literal, program_address, address, find, strict),
        Err(RegistersError::TypeMismatch(2))
    );
    let untyped = |_r: &Register, _v: &Value| None;
    assert_eq!(
        regs.load(&Operand::Register(Register::Locator(2)), literal, program_address, address, find, untyped),
        Err(RegistersError::MissingType(2))
    );
    assert_eq!(load(&regs, &Operand::Register(Register::Locator(3))), Err(RegistersError::MissingRegister(3)));
}
