use vstd::prelude::*;

use crate::program::{
    Access, FinalizeType, Identifier, LiteralType, literal_type_of, Operand, PlaintextType, ProgramDecl, Register,
    Stack, function_named, get_function, get_member, get_program, get_struct, member_type,
    program_with_id, struct_named,
};

verus! {

/// Errors of type resolution in a finalize scope.
#[derive(Debug, Clone, Copy, PartialEq, Eq, Structural)]
pub enum TypeError {
    /// The register is neither an input nor a destination.
    RegisterNotFound,
    /// The register access has an empty path.
    NoAccesses,
    /// The path accesses into a literal.
    AccessOnLiteral,
    /// The struct is not declared in the program.
    StructNotFound,
    /// The struct has no member of that name.
    MemberNotFound,
    /// The index is out of the bounds of the array or of the future's inputs.
    IndexOutOfBounds,
    /// The program of the future is not available.
    ProgramNotFound,
    /// The function of the future is not declared in its program.
    FunctionNotFound,
    /// The function of the future has no finalize block.
    NoFinalize,
    /// The access does not apply to the type (an index into a struct, a member of an array or future).
    InvalidAccess,
    /// The operand (`self.signer` or `self.caller`) is not valid in a finalize context.
    InvalidOperand,
}

/// The types of the registers of a finalize scope.
pub struct FinalizeTypes {
    /// The types of the input registers, by locator.
    inputs: Vec<(u64, FinalizeType)>,
    /// The types of the destination registers, by locator.
    destinations: Vec<(u64, FinalizeType)>,
}

/// The type of the first entry for `locator`.
pub open spec fn entry_type(entries: Seq<(u64, FinalizeType)>, locator: u64) -> Option<FinalizeType>
    decreases entries.len(),
{
    if entries.len() == 0 {
        None
    } else if entries[0].0 == locator {
        Some(entries[0].1)
    } else {
        entry_type(entries.drop_first(), locator)
    }
}

/// Returns the type of the first entry for `locator`.
fn get_entry<'a>(entries: &'a Vec<(u64, FinalizeType)>, locator: u64) -> (r: Option<&'a FinalizeType>)
    ensures
        match r {
            Some(t) => entry_type(entries@, locator) == Some(*t),
            None => entry_type(entries@, locator) is None,
        },
{
    let mut i: usize = 0;
    assert(entries@.skip(0) == entries@);
    while i < entries.len()
        invariant
            i <= entries@.len(),
            entry_type(entries@, locator) == entry_type(entries@.skip(i as int), locator),
        decreases entries@.len() - i,
    {
        assert(entries@.skip(i as int).drop_first() == entries@.skip(i + 1));
        if entries[i].0 == locator {
            return Some(&entries[i].1);
        }
        i = i + 1;
    }
    None
}

/// The type that one access reaches from `ty` in the stack's program.
pub open spec fn access_step(stack: Stack, ty: FinalizeType, access: Access) -> Result<FinalizeType, TypeError> {
    match (ty, access) {
        (FinalizeType::Plaintext(PlaintextType::Literal(_)), _) => Err(TypeError::AccessOnLiteral),
        (FinalizeType::Plaintext(PlaintextType::Struct(name)), Access::Member(member)) => match struct_named(
            stack.programs@[0].structs@,
            name,
        ) {
            None => Err(TypeError::StructNotFound),
            Some(decl) => match member_type(decl.members@, member) {
                Some(t) => Ok(FinalizeType::Plaintext(t)),
                None => Err(TypeError::MemberNotFound),
            },
        },
        (FinalizeType::Plaintext(PlaintextType::Array(element, length)), Access::Index(index)) => if index
            < length {
            Ok(FinalizeType::Plaintext(*element))
        } else {
            Err(TypeError::IndexOutOfBounds)
        },
        (FinalizeType::Future(locator), Access::Index(index)) => {
            let program = if locator.program_id == stack.programs@[0].id {
                Some(stack.programs@[0])
            } else {
                program_with_id(stack.programs@, locator.program_id)
            };
            match program {
                None => Err(TypeError::ProgramNotFound),
                Some(program) => match function_named(program.functions@, locator.resource) {
                    None => Err(TypeError::FunctionNotFound),
                    Some(function) => match function.finalize_inputs {
                        None => Err(TypeError::NoFinalize),
                        Some(inputs) => if index < inputs@.len() {
                            Ok(inputs@[index as int])
                        } else {
                            Err(TypeError::IndexOutOfBounds)
                        },
                    },
                },
            }
        },
        _ => Err(TypeError::InvalidAccess),
    }
}

/// The type that the path reaches from `ty`, access by access; the first failing access decides.
pub open spec fn resolve(stack: Stack, ty: FinalizeType, path: Seq<Access>) -> Result<FinalizeType, TypeError>
    decreases path.len(),
{
    if path.len() == 0 {
        Ok(ty)
    } else {
        match access_step(stack, ty, path[0]) {
            Ok(next) => resolve(stack, next, path.drop_first()),
            Err(e) => Err(e),
        }
    }
}

/// Performs one access from `ty`.
fn step(stack: &Stack, ty: &FinalizeType, access: &Access) -> (r: Result<FinalizeType, TypeError>)
    requires
        stack.programs@.len() > 0,
    ensures
        r == access_step(*stack, *ty, *access),
{
    match (ty, access) {
        // The register references an access, so the type must not be a literal.
        (FinalizeType::Plaintext(PlaintextType::Literal(..)), _) => Err(TypeError::AccessOnLiteral),
        // Access the member of the struct.
        (FinalizeType::Plaintext(PlaintextType::Struct(struct_name)), Access::Member(identifier)) => {
            match get_struct(&stack.programs[0].structs, struct_name) {
                None => Err(TypeError::StructNotFound),
                Some(decl) => match get_member(&decl.members, identifier) {
                    Some(member_type) => Ok(FinalizeType::Plaintext(member_type.duplicate())),
                    None => Err(TypeError::MemberNotFound),
                },
            }
        },
        // Access the element of the array, checking that the index is in bounds.
        (FinalizeType::Plaintext(PlaintextType::Array(element, length)), Access::Index(index)) => {
            if *index < *length {
                Ok(FinalizeType::Plaintext(element.duplicate()))
            } else {
                Err(TypeError::IndexOutOfBounds)
            }
        },
        // Access the input of the future, checking that it is in bounds.
        (FinalizeType::Future(locator), Access::Index(index)) => {
            // Get the external program, if needed; it must be present.
            let program: Option<&ProgramDecl> = if locator.program_id == stack.programs[0].id {
                Some(&stack.programs[0])
            } else {
                get_program(&stack.programs, &locator.program_id)
            };
            match program {
                None => Err(TypeError::ProgramNotFound),
                Some(program) => match get_function(&program.functions, &locator.resource) {
                    None => Err(TypeError::FunctionNotFound),
                    Some(function) => match &function.finalize_inputs {
                        None => Err(TypeError::NoFinalize),
                        Some(inputs) => {
                            if (*index as usize) < inputs.len() {
                                Ok(inputs[*index as usize].duplicate())
                            } else {
                                Err(TypeError::IndexOutOfBounds)
                            }
                        },
                    },
                },
            }
        },
        _ => Err(TypeError::InvalidAccess),
    }
}

impl FinalizeTypes {
    /// The type of the register with `locator`: from the inputs if it is an input, otherwise
    /// from the destinations.
    pub open spec fn register_type(&self, locator: u64) -> Option<FinalizeType> {
        if entry_type(self.inputs(), locator) is Some {
            entry_type(self.inputs(), locator)
        } else {
            entry_type(self.destinations(), locator)
        }
    }

    /// The input registers with their types.
    pub closed spec fn inputs(&self) -> Seq<(u64, FinalizeType)> {
        self.inputs@
    }

    /// The destination registers with their types.
    pub closed spec fn destinations(&self) -> Seq<(u64, FinalizeType)> {
        self.destinations@
    }

    /// Builds the register types from the types of the inputs and of the destinations.
    pub fn new(inputs: Vec<(u64, FinalizeType)>, destinations: Vec<(u64, FinalizeType)>) -> (r: Self)
        ensures
            r.inputs() == inputs@,
            r.destinations() == destinations@,
    {
        FinalizeTypes { inputs, destinations }
    }

    /// Returns `true` if the given register exists.
    pub fn contains(&self, register: &Register) -> (r: bool)
        ensures
            r == (entry_type(self.inputs(), register.spec_locator()) is Some || entry_type(
                self.destinations(),
                register.spec_locator(),
            ) is Some),
    {
        let locator = register.locator();
        get_entry(&self.inputs, locator).is_some() || get_entry(&self.destinations, locator).is_some()
    }

    /// Returns `true` if the given register corresponds to an input register.
    pub fn is_input(&self, register: &Register) -> (r: bool)
        ensures
            r == entry_type(self.inputs(), register.spec_locator()) is Some,
    {
        get_entry(&self.inputs, register.locator()).is_some()
    }

    /// Returns the type of the given register.
    pub fn get_type(&self, stack: &Stack, register: &Register) -> (r: Result<FinalizeType, TypeError>)
        requires
            stack.programs@.len() > 0,
        ensures
            r == (match self.register_type(register.spec_locator()) {
                None => Err(TypeError::RegisterNotFound),
                Some(t) => match register {
                    Register::Locator(_) => Ok(t),
                    Register::Access(_, path) => if path@.len() == 0 {
                        Err(TypeError::NoAccesses)
                    } else {
                        resolve(*stack, t, path@)
                    },
                },
            }),
    {
        let locator = register.locator();
        // Retrieve the input or destination type of the register.
        let finalize_type = if self.is_input(register) {
            get_entry(&self.inputs, locator)
        } else {
            get_entry(&self.destinations, locator)
        };
        let finalize_type = match finalize_type {
            Some(finalize_type) => finalize_type,
            None => return Err(TypeError::RegisterNotFound),
        };
        // Retrieve the path if the register is an access. Otherwise, return the type.
        let path = match register {
            Register::Locator(..) => return Ok(finalize_type.duplicate()),
            Register::Access(_, path) => {
                // Ensure the path is valid.
                if path.len() == 0 {
                    return Err(TypeError::NoAccesses);
                }
                path
            },
        };
        // Traverse the path to find the register type.
        let mut current = finalize_type.duplicate();
        let mut i: usize = 0;
        assert(path@.skip(0) == path@);
        while i < path.len()
            invariant
                i <= path@.len(),
                stack.programs@.len() > 0,
                resolve(*stack, *finalize_type, path@) == resolve(*stack, current, path@.skip(i as int)),
                self.register_type(register.spec_locator()) == Some(*finalize_type),
                register is Access,
                register->1@ == path@,
                path@.len() > 0,
            decreases path@.len() - i,
        {
            assert(path@.skip(i as int).drop_first() == path@.skip(i + 1));
            assert(path@.skip(i as int)[0] == path@[i as int]);
            match step(stack, &current, &path[i]) {
                Ok(next) => current = next,
                Err(e) => return Err(e),
            }
            i = i + 1;
        }
        Ok(current)
    }

    /// Returns the type of the given operand.
    pub fn get_type_from_operand(&self, stack: &Stack, operand: &Operand) -> (r: Result<FinalizeType, TypeError>)
        requires
            stack.programs@.len() > 0,
        ensures
            r == (match operand {
                Operand::Literal(l) => Ok(FinalizeType::Plaintext(PlaintextType::Literal(literal_type_of(*l)))),
                Operand::Register(register) => match self.register_type(register.spec_locator()) {
                    None => Err(TypeError::RegisterNotFound),
                    Some(t) => match register {
                        Register::Locator(_) => Ok(t),
                        Register::Access(_, path) => if path@.len() == 0 {
                            Err(TypeError::NoAccesses)
                        } else {
                            resolve(*stack, t, path@)
                        },
                    },
                },
                Operand::ProgramID(_) => Ok(FinalizeType::Plaintext(PlaintextType::Literal(LiteralType::Address))),
                Operand::Signer => Err(TypeError::InvalidOperand),
                Operand::Caller => Err(TypeError::InvalidOperand),
                Operand::BlockHeight => Ok(FinalizeType::Plaintext(PlaintextType::Literal(LiteralType::U32))),
                Operand::NetworkID => Ok(FinalizeType::Plaintext(PlaintextType::Literal(LiteralType::U16))),
            }),
    {
        match operand {
            Operand::Literal(literal) => Ok(FinalizeType::Plaintext(PlaintextType::Literal(literal.to_type()))),
            Operand::Register(register) => self.get_type(stack, register),
            Operand::ProgramID(_) => Ok(FinalizeType::Plaintext(PlaintextType::Literal(LiteralType::Address))),
            Operand::Signer => Err(TypeError::InvalidOperand),
            Operand::Caller => Err(TypeError::InvalidOperand),
            Operand::BlockHeight => Ok(FinalizeType::Plaintext(PlaintextType::Literal(LiteralType::U32))),
            Operand::NetworkID => Ok(FinalizeType::Plaintext(PlaintextType::Literal(LiteralType::U16))),
        }
    }
}

} // verus!
