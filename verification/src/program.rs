use vstd::prelude::*;

use crate::table::{first_index, lemma_first_index, lemma_first_index_bounds, lemma_first_index_none};
use crate::types::{Address, Field};

verus! {

/// An identifier, as its field encoding.
#[derive(Debug, Clone, Copy, PartialEq, Eq, Structural, Hash)]
pub struct Identifier(pub Field);

/// A program ID: its name and its network-level domain (as in `name.aleo`).
#[derive(Debug, Clone, Copy, PartialEq, Eq, Structural, Hash)]
pub struct ProgramID {
    /// The program name.
    pub name: Identifier,
    /// The network-level domain.
    pub network: Identifier,
}

/// A locator of a resource in a program.
#[derive(Debug, Clone, Copy, PartialEq, Eq, Structural, Hash)]
pub struct Locator {
    /// The program that holds the resource.
    pub program_id: ProgramID,
    /// The resource name.
    pub resource: Identifier,
}

/// The types of literals.
#[derive(Debug, Clone, Copy, PartialEq, Eq, Structural, Hash)]
pub enum LiteralType {
    Address,
    Boolean,
    Field,
    Group,
    I8,
    I16,
    I32,
    I64,
    I128,
    U8,
    U16,
    U32,
    U64,
    U128,
    Scalar,
    Signature,
    String,
}

/// A literal value. Group elements and scalars are held as field-sized values, signatures and
/// strings as their bytes.
#[derive(Debug, Clone, PartialEq, Eq)]
pub enum Literal {
    Address(Address),
    Boolean(bool),
    Field(Field),
    Group(Field),
    I8(i8),
    I16(i16),
    I32(i32),
    I64(i64),
    I128(i128),
    U8(u8),
    U16(u16),
    U32(u32),
    U64(u64),
    U128(u128),
    Scalar(Field),
    Signature(Vec<u8>),
    String(Vec<u8>),
}

/// The type of a literal.
pub open spec fn literal_type_of(literal: Literal) -> LiteralType {
    match literal {
        Literal::Address(_) => LiteralType::Address,
        Literal::Boolean(_) => LiteralType::Boolean,
        Literal::Field(_) => LiteralType::Field,
        Literal::Group(_) => LiteralType::Group,
        Literal::I8(_) => LiteralType::I8,
        Literal::I16(_) => LiteralType::I16,
        Literal::I32(_) => LiteralType::I32,
        Literal::I64(_) => LiteralType::I64,
        Literal::I128(_) => LiteralType::I128,
        Literal::U8(_) => LiteralType::U8,
        Literal::U16(_) => LiteralType::U16,
        Literal::U32(_) => LiteralType::U32,
        Literal::U64(_) => LiteralType::U64,
        Literal::U128(_) => LiteralType::U128,
        Literal::Scalar(_) => LiteralType::Scalar,
        Literal::Signature(_) => LiteralType::Signature,
        Literal::String(_) => LiteralType::String,
    }
}

/// Each literal's type is the type that its variant names, whatever value it holds, and
/// literals of different variants have different types.
pub proof fn law_literal_type_names_variant()
    ensures
        forall|a: Address| #[trigger] literal_type_of(Literal::Address(a)) == LiteralType::Address,
        forall|b: bool| #[trigger] literal_type_of(Literal::Boolean(b)) == LiteralType::Boolean,
        forall|f: Field| #[trigger] literal_type_of(Literal::Field(f)) == LiteralType::Field,
        forall|g: Field| #[trigger] literal_type_of(Literal::Group(g)) == LiteralType::Group,
        forall|n: i8| #[trigger] literal_type_of(Literal::I8(n)) == LiteralType::I8,
        forall|n: i16| #[trigger] literal_type_of(Literal::I16(n)) == LiteralType::I16,
        forall|n: i32| #[trigger] literal_type_of(Literal::I32(n)) == LiteralType::I32,
        forall|n: i64| #[trigger] literal_type_of(Literal::I64(n)) == LiteralType::I64,
        forall|n: i128| #[trigger] literal_type_of(Literal::I128(n)) == LiteralType::I128,
        forall|n: u8| #[trigger] literal_type_of(Literal::U8(n)) == LiteralType::U8,
        forall|n: u16| #[trigger] literal_type_of(Literal::U16(n)) == LiteralType::U16,
        forall|n: u32| #[trigger] literal_type_of(Literal::U32(n)) == LiteralType::U32,
        forall|n: u64| #[trigger] literal_type_of(Literal::U64(n)) == LiteralType::U64,
        forall|n: u128| #[trigger] literal_type_of(Literal::U128(n)) == LiteralType::U128,
        forall|s: Field| #[trigger] literal_type_of(Literal::Scalar(s)) == LiteralType::Scalar,
        forall|b: Vec<u8>| #[trigger] literal_type_of(Literal::Signature(b)) == LiteralType::Signature,
        forall|b: Vec<u8>| #[trigger] literal_type_of(Literal::String(b)) == LiteralType::String,
        forall|x: Literal, y: Literal|
            #[trigger] literal_type_of(x) == #[trigger] literal_type_of(y) ==> literal_variant(x) == literal_variant(y),
{
}

/// The position of a literal's variant among the variants of `Literal`.
pub open spec fn literal_variant(literal: Literal) -> int {
    match literal {
        Literal::Address(_) => 0,
        Literal::Boolean(_) => 1,
        Literal::Field(_) => 2,
        Literal::Group(_) => 3,
        Literal::I8(_) => 4,
        Literal::I16(_) => 5,
        Literal::I32(_) => 6,
        Literal::I64(_) => 7,
        Literal::I128(_) => 8,
        Literal::U8(_) => 9,
        Literal::U16(_) => 10,
        Literal::U32(_) => 11,
        Literal::U64(_) => 12,
        Literal::U128(_) => 13,
        Literal::Scalar(_) => 14,
        Literal::Signature(_) => 15,
        Literal::String(_) => 16,
    }
}

impl Literal {
    /// Returns the type of the literal.
    pub fn to_type(&self) -> (r: LiteralType)
        ensures
            r == literal_type_of(*self),
    {
        match self {
            Literal::Address(_) => LiteralType::Address,
            Literal::Boolean(_) => LiteralType::Boolean,
            Literal::Field(_) => LiteralType::Field,
            Literal::Group(_) => LiteralType::Group,
            Literal::I8(_) => LiteralType::I8,
            Literal::I16(_) => LiteralType::I16,
            Literal::I32(_) => LiteralType::I32,
            Literal::I64(_) => LiteralType::I64,
            Literal::I128(_) => LiteralType::I128,
            Literal::U8(_) => LiteralType::U8,
            Literal::U16(_) => LiteralType::U16,
            Literal::U32(_) => LiteralType::U32,
            Literal::U64(_) => LiteralType::U64,
            Literal::U128(_) => LiteralType::U128,
            Literal::Scalar(_) => LiteralType::Scalar,
            Literal::Signature(_) => LiteralType::Signature,
            Literal::String(_) => LiteralType::String,
        }
    }
}

/// The types of plaintext values.
#[derive(Debug)]
pub enum PlaintextType {
    /// A literal type.
    Literal(LiteralType),
    /// A struct type, by name.
    Struct(Identifier),
    /// An array type: its element type and its length.
    Array(Box<PlaintextType>, u32),
}

/// The types of values in a finalize scope.
#[derive(Debug)]
pub enum FinalizeType {
    /// A plaintext type.
    Plaintext(PlaintextType),
    /// A future of the function at the locator.
    Future(Locator),
}

impl PlaintextType {
    /// Returns a copy of the type.
    pub fn duplicate(&self) -> (r: PlaintextType)
        ensures
            r == *self,
        decreases self,
    {
        match self {
            PlaintextType::Literal(t) => PlaintextType::Literal(*t),
            PlaintextType::Struct(name) => PlaintextType::Struct(*name),
            PlaintextType::Array(element, length) => PlaintextType::Array(Box::new(element.duplicate()), *length),
        }
    }
}

impl FinalizeType {
    /// Returns a copy of the type.
    pub fn duplicate(&self) -> (r: FinalizeType)
        ensures
            r == *self,
    {
        match self {
            FinalizeType::Plaintext(t) => FinalizeType::Plaintext(t.duplicate()),
            FinalizeType::Future(locator) => FinalizeType::Future(*locator),
        }
    }
}

/// One step of an access path into a register.
#[derive(Debug, Clone, Copy, PartialEq, Eq, Structural, Hash)]
pub enum Access {
    /// A member of a struct.
    Member(Identifier),
    /// An index into an array or into the inputs of a future.
    Index(u32),
}

/// A register: a locator, or a locator followed by an access path.
#[derive(Debug, Clone, PartialEq, Eq)]
pub enum Register {
    /// The register with this locator.
    Locator(u64),
    /// A path of accesses into the register with this locator.
    Access(u64, Vec<Access>),
}

impl Register {
    /// The locator of the register.
    pub open spec fn spec_locator(&self) -> u64 {
        match self {
            Register::Locator(l) => *l,
            Register::Access(l, _) => *l,
        }
    }

    /// Returns the locator of the register.
    pub fn locator(&self) -> (r: u64)
        ensures
            r == self.spec_locator(),
    {
        match self {
            Register::Locator(l) => *l,
            Register::Access(l, _) => *l,
        }
    }
}

/// The operands of an instruction or command.
#[derive(Debug, Clone, PartialEq, Eq)]
pub enum Operand {
    /// A literal.
    Literal(Literal),
    /// A register.
    Register(Register),
    /// A program ID.
    ProgramID(ProgramID),
    /// The signer of the transition.
    Signer,
    /// The caller of the transition.
    Caller,
    /// The current block height.
    BlockHeight,
    /// The network ID.
    NetworkID,
}

/// A struct declaration: its name and its members with their types, in order.
pub struct StructDecl {
    pub name: Identifier,
    pub members: Vec<(Identifier, PlaintextType)>,
}

/// A function declaration: its name, and the input types of its finalize block if it has one.
pub struct FunctionDecl {
    pub name: Identifier,
    pub finalize_inputs: Option<Vec<FinalizeType>>,
}

/// The declarations of a program that type resolution reads.
pub struct ProgramDecl {
    pub id: ProgramID,
    pub structs: Vec<StructDecl>,
    pub functions: Vec<FunctionDecl>,
}

/// A stack: the program being checked (the first one) and the programs it may refer to.
pub struct Stack {
    pub programs: Vec<ProgramDecl>,
}

/// The first struct named `name`.
pub open spec fn struct_named(structs: Seq<StructDecl>, name: Identifier) -> Option<StructDecl> {
    let i = first_index(structs, |d: StructDecl| d.name == name);
    if i < 0 {
        None
    } else {
        Some(structs[i])
    }
}

/// The type of the first member named `name`.
pub open spec fn member_type(members: Seq<(Identifier, PlaintextType)>, name: Identifier) -> Option<PlaintextType>
    decreases members.len(),
{
    if members.len() == 0 {
        None
    } else if members[0].0 == name {
        Some(members[0].1)
    } else {
        member_type(members.drop_first(), name)
    }
}

/// The first program with ID `id`.
pub open spec fn program_with_id(programs: Seq<ProgramDecl>, id: ProgramID) -> Option<ProgramDecl> {
    let i = first_index(programs, |d: ProgramDecl| d.id == id);
    if i < 0 {
        None
    } else {
        Some(programs[i])
    }
}

/// The first function named `name`.
pub open spec fn function_named(functions: Seq<FunctionDecl>, name: Identifier) -> Option<FunctionDecl> {
    let i = first_index(functions, |d: FunctionDecl| d.name == name);
    if i < 0 {
        None
    } else {
        Some(functions[i])
    }
}

/// Returns the first struct named `name`.
pub fn get_struct<'a>(structs: &'a Vec<StructDecl>, name: &Identifier) -> (r: Option<&'a StructDecl>)
    ensures
        match r {
            Some(d) => struct_named(structs@, *name) == Some(*d),
            None => struct_named(structs@, *name) is None,
        },
{
    let ghost p = |d: StructDecl| d.name == *name;
    let mut i: usize = 0;
    while i < structs.len()
        invariant
            i <= structs@.len(),
            p == (|d: StructDecl| d.name == *name),
            forall|j: int| 0 <= j < i ==> !p(#[trigger] structs@[j]),
        decreases structs@.len() - i,
    {
        if structs[i].name == *name {
            proof {
                lemma_first_index(structs@, p, i as int);
            }
            return Some(&structs[i]);
        }
        i = i + 1;
    }
    proof {
        lemma_first_index_none(structs@, p);
    }
    None
}

/// Returns the type of the first member named `name`.
pub fn get_member<'a>(members: &'a Vec<(Identifier, PlaintextType)>, name: &Identifier) -> (r: Option<&'a PlaintextType>)
    ensures
        match r {
            Some(t) => member_type(members@, *name) == Some(*t),
            None => member_type(members@, *name) is None,
        },
{
    let mut i: usize = 0;
    assert(members@.skip(0) == members@);
    while i < members.len()
        invariant
            i <= members@.len(),
            member_type(members@, *name) == member_type(members@.skip(i as int), *name),
        decreases members@.len() - i,
    {
        assert(members@.skip(i as int).drop_first() == members@.skip(i + 1));
        if members[i].0 == *name {
            return Some(&members[i].1);
        }
        i = i + 1;
    }
    None
}

/// Returns the first program with ID `id`.
pub fn get_program<'a>(programs: &'a Vec<ProgramDecl>, id: &ProgramID) -> (r: Option<&'a ProgramDecl>)
    ensures
        match r {
            Some(d) => program_with_id(programs@, *id) == Some(*d),
            None => program_with_id(programs@, *id) is None,
        },
{
    let ghost p = |d: ProgramDecl| d.id == *id;
    let mut i: usize = 0;
    while i < programs.len()
        invariant
            i <= programs@.len(),
            p == (|d: ProgramDecl| d.id == *id),
            forall|j: int| 0 <= j < i ==> !p(#[trigger] programs@[j]),
        decreases programs@.len() - i,
    {
        if programs[i].id == *id {
            proof {
                lemma_first_index(programs@, p, i as int);
            }
            return Some(&programs[i]);
        }
        i = i + 1;
    }
    proof {
        lemma_first_index_none(programs@, p);
    }
    None
}

/// Returns the first function named `name`.
pub fn get_function<'a>(functions: &'a Vec<FunctionDecl>, name: &Identifier) -> (r: Option<&'a FunctionDecl>)
    ensures
        match r {
            Some(d) => function_named(functions@, *name) == Some(*d),
            None => function_named(functions@, *name) is None,
        },
{
    let ghost p = |d: FunctionDecl| d.name == *name;
    let mut i: usize = 0;
    while i < functions.len()
        invariant
            i <= functions@.len(),
            p == (|d: FunctionDecl| d.name == *name),
            forall|j: int| 0 <= j < i ==> !p(#[trigger] functions@[j]),
        decreases functions@.len() - i,
    {
        if functions[i].name == *name {
            proof {
                lemma_first_index(functions@, p, i as int);
            }
            return Some(&functions[i]);
        }
        i = i + 1;
    }
    proof {
        lemma_first_index_none(functions@, p);
    }
    None
}

} // verus!
