use vstd::prelude::*;
use crate::program::{Access, Literal, Operand, ProgramID, Register};
use crate::types::{Address, Field};

verus! {

/// Why a register operation failed.
#[derive(Debug, PartialEq, Eq, Structural)]
pub enum RegistersError {
    /// The signer is not set.
    SignerNotSet,
    /// The root transition view key is not set.
    RootTvkNotSet,
    /// The caller is not set.
    CallerNotSet,
    /// The transition view key is not set.
    TvkNotSet,
    /// The block height cannot be loaded outside a finalize context.
    BlockHeightOutsideFinalize,
    /// The network ID cannot be loaded outside a finalize context.
    NetworkIdOutsideFinalize,
    /// The address of the program of the operand could not be derived.
    ProgramAddressUnavailable,
    /// No value is stored at this locator.
    MissingRegister(u64),
    /// The access path does not lead to a value inside the register with this locator.
    AccessNotFound(u64),
    /// The register with this locator has no type in the function.
    MissingType(u64),
    /// The value does not match the type of the register with this locator.
    TypeMismatch(u64),
    /// A write to this locator is not the next write in order.
    OutOfOrderWrite(u64),
    /// A register access (with this locator) cannot be written.
    StoreToAccess(u64),
}

/// The registers of a transition: the transition's context (signer, root transition view key,
/// caller, transition view key) and the values written so far, the value at locator `i`
/// being the `i`-th one written. The console registers and the circuit registers of a
/// transition are each such a register file, over their own kind of value.
pub struct Registers<V> {
    signer: Option<Address>,
    root_tvk: Option<Field>,
    caller: Option<Address>,
    tvk: Option<Field>,
    values: Vec<V>,
}

impl<V> Registers<V> {
    /// The signer, if set.
    pub closed spec fn signer_view(&self) -> Option<Address> {
        self.signer
    }

    /// The root transition view key, if set.
    pub closed spec fn root_tvk_view(&self) -> Option<Field> {
        self.root_tvk
    }

    /// The caller, if set.
    pub closed spec fn caller_view(&self) -> Option<Address> {
        self.caller
    }

    /// The transition view key, if set.
    pub closed spec fn tvk_view(&self) -> Option<Field> {
        self.tvk
    }

    /// The values stored, by locator.
    pub closed spec fn stored(&self) -> Seq<V> {
        self.values@
    }

    /// The transition context is the same in both.
    pub open spec fn same_context(&self, other: &Self) -> bool {
        &&& self.signer_view() == other.signer_view()
        &&& self.root_tvk_view() == other.root_tvk_view()
        &&& self.caller_view() == other.caller_view()
        &&& self.tvk_view() == other.tvk_view()
    }

    /// Empty registers, with no context set.
    pub fn new() -> (r: Self)
        ensures
            r.signer_view() is None,
            r.root_tvk_view() is None,
            r.caller_view() is None,
            r.tvk_view() is None,
            r.stored() == Seq::<V>::empty(),
    {
        Registers { signer: None, root_tvk: None, caller: None, tvk: None, values: Vec::new() }
    }

    /// Returns the transition signer.
    pub fn signer(&self) -> (r: Result<Address, RegistersError>)
        ensures
            r == (match self.signer_view() {
                Some(a) => Ok::<Address, RegistersError>(a),
                None => Err(RegistersError::SignerNotSet),
            }),
    {
        match self.signer {
            Some(a) => Ok(a),
            None => Err(RegistersError::SignerNotSet),
        }
    }

    /// Sets the transition signer.
    pub fn set_signer(&mut self, signer: Address)
        ensures
            final(self).signer_view() == Some(signer),
            final(self).root_tvk_view() == old(self).root_tvk_view(),
            final(self).caller_view() == old(self).caller_view(),
            final(self).tvk_view() == old(self).tvk_view(),
            final(self).stored() == old(self).stored(),
    {
        self.signer = Some(signer);
    }

    /// Returns the root transition view key.
    pub fn root_tvk(&self) -> (r: Result<Field, RegistersError>)
        ensures
            r == (match self.root_tvk_view() {
                Some(f) => Ok::<Field, RegistersError>(f),
                None => Err(RegistersError::RootTvkNotSet),
            }),
    {
        match self.root_tvk {
            Some(f) => Ok(f),
            None => Err(RegistersError::RootTvkNotSet),
        }
    }

    /// Sets the root transition view key.
    pub fn set_root_tvk(&mut self, root_tvk: Field)
        ensures
            final(self).root_tvk_view() == Some(root_tvk),
            final(self).signer_view() == old(self).signer_view(),
            final(self).caller_view() == old(self).caller_view(),
            final(self).tvk_view() == old(self).tvk_view(),
            final(self).stored() == old(self).stored(),
    {
        self.root_tvk = Some(root_tvk);
    }

    /// Returns the transition caller.
    pub fn caller(&self) -> (r: Result<Address, RegistersError>)
        ensures
            r == (match self.caller_view() {
                Some(a) => Ok::<Address, RegistersError>(a),
                None => Err(RegistersError::CallerNotSet),
            }),
    {
        match self.caller {
            Some(a) => Ok(a),
            None => Err(RegistersError::CallerNotSet),
        }
    }

    /// Sets the transition caller.
    pub fn set_caller(&mut self, caller: Address)
        ensures
            final(self).caller_view() == Some(caller),
            final(self).signer_view() == old(self).signer_view(),
            final(self).root_tvk_view() == old(self).root_tvk_view(),
            final(self).tvk_view() == old(self).tvk_view(),
            final(self).stored() == old(self).stored(),
    {
        self.caller = Some(caller);
    }

    /// Returns the transition view key.
    pub fn tvk(&self) -> (r: Result<Field, RegistersError>)
        ensures
            r == (match self.tvk_view() {
                Some(f) => Ok::<Field, RegistersError>(f),
                None => Err(RegistersError::TvkNotSet),
            }),
    {
        match self.tvk {
            Some(f) => Ok(f),
            None => Err(RegistersError::TvkNotSet),
        }
    }

    /// Sets the transition view key.
    pub fn set_tvk(&mut self, tvk: Field)
        ensures
            final(self).tvk_view() == Some(tvk),
            final(self).signer_view() == old(self).signer_view(),
            final(self).root_tvk_view() == old(self).root_tvk_view(),
            final(self).caller_view() == old(self).caller_view(),
            final(self).stored() == old(self).stored(),
    {
        self.tvk = Some(tvk);
    }
}

/// The value that `register` picks out of `stored`, the value at its locator: a clone of
/// it for a plain locator, or what `find` gives along the access path.
pub open spec fn picks<V: Clone, FP: Fn(&V, &Vec<Access>) -> Option<V>>(
    find: FP,
    register: Register,
    stored: V,
    v: V,
) -> bool {
    match register {
        Register::Locator(_) => cloned(stored, v),
        Register::Access(_, path) => call_ensures(find, (&stored, &path), Some(v)),
    }
}

/// What loading `operand` from `regs` may give. A literal gives the value that `literal`
/// forms of it; a program ID gives the value that `address` forms of the program's address,
/// if `program_address` derives one; the signer or the caller gives the value that `address`
/// forms of it, if set; the block height and the network ID are refused; a register gives
/// the value it picks out of the value stored at its locator, if there is one, once `check`
/// confirms that the value has the register's type.
pub open spec fn load_result<
    V: Clone,
    FL: Fn(&Literal) -> V,
    FG: Fn(&ProgramID) -> Option<Address>,
    FA: Fn(&Address) -> V,
    FP: Fn(&V, &Vec<Access>) -> Option<V>,
    FT: Fn(&Register, &V) -> Option<bool>,
>(
    regs: Registers<V>,
    operand: Operand,
    literal: FL,
    program_address: FG,
    address: FA,
    find: FP,
    check: FT,
    r: Result<V, RegistersError>,
) -> bool {
    match operand {
        Operand::Literal(l) => r matches Ok(v) && call_ensures(literal, (&l,), v),
        Operand::ProgramID(id) => match r {
            Ok(v) => exists|a: Address|
                #[trigger] call_ensures(program_address, (&id,), Some(a)) && call_ensures(address, (&a,), v),
            Err(e) => e == RegistersError::ProgramAddressUnavailable && call_ensures(
                program_address,
                (&id,),
                None::<Address>,
            ),
        },
        Operand::Signer => match regs.signer_view() {
            None => r == Err::<V, RegistersError>(RegistersError::SignerNotSet),
            Some(a) => r matches Ok(v) && call_ensures(address, (&a,), v),
        },
        Operand::Caller => match regs.caller_view() {
            None => r == Err::<V, RegistersError>(RegistersError::CallerNotSet),
            Some(a) => r matches Ok(v) && call_ensures(address, (&a,), v),
        },
        Operand::BlockHeight => r == Err::<V, RegistersError>(RegistersError::BlockHeightOutsideFinalize),
        Operand::NetworkID => r == Err::<V, RegistersError>(RegistersError::NetworkIdOutsideFinalize),
        Operand::Register(register) => {
            let l = register.spec_locator();
            if l >= regs.stored().len() {
                r == Err::<V, RegistersError>(RegistersError::MissingRegister(l))
            } else {
                let stored = regs.stored()[l as int];
                match r {
                    Ok(v) => picks(find, register, stored, v) && call_ensures(check, (&register, &v), Some(true)),
                    Err(RegistersError::AccessNotFound(k)) => k == l && match register {
                        Register::Access(_, path) => call_ensures(find, (&stored, &path), None::<V>),
                        Register::Locator(_) => false,
                    },
                    Err(RegistersError::MissingType(k)) => k == l && exists|v: V|
                        picks(find, register, stored, v) && #[trigger] call_ensures(check, (&register, &v), None::<bool>),
                    Err(RegistersError::TypeMismatch(k)) => k == l && exists|v: V|
                        picks(find, register, stored, v) && #[trigger] call_ensures(check, (&register, &v), Some(false)),
                    Err(_) => false,
                }
            }
        },
    }
}

/// What storing `value` at `register` does to `before`, giving `after`. Only a plain locator
/// equal to the number of values stored so far can be written, and only once `check`
/// confirms that the value has the register's type; then the value is appended. Otherwise
/// nothing changes. The context never changes.
pub open spec fn store_result<V, FT: Fn(&Register, &V) -> Option<bool>>(
    before: Registers<V>,
    after: Registers<V>,
    register: Register,
    value: V,
    check: FT,
    r: Result<(), RegistersError>,
) -> bool {
    &&& after.same_context(&before)
    &&& match register {
        Register::Access(l, _) => r == Err::<(), RegistersError>(RegistersError::StoreToAccess(l)),
        Register::Locator(l) => if l != before.stored().len() {
            r == Err::<(), RegistersError>(RegistersError::OutOfOrderWrite(l))
        } else {
            match r {
                Ok(()) => call_ensures(check, (&register, &value), Some(true)),
                Err(e) => (e == RegistersError::MissingType(l) && call_ensures(check, (&register, &value), None::<bool>))
                    || (e == RegistersError::TypeMismatch(l) && call_ensures(check, (&register, &value), Some(false))),
            }
        },
    }
    &&& r is Ok ==> after.stored() == before.stored().push(value)
    &&& r is Err ==> after.stored() == before.stored()
}

impl<V: Clone> Registers<V> {
    /// Loads the value of `operand`. `literal` forms the value of a literal,
    /// `program_address` derives a program's address (`None` when it cannot), `address` forms
    /// the value of an address,
    /// `find` follows an access path into a value (`None` when the path leads nowhere), and
    /// `check` tells whether a value has a register's type (`None` when the register has no
    /// type in the function).
    pub fn load<
        FL: Fn(&Literal) -> V,
        FG: Fn(&ProgramID) -> Option<Address>,
        FA: Fn(&Address) -> V,
        FP: Fn(&V, &Vec<Access>) -> Option<V>,
        FT: Fn(&Register, &V) -> Option<bool>,
    >(
        &self,
        operand: &Operand,
        literal: FL,
        program_address: FG,
        address: FA,
        find: FP,
        check: FT,
    ) -> (r: Result<V, RegistersError>)
        requires
            forall|l: Literal| #[trigger] call_requires(literal, (&l,)),
            forall|id: ProgramID| #[trigger] call_requires(program_address, (&id,)),
            forall|a: Address| #[trigger] call_requires(address, (&a,)),
            forall|v: V, p: Vec<Access>| #[trigger] call_requires(find, (&v, &p)),
            forall|g: Register, v: V| #[trigger] call_requires(check, (&g, &v)),
        ensures
            load_result(*self, *operand, literal, program_address, address, find, check, r),
    {
        let register = match operand {
            Operand::Literal(l) => {
                return Ok(literal(l));
            },
            Operand::ProgramID(id) => {
                return match program_address(id) {
                    Some(a) => Ok(address(&a)),
                    None => Err(RegistersError::ProgramAddressUnavailable),
                };
            },
            Operand::Register(register) => register,
            Operand::Signer => {
                let a = self.signer()?;
                return Ok(address(&a));
            },
            Operand::Caller => {
                let a = self.caller()?;
                return Ok(address(&a));
            },
            Operand::BlockHeight => {
                return Err(RegistersError::BlockHeightOutsideFinalize);
            },
            Operand::NetworkID => {
                return Err(RegistersError::NetworkIdOutsideFinalize);
            },
        };
        let l = register.locator();
        if l >= self.values.len() as u64 {
            return Err(RegistersError::MissingRegister(l));
        }
        let stored = &self.values[l as usize];
        let value = match register {
            Register::Locator(_) => stored.clone(),
            Register::Access(_, path) => match find(stored, path) {
                Some(v) => v,
                None => {
                    return Err(RegistersError::AccessNotFound(l));
                },
            },
        };
        match check(register, &value) {
            None => Err(RegistersError::MissingType(l)),
            Some(false) => Err(RegistersError::TypeMismatch(l)),
            Some(true) => Ok(value),
        }
    }
}

impl<V> Registers<V> {
    /// Stores `value` at `register`: the register must be a plain locator, the next one in
    /// order (so never one already written), and `check` must confirm that the value has the
    /// register's type (`None` when the register has no type in the function).
    pub fn store<FT: Fn(&Register, &V) -> Option<bool>>(&mut self, register: &Register, value: V, check: FT) -> (r: Result<
        (),
        RegistersError,
    >)
        requires
            forall|g: Register, v: V| #[trigger] call_requires(check, (&g, &v)),
        ensures
            store_result(*old(self), *final(self), *register, value, check, r),
    {
        match register {
            Register::Locator(l) => {
                if *l != self.values.len() as u64 {
                    return Err(RegistersError::OutOfOrderWrite(*l));
                }
                match check(register, &value) {
                    None => Err(RegistersError::MissingType(*l)),
                    Some(false) => Err(RegistersError::TypeMismatch(*l)),
                    Some(true) => {
                        self.values.push(value);
                        Ok(())
                    },
                }
            },
            Register::Access(l, _) => Err(RegistersError::StoreToAccess(*l)),
        }
    }
}

/// The type check answers each register and value one way, and a clone of a value the same
/// way as the value.
pub open spec fn check_is_function_of_value<V: Clone, FT: Fn(&Register, &V) -> Option<bool>>(check: FT) -> bool {
    forall|g: Register, a: V, b: V, x: Option<bool>, y: Option<bool>|
        cloned(a, b) && #[trigger] call_ensures(check, (&g, &a), x) && #[trigger] call_ensures(check, (&g, &b), y)
            ==> x == y
}

/// A read gives back what was written: after `v` is stored at locator `l`, loading that
/// register succeeds with a clone of `v`, provided the type check answers a value and its
/// clones alike (otherwise the load never finds the register missing, and any value it gives
/// is a clone of `v`).
pub proof fn law_load_after_store<
    V: Clone,
    FL: Fn(&Literal) -> V,
    FG: Fn(&ProgramID) -> Option<Address>,
    FA: Fn(&Address) -> V,
    FP: Fn(&V, &Vec<Access>) -> Option<V>,
    FT: Fn(&Register, &V) -> Option<bool>,
>(
    before: Registers<V>,
    after: Registers<V>,
    l: u64,
    v: V,
    check: FT,
    literal: FL,
    program_address: FG,
    address: FA,
    find: FP,
    r: Result<V, RegistersError>,
)
    requires
        store_result(before, after, Register::Locator(l), v, check, Ok(())),
        load_result(after, Operand::Register(Register::Locator(l)), literal, program_address, address, find, check, r),
    ensures
        r != Err::<V, RegistersError>(RegistersError::MissingRegister(l)),
        r matches Ok(w) ==> cloned(v, w),
        check_is_function_of_value(check) ==> (r matches Ok(w) && cloned(v, w)),
{
    let g = Register::Locator(l);
    assert(after.stored()[l as int] == v);
    if check_is_function_of_value(check) {
        assert(call_ensures(check, (&g, &v), Some(true)));
        assert(cloned(v, v));
        match r {
            Err(RegistersError::MissingType(k)) => {
                let w = choose|w: V| picks(find, g, v, w) && #[trigger] call_ensures(check, (&g, &w), None::<bool>);
                assert(cloned(v, w));
            },
            Err(RegistersError::TypeMismatch(k)) => {
                let w = choose|w: V| picks(find, g, v, w) && #[trigger] call_ensures(check, (&g, &w), Some(false));
                assert(cloned(v, w));
            },
            _ => {},
        }
    }
}

/// A store at the next locator succeeds exactly when the type check confirms the value's type,
/// for a check that answers each register and value one way; a store anywhere else fails.
pub proof fn law_store_succeeds_iff_typed<V: Clone, FT: Fn(&Register, &V) -> Option<bool>>(
    before: Registers<V>,
    after: Registers<V>,
    l: u64,
    value: V,
    check: FT,
    answer: Option<bool>,
    r: Result<(), RegistersError>,
)
    requires
        check_is_function_of_value(check),
        call_ensures(check, (&Register::Locator(l), &value), answer),
        store_result(before, after, Register::Locator(l), value, check, r),
    ensures
        r is Ok <==> (l == before.stored().len() && answer == Some(true)),
        r is Ok ==> after.stored() == before.stored().push(value),
        r is Err ==> after.stored() == before.stored(),
{
    let g = Register::Locator(l);
    assert(cloned(value, value));
    if l == before.stored().len() {
        match r {
            Ok(()) => {
                assert(call_ensures(check, (&g, &value), Some(true)));
            },
            Err(e) => {
                if e == RegistersError::MissingType(l) {
                    assert(call_ensures(check, (&g, &value), None::<bool>));
                } else {
                    assert(call_ensures(check, (&g, &value), Some(false)));
                }
            },
        }
    }
}

/// Console and circuit registers agree on operands that need no stored value: when both hold
/// the same context and the circuit's literal and address builders give values that eject to
/// what the console's give, loading a literal, the signer, the caller, the block height or the
/// network ID succeeds on one exactly when on the other, the circuit value ejects to the console
/// value, and a failure is the same failure.
pub proof fn law_circuit_load_ejects_to_console_load<
    V: Clone,
    C: Clone,
    FL: Fn(&Literal) -> V,
    GL: Fn(&Literal) -> C,
    FG: Fn(&ProgramID) -> Option<Address>,
    FA: Fn(&Address) -> V,
    GA: Fn(&Address) -> C,
    FP: Fn(&V, &Vec<Access>) -> Option<V>,
    GP: Fn(&C, &Vec<Access>) -> Option<C>,
    FT: Fn(&Register, &V) -> Option<bool>,
    GT: Fn(&Register, &C) -> Option<bool>,
>(
    console: Registers<V>,
    circuit: Registers<C>,
    eject: spec_fn(C) -> V,
    operand: Operand,
    literal: FL,
    literal_circuit: GL,
    program_address: FG,
    address: FA,
    address_circuit: GA,
    find: FP,
    find_circuit: GP,
    check: FT,
    check_circuit: GT,
    rv: Result<V, RegistersError>,
    rc: Result<C, RegistersError>,
)
    requires
        operand is Literal || operand is Signer || operand is Caller || operand is BlockHeight
            || operand is NetworkID,
        console.signer_view() == circuit.signer_view(),
        console.caller_view() == circuit.caller_view(),
        forall|l: Literal, v: V, c: C|
            #[trigger] call_ensures(literal, (&l,), v) && #[trigger] call_ensures(literal_circuit, (&l,), c)
                ==> eject(c) == v,
        forall|a: Address, v: V, c: C|
            #[trigger] call_ensures(address, (&a,), v) && #[trigger] call_ensures(address_circuit, (&a,), c)
                ==> eject(c) == v,
        load_result(console, operand, literal, program_address, address, find, check, rv),
        load_result(circuit, operand, literal_circuit, program_address, address_circuit, find_circuit, check_circuit, rc),
    ensures
        rv is Ok <==> rc is Ok,
        rv matches Ok(v) ==> (rc matches Ok(c) && eject(c) == v),
        rv matches Err(e) ==> rc == Err::<C, RegistersError>(e),
{
}

/// Stores never overwrite: whatever a store does, the values stored before it stay where
/// they were, and at most one value is added.
pub proof fn law_store_keeps_earlier_values<V, FT: Fn(&Register, &V) -> Option<bool>>(
    before: Registers<V>,
    after: Registers<V>,
    register: Register,
    value: V,
    check: FT,
    r: Result<(), RegistersError>,
)
    requires
        store_result(before, after, register, value, check, r),
    ensures
        before.stored().len() <= after.stored().len() <= before.stored().len() + 1,
        after.stored().take(before.stored().len() as int) == before.stored(),
        after.same_context(&before),
{
    assert(after.stored().take(before.stored().len() as int) =~= before.stored());
}

/// Values land at consecutive locators: a successful store at `l` means `l` values were
/// stored before, and the register at `l` now holds the value.
pub proof fn law_store_in_order<V, FT: Fn(&Register, &V) -> Option<bool>>(
    before: Registers<V>,
    after: Registers<V>,
    l: u64,
    value: V,
    check: FT,
)
    requires
        store_result(before, after, Register::Locator(l), value, check, Ok(())),
    ensures
        l == before.stored().len(),
        after.stored().len() == l + 1,
        after.stored()[l as int] == value,
{
}

/// Loading a register access type-checks the value reached along the path, not the whole
/// value stored at the locator: a load that succeeds gives a value that `find` reached along
/// the path and that `check` confirmed; a type error names a value that `find` reached and
/// that `check` refused (or found untyped). When `find` and `check` answer each input one
/// way, a load whose path reaches a value that `check` confirms succeeds with that value.
pub proof fn law_access_load_checks_reached_value<
    V: Clone,
    FL: Fn(&Literal) -> V,
    FG: Fn(&ProgramID) -> Option<Address>,
    FA: Fn(&Address) -> V,
    FP: Fn(&V, &Vec<Access>) -> Option<V>,
    FT: Fn(&Register, &V) -> Option<bool>,
>(
    regs: Registers<V>,
    l: u64,
    path: Vec<Access>,
    literal: FL,
    program_address: FG,
    address: FA,
    find: FP,
    check: FT,
    reached: V,
    r: Result<V, RegistersError>,
)
    requires
        load_result(regs, Operand::Register(Register::Access(l, path)), literal, program_address, address, find, check, r),
    ensures
        r matches Ok(v) ==> l < regs.stored().len() && call_ensures(find, (&regs.stored()[l as int], &path), Some(v))
            && call_ensures(check, (&Register::Access(l, path), &v), Some(true)),
        r == Err::<V, RegistersError>(RegistersError::TypeMismatch(l)) ==> exists|v: V|
            call_ensures(find, (&regs.stored()[l as int], &path), Some(v)) && #[trigger] call_ensures(
                check,
                (&Register::Access(l, path), &v),
                Some(false),
            ),
        r == Err::<V, RegistersError>(RegistersError::MissingType(l)) ==> exists|v: V|
            call_ensures(find, (&regs.stored()[l as int], &path), Some(v)) && #[trigger] call_ensures(
                check,
                (&Register::Access(l, path), &v),
                None::<bool>,
            ),
        r == Err::<V, RegistersError>(RegistersError::AccessNotFound(l)) ==> call_ensures(
            find,
            (&regs.stored()[l as int], &path),
            None::<V>,
        ),
        ({
            &&& forall|x: V, p: Vec<Access>, a: Option<V>, b: Option<V>|
                #[trigger] call_ensures(find, (&x, &p), a) && #[trigger] call_ensures(find, (&x, &p), b) ==> a == b
            &&& forall|g: Register, x: V, a: Option<bool>, b: Option<bool>|
                #[trigger] call_ensures(check, (&g, &x), a) && #[trigger] call_ensures(check, (&g, &x), b) ==> a == b
            &&& l < regs.stored().len()
            &&& call_ensures(find, (&regs.stored()[l as int], &path), Some(reached))
            &&& call_ensures(check, (&Register::Access(l, path), &reached), Some(true))
        }) ==> r == Ok::<V, RegistersError>(reached),
{
}

} // verus!
