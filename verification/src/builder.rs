//! The external constraint-system builder, held behind trusted wrappers.
//!
//! The builder is the proving backend's mutable constraint system. Verus
//! sees it through a handful of named state components: whether a system is
//! attached, its mode flags, the variable and constraint counters, the
//! recorded value assignments and the recorded constraint rows. Each
//! wrapper states over those names exactly what the backend's source shows
//! the call to do.

use vstd::prelude::*;
use ark_relations::r1cs::{ConstraintSystem, ConstraintSystemRef, LinearCombination, Variable};
use crate::field::Scalar;

verus! {

/// A variable handle of the external constraint system: the reserved
/// constant-one variable, or a public instance or private witness variable
/// with its allocation index.
#[derive(Clone, Copy, PartialEq, Eq, Structural, Debug)]
pub enum SystemVar {
    /// The reserved constant-one variable, standing for file index 0.
    One,
    /// The public instance variable with this allocation index.
    Instance(usize),
    /// The private witness variable with this allocation index.
    Witness(usize),
}

#[verifier::external_type_specification]
#[verifier::external_body]
pub struct ExSynthesisError(ark_relations::r1cs::SynthesisError);

/// One recorded constraint row: the three combinations exactly as they
/// were handed to the builder.
pub ghost struct BuilderRow {
    pub a: Seq<(Scalar, SystemVar)>,
    pub b: Seq<(Scalar, SystemVar)>,
    pub c: Seq<(Scalar, SystemVar)>,
}

/// A handle on the proving backend's constraint system.
///
/// The struct hides the backend's shared reference
/// (`ark_relations::r1cs::ConstraintSystemRef`), whose generic type
/// parameter Verus cannot declare. The `cs` field is public so that
/// unverified callers driven by the proving backend can wrap the reference
/// the backend hands them; the verified library reaches the reference only
/// through the trusted wrappers below.
#[verifier::external_body]
pub struct SystemBuilder {
    /// The backend's shared reference into the constraint system.
    pub cs: ConstraintSystemRef<ark_bn254::Fr>,
}

/// Whether a constraint system is attached: every operation on a builder
/// without one fails.
pub uninterp spec fn cs_is_present(b: SystemBuilder) -> bool;

/// Whether the system stores concrete variable values: true outside setup
/// mode.
pub uninterp spec fn cs_stores_values(b: SystemBuilder) -> bool;

/// Whether the system records the constraint matrices.
pub uninterp spec fn cs_builds_matrices(b: SystemBuilder) -> bool;

/// The number of public instance variables, the built-in constant one
/// included.
pub uninterp spec fn cs_num_instance(b: SystemBuilder) -> nat;

/// The number of private witness variables.
pub uninterp spec fn cs_num_witness(b: SystemBuilder) -> nat;

/// The number of constraints counted so far.
pub uninterp spec fn cs_num_constraints(b: SystemBuilder) -> nat;

/// The stored instance values, in allocation order, when values are
/// stored.
pub uninterp spec fn cs_instance_values(b: SystemBuilder) -> Seq<Scalar>;

/// The stored witness values, in allocation order, when values are stored.
pub uninterp spec fn cs_witness_values(b: SystemBuilder) -> Seq<Scalar>;

/// The recorded constraint rows, in enforcement order, when matrices are
/// built.
pub uninterp spec fn cs_rows(b: SystemBuilder) -> Seq<BuilderRow>;

impl SystemBuilder {
    /// Relies on `ConstraintSystem::new_ref` (ark-relations): a fresh
    /// system in proving mode, storing values and building matrices, with
    /// one instance variable fixed to the field's one, no witness variables
    /// and no constraints. That first stored instance value is the same
    /// scalar the decimal literal `1` decodes to.
    #[verifier::external_body]
    pub fn new() -> (b: SystemBuilder)
        ensures
            cs_is_present(b),
            cs_stores_values(b),
            cs_builds_matrices(b),
            cs_num_instance(b) == 1,
            cs_num_witness(b) == 0,
            cs_num_constraints(b) == 0,
            cs_instance_values(b) == seq![crate::field::scalar_one()],
            cs_witness_values(b) == Seq::<Scalar>::empty(),
            cs_rows(b) == Seq::<BuilderRow>::empty(),
    {
        SystemBuilder { cs: ConstraintSystem::new_ref() }
    }

    /// Relies on `ConstraintSystemRef::new_input_variable` (ark-relations):
    /// with a system attached it allocates the instance variable whose
    /// index is the current instance count, recording the supplied value
    /// unless the system is in setup mode; without one it fails. The
    /// closure handed to the backend only returns the given value, and the
    /// counter is taken not to overflow.
    #[verifier::external_body]
    pub fn new_input_variable(&mut self, value: Scalar) -> (r: Result<
        usize,
        ark_relations::r1cs::SynthesisError,
    >)
        ensures
            cs_is_present(*final(self)) == cs_is_present(*old(self)),
            cs_stores_values(*final(self)) == cs_stores_values(*old(self)),
            cs_builds_matrices(*final(self)) == cs_builds_matrices(*old(self)),
            cs_num_witness(*final(self)) == cs_num_witness(*old(self)),
            cs_num_constraints(*final(self)) == cs_num_constraints(*old(self)),
            cs_witness_values(*final(self)) == cs_witness_values(*old(self)),
            cs_rows(*final(self)) == cs_rows(*old(self)),
            r is Ok <==> cs_is_present(*old(self)),
            r is Err ==> *final(self) == *old(self),
            r is Ok ==> r->Ok_0 as nat == cs_num_instance(*old(self)),
            r is Ok ==> cs_num_instance(*final(self)) == cs_num_instance(*old(self)) + 1,
            r is Ok && cs_stores_values(*old(self)) ==> cs_instance_values(*final(self))
                == cs_instance_values(*old(self)).push(value),
            r is Ok && !cs_stores_values(*old(self)) ==> cs_instance_values(*final(self))
                == cs_instance_values(*old(self)),
    {
        match self.cs.new_input_variable(|| Ok(value.value)) {
            Ok(Variable::Instance(i)) => Ok(i),
            // The backend returns Variable::Instance and nothing else here.
            Ok(_) => Ok(0),
            Err(e) => Err(e),
        }
    }

    /// Relies on `ConstraintSystemRef::new_witness_variable`
    /// (ark-relations): with a system attached it allocates the witness
    /// variable whose index is the current witness count, recording the
    /// supplied value unless the system is in setup mode; without one it
    /// fails. The closure handed to the backend only returns the given
    /// value, and the counter is taken not to overflow.
    #[verifier::external_body]
    pub fn new_witness_variable(&mut self, value: Scalar) -> (r: Result<
        usize,
        ark_relations::r1cs::SynthesisError,
    >)
        ensures
            cs_is_present(*final(self)) == cs_is_present(*old(self)),
            cs_stores_values(*final(self)) == cs_stores_values(*old(self)),
            cs_builds_matrices(*final(self)) == cs_builds_matrices(*old(self)),
            cs_num_instance(*final(self)) == cs_num_instance(*old(self)),
            cs_num_constraints(*final(self)) == cs_num_constraints(*old(self)),
            cs_instance_values(*final(self)) == cs_instance_values(*old(self)),
            cs_rows(*final(self)) == cs_rows(*old(self)),
            r is Ok <==> cs_is_present(*old(self)),
            r is Err ==> *final(self) == *old(self),
            r is Ok ==> r->Ok_0 as nat == cs_num_witness(*old(self)),
            r is Ok ==> cs_num_witness(*final(self)) == cs_num_witness(*old(self)) + 1,
            r is Ok && cs_stores_values(*old(self)) ==> cs_witness_values(*final(self))
                == cs_witness_values(*old(self)).push(value),
            r is Ok && !cs_stores_values(*old(self)) ==> cs_witness_values(*final(self))
                == cs_witness_values(*old(self)),
    {
        match self.cs.new_witness_variable(|| Ok(value.value)) {
            Ok(Variable::Witness(i)) => Ok(i),
            // The backend returns Variable::Witness and nothing else here.
            Ok(_) => Ok(0),
            Err(e) => Err(e),
        }
    }

    /// Relies on `ConstraintSystemRef::enforce_constraint` (ark-relations):
    /// with a system attached it counts one more constraint and, when
    /// matrices are built, records the three combinations exactly as given,
    /// duplicate indices and zero coefficients included; without one it
    /// fails. The closure handed to the iterator only converts each term's
    /// variable handle.
    #[verifier::external_body]
    pub fn enforce_constraint(
        &mut self,
        a: &Vec<(Scalar, SystemVar)>,
        b: &Vec<(Scalar, SystemVar)>,
        c: &Vec<(Scalar, SystemVar)>,
    ) -> (r: Result<(), ark_relations::r1cs::SynthesisError>)
        ensures
            cs_is_present(*final(self)) == cs_is_present(*old(self)),
            cs_stores_values(*final(self)) == cs_stores_values(*old(self)),
            cs_builds_matrices(*final(self)) == cs_builds_matrices(*old(self)),
            cs_num_instance(*final(self)) == cs_num_instance(*old(self)),
            cs_num_witness(*final(self)) == cs_num_witness(*old(self)),
            cs_instance_values(*final(self)) == cs_instance_values(*old(self)),
            cs_witness_values(*final(self)) == cs_witness_values(*old(self)),
            r is Ok <==> cs_is_present(*old(self)),
            r is Err ==> *final(self) == *old(self),
            r is Ok ==> cs_num_constraints(*final(self)) == cs_num_constraints(*old(self)) + 1,
            r is Ok && cs_builds_matrices(*old(self)) ==> cs_rows(*final(self)) == cs_rows(
                *old(self),
            ).push((BuilderRow { a: a@, b: b@, c: c@ })),
            r is Ok && !cs_builds_matrices(*old(self)) ==> cs_rows(*final(self)) == cs_rows(
                *old(self),
            ),
    {
        let conv = |terms: &Vec<(Scalar, SystemVar)>| -> LinearCombination<ark_bn254::Fr> {
            LinearCombination(
                terms.iter().map(
                    |(s, v)| (s.value, match v {
                        SystemVar::One => Variable::One,
                        SystemVar::Instance(i) => Variable::Instance(*i),
                        SystemVar::Witness(i) => Variable::Witness(*i),
                    }),
                ).collect(),
            )
        };
        self.cs.enforce_constraint(conv(a), conv(b), conv(c))
    }

    /// Relies on `ConstraintSystemRef::num_instance_variables`
    /// (ark-relations): the instance counter, zero without a system.
    #[verifier::external_body]
    pub fn num_instance_variables(&self) -> (n: usize)
        ensures
            n as nat == cs_num_instance(*self),
    {
        self.cs.num_instance_variables()
    }

    /// Relies on `ConstraintSystemRef::num_witness_variables`
    /// (ark-relations): the witness counter, zero without a system.
    #[verifier::external_body]
    pub fn num_witness_variables(&self) -> (n: usize)
        ensures
            n as nat == cs_num_witness(*self),
    {
        self.cs.num_witness_variables()
    }

    /// Relies on `ConstraintSystemRef::num_constraints` (ark-relations):
    /// the constraint counter, zero without a system.
    #[verifier::external_body]
    pub fn num_constraints(&self) -> (n: usize)
        ensures
            n as nat == cs_num_constraints(*self),
    {
        self.cs.num_constraints()
    }

    /// Relies on `ConstraintSystemRef::is_satisfied` (ark-relations):
    /// whether the stored assignment satisfies every recorded constraint.
    /// The answer rests on the backend's field arithmetic, of which nothing
    /// is claimed here.
    ///
    /// The backend walks the recorded rows for every counted constraint, so
    /// the call is asked only of a builder whose rows cover its count:
    /// matrices built, or nothing enforced. On a system in setup mode the
    /// walk is not reached and the backend's refusal becomes `None`.
    #[verifier::external_body]
    pub fn is_satisfied(&self) -> (r: Option<bool>)
        requires
            cs_builds_matrices(*self) || cs_num_constraints(*self) == 0,
    {
        self.cs.is_satisfied().ok()
    }
}

} // verus!
