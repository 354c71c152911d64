//! The constraint synthesizer: drive the external builder so that the same
//! circuit descriptor yields a structurally identical constraint system
//! with and without a concrete witness.

use vstd::prelude::*;
use crate::errors::BridgeError;
use crate::field::{Scalar, scalar_one, scalar_placeholder};
use crate::builder::{
    SystemBuilder, SystemVar, BuilderRow, cs_is_present, cs_stores_values, cs_builds_matrices,
    cs_num_instance, cs_num_witness, cs_num_constraints, cs_instance_values, cs_witness_values,
    cs_rows,
};
use crate::r1cs::{R1CS, R1CSV, R1CV, strictly_increasing};
use crate::witness::Witness;

verus! {

broadcast use vstd::std_specs::hash::group_hash_axioms;

/// A circuit ready for synthesis: a descriptor, and a partitioned witness
/// when concrete values exist. Key generation synthesizes without a
/// witness; proving synthesizes with one; both walks must build the same
/// structure.
#[derive(Clone)]
pub struct Circuit {
    /// The circuit descriptor.
    pub r1cs: R1CS,
    /// The concrete values, absent during key generation.
    pub witness: Option<Witness>,
}

/// The value supplied for an input variable: its witness value, or the
/// field's one as the placeholder when no witness is present.
pub open spec fn planned_input_value(w: Option<Witness>, idx: usize) -> Scalar {
    match w {
        None => scalar_one(),
        Some(wit) => wit@.input_variables[idx],
    }
}

/// The value supplied for a witness variable.
pub open spec fn planned_witness_value(w: Option<Witness>, idx: usize) -> Scalar {
    match w {
        None => scalar_one(),
        Some(wit) => wit@.witness_variables[idx],
    }
}

/// The instance values the synthesizer supplies, in allocation order.
pub open spec fn planned_instance_values(c: Circuit) -> Seq<Scalar> {
    c.r1cs.input_variables@.map_values(|idx: usize| planned_input_value(c.witness, idx))
}

/// The witness values the synthesizer supplies, in allocation order.
pub open spec fn planned_witness_values(c: Circuit) -> Seq<Scalar> {
    c.r1cs.witness_variables@.map_values(|idx: usize| planned_witness_value(c.witness, idx))
}

/// Whether the witness, if present, holds a value for every variable the
/// descriptor allocates.
pub open spec fn witness_covered(c: Circuit) -> bool {
    match c.witness {
        None => true,
        Some(w) => {
            &&& forall|i: int|
                0 <= i < c.r1cs.input_variables@.len() ==> w@.input_variables.contains_key(
                    #[trigger] c.r1cs.input_variables@[i],
                )
            &&& forall|i: int|
                0 <= i < c.r1cs.witness_variables@.len() ==> w@.witness_variables.contains_key(
                    #[trigger] c.r1cs.witness_variables@[i],
                )
        },
    }
}

/// The first variable, in allocation order, that the map lacks.
pub open spec fn first_uncovered(vars: Seq<usize>, m: Map<usize, Scalar>) -> Option<usize>
    decreases vars.len(),
{
    if vars.len() == 0 {
        None
    } else if !m.contains_key(vars.first()) {
        Some(vars.first())
    } else {
        first_uncovered(vars.drop_first(), m)
    }
}

/// The first allocated variable the witness misses: inputs first, then
/// witness variables, each in allocation order.
pub open spec fn first_missing(c: Circuit) -> Option<usize> {
    match c.witness {
        None => None,
        Some(w) => match first_uncovered(c.r1cs.input_variables@, w@.input_variables) {
            Some(v) => Some(v),
            None => first_uncovered(c.r1cs.witness_variables@, w@.witness_variables),
        },
    }
}

pub proof fn lemma_first_uncovered_at(vars: Seq<usize>, m: Map<usize, Scalar>, k: int)
    requires
        0 <= k < vars.len(),
        forall|j: int| 0 <= j < k ==> m.contains_key(#[trigger] vars[j]),
        !m.contains_key(vars[k]),
    ensures
        first_uncovered(vars, m) == Some(vars[k]),
    decreases k,
{
    if k > 0 {
        lemma_first_uncovered_at(vars.drop_first(), m, k - 1);
    }
}

pub proof fn lemma_first_uncovered_none(vars: Seq<usize>, m: Map<usize, Scalar>)
    requires
        forall|j: int| 0 <= j < vars.len() ==> m.contains_key(#[trigger] vars[j]),
    ensures
        first_uncovered(vars, m) is None,
    decreases vars.len(),
{
    if vars.len() > 0 {
        lemma_first_uncovered_none(vars.drop_first(), m);
    }
}

/// Whether a file index resolves to a system variable: a declared input, a
/// declared witness, or the constant index 0.
pub open spec fn index_known(inputs: Seq<usize>, wits: Seq<usize>, idx: usize) -> bool {
    inputs.contains(idx) || wits.contains(idx) || idx == 0
}

/// The system variable a file index resolves to, with allocation having
/// started at the given counters.
pub open spec fn resolve_var(
    inputs: Seq<usize>,
    wits: Seq<usize>,
    base_i: nat,
    base_w: nat,
    idx: usize,
) -> SystemVar {
    if inputs.contains(idx) {
        SystemVar::Instance((base_i + inputs.index_of(idx)) as usize)
    } else if wits.contains(idx) {
        SystemVar::Witness((base_w + wits.index_of(idx)) as usize)
    } else {
        SystemVar::One
    }
}

/// Whether every index of the combination resolves.
pub open spec fn terms_known(terms: Seq<(Scalar, usize)>, inputs: Seq<usize>, wits: Seq<usize>) -> bool {
    forall|i: int| 0 <= i < terms.len() ==> index_known(inputs, wits, (#[trigger] terms[i]).1)
}

/// The combination with every index resolved.
pub open spec fn translate_terms(
    terms: Seq<(Scalar, usize)>,
    inputs: Seq<usize>,
    wits: Seq<usize>,
    base_i: nat,
    base_w: nat,
) -> Seq<(Scalar, SystemVar)> {
    terms.map_values(|t: (Scalar, usize)| (t.0, resolve_var(inputs, wits, base_i, base_w, t.1)))
}

/// Whether every index of the row resolves.
pub open spec fn row_known(row: R1CV, inputs: Seq<usize>, wits: Seq<usize>) -> bool {
    terms_known(row.a, inputs, wits) && terms_known(row.b, inputs, wits) && terms_known(
        row.c,
        inputs,
        wits,
    )
}

/// The row with every index resolved.
pub open spec fn translate_row(
    row: R1CV,
    inputs: Seq<usize>,
    wits: Seq<usize>,
    base_i: nat,
    base_w: nat,
) -> BuilderRow {
    BuilderRow {
        a: translate_terms(row.a, inputs, wits, base_i, base_w),
        b: translate_terms(row.b, inputs, wits, base_i, base_w),
        c: translate_terms(row.c, inputs, wits, base_i, base_w),
    }
}

/// Whether every index of every row resolves. The circuit descriptor
/// loader validates exactly this, so a loaded descriptor never fails here.
pub open spec fn rows_known(rv: R1CSV) -> bool {
    forall|i: int|
        0 <= i < rv.constraints.len() ==> row_known(
            #[trigger] rv.constraints[i],
            rv.input_variables,
            rv.witness_variables,
        )
}

/// The rows the synthesizer records, in file order.
pub open spec fn planned_rows(rv: R1CSV, base_i: nat, base_w: nat) -> Seq<BuilderRow> {
    rv.constraints.map_values(
        |row: R1CV| translate_row(row, rv.input_variables, rv.witness_variables, base_i, base_w),
    )
}

/// The first unresolvable index of the combination, left to right.
pub open spec fn first_unknown_in_terms(
    terms: Seq<(Scalar, usize)>,
    inputs: Seq<usize>,
    wits: Seq<usize>,
) -> Option<usize>
    decreases terms.len(),
{
    if terms.len() == 0 {
        None
    } else if !index_known(inputs, wits, terms.first().1) {
        Some(terms.first().1)
    } else {
        first_unknown_in_terms(terms.drop_first(), inputs, wits)
    }
}

/// The first unresolvable index of the row: the left, right and output
/// combinations in that order.
pub open spec fn first_unknown_in_row(row: R1CV, inputs: Seq<usize>, wits: Seq<usize>) -> Option<
    usize,
> {
    match first_unknown_in_terms(row.a, inputs, wits) {
        Some(u) => Some(u),
        None => match first_unknown_in_terms(row.b, inputs, wits) {
            Some(u) => Some(u),
            None => first_unknown_in_terms(row.c, inputs, wits),
        },
    }
}

/// The first unresolvable index of the descriptor, in row order.
pub open spec fn first_unknown_rows(rows: Seq<R1CV>, inputs: Seq<usize>, wits: Seq<usize>) -> Option<
    usize,
>
    decreases rows.len(),
{
    if rows.len() == 0 {
        None
    } else {
        match first_unknown_in_row(rows.first(), inputs, wits) {
            Some(u) => Some(u),
            None => first_unknown_rows(rows.drop_first(), inputs, wits),
        }
    }
}

/// The first unresolvable index of the descriptor.
pub open spec fn first_unknown(rv: R1CSV) -> Option<usize> {
    first_unknown_rows(rv.constraints, rv.input_variables, rv.witness_variables)
}

pub proof fn lemma_first_unknown_terms_iff(
    terms: Seq<(Scalar, usize)>,
    inputs: Seq<usize>,
    wits: Seq<usize>,
)
    ensures
        (first_unknown_in_terms(terms, inputs, wits) is None) <==> terms_known(
            terms,
            inputs,
            wits,
        ),
    decreases terms.len(),
{
    if terms.len() > 0 {
        lemma_first_unknown_terms_iff(terms.drop_first(), inputs, wits);
        assert forall|i: int|
            0 <= i < terms.len() && terms_known(terms.drop_first(), inputs, wits) && index_known(
                inputs,
                wits,
                terms.first().1,
            ) implies index_known(inputs, wits, (#[trigger] terms[i]).1) by {
            if i > 0 {
                assert(terms.drop_first()[i - 1] == terms[i]);
            }
        }
        assert(terms_known(terms, inputs, wits) ==> terms_known(
            terms.drop_first(),
            inputs,
            wits,
        )) by {
            if terms_known(terms, inputs, wits) {
                assert forall|i: int|
                    0 <= i < terms.drop_first().len() implies index_known(
                    inputs,
                    wits,
                    (#[trigger] terms.drop_first()[i]).1,
                ) by {
                    assert(terms.drop_first()[i] == terms[i + 1]);
                }
            }
        }
    }
}

pub proof fn lemma_first_unknown_at_term(
    terms: Seq<(Scalar, usize)>,
    inputs: Seq<usize>,
    wits: Seq<usize>,
    k: int,
)
    requires
        0 <= k < terms.len(),
        forall|j: int| 0 <= j < k ==> index_known(inputs, wits, (#[trigger] terms[j]).1),
        !index_known(inputs, wits, terms[k].1),
    ensures
        first_unknown_in_terms(terms, inputs, wits) == Some(terms[k].1),
    decreases k,
{
    if k > 0 {
        assert forall|j: int| 0 <= j < k - 1 implies index_known(
            inputs,
            wits,
            (#[trigger] terms.drop_first()[j]).1,
        ) by {
            assert(terms.drop_first()[j] == terms[j + 1]);
        }
        assert(terms.drop_first()[k - 1] == terms[k]);
        lemma_first_unknown_at_term(terms.drop_first(), inputs, wits, k - 1);
    }
}

pub proof fn lemma_first_unknown_rows_at(
    rows: Seq<R1CV>,
    inputs: Seq<usize>,
    wits: Seq<usize>,
    k: int,
)
    requires
        0 <= k < rows.len(),
        forall|j: int| 0 <= j < k ==> row_known(#[trigger] rows[j], inputs, wits),
        !row_known(rows[k], inputs, wits),
    ensures
        first_unknown_rows(rows, inputs, wits) == first_unknown_in_row(rows[k], inputs, wits),
        first_unknown_in_row(rows[k], inputs, wits) is Some,
    decreases k,
{
    lemma_first_unknown_terms_iff(rows[k].a, inputs, wits);
    lemma_first_unknown_terms_iff(rows[k].b, inputs, wits);
    lemma_first_unknown_terms_iff(rows[k].c, inputs, wits);
    if k > 0 {
        assert forall|j: int| 0 <= j < k - 1 implies row_known(
            #[trigger] rows.drop_first()[j],
            inputs,
            wits,
        ) by {
            assert(rows.drop_first()[j] == rows[j + 1]);
        }
        assert(rows.drop_first()[k - 1] == rows[k]);
        lemma_first_unknown_rows_at(rows.drop_first(), inputs, wits, k - 1);
        lemma_first_unknown_terms_iff(rows[0].a, inputs, wits);
        lemma_first_unknown_terms_iff(rows[0].b, inputs, wits);
        lemma_first_unknown_terms_iff(rows[0].c, inputs, wits);
    }
}

/// In a strictly ascending list every value has one position.
pub proof fn lemma_unique_position(s: Seq<usize>, p: int, x: usize)
    requires
        strictly_increasing(s),
        0 <= p < s.len(),
        s[p] == x,
    ensures
        s.index_of(x) == p,
{
    assert(s.contains(x));
    let q = s.index_of(x);
    if q < p {
        assert(s[q] < s[p]);
    }
    if q > p {
        assert(s[p] < s[q]);
    }
}

/// The position of the index in the list, if it occurs.
fn position_of(v: &Vec<usize>, x: usize) -> (r: Option<usize>)
    ensures
        match r {
            Some(p) => p < v@.len() && v@[p as int] == x && v@.contains(x),
            None => !v@.contains(x),
        },
{
    let mut i: usize = 0;
    while i < v.len()
        invariant
            i <= v@.len(),
            forall|k: int| 0 <= k < i ==> v@[k] != x,
        decreases v@.len() - i,
    {
        if v[i] == x {
            return Some(i);
        }
        i = i + 1;
    }
    proof {
        assert(!v@.contains(x)) by {
            if v@.contains(x) {
                let k = choose|k: int| 0 <= k < v@.len() && v@[k] == x;
            }
        }
    }
    None
}

/// Resolve every index of one combination, with allocation having started
/// at the given counters.
fn translate_lc(
    terms: &Vec<(Scalar, usize)>,
    inputs: &Vec<usize>,
    wits: &Vec<usize>,
    base_i: usize,
    base_w: usize,
) -> (r: Result<Vec<(Scalar, SystemVar)>, BridgeError>)
    requires
        strictly_increasing(inputs@),
        strictly_increasing(wits@),
        base_i + inputs@.len() <= usize::MAX,
        base_w + wits@.len() <= usize::MAX,
    ensures
        match r {
            Ok(v) => terms_known(terms@, inputs@, wits@) && v@ == translate_terms(
                terms@,
                inputs@,
                wits@,
                base_i as nat,
                base_w as nat,
            ),
            Err(e) => !terms_known(terms@, inputs@, wits@) && e == BridgeError::UnknownVariableIndex(
                first_unknown_in_terms(terms@, inputs@, wits@)->0,
            ),
        },
{
    let mut out: Vec<(Scalar, SystemVar)> = Vec::new();
    let mut k: usize = 0;
    proof {
        assert(out@ =~= translate_terms(
            terms@.subrange(0, 0),
            inputs@,
            wits@,
            base_i as nat,
            base_w as nat,
        ));
    }
    while k < terms.len()
        invariant
            k <= terms@.len(),
            strictly_increasing(inputs@),
            strictly_increasing(wits@),
            base_i + inputs@.len() <= usize::MAX,
            base_w + wits@.len() <= usize::MAX,
            forall|j: int| 0 <= j < k ==> index_known(inputs@, wits@, (#[trigger] terms@[j]).1),
            out@ == translate_terms(
                terms@.subrange(0, k as int),
                inputs@,
                wits@,
                base_i as nat,
                base_w as nat,
            ),
        decreases terms@.len() - k,
    {
        let (coeff, idx) = terms[k];
        let var = match position_of(inputs, idx) {
            Some(p) => {
                proof {
                    lemma_unique_position(inputs@, p as int, idx);
                }
                SystemVar::Instance(base_i + p)
            },
            None => {
                match position_of(wits, idx) {
                    Some(p) => {
                        proof {
                            lemma_unique_position(wits@, p as int, idx);
                        }
                        SystemVar::Witness(base_w + p)
                    },
                    None => {
                        if idx == 0 {
                            SystemVar::One
                        } else {
                            proof {
                                lemma_first_unknown_at_term(terms@, inputs@, wits@, k as int);
                            }
                            return Err(BridgeError::UnknownVariableIndex(idx));
                        }
                    },
                }
            },
        };
        proof {
            assert(var == resolve_var(inputs@, wits@, base_i as nat, base_w as nat, idx));
        }
        out.push((coeff, var));
        proof {
            assert(terms@.subrange(0, k + 1) =~= terms@.subrange(0, k as int).push(
                terms@[k as int],
            ));
            assert(translate_terms(
                terms@.subrange(0, k + 1),
                inputs@,
                wits@,
                base_i as nat,
                base_w as nat,
            ) =~= translate_terms(
                terms@.subrange(0, k as int),
                inputs@,
                wits@,
                base_i as nat,
                base_w as nat,
            ).push((terms@[k as int].0, var)));
        }
        k = k + 1;
    }
    proof {
        assert(terms@.subrange(0, k as int) =~= terms@);
    }
    Ok(out)
}

impl Circuit {
    /// Drive the external builder through one synthesis of this circuit.
    ///
    /// For each declared input index, ascending, one public variable is
    /// allocated carrying the witness value or the placeholder one; then
    /// likewise one private variable per declared witness index; then every
    /// constraint row is enforced in file order, each index resolved to its
    /// allocated variable, with file index 0 resolving to the builder's
    /// constant-one variable.
    ///
    /// With a system attached, synthesis succeeds exactly when the witness,
    /// if present, covers every allocated variable and every referenced
    /// index resolves; the first miss, in allocation respectively file
    /// order, names the error. A failure never comes from the data when the
    /// builder itself rejects an operation, which only happens with no
    /// system attached.
    pub fn generate_constraints(self, cs: &mut SystemBuilder) -> (res: Result<(), BridgeError>)
        requires
            self.r1cs.wf(),
        ensures
            cs_is_present(*final(cs)) == cs_is_present(*old(cs)),
            cs_stores_values(*final(cs)) == cs_stores_values(*old(cs)),
            cs_builds_matrices(*final(cs)) == cs_builds_matrices(*old(cs)),
            !cs_is_present(*old(cs)) ==> *final(cs) == *old(cs),
            res is Ok ==> witness_covered(self) && rows_known(self.r1cs@),
            res is Ok ==> cs_num_instance(*final(cs)) == cs_num_instance(*old(cs))
                + self.r1cs.input_variables@.len(),
            res is Ok ==> cs_num_witness(*final(cs)) == cs_num_witness(*old(cs))
                + self.r1cs.witness_variables@.len(),
            res is Ok ==> cs_num_constraints(*final(cs)) == cs_num_constraints(*old(cs))
                + self.r1cs.constraints@.len(),
            res is Ok && cs_stores_values(*old(cs)) ==> cs_instance_values(*final(cs))
                == cs_instance_values(*old(cs)) + planned_instance_values(self)
                && cs_witness_values(*final(cs)) == cs_witness_values(*old(cs))
                + planned_witness_values(self),
            res is Ok && !cs_stores_values(*old(cs)) ==> cs_instance_values(*final(cs))
                == cs_instance_values(*old(cs)) && cs_witness_values(*final(cs))
                == cs_witness_values(*old(cs)),
            res is Ok && cs_builds_matrices(*old(cs)) ==> cs_rows(*final(cs)) == cs_rows(*old(cs))
                + planned_rows(self.r1cs@, cs_num_instance(*old(cs)), cs_num_witness(*old(cs))),
            res is Ok && !cs_builds_matrices(*old(cs)) ==> cs_rows(*final(cs)) == cs_rows(
                *old(cs),
            ),
            cs_is_present(*old(cs)) ==> (res is Ok <==> witness_covered(self) && rows_known(
                self.r1cs@,
            )),
            cs_is_present(*old(cs)) && !witness_covered(self) ==> res == Err::<(), BridgeError>(
                BridgeError::MissingWitnessValue(first_missing(self)->0),
            ),
            cs_is_present(*old(cs)) && witness_covered(self) && !rows_known(self.r1cs@) ==> res
                == Err::<(), BridgeError>(
                BridgeError::UnknownVariableIndex(first_unknown(self.r1cs@)->0),
            ),
            res == Err::<(), BridgeError>(BridgeError::Synthesis) ==> !cs_is_present(*old(cs)),
    {
        let base_i = cs.num_instance_variables();
        let base_w = cs.num_witness_variables();
        let n_inputs = self.r1cs.input_variables.len();
        let n_wits = self.r1cs.witness_variables.len();

        // Allocate one public variable per declared input index, ascending.
        let mut i: usize = 0;
        proof {
            assert(planned_instance_values(self).subrange(0, 0) =~= Seq::<Scalar>::empty());
            assert(cs_instance_values(*cs) + Seq::<Scalar>::empty() =~= cs_instance_values(*cs));
        }
        while i < n_inputs
            invariant
                i <= n_inputs == self.r1cs.input_variables@.len(),
                base_i as nat == cs_num_instance(*old(cs)),
                base_w as nat == cs_num_witness(*old(cs)),
                cs_is_present(*cs) == cs_is_present(*old(cs)),
                cs_stores_values(*cs) == cs_stores_values(*old(cs)),
                cs_builds_matrices(*cs) == cs_builds_matrices(*old(cs)),
                cs_num_instance(*cs) == cs_num_instance(*old(cs)) + i,
                cs_num_witness(*cs) == cs_num_witness(*old(cs)),
                cs_num_constraints(*cs) == cs_num_constraints(*old(cs)),
                cs_stores_values(*old(cs)) ==> cs_instance_values(*cs) == cs_instance_values(
                    *old(cs),
                ) + planned_instance_values(self).subrange(0, i as int),
                !cs_stores_values(*old(cs)) ==> cs_instance_values(*cs) == cs_instance_values(
                    *old(cs),
                ),
                cs_witness_values(*cs) == cs_witness_values(*old(cs)),
                cs_rows(*cs) == cs_rows(*old(cs)),
                self.witness is Some ==> forall|j: int|
                    0 <= j < i ==> self.witness->0@.input_variables.contains_key(
                        #[trigger] self.r1cs.input_variables@[j],
                    ),
                i > 0 ==> cs_is_present(*old(cs)),
                !cs_is_present(*old(cs)) ==> *cs == *old(cs),
            decreases n_inputs - i,
        {
            let v = self.r1cs.input_variables[i];
            let value = match &self.witness {
                None => scalar_placeholder(),
                Some(w) => {
                    match w.input_variables.get(&v) {
                        Some(x) => *x,
                        None => {
                            proof {
                                lemma_first_uncovered_at(
                                    self.r1cs.input_variables@,
                                    self.witness->0@.input_variables,
                                    i as int,
                                );
                            }
                            return Err(BridgeError::MissingWitnessValue(v));
                        },
                    }
                },
            };
            proof {
                assert(value == planned_input_value(self.witness, v));
            }
            let ghost pre = *cs;
            match cs.new_input_variable(value) {
                Err(_) => {
                    return Err(BridgeError::Synthesis);
                },
                Ok(_) => {},
            }
            proof {
                assert(planned_instance_values(self).subrange(0, i + 1)
                    =~= planned_instance_values(self).subrange(0, i as int).push(
                    planned_instance_values(self)[i as int],
                ));
                if cs_stores_values(*old(cs)) {
                    assert(cs_instance_values(*cs) =~= cs_instance_values(*old(cs))
                        + planned_instance_values(self).subrange(0, i + 1));
                }
            }
            i = i + 1;
        }

        // Allocate one private variable per declared witness index, ascending.
        let mut iw: usize = 0;
        proof {
            assert(planned_witness_values(self).subrange(0, 0) =~= Seq::<Scalar>::empty());
            assert(cs_witness_values(*cs) + Seq::<Scalar>::empty() =~= cs_witness_values(*cs));
        }
        while iw < n_wits
            invariant
                iw <= n_wits == self.r1cs.witness_variables@.len(),
                n_inputs == self.r1cs.input_variables@.len(),
                base_i as nat == cs_num_instance(*old(cs)),
                base_w as nat == cs_num_witness(*old(cs)),
                cs_is_present(*cs) == cs_is_present(*old(cs)),
                cs_stores_values(*cs) == cs_stores_values(*old(cs)),
                cs_builds_matrices(*cs) == cs_builds_matrices(*old(cs)),
                cs_num_instance(*cs) == cs_num_instance(*old(cs)) + n_inputs,
                cs_num_witness(*cs) == cs_num_witness(*old(cs)) + iw,
                cs_num_constraints(*cs) == cs_num_constraints(*old(cs)),
                cs_stores_values(*old(cs)) ==> cs_instance_values(*cs) == cs_instance_values(
                    *old(cs),
                ) + planned_instance_values(self) && cs_witness_values(*cs) == cs_witness_values(
                    *old(cs),
                ) + planned_witness_values(self).subrange(0, iw as int),
                !cs_stores_values(*old(cs)) ==> cs_instance_values(*cs) == cs_instance_values(
                    *old(cs),
                ) && cs_witness_values(*cs) == cs_witness_values(*old(cs)),
                cs_rows(*cs) == cs_rows(*old(cs)),
                self.witness is Some ==> forall|j: int|
                    0 <= j < n_inputs ==> self.witness->0@.input_variables.contains_key(
                        #[trigger] self.r1cs.input_variables@[j],
                    ),
                self.witness is Some ==> forall|j: int|
                    0 <= j < iw ==> self.witness->0@.witness_variables.contains_key(
                        #[trigger] self.r1cs.witness_variables@[j],
                    ),
                n_inputs > 0 || iw > 0 ==> cs_is_present(*old(cs)),
                !cs_is_present(*old(cs)) ==> *cs == *old(cs),
            decreases n_wits - iw,
        {
            let v = self.r1cs.witness_variables[iw];
            let value = match &self.witness {
                None => scalar_placeholder(),
                Some(w) => {
                    match w.witness_variables.get(&v) {
                        Some(x) => *x,
                        None => {
                            proof {
                                lemma_first_uncovered_none(
                                    self.r1cs.input_variables@,
                                    self.witness->0@.input_variables,
                                );
                                lemma_first_uncovered_at(
                                    self.r1cs.witness_variables@,
                                    self.witness->0@.witness_variables,
                                    iw as int,
                                );
                            }
                            return Err(BridgeError::MissingWitnessValue(v));
                        },
                    }
                },
            };
            proof {
                assert(value == planned_witness_value(self.witness, v));
            }
            match cs.new_witness_variable(value) {
                Err(_) => {
                    return Err(BridgeError::Synthesis);
                },
                Ok(_) => {},
            }
            proof {
                assert(planned_witness_values(self).subrange(0, iw + 1)
                    =~= planned_witness_values(self).subrange(0, iw as int).push(
                    planned_witness_values(self)[iw as int],
                ));
                if cs_stores_values(*old(cs)) {
                    assert(cs_witness_values(*cs) =~= cs_witness_values(*old(cs))
                        + planned_witness_values(self).subrange(0, iw + 1));
                }
            }
            iw = iw + 1;
        }

        // The counters after allocation bound the resolved indices.
        let total_i = cs.num_instance_variables();
        let total_w = cs.num_witness_variables();
        proof {
            assert(base_i + n_inputs == total_i as nat);
            assert(base_w + n_wits == total_w as nat);
        }

        // Enforce every constraint row in file order.
        let ghost rv = self.r1cs@;
        let ghost planned = planned_rows(rv, base_i as nat, base_w as nat);
        let n_rows = self.r1cs.constraints.len();
        let mut ri: usize = 0;
        proof {
            assert(planned.subrange(0, 0) =~= Seq::<BuilderRow>::empty());
            assert(cs_rows(*cs) + Seq::<BuilderRow>::empty() =~= cs_rows(*cs));
            assert(rv.constraints.len() == n_rows);
        }
        while ri < n_rows
            invariant
                ri <= n_rows == self.r1cs.constraints@.len(),
                rv == self.r1cs@,
                planned == planned_rows(rv, base_i as nat, base_w as nat),
                n_inputs == self.r1cs.input_variables@.len(),
                n_wits == self.r1cs.witness_variables@.len(),
                base_i as nat == cs_num_instance(*old(cs)),
                base_w as nat == cs_num_witness(*old(cs)),
                base_i + n_inputs <= usize::MAX,
                base_w + n_wits <= usize::MAX,
                self.r1cs.wf(),
                witness_covered(self),
                cs_is_present(*cs) == cs_is_present(*old(cs)),
                cs_stores_values(*cs) == cs_stores_values(*old(cs)),
                cs_builds_matrices(*cs) == cs_builds_matrices(*old(cs)),
                cs_num_instance(*cs) == cs_num_instance(*old(cs)) + n_inputs,
                cs_num_witness(*cs) == cs_num_witness(*old(cs)) + n_wits,
                cs_num_constraints(*cs) == cs_num_constraints(*old(cs)) + ri,
                cs_stores_values(*old(cs)) ==> cs_instance_values(*cs) == cs_instance_values(
                    *old(cs),
                ) + planned_instance_values(self) && cs_witness_values(*cs) == cs_witness_values(
                    *old(cs),
                ) + planned_witness_values(self),
                !cs_stores_values(*old(cs)) ==> cs_instance_values(*cs) == cs_instance_values(
                    *old(cs),
                ) && cs_witness_values(*cs) == cs_witness_values(*old(cs)),
                cs_builds_matrices(*old(cs)) ==> cs_rows(*cs) == cs_rows(*old(cs))
                    + planned.subrange(0, ri as int),
                !cs_builds_matrices(*old(cs)) ==> cs_rows(*cs) == cs_rows(*old(cs)),
                forall|j: int|
                    0 <= j < ri ==> row_known(
                        #[trigger] rv.constraints[j],
                        rv.input_variables,
                        rv.witness_variables,
                    ),
                n_inputs > 0 || n_wits > 0 || ri > 0 ==> cs_is_present(*old(cs)),
                !cs_is_present(*old(cs)) ==> *cs == *old(cs),
            decreases n_rows - ri,
        {
            let row = &self.r1cs.constraints[ri];
            proof {
                assert(rv.constraints[ri as int] == row@);
            }
            let ta = match translate_lc(
                &row.a,
                &self.r1cs.input_variables,
                &self.r1cs.witness_variables,
                base_i,
                base_w,
            ) {
                Err(e) => {
                    proof {
                        lemma_first_unknown_terms_iff(row@.a, rv.input_variables, rv.witness_variables);
                        lemma_first_unknown_rows_at(
                            rv.constraints,
                            rv.input_variables,
                            rv.witness_variables,
                            ri as int,
                        );
                    }
                    return Err(e);
                },
                Ok(t) => t,
            };
            let tb = match translate_lc(
                &row.b,
                &self.r1cs.input_variables,
                &self.r1cs.witness_variables,
                base_i,
                base_w,
            ) {
                Err(e) => {
                    proof {
                        lemma_first_unknown_terms_iff(row@.a, rv.input_variables, rv.witness_variables);
                        lemma_first_unknown_terms_iff(row@.b, rv.input_variables, rv.witness_variables);
                        lemma_first_unknown_rows_at(
                            rv.constraints,
                            rv.input_variables,
                            rv.witness_variables,
                            ri as int,
                        );
                    }
                    return Err(e);
                },
                Ok(t) => t,
            };
            let tc = match translate_lc(
                &row.c,
                &self.r1cs.input_variables,
                &self.r1cs.witness_variables,
                base_i,
                base_w,
            ) {
                Err(e) => {
                    proof {
                        lemma_first_unknown_terms_iff(row@.a, rv.input_variables, rv.witness_variables);
                        lemma_first_unknown_terms_iff(row@.b, rv.input_variables, rv.witness_variables);
                        lemma_first_unknown_terms_iff(row@.c, rv.input_variables, rv.witness_variables);
                        lemma_first_unknown_rows_at(
                            rv.constraints,
                            rv.input_variables,
                            rv.witness_variables,
                            ri as int,
                        );
                    }
                    return Err(e);
                },
                Ok(t) => t,
            };
            match cs.enforce_constraint(&ta, &tb, &tc) {
                Err(_) => {
                    return Err(BridgeError::Synthesis);
                },
                Ok(_) => {},
            }
            proof {
                assert(planned[ri as int] == translate_row(
                    rv.constraints[ri as int],
                    rv.input_variables,
                    rv.witness_variables,
                    base_i as nat,
                    base_w as nat,
                ));
                assert((BuilderRow { a: ta@, b: tb@, c: tc@ }) == planned[ri as int]);
                assert(planned.subrange(0, ri + 1) =~= planned.subrange(0, ri as int).push(
                    planned[ri as int],
                ));
                if cs_builds_matrices(*old(cs)) {
                    assert(cs_rows(*cs) =~= cs_rows(*old(cs)) + planned.subrange(0, ri + 1));
                }
            }
            ri = ri + 1;
        }
        proof {
            assert(planned.subrange(0, ri as int) =~= planned);
            if self.witness is Some {
                lemma_first_uncovered_none(
                    self.r1cs.input_variables@,
                    self.witness->0@.input_variables,
                );
                lemma_first_uncovered_none(
                    self.r1cs.witness_variables@,
                    self.witness->0@.witness_variables,
                );
            }
        }
        Ok(())
    }
}

/// Law: synthesis structure is independent of the witness. Two circuits
/// over one descriptor, with or without witnesses, allocate the same
/// numbers of public and private variables and record identical
/// per-constraint combinations; only the stored values can differ.
pub proof fn lemma_synthesis_structure_independent(
    c1: Circuit,
    c2: Circuit,
    base_i: nat,
    base_w: nat,
)
    requires
        c1.r1cs == c2.r1cs,
    ensures
        planned_instance_values(c1).len() == planned_instance_values(c2).len(),
        planned_witness_values(c1).len() == planned_witness_values(c2).len(),
        planned_rows(c1.r1cs@, base_i, base_w) == planned_rows(c2.r1cs@, base_i, base_w),
        rows_known(c1.r1cs@) == rows_known(c2.r1cs@),
        witness_covered(c1) && witness_covered(c2) ==> (first_missing(c1) is None && first_missing(
            c2,
        ) is None),
{
    if witness_covered(c1) {
        match c1.witness {
            None => {},
            Some(w) => {
                lemma_first_uncovered_none(c1.r1cs.input_variables@, w@.input_variables);
                lemma_first_uncovered_none(c1.r1cs.witness_variables@, w@.witness_variables);
            },
        }
    }
    if witness_covered(c2) {
        match c2.witness {
            None => {},
            Some(w) => {
                lemma_first_uncovered_none(c2.r1cs.input_variables@, w@.input_variables);
                lemma_first_uncovered_none(c2.r1cs.witness_variables@, w@.witness_variables);
            },
        }
    }
}

} // verus!
