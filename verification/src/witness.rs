//! The witness file: a raw assignment of field values to variable indices,
//! and its partition into public-input and private-witness value maps.

use vstd::prelude::*;
use std::collections::HashMap;
use crate::errors::BridgeError;
use crate::field::{Scalar, scalar_of, is_field_literal, parse_field_element};
use crate::header::{Header, HeaderV, spec_parse_header_line, parse_header_line};
use crate::records::{spec_parse_pair_line, parse_pair_line, spec_lines, split_lines};

verus! {

broadcast use vstd::std_specs::hash::group_hash_axioms;

/// Decode one assignment line `[index, "coefficient"]` into an (index,
/// value) entry. A line of another shape names its 1-based position in the
/// file; a coefficient that is not a decimal field literal fails on its
/// own.
pub open spec fn spec_assignment_entry(line: Seq<u8>, lineno: usize) -> Result<
    (usize, Scalar),
    BridgeError,
> {
    match spec_parse_pair_line(line) {
        None => Err(BridgeError::MalformedRecord(lineno)),
        Some((idx, coeff)) => {
            if idx > usize::MAX as u64 {
                Err(BridgeError::MalformedRecord(lineno))
            } else if !is_field_literal(coeff) {
                Err(BridgeError::InvalidFieldElement)
            } else {
                Ok((idx as usize, scalar_of(coeff)))
            }
        },
    }
}

/// Decode one assignment line `[index, "coefficient"]`.
pub fn deserialize_coeff_var_tuple(line: &[u8], lineno: usize) -> (r: Result<
    (usize, Scalar),
    BridgeError,
>)
    ensures
        match r {
            Ok(entry) => spec_assignment_entry(line@, lineno) == Ok::<
                (usize, Scalar),
                BridgeError,
            >(entry),
            Err(e) => spec_assignment_entry(line@, lineno) == Err::<(usize, Scalar), BridgeError>(
                e,
            ),
        },
{
    let (idx, coeff) = match parse_pair_line(line) {
        None => {
            return Err(BridgeError::MalformedRecord(lineno));
        },
        Some(p) => p,
    };
    if idx > usize::MAX as u64 {
        return Err(BridgeError::MalformedRecord(lineno));
    }
    match parse_field_element(coeff.as_slice()) {
        Err(e) => Err(e),
        Ok(v) => Ok((idx as usize, v)),
    }
}

/// Decode the assignment entries among the lines from index `k` on,
/// skipping empty lines.
pub open spec fn spec_load_entries(lines: Seq<Seq<u8>>, k: int) -> Result<
    Seq<(usize, Scalar)>,
    BridgeError,
>
    decreases lines.len() - k,
{
    if !(0 <= k < lines.len()) {
        Ok(Seq::empty())
    } else if lines[k].len() == 0 {
        spec_load_entries(lines, k + 1)
    } else {
        match spec_assignment_entry(lines[k], (k + 1) as usize) {
            Err(e) => Err(e),
            Ok(entry) => match spec_load_entries(lines, k + 1) {
                Err(e) => Err(e),
                Ok(rest) => Ok(seq![entry] + rest),
            },
        }
    }
}

/// Decode the assignment entries of every nonempty line from index `k` on.
pub fn load_entries(lines: &Vec<Vec<u8>>, k: usize) -> (r: Result<
    Vec<(usize, Scalar)>,
    BridgeError,
>)
    requires
        k <= lines@.len(),
    ensures
        match r {
            Ok(entries) => spec_load_entries(lines.deep_view(), k as int) == Ok::<
                Seq<(usize, Scalar)>,
                BridgeError,
            >(entries@),
            Err(e) => spec_load_entries(lines.deep_view(), k as int) == Err::<
                Seq<(usize, Scalar)>,
                BridgeError,
            >(e),
        },
{
    let ghost lv = lines.deep_view();
    let mut out: Vec<(usize, Scalar)> = Vec::new();
    let mut i = k;
    proof {
        assert(out@ =~= Seq::<(usize, Scalar)>::empty());
    }
    while i < lines.len()
        invariant
            k <= i <= lv.len(),
            lv == lines.deep_view(),
            lv.len() == lines@.len(),
            spec_load_entries(lv, k as int) == (match spec_load_entries(lv, i as int) {
                Ok(rest) => Ok::<Seq<(usize, Scalar)>, BridgeError>(out@ + rest),
                Err(e) => Err(e),
            }),
        decreases lines@.len() - i,
    {
        proof {
            assert(lv[i as int] == lines@[i as int]@);
        }
        if lines[i].len() == 0 {
            i = i + 1;
            continue;
        }
        let entry = match deserialize_coeff_var_tuple(lines[i].as_slice(), i + 1) {
            Err(e) => {
                return Err(e);
            },
            Ok(entry) => entry,
        };
        let ghost old_out = out@;
        out.push(entry);
        proof {
            assert(out@ =~= old_out + seq![entry]);
            if spec_load_entries(lv, i + 1) is Ok {
                assert(old_out + (seq![entry] + spec_load_entries(lv, i + 1)->Ok_0) =~= (old_out
                    + seq![entry]) + spec_load_entries(lv, i + 1)->Ok_0);
            }
        }
        i = i + 1;
    }
    proof {
        assert(spec_load_entries(lv, i as int) == Ok::<Seq<(usize, Scalar)>, BridgeError>(
            Seq::empty(),
        ));
        assert(out@ + Seq::<(usize, Scalar)>::empty() =~= out@);
    }
    Ok(out)
}

/// The raw contents of a witness file: the header and one (index, value)
/// entry per nonempty payload line, in file order. No cross-check against
/// any circuit descriptor happens here: the synthesizer is the single
/// authority on which header's input set governs partitioning.
#[derive(Clone, PartialEq, Eq)]
pub struct WitnessFile {
    /// The header line.
    pub header: Header,
    /// The assignment entries, in file order.
    pub witness: Vec<(usize, Scalar)>,
}

/// The mathematical view of a raw witness file.
pub ghost struct WitnessFileV {
    pub header: HeaderV,
    pub witness: Seq<(usize, Scalar)>,
}

impl View for WitnessFile {
    type V = WitnessFileV;

    open spec fn view(&self) -> WitnessFileV {
        WitnessFileV { header: self.header@, witness: self.witness@ }
    }
}

/// Decode a whole witness file: the header line, then one assignment entry
/// per nonempty payload line.
pub open spec fn spec_parse_witness_file(bytes: Seq<u8>) -> Result<WitnessFileV, BridgeError> {
    let lines = spec_lines(bytes);
    if lines.len() == 0 {
        Err(BridgeError::TruncatedFile)
    } else {
        match spec_parse_header_line(lines[0]) {
            None => Err(BridgeError::MalformedHeader),
            Some(h) => match spec_load_entries(lines, 1) {
                Err(e) => Err(e),
                Ok(entries) => Ok(WitnessFileV { header: h, witness: entries }),
            },
        }
    }
}

/// Decode a whole witness file from its bytes.
///
/// Fails with `TruncatedFile` on a file without any line, with
/// `MalformedHeader` when the first line is not a header, with
/// `MalformedRecord` naming the first payload line that is not an (index,
/// value) pair, and with `InvalidFieldElement` when a value is not a
/// decimal field literal.
pub fn parse_witness_file(bytes: &[u8]) -> (r: Result<WitnessFile, BridgeError>)
    ensures
        match r {
            Ok(file) => spec_parse_witness_file(bytes@) == Ok::<WitnessFileV, BridgeError>(file@),
            Err(e) => spec_parse_witness_file(bytes@) == Err::<WitnessFileV, BridgeError>(e),
        },
{
    let lines = split_lines(bytes);
    if lines.len() == 0 {
        return Err(BridgeError::TruncatedFile);
    }
    proof {
        assert(lines.deep_view()[0] == lines@[0]@);
    }
    let header = match parse_header_line(lines[0].as_slice()) {
        None => {
            return Err(BridgeError::MalformedHeader);
        },
        Some(h) => h,
    };
    let entries = match load_entries(&lines, 1) {
        Err(e) => {
            return Err(e);
        },
        Ok(entries) => entries,
    };
    Ok(WitnessFile { header, witness: entries })
}

/// Law: loading is a function of the file bytes alone. Any two assignments
/// decoded from the same bytes are identical, so re-running the loader can
/// never yield a different witness.
pub proof fn lemma_witness_load_deterministic(
    bytes: Seq<u8>,
    r1: Result<WitnessFileV, BridgeError>,
    r2: Result<WitnessFileV, BridgeError>,
)
    requires
        r1 == spec_parse_witness_file(bytes),
        r2 == spec_parse_witness_file(bytes),
    ensures
        r1 == r2,
{
}

/// A partitioned witness: one value map for the public input variables and
/// one for the private witness variables. The constant index 0 is never
/// assigned: its value is implicitly one.
#[derive(Clone)]
pub struct Witness {
    /// Values of the variables the header declares as public inputs.
    pub input_variables: HashMap<usize, Scalar>,
    /// Values of every other assigned variable but the constant index 0.
    pub witness_variables: HashMap<usize, Scalar>,
}

/// The mathematical view of a partitioned witness.
pub ghost struct WitnessV {
    pub input_variables: Map<usize, Scalar>,
    pub witness_variables: Map<usize, Scalar>,
}

impl View for Witness {
    type V = WitnessV;

    open spec fn view(&self) -> WitnessV {
        WitnessV {
            input_variables: self.input_variables@,
            witness_variables: self.witness_variables@,
        }
    }
}

/// Partition the raw entries against the header's declared input set: an
/// entry whose index the set holds goes to the input map, any other entry
/// with a nonzero index goes to the witness map, and index 0 is dropped. A
/// repeated index keeps its last value, in file order.
pub open spec fn spec_partition(entries: Seq<(usize, Scalar)>, inputs: Seq<usize>) -> (
    Map<usize, Scalar>,
    Map<usize, Scalar>,
)
    decreases entries.len(),
{
    if entries.len() == 0 {
        (Map::empty(), Map::empty())
    } else {
        let (mi, mw) = spec_partition(entries.drop_last(), inputs);
        let entry = entries.last();
        if inputs.contains(entry.0) {
            (mi.insert(entry.0, entry.1), mw)
        } else if entry.0 != 0 {
            (mi, mw.insert(entry.0, entry.1))
        } else {
            (mi, mw)
        }
    }
}

impl Witness {
    /// Partition a raw assignment using its header's declared input set.
    pub fn from(file: WitnessFile) -> (r: Witness)
        ensures
            (r@.input_variables, r@.witness_variables) == spec_partition(
                file@.witness,
                file@.header.input_variables,
            ),
    {
        let mut input_variables: HashMap<usize, Scalar> = HashMap::new();
        let mut witness_variables: HashMap<usize, Scalar> = HashMap::new();
        let mut i: usize = 0;
        proof {
            assert(file.witness@.subrange(0, 0) =~= Seq::<(usize, Scalar)>::empty());
        }
        while i < file.witness.len()
            invariant
                i <= file.witness@.len(),
                (input_variables@, witness_variables@) == spec_partition(
                    file.witness@.subrange(0, i as int),
                    file.header.input_variables@,
                ),
            decreases file.witness@.len() - i,
        {
            let ghost prefix = file.witness@.subrange(0, i as int);
            let (idx, value) = file.witness[i];
            if crate::r1cs::contains_index(&file.header.input_variables, idx) {
                input_variables.insert(idx, value);
            } else if idx != 0 {
                witness_variables.insert(idx, value);
            }
            proof {
                assert(file.witness@.subrange(0, i + 1).drop_last() =~= prefix);
                assert(file.witness@.subrange(0, i + 1).last() == file.witness@[i as int]);
            }
            i = i + 1;
        }
        proof {
            assert(file.witness@.subrange(0, i as int) =~= file.witness@);
        }
        Witness { input_variables, witness_variables }
    }
}

} // verus!
