//! The R1CS circuit file: constraint rows, the raw file, and the circuit
//! descriptor with its canonical variable partition.

use vstd::prelude::*;
use crate::errors::BridgeError;
use crate::field::{Scalar, scalar_of, is_field_literal, parse_field_element};
use crate::header::{Header, HeaderV, spec_parse_header_line, parse_header_line};
use crate::records::{
    spec_skip_ws, spec_parse_string, spec_parse_term_array, spec_lines, skip_ws, parse_string,
    parse_term_array, split_lines, terms_view,
};

verus! {

/// One constraint row: three linear combinations `a`, `b`, `c`, each a list
/// of (coefficient, variable index) terms, with `a · b = c` the enforced
/// relation. A duplicated index within one combination is kept: its terms
/// accumulate when the combination is evaluated.
#[derive(Clone, PartialEq, Eq)]
pub struct R1C {
    /// The left combination.
    pub a: Vec<(Scalar, usize)>,
    /// The right combination.
    pub b: Vec<(Scalar, usize)>,
    /// The output combination.
    pub c: Vec<(Scalar, usize)>,
}

/// The mathematical view of a constraint row.
pub ghost struct R1CV {
    pub a: Seq<(Scalar, usize)>,
    pub b: Seq<(Scalar, usize)>,
    pub c: Seq<(Scalar, usize)>,
}

impl View for R1C {
    type V = R1CV;

    open spec fn view(&self) -> R1CV {
        R1CV { a: self.a@, b: self.b@, c: self.c@ }
    }
}

/// The raw contents of an R1CS file: the header and the constraint rows in
/// file order, decoded but not yet partitioned.
#[derive(Clone, PartialEq, Eq)]
pub struct R1CSFile {
    /// The header line.
    pub header: Header,
    /// One row per payload line.
    pub constraints: Vec<R1C>,
}

/// The mathematical view of a raw R1CS file.
pub ghost struct R1CSFileV {
    pub header: HeaderV,
    pub constraints: Seq<R1CV>,
}

impl View for R1CSFile {
    type V = R1CSFileV;

    open spec fn view(&self) -> R1CSFileV {
        R1CSFileV {
            header: self.header@,
            constraints: self.constraints@.map_values(|r: R1C| r@),
        }
    }
}

/// The bytes of the key `A`.
pub open spec fn key_lc_a() -> Seq<u8> {
    seq![65u8]
}

/// The bytes of the key `B`.
pub open spec fn key_lc_b() -> Seq<u8> {
    seq![66u8]
}

/// The bytes of the key `C`.
pub open spec fn key_lc_c() -> Seq<u8> {
    seq![67u8]
}

/// The raw combinations gathered while scanning a row object's members.
pub ghost struct RowAcc {
    pub a: Option<Seq<(Seq<u8>, u64)>>,
    pub b: Option<Seq<(Seq<u8>, u64)>>,
    pub c: Option<Seq<(Seq<u8>, u64)>>,
}

/// No combination gathered yet.
pub open spec fn empty_row_acc() -> RowAcc {
    RowAcc { a: None, b: None, c: None }
}

/// Decode one `"key": [[coefficient, index], …]` member of a row object.
pub open spec fn spec_parse_row_member(s: Seq<u8>, i: int, acc: RowAcc) -> Option<(RowAcc, int)> {
    match spec_parse_string(s, i) {
        None => None,
        Some((key, j)) => {
            let k = spec_skip_ws(s, j);
            if !(0 <= k < s.len() && s[k] == 58) {
                None
            } else {
                let m = spec_skip_ws(s, k + 1);
                if key == key_lc_a() {
                    if acc.a is Some {
                        None
                    } else {
                        match spec_parse_term_array(s, m) {
                            None => None,
                            Some((v, q)) => Some((RowAcc { a: Some(v), ..acc }, q)),
                        }
                    }
                } else if key == key_lc_b() {
                    if acc.b is Some {
                        None
                    } else {
                        match spec_parse_term_array(s, m) {
                            None => None,
                            Some((v, q)) => Some((RowAcc { b: Some(v), ..acc }, q)),
                        }
                    }
                } else if key == key_lc_c() {
                    if acc.c is Some {
                        None
                    } else {
                        match spec_parse_term_array(s, m) {
                            None => None,
                            Some((v, q)) => Some((RowAcc { c: Some(v), ..acc }, q)),
                        }
                    }
                } else {
                    None
                }
            }
        },
    }
}

/// Decode the members of a nonempty row object.
pub open spec fn spec_parse_row_members(s: Seq<u8>, i: int, acc: RowAcc) -> Option<(RowAcc, int)>
    decreases s.len() - i,
{
    match spec_parse_row_member(s, i, acc) {
        None => None,
        Some((acc2, j)) => {
            let k = spec_skip_ws(s, j);
            if 0 <= k < s.len() && s[k] == 44 {
                let m = spec_skip_ws(s, k + 1);
                if i < m <= s.len() {
                    spec_parse_row_members(s, m, acc2)
                } else {
                    None
                }
            } else if 0 <= k < s.len() && s[k] == 125 {
                Some((acc2, k + 1))
            } else {
                None
            }
        },
    }
}

/// Decode a whole constraint line: an object with the keys `A`, `B` and
/// `C`, each exactly once, in any order, each an array of coefficient-index
/// pairs, and nothing but whitespace around it. The coefficients stay raw.
pub open spec fn spec_parse_constraint_line(s: Seq<u8>) -> Option<
    (Seq<(Seq<u8>, u64)>, Seq<(Seq<u8>, u64)>, Seq<(Seq<u8>, u64)>),
> {
    let i = spec_skip_ws(s, 0);
    if !(0 <= i < s.len() && s[i] == 123) {
        None
    } else {
        let j = spec_skip_ws(s, i + 1);
        match spec_parse_row_members(s, j, empty_row_acc()) {
            None => None,
            Some((acc, e)) => {
                if spec_skip_ws(s, e) == s.len() && acc.a is Some && acc.b is Some && acc.c
                    is Some {
                    Some((acc.a->0, acc.b->0, acc.c->0))
                } else {
                    None
                }
            },
        }
    }
}

/// The raw combinations gathered so far, as executable state.
struct GatheredRow {
    a: Option<Vec<(Vec<u8>, u64)>>,
    b: Option<Vec<(Vec<u8>, u64)>>,
    c: Option<Vec<(Vec<u8>, u64)>>,
}

impl GatheredRow {
    spec fn acc(&self) -> RowAcc {
        RowAcc {
            a: match self.a {
                None => None,
                Some(v) => Some(terms_view(v@)),
            },
            b: match self.b {
                None => None,
                Some(v) => Some(terms_view(v@)),
            },
            c: match self.c {
                None => None,
                Some(v) => Some(terms_view(v@)),
            },
        }
    }
}

/// Decode one member of a row object and fold it into the gathered state.
fn parse_row_member(s: &[u8], i: usize, f: GatheredRow) -> (r: Option<(GatheredRow, usize)>)
    requires
        i <= s@.len(),
    ensures
        match r {
            None => spec_parse_row_member(s@, i as int, f.acc()) is None,
            Some((f2, j)) => spec_parse_row_member(s@, i as int, f.acc()) == Some(
                (f2.acc(), j as int),
            ) && i < j <= s@.len(),
        },
{
    let (key_bytes, j) = match parse_string(s, i) {
        None => {
            return None;
        },
        Some(kv) => kv,
    };
    let k = skip_ws(s, j);
    if !(k < s.len() && s[k] == 58) {
        return None;
    }
    let m = skip_ws(s, k + 1);
    let is_a = key_bytes.len() == 1 && key_bytes[0] == 65;
    let is_b = key_bytes.len() == 1 && key_bytes[0] == 66;
    let is_c = key_bytes.len() == 1 && key_bytes[0] == 67;
    proof {
        assert(is_a == (key_bytes@ == key_lc_a())) by {
            if key_bytes@.len() == 1 && key_bytes@[0] == 65 {
                assert(key_bytes@ =~= key_lc_a());
            }
            if key_bytes@ == key_lc_a() {
                assert(key_bytes@.len() == 1 && key_bytes@[0] == 65);
            }
        }
        assert(is_b == (key_bytes@ == key_lc_b())) by {
            if key_bytes@.len() == 1 && key_bytes@[0] == 66 {
                assert(key_bytes@ =~= key_lc_b());
            }
            if key_bytes@ == key_lc_b() {
                assert(key_bytes@.len() == 1 && key_bytes@[0] == 66);
            }
        }
        assert(is_c == (key_bytes@ == key_lc_c())) by {
            if key_bytes@.len() == 1 && key_bytes@[0] == 67 {
                assert(key_bytes@ =~= key_lc_c());
            }
            if key_bytes@ == key_lc_c() {
                assert(key_bytes@.len() == 1 && key_bytes@[0] == 67);
            }
        }
    }
    if is_a {
        if f.a.is_some() {
            return None;
        }
        match parse_term_array(s, m) {
            None => None,
            Some((v, q)) => Some((GatheredRow { a: Some(v), ..f }, q)),
        }
    } else if is_b {
        if f.b.is_some() {
            return None;
        }
        match parse_term_array(s, m) {
            None => None,
            Some((v, q)) => Some((GatheredRow { b: Some(v), ..f }, q)),
        }
    } else if is_c {
        if f.c.is_some() {
            return None;
        }
        match parse_term_array(s, m) {
            None => None,
            Some((v, q)) => Some((GatheredRow { c: Some(v), ..f }, q)),
        }
    } else {
        None
    }
}

/// Decode a whole constraint line.
pub fn parse_constraint_line(s: &[u8]) -> (r: Option<
    (Vec<(Vec<u8>, u64)>, Vec<(Vec<u8>, u64)>, Vec<(Vec<u8>, u64)>),
>)
    ensures
        match r {
            None => spec_parse_constraint_line(s@) is None,
            Some((a, b, c)) => spec_parse_constraint_line(s@) == Some(
                (
                    terms_view(a@),
                    terms_view(b@),
                    terms_view(c@),
                ),
            ),
        },
{
    let i = skip_ws(s, 0);
    if i == s.len() || s[i] != 123 {
        return None;
    }
    let start = skip_ws(s, i + 1);
    let mut f = GatheredRow { a: None, b: None, c: None };
    proof {
        assert(f.acc() == empty_row_acc());
    }
    let mut pos = start;
    let ghost target = spec_parse_row_members(s@, start as int, empty_row_acc());
    let mut end: usize = 0;
    loop
        invariant_except_break
            target == spec_parse_row_members(s@, pos as int, f.acc()),
        invariant
            pos <= s@.len(),
            spec_parse_constraint_line(s@) == (match target {
                None => None::<(Seq<(Seq<u8>, u64)>, Seq<(Seq<u8>, u64)>, Seq<(Seq<u8>, u64)>)>,
                Some((acc, e)) => {
                    if spec_skip_ws(s@, e) == s@.len() && acc.a is Some && acc.b is Some && acc.c
                        is Some {
                        Some((acc.a->0, acc.b->0, acc.c->0))
                    } else {
                        None
                    }
                },
            }),
        ensures
            target == Some((f.acc(), end as int)),
            end <= s@.len(),
        decreases s@.len() - pos,
    {
        let ghost pos0 = pos as int;
        let stepped = match parse_row_member(s, pos, f) {
            None => {
                return None;
            },
            Some(x) => x,
        };
        f = stepped.0;
        let j = stepped.1;
        let k = skip_ws(s, j);
        if k < s.len() && s[k] == 44 {
            let m = skip_ws(s, k + 1);
            proof {
                assert(pos0 < m <= s@.len());
            }
            pos = m;
        } else if k < s.len() && s[k] == 125 {
            end = k + 1;
            break;
        } else {
            return None;
        }
    }
    let tail = skip_ws(s, end);
    if tail != s.len() {
        return None;
    }
    let GatheredRow { a, b, c } = f;
    let av = match a {
        None => {
            return None;
        },
        Some(v) => v,
    };
    let bv = match b {
        None => {
            return None;
        },
        Some(v) => v,
    };
    let cv = match c {
        None => {
            return None;
        },
        Some(v) => v,
    };
    Some((av, bv, cv))
}

/// Every coefficient of the raw term list is a valid field literal.
pub open spec fn terms_literals_ok(ts: Seq<(Seq<u8>, u64)>) -> bool {
    forall|i: int| 0 <= i < ts.len() ==> is_field_literal((#[trigger] ts[i]).0)
}

/// Every index of the raw term list lies below the declared variable count.
pub open spec fn terms_indices_ok(ts: Seq<(Seq<u8>, u64)>, n: usize) -> bool {
    forall|i: int| 0 <= i < ts.len() ==> (#[trigger] ts[i]).1 < n as u64
}

/// The linear combination a raw term list decodes to.
pub open spec fn lc_of_terms(ts: Seq<(Seq<u8>, u64)>) -> Seq<(Scalar, usize)> {
    ts.map_values(|t: (Seq<u8>, u64)| (scalar_of(t.0), t.1 as usize))
}

/// Decode one raw row against the declared variable count: first every
/// coefficient must be a valid field literal, then every index must lie
/// below the count.
pub open spec fn spec_row_from_raw(
    ra: Seq<(Seq<u8>, u64)>,
    rb: Seq<(Seq<u8>, u64)>,
    rc: Seq<(Seq<u8>, u64)>,
    n: usize,
) -> Result<R1CV, BridgeError> {
    if !(terms_literals_ok(ra) && terms_literals_ok(rb) && terms_literals_ok(rc)) {
        Err(BridgeError::InvalidFieldElement)
    } else if !(terms_indices_ok(ra, n) && terms_indices_ok(rb, n) && terms_indices_ok(rc, n)) {
        Err(BridgeError::InconsistentVariableCount)
    } else {
        Ok(R1CV { a: lc_of_terms(ra), b: lc_of_terms(rb), c: lc_of_terms(rc) })
    }
}

/// Whether every coefficient of the list is a valid field literal.
fn lc_literals_ok(raw: &Vec<(Vec<u8>, u64)>) -> (b: bool)
    ensures
        b == terms_literals_ok(terms_view(raw@)),
{
    let mut i: usize = 0;
    while i < raw.len()
        invariant
            i <= raw@.len(),
            forall|k: int| 0 <= k < i ==> is_field_literal((#[trigger] terms_view(raw@)[k]).0),
        decreases raw@.len() - i,
    {
        let ok = match parse_field_element(raw[i].0.as_slice()) {
            Ok(_) => true,
            Err(_) => false,
        };
        if !ok {
            proof {
                assert(!is_field_literal(terms_view(raw@)[i as int].0));
            }
            return false;
        }
        i = i + 1;
    }
    true
}

/// Whether every index of the list lies below the declared variable count.
fn lc_indices_ok(raw: &Vec<(Vec<u8>, u64)>, n: usize) -> (b: bool)
    ensures
        b == terms_indices_ok(terms_view(raw@), n),
{
    let mut i: usize = 0;
    while i < raw.len()
        invariant
            i <= raw@.len(),
            forall|k: int| 0 <= k < i ==> (#[trigger] terms_view(raw@)[k]).1 < n as u64,
        decreases raw@.len() - i,
    {
        if raw[i].1 >= n as u64 {
            proof {
                assert(terms_view(raw@)[i as int].1 >= n as u64);
            }
            return false;
        }
        i = i + 1;
    }
    true
}

/// Decode the list into a linear combination, once both checks have passed.
fn lc_scalars(raw: &Vec<(Vec<u8>, u64)>, n: usize) -> (r: Vec<(Scalar, usize)>)
    requires
        terms_literals_ok(terms_view(raw@)),
        terms_indices_ok(terms_view(raw@), n),
    ensures
        r@ == lc_of_terms(terms_view(raw@)),
{
    let mut out: Vec<(Scalar, usize)> = Vec::new();
    let mut i: usize = 0;
    while i < raw.len()
        invariant
            i <= raw@.len(),
            terms_literals_ok(terms_view(raw@)),
            terms_indices_ok(terms_view(raw@), n),
            out@ == lc_of_terms(terms_view(raw@).subrange(0, i as int)),
        decreases raw@.len() - i,
    {
        proof {
            assert(is_field_literal(terms_view(raw@)[i as int].0));
            assert(terms_view(raw@)[i as int].1 < n as u64);
            assert(terms_view(raw@)[i as int].0 == raw@[i as int].0@);
        }
        let s = match parse_field_element(raw[i].0.as_slice()) {
            Ok(v) => v,
            Err(_) => {
                proof {
                    assert(false);
                }
                return out;
            },
        };
        let idx = raw[i].1;
        out.push((s, idx as usize));
        proof {
            let tv = terms_view(raw@);
            assert(tv.subrange(0, i + 1) =~= tv.subrange(0, i as int).push(tv[i as int]));
            assert(lc_of_terms(tv.subrange(0, i + 1)) =~= lc_of_terms(
                tv.subrange(0, i as int),
            ).push((scalar_of(tv[i as int].0), tv[i as int].1 as usize)));
        }
        i = i + 1;
    }
    proof {
        assert(terms_view(raw@).subrange(0, i as int) =~= terms_view(raw@));
    }
    out
}

/// Decode one raw row against the declared variable count.
fn row_from_raw(
    ra: Vec<(Vec<u8>, u64)>,
    rb: Vec<(Vec<u8>, u64)>,
    rc: Vec<(Vec<u8>, u64)>,
    n: usize,
) -> (r: Result<R1C, BridgeError>)
    ensures
        match r {
            Ok(row) => spec_row_from_raw(
                terms_view(ra@),
                terms_view(rb@),
                terms_view(rc@),
                n,
            ) == Ok::<R1CV, BridgeError>(row@),
            Err(e) => spec_row_from_raw(terms_view(ra@), terms_view(rb@), terms_view(rc@), n)
                == Err::<R1CV, BridgeError>(e),
        },
{
    if !(lc_literals_ok(&ra) && lc_literals_ok(&rb) && lc_literals_ok(&rc)) {
        return Err(BridgeError::InvalidFieldElement);
    }
    if !(lc_indices_ok(&ra, n) && lc_indices_ok(&rb, n) && lc_indices_ok(&rc, n)) {
        return Err(BridgeError::InconsistentVariableCount);
    }
    let a = lc_scalars(&ra, n);
    let b = lc_scalars(&rb, n);
    let c = lc_scalars(&rc, n);
    Ok(R1C { a, b, c })
}

/// No index occurs twice.
pub open spec fn unique_indices(s: Seq<usize>) -> bool {
    forall|i: int, j: int| 0 <= i < j < s.len() ==> s[i] != s[j]
}

/// A header that can yield a well-formed circuit descriptor: at least the
/// constant-one variable exists, the declared input indices are unique and
/// lie strictly between the constant index and the variable count, and the
/// output indices lie below the count.
pub open spec fn header_valid(h: HeaderV) -> bool {
    &&& h.n_variables >= 1
    &&& forall|i: int|
        0 <= i < h.input_variables.len() ==> 1 <= #[trigger] h.input_variables[i] < h.n_variables
    &&& unique_indices(h.input_variables)
    &&& forall|i: int|
        0 <= i < h.output_variables.len() ==> #[trigger] h.output_variables[i] < h.n_variables
}

/// Check a header's variable declarations.
pub fn check_header(h: &Header) -> (b: bool)
    ensures
        b == header_valid(h@),
{
    if h.n_variables == 0 {
        return false;
    }
    let mut i: usize = 0;
    while i < h.input_variables.len()
        invariant
            i <= h.input_variables@.len(),
            h.n_variables >= 1,
            forall|k: int| 0 <= k < i ==> 1 <= #[trigger] h.input_variables@[k] < h.n_variables,
            forall|a: int, b: int|
                0 <= a < b < i ==> h.input_variables@[a] != h.input_variables@[b],
        decreases h.input_variables@.len() - i,
    {
        let v = h.input_variables[i];
        if v < 1 || v >= h.n_variables {
            return false;
        }
        let mut j: usize = 0;
        while j < i
            invariant
                j <= i < h.input_variables@.len(),
                v == h.input_variables@[i as int],
                forall|a: int| 0 <= a < j ==> h.input_variables@[a] != h.input_variables@[i as int],
            decreases i - j,
        {
            if h.input_variables[j] == v {
                proof {
                    assert(!unique_indices(h@.input_variables));
                }
                return false;
            }
            j = j + 1;
        }
        i = i + 1;
    }
    let mut i2: usize = 0;
    while i2 < h.output_variables.len()
        invariant
            i2 <= h.output_variables@.len(),
            forall|k: int| 0 <= k < i2 ==> #[trigger] h.output_variables@[k] < h.n_variables,
        decreases h.output_variables@.len() - i2,
    {
        if h.output_variables[i2] >= h.n_variables {
            proof {
                assert(h@.output_variables[i2 as int] >= h@.n_variables);
                assert(!header_valid(h@));
            }
            return false;
        }
        i2 = i2 + 1;
    }
    true
}

/// Decode the payload lines from line index `k` on, skipping empty lines,
/// against the declared variable count. A line that fails to decode names
/// its 1-based position in the file.
pub open spec fn spec_load_rows(lines: Seq<Seq<u8>>, k: int, n: usize) -> Result<
    Seq<R1CV>,
    BridgeError,
>
    decreases lines.len() - k,
{
    if !(0 <= k < lines.len()) {
        Ok(Seq::empty())
    } else if lines[k].len() == 0 {
        spec_load_rows(lines, k + 1, n)
    } else {
        match spec_parse_constraint_line(lines[k]) {
            None => Err(BridgeError::MalformedRecord((k + 1) as usize)),
            Some((ra, rb, rc)) => match spec_row_from_raw(ra, rb, rc, n) {
                Err(e) => Err(e),
                Ok(row) => match spec_load_rows(lines, k + 1, n) {
                    Err(e) => Err(e),
                    Ok(rest) => Ok(seq![row] + rest),
                },
            },
        }
    }
}

/// Decode a whole R1CS file: the header line, then one constraint row per
/// nonempty payload line, with every declared and referenced variable index
/// checked against the header's variable count before anything is handed
/// on.
pub open spec fn spec_parse_r1cs_file(bytes: Seq<u8>) -> Result<R1CSFileV, BridgeError> {
    let lines = spec_lines(bytes);
    if lines.len() == 0 {
        Err(BridgeError::TruncatedFile)
    } else {
        match spec_parse_header_line(lines[0]) {
            None => Err(BridgeError::MalformedHeader),
            Some(h) => {
                if !header_valid(h) {
                    Err(BridgeError::InconsistentVariableCount)
                } else {
                    match spec_load_rows(lines, 1, h.n_variables) {
                        Err(e) => Err(e),
                        Ok(rows) => Ok(R1CSFileV { header: h, constraints: rows }),
                    }
                }
            },
        }
    }
}

/// Decode a whole R1CS file from its bytes.
///
/// Fails with `TruncatedFile` on a file without any line; with
/// `MalformedHeader` when the first line is not a header; with
/// `MalformedRecord` naming the first payload line that is not a constraint
/// row; with `InvalidFieldElement` when a coefficient is not a decimal
/// field literal; and with `InconsistentVariableCount` when the header's
/// declarations or a row's references leave the range the header declares.
pub fn parse_r1cs_file(bytes: &[u8]) -> (r: Result<R1CSFile, BridgeError>)
    ensures
        match r {
            Ok(file) => spec_parse_r1cs_file(bytes@) == Ok::<R1CSFileV, BridgeError>(file@),
            Err(e) => spec_parse_r1cs_file(bytes@) == Err::<R1CSFileV, BridgeError>(e),
        },
{
    let lines = split_lines(bytes);
    let ghost lv = lines.deep_view();
    if lines.len() == 0 {
        return Err(BridgeError::TruncatedFile);
    }
    proof {
        assert(lv[0] == lines@[0]@);
    }
    let header = match parse_header_line(lines[0].as_slice()) {
        None => {
            return Err(BridgeError::MalformedHeader);
        },
        Some(h) => h,
    };
    if !check_header(&header) {
        return Err(BridgeError::InconsistentVariableCount);
    }
    let n = header.n_variables;
    let mut rows: Vec<R1C> = Vec::new();
    let mut k: usize = 1;
    proof {
        assert(rows@.map_values(|r: R1C| r@) =~= Seq::<R1CV>::empty());
    }
    while k < lines.len()
        invariant
            1 <= k <= lv.len(),
            lv == lines.deep_view(),
            lv.len() == lines@.len(),
            n == header@.n_variables,
            spec_load_rows(lv, 1, n) == (match spec_load_rows(lv, k as int, n) {
                Ok(rest) => Ok::<Seq<R1CV>, BridgeError>(rows@.map_values(|r: R1C| r@) + rest),
                Err(e) => Err(e),
            }),
            spec_parse_r1cs_file(bytes@) == (match spec_load_rows(lv, 1, n) {
                Err(e) => Err::<R1CSFileV, BridgeError>(e),
                Ok(rs) => Ok(R1CSFileV { header: header@, constraints: rs }),
            }),
        decreases lines@.len() - k,
    {
        proof {
            assert(lv[k as int] == lines@[k as int]@);
        }
        let line_len = lines[k].len();
        if line_len == 0 {
            k = k + 1;
            continue;
        }
        let parsed = match parse_constraint_line(lines[k].as_slice()) {
            None => {
                return Err(BridgeError::MalformedRecord(k + 1));
            },
            Some(x) => x,
        };
        let (ra, rb, rc) = parsed;
        let row = match row_from_raw(ra, rb, rc, n) {
            Err(e) => {
                return Err(e);
            },
            Ok(row) => row,
        };
        let ghost old_rows = rows@.map_values(|r: R1C| r@);
        rows.push(row);
        proof {
            assert(rows@.map_values(|r: R1C| r@) =~= old_rows.push(row@));
            assert(old_rows.push(row@) =~= old_rows + seq![row@]);
            if spec_load_rows(lv, k + 1, n) is Ok {
                assert(old_rows + (seq![row@] + spec_load_rows(lv, k + 1, n)->Ok_0)
                    =~= (old_rows + seq![row@]) + spec_load_rows(lv, k + 1, n)->Ok_0);
            }
        }
        k = k + 1;
    }
    proof {
        assert(spec_load_rows(lv, k as int, n) == Ok::<Seq<R1CV>, BridgeError>(Seq::empty()));
        assert(rows@.map_values(|r: R1C| r@) + Seq::<R1CV>::empty() =~= rows@.map_values(
            |r: R1C| r@,
        ));
    }
    Ok(R1CSFile { header, constraints: rows })
}

/// Law: loading is a function of the file bytes alone. Any two descriptor
/// files decoded from the same bytes are identical, structure and values
/// both, so re-running the loader can never yield a different circuit.
pub proof fn lemma_r1cs_load_deterministic(
    bytes: Seq<u8>,
    r1: Result<R1CSFileV, BridgeError>,
    r2: Result<R1CSFileV, BridgeError>,
)
    requires
        r1 == spec_parse_r1cs_file(bytes),
        r2 == spec_parse_r1cs_file(bytes),
    ensures
        r1 == r2,
{
}

/// Every index is strictly smaller than the next: ascending and unique.
pub open spec fn strictly_increasing(s: Seq<usize>) -> bool {
    forall|i: int, j: int| 0 <= i < j < s.len() ==> s[i] < s[j]
}

/// One ascending scan of `1..k`: the indices whose membership in the
/// header's input set equals `keep`.
pub open spec fn spec_scan(inputs: Seq<usize>, keep: bool, k: int) -> Seq<usize>
    decreases k,
{
    if k <= 1 {
        Seq::empty()
    } else {
        spec_scan(inputs, keep, k - 1) + (if inputs.contains((k - 1) as usize) == keep {
            seq![(k - 1) as usize]
        } else {
            Seq::empty()
        })
    }
}

/// The indices of `1..k` that the header declares as inputs, ascending.
pub open spec fn spec_selected(inputs: Seq<usize>, k: int) -> Seq<usize> {
    spec_scan(inputs, true, k)
}

/// The indices of `1..k` that the header does not declare as inputs,
/// ascending: the private witness indices.
pub open spec fn spec_rest(inputs: Seq<usize>, k: int) -> Seq<usize> {
    spec_scan(inputs, false, k)
}

/// The scan is ascending and holds exactly the indices of `1..k` on its
/// side of the input set.
pub proof fn lemma_scan_props(inputs: Seq<usize>, keep: bool, k: int)
    requires
        1 <= k <= usize::MAX as int + 1,
    ensures
        strictly_increasing(spec_scan(inputs, keep, k)),
        forall|x: usize|
            #[trigger] spec_scan(inputs, keep, k).contains(x) <==> (1 <= x < k && inputs.contains(
                x,
            ) == keep),
    decreases k,
{
    let cur = spec_scan(inputs, keep, k);
    if k == 1 {
        assert(cur =~= Seq::<usize>::empty());
    } else {
        lemma_scan_props(inputs, keep, k - 1);
        let prev = spec_scan(inputs, keep, k - 1);
        let last = (k - 1) as usize;
        if inputs.contains(last) == keep {
            assert(cur =~= prev.push(last));
            assert forall|x: usize|
                #[trigger] cur.contains(x) <==> (1 <= x < k && inputs.contains(x) == keep) by {
                if cur.contains(x) {
                    let i = choose|i: int| 0 <= i < cur.len() && cur[i] == x;
                    if i < prev.len() {
                        assert(cur[i] == prev[i]);
                        assert(prev.contains(x));
                    } else {
                        assert(x == last);
                    }
                }
                if 1 <= x < k && inputs.contains(x) == keep {
                    if x == last {
                        assert(cur[prev.len() as int] == x);
                        assert(cur.contains(x));
                    } else {
                        assert(1 <= x < k - 1);
                        assert(prev.contains(x));
                        let i = choose|i: int| 0 <= i < prev.len() && prev[i] == x;
                        assert(cur[i] == x);
                        assert(cur.contains(x));
                    }
                }
            }
            assert forall|i: int, j: int| 0 <= i < j < cur.len() implies cur[i] < cur[j] by {
                if j < prev.len() {
                    assert(cur[i] == prev[i] && cur[j] == prev[j]);
                } else {
                    assert(cur[j] == last);
                    assert(cur[i] == prev[i]);
                    assert(prev.contains(prev[i]));
                    assert(prev[i] < k - 1);
                }
            }
        } else {
            assert(cur =~= prev);
            assert forall|x: usize|
                #[trigger] cur.contains(x) <==> (1 <= x < k && inputs.contains(x) == keep) by {
                assert(cur.contains(x) == prev.contains(x));
                if 1 <= x < k && inputs.contains(x) == keep {
                    assert(x != last);
                    assert(1 <= x < k - 1);
                }
            }
        }
    }
}

/// Both halves of the partition are ascending, and each holds exactly the
/// indices of `1..k` on its side of the header's input set.
pub proof fn lemma_partition_props(inputs: Seq<usize>, k: int)
    requires
        1 <= k <= usize::MAX as int + 1,
    ensures
        strictly_increasing(spec_selected(inputs, k)),
        strictly_increasing(spec_rest(inputs, k)),
        forall|x: usize|
            #[trigger] spec_selected(inputs, k).contains(x) <==> (1 <= x < k && inputs.contains(
                x,
            )),
        forall|x: usize|
            #[trigger] spec_rest(inputs, k).contains(x) <==> (1 <= x < k && !inputs.contains(x)),
{
    lemma_scan_props(inputs, true, k);
    lemma_scan_props(inputs, false, k);
}

/// Law: for every variable count `n >= 1`, the partition's two index lists
/// are disjoint, neither holds the constant index 0, and together with 0
/// they cover exactly the indices `0, …, n-1`.
pub proof fn lemma_partition_covers(inputs: Seq<usize>, n: usize)
    requires
        n >= 1,
    ensures
        forall|x: usize|
            x < n <==> (x == 0 || #[trigger] spec_selected(inputs, n as int).contains(x)
                || spec_rest(inputs, n as int).contains(x)),
        forall|x: usize|
            !(#[trigger] spec_selected(inputs, n as int).contains(x) && spec_rest(
                inputs,
                n as int,
            ).contains(x)),
        !spec_selected(inputs, n as int).contains(0),
        !spec_rest(inputs, n as int).contains(0),
{
    lemma_partition_props(inputs, n as int);
}

/// A circuit descriptor: the canonical partition of the variable space and
/// the constraint rows in file order. Index 0 is in neither list: it is the
/// reserved constant-one variable.
#[derive(Clone, PartialEq, Eq)]
pub struct R1CS {
    /// The public input indices, ascending.
    pub input_variables: Vec<usize>,
    /// The private witness indices, ascending: every index of
    /// `1..n_variables` that is not an input.
    pub witness_variables: Vec<usize>,
    /// The constraint rows, in file order.
    pub constraints: Vec<R1C>,
}

/// The mathematical view of a circuit descriptor.
pub ghost struct R1CSV {
    pub input_variables: Seq<usize>,
    pub witness_variables: Seq<usize>,
    pub constraints: Seq<R1CV>,
}

impl View for R1CS {
    type V = R1CSV;

    open spec fn view(&self) -> R1CSV {
        R1CSV {
            input_variables: self.input_variables@,
            witness_variables: self.witness_variables@,
            constraints: self.constraints@.map_values(|r: R1C| r@),
        }
    }
}

impl R1CS {
    /// A well-formed descriptor: both index lists ascending, the constant
    /// index 0 in neither, and no index in both.
    pub open spec fn wf(self) -> bool {
        &&& strictly_increasing(self.input_variables@)
        &&& strictly_increasing(self.witness_variables@)
        &&& forall|i: int|
            0 <= i < self.input_variables@.len() ==> #[trigger] self.input_variables@[i] >= 1
        &&& forall|i: int|
            0 <= i < self.witness_variables@.len() ==> #[trigger] self.witness_variables@[i] >= 1
        &&& forall|i: int, j: int|
            0 <= i < self.input_variables@.len() && 0 <= j < self.witness_variables@.len()
                ==> #[trigger] self.input_variables@[i] != #[trigger] self.witness_variables@[j]
    }

    /// Whether the descriptor is well-formed.
    pub fn is_well_formed(&self) -> (b: bool)
        ensures
            b == self.wf(),
    {
        let inp = is_ascending(&self.input_variables);
        let wit = is_ascending(&self.witness_variables);
        if !(inp && wit) {
            return false;
        }
        if self.input_variables.len() > 0 && self.input_variables[0] == 0 {
            return false;
        }
        if self.witness_variables.len() > 0 && self.witness_variables[0] == 0 {
            return false;
        }
        proof {
            assert forall|i: int|
                0 <= i < self.input_variables@.len() implies #[trigger] self.input_variables@[i]
                >= 1 by {
                if i > 0 {
                    assert(self.input_variables@[0] < self.input_variables@[i]);
                }
            }
            assert forall|i: int|
                0 <= i < self.witness_variables@.len() implies #[trigger] self.witness_variables@[i]
                >= 1 by {
                if i > 0 {
                    assert(self.witness_variables@[0] < self.witness_variables@[i]);
                }
            }
        }
        let mut i: usize = 0;
        while i < self.input_variables.len()
            invariant
                i <= self.input_variables@.len(),
                forall|a: int, b: int|
                    0 <= a < i && 0 <= b < self.witness_variables@.len()
                        ==> #[trigger] self.input_variables@[a]
                            != #[trigger] self.witness_variables@[b],
            decreases self.input_variables@.len() - i,
        {
            let v = self.input_variables[i];
            let mut j: usize = 0;
            while j < self.witness_variables.len()
                invariant
                    j <= self.witness_variables@.len(),
                    i < self.input_variables@.len(),
                    v == self.input_variables@[i as int],
                    forall|b: int|
                        0 <= b < j ==> self.input_variables@[i as int]
                            != #[trigger] self.witness_variables@[b],
                decreases self.witness_variables@.len() - j,
            {
                if self.witness_variables[j] == v {
                    return false;
                }
                j = j + 1;
            }
            i = i + 1;
        }
        true
    }

    /// Derive the canonical descriptor from a raw file: both lists are
    /// rebuilt by one ascending scan of `1..n_variables`, so the header's
    /// declared input order plays no part in allocation order, and the
    /// witness list is exactly the complement of the input set. The result
    /// is always well-formed.
    pub fn from(file: R1CSFile) -> (r: R1CS)
        ensures
            r@.input_variables == spec_selected(
                file@.header.input_variables,
                file@.header.n_variables as int,
            ),
            r@.witness_variables == spec_rest(
                file@.header.input_variables,
                file@.header.n_variables as int,
            ),
            r@.constraints == file@.constraints,
            file@.header.n_variables >= 1 ==> r.wf(),
    {
        let n = file.header.n_variables;
        let mut inp: Vec<usize> = Vec::new();
        let mut wit: Vec<usize> = Vec::new();
        let mut idx: usize = 1;
        proof {
            assert(inp@ =~= spec_selected(file@.header.input_variables, 1));
            assert(wit@ =~= spec_rest(file@.header.input_variables, 1));
            if n == 0 {
                assert(spec_selected(file@.header.input_variables, 0) =~= Seq::<usize>::empty());
                assert(spec_rest(file@.header.input_variables, 0) =~= Seq::<usize>::empty());
            }
        }
        if n == 0 {
            return R1CS { input_variables: inp, witness_variables: wit, constraints: file.constraints };
        }
        while idx < n
            invariant
                1 <= idx <= n,
                inp@ == spec_selected(file.header.input_variables@, idx as int),
                wit@ == spec_rest(file.header.input_variables@, idx as int),
            decreases n - idx,
        {
            if contains_index(&file.header.input_variables, idx) {
                inp.push(idx);
                proof {
                    assert(inp@ =~= spec_selected(file.header.input_variables@, idx + 1));
                    assert(wit@ =~= spec_rest(file.header.input_variables@, idx + 1));
                }
            } else {
                wit.push(idx);
                proof {
                    assert(inp@ =~= spec_selected(file.header.input_variables@, idx + 1));
                    assert(wit@ =~= spec_rest(file.header.input_variables@, idx + 1));
                }
            }
            idx = idx + 1;
        }
        proof {
            lemma_partition_props(file.header.input_variables@, n as int);
        }
        let r = R1CS { input_variables: inp, witness_variables: wit, constraints: file.constraints };
        proof {
            assert forall|i: int|
                0 <= i < r.input_variables@.len() implies #[trigger] r.input_variables@[i]
                >= 1 by {
                assert(r.input_variables@.contains(r.input_variables@[i]));
            }
            assert forall|i: int|
                0 <= i < r.witness_variables@.len() implies #[trigger] r.witness_variables@[i]
                >= 1 by {
                assert(r.witness_variables@.contains(r.witness_variables@[i]));
            }
            assert forall|i: int, j: int|
                0 <= i < r.input_variables@.len() && 0 <= j < r.witness_variables@.len()
                    implies #[trigger] r.input_variables@[i]
                    != #[trigger] r.witness_variables@[j] by {
                assert(r.input_variables@.contains(r.input_variables@[i]));
                assert(r.witness_variables@.contains(r.witness_variables@[j]));
            }
        }
        r
    }
}

/// Whether the list is strictly ascending.
fn is_ascending(v: &Vec<usize>) -> (b: bool)
    ensures
        b == strictly_increasing(v@),
{
    if v.len() == 0 {
        return true;
    }
    let mut i: usize = 0;
    while i + 1 < v.len()
        invariant
            1 <= v@.len() <= usize::MAX,
            i < v@.len(),
            forall|a: int| 0 <= a < i ==> #[trigger] v@[a] < v@[a + 1],
        decreases v@.len() - i,
    {
        if v[i] >= v[i + 1] {
            return false;
        }
        i = i + 1;
    }
    proof {
        assert forall|a: int, b: int| 0 <= a < b < v@.len() implies v@[a] < v@[b] by {
            lemma_adjacent_implies_increasing(v@, a, b);
        }
    }
    true
}

/// Adjacent order extends to any pair of positions.
proof fn lemma_adjacent_implies_increasing(s: Seq<usize>, a: int, b: int)
    requires
        forall|k: int| 0 <= k < s.len() - 1 ==> #[trigger] s[k] < s[k + 1],
        0 <= a < b < s.len(),
    ensures
        s[a] < s[b],
    decreases b - a,
{
    if a + 1 < b {
        lemma_adjacent_implies_increasing(s, a + 1, b);
    }
}

/// Whether the list holds the index.
pub(crate) fn contains_index(v: &Vec<usize>, x: usize) -> (b: bool)
    ensures
        b == v@.contains(x),
{
    let mut i: usize = 0;
    while i < v.len()
        invariant
            i <= v@.len(),
            forall|k: int| 0 <= k < i ==> v@[k] != x,
        decreases v@.len() - i,
    {
        if v[i] == x {
            return true;
        }
        i = i + 1;
    }
    proof {
        assert(!v@.contains(x)) by {
            if v@.contains(x) {
                let k = choose|k: int| 0 <= k < v@.len() && v@[k] == x;
            }
        }
    }
    false
}

} // verus!
