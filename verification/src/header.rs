//! The header record that opens every file of these formats.

use vstd::prelude::*;
use crate::field::{is_ascii_digit, is_decimal_digits};
use crate::records::{
    spec_skip_ws, spec_parse_u64, spec_parse_string, spec_parse_index_array, skip_ws, parse_u64,
    parse_string, parse_index_array,
};

verus! {

/// The header of an R1CS, witness or inputs file: the first line, a JSON
/// object with six known keys in any order.
///
/// Invariant of a well-formed header (checked by the circuit descriptor
/// loader, not here): every index in `input_variables` and
/// `output_variables` lies in `[0, n_variables)`.
#[derive(Clone, Debug, PartialEq, Eq)]
pub struct Header {
    /// The extension degree of the field.
    pub extension_degree: usize,
    /// The field characteristic as the digits of its decimal literal. The
    /// characteristic is carried, never computed with.
    pub field_characteristic: Vec<u8>,
    /// The indices of the public input variables, in the order the file
    /// declares them.
    pub input_variables: Vec<usize>,
    /// The number of constraints the file declares.
    pub n_constraints: usize,
    /// The total number of variables, the constant-one variable at index 0
    /// included.
    pub n_variables: usize,
    /// The indices of the output variables.
    pub output_variables: Vec<usize>,
}

/// The mathematical view of a header.
pub ghost struct HeaderV {
    pub extension_degree: usize,
    pub field_characteristic: Seq<u8>,
    pub input_variables: Seq<usize>,
    pub n_constraints: usize,
    pub n_variables: usize,
    pub output_variables: Seq<usize>,
}

impl View for Header {
    type V = HeaderV;

    open spec fn view(&self) -> HeaderV {
        HeaderV {
            extension_degree: self.extension_degree,
            field_characteristic: self.field_characteristic@,
            input_variables: self.input_variables@,
            n_constraints: self.n_constraints,
            n_variables: self.n_variables,
            output_variables: self.output_variables@,
        }
    }
}

/// The bytes of the key `extension_degree`.
pub open spec fn key_extension_degree() -> Seq<u8> {
    seq![101u8, 120, 116, 101, 110, 115, 105, 111, 110, 95, 100, 101, 103, 114, 101, 101]
}

/// The bytes of the key `field_characteristic`.
pub open spec fn key_field_characteristic() -> Seq<u8> {
    seq![102u8, 105, 101, 108, 100, 95, 99, 104, 97, 114, 97, 99, 116, 101, 114, 105, 115, 116, 105, 99]
}

/// The bytes of the key `input_variables`.
pub open spec fn key_input_variables() -> Seq<u8> {
    seq![105u8, 110, 112, 117, 116, 95, 118, 97, 114, 105, 97, 98, 108, 101, 115]
}

/// The bytes of the key `n_constraints`.
pub open spec fn key_n_constraints() -> Seq<u8> {
    seq![110u8, 95, 99, 111, 110, 115, 116, 114, 97, 105, 110, 116, 115]
}

/// The bytes of the key `n_variables`.
pub open spec fn key_n_variables() -> Seq<u8> {
    seq![110u8, 95, 118, 97, 114, 105, 97, 98, 108, 101, 115]
}

/// The bytes of the key `output_variables`.
pub open spec fn key_output_variables() -> Seq<u8> {
    seq![111u8, 117, 116, 112, 117, 116, 95, 118, 97, 114, 105, 97, 98, 108, 101, 115]
}

/// The header fields gathered so far while scanning the object's members.
pub ghost struct HeaderAcc {
    pub extension_degree: Option<u64>,
    pub field_characteristic: Option<Seq<u8>>,
    pub input_variables: Option<Seq<u64>>,
    pub n_constraints: Option<u64>,
    pub n_variables: Option<u64>,
    pub output_variables: Option<Seq<u64>>,
}

/// No field gathered yet.
pub open spec fn empty_header_acc() -> HeaderAcc {
    HeaderAcc {
        extension_degree: None,
        field_characteristic: None,
        input_variables: None,
        n_constraints: None,
        n_variables: None,
        output_variables: None,
    }
}

/// Decode one `"key": value` member starting at `i`. A key outside the six
/// known ones, or a key seen a second time, fails the header.
pub open spec fn spec_parse_header_member(s: Seq<u8>, i: int, acc: HeaderAcc) -> Option<
    (HeaderAcc, int),
> {
    match spec_parse_string(s, i) {
        None => None,
        Some((key, j)) => {
            let k = spec_skip_ws(s, j);
            if !(0 <= k < s.len() && s[k] == 58) {
                None
            } else {
                let m = spec_skip_ws(s, k + 1);
                if key == key_extension_degree() {
                    if acc.extension_degree is Some {
                        None
                    } else {
                        match spec_parse_u64(s, m) {
                            None => None,
                            Some((v, q)) => Some(
                                (HeaderAcc { extension_degree: Some(v), ..acc }, q),
                            ),
                        }
                    }
                } else if key == key_field_characteristic() {
                    if acc.field_characteristic is Some {
                        None
                    } else {
                        match spec_parse_string(s, m) {
                            None => None,
                            Some((v, q)) => Some(
                                (HeaderAcc { field_characteristic: Some(v), ..acc }, q),
                            ),
                        }
                    }
                } else if key == key_input_variables() {
                    if acc.input_variables is Some {
                        None
                    } else {
                        match spec_parse_index_array(s, m) {
                            None => None,
                            Some((v, q)) => Some(
                                (HeaderAcc { input_variables: Some(v), ..acc }, q),
                            ),
                        }
                    }
                } else if key == key_n_constraints() {
                    if acc.n_constraints is Some {
                        None
                    } else {
                        match spec_parse_u64(s, m) {
                            None => None,
                            Some((v, q)) => Some((HeaderAcc { n_constraints: Some(v), ..acc }, q)),
                        }
                    }
                } else if key == key_n_variables() {
                    if acc.n_variables is Some {
                        None
                    } else {
                        match spec_parse_u64(s, m) {
                            None => None,
                            Some((v, q)) => Some((HeaderAcc { n_variables: Some(v), ..acc }, q)),
                        }
                    }
                } else if key == key_output_variables() {
                    if acc.output_variables is Some {
                        None
                    } else {
                        match spec_parse_index_array(s, m) {
                            None => None,
                            Some((v, q)) => Some(
                                (HeaderAcc { output_variables: Some(v), ..acc }, q),
                            ),
                        }
                    }
                } else {
                    None
                }
            }
        },
    }
}

/// Decode the members of a nonempty header object.
pub open spec fn spec_parse_header_members(s: Seq<u8>, i: int, acc: HeaderAcc) -> Option<
    (HeaderAcc, int),
>
    decreases s.len() - i,
{
    match spec_parse_header_member(s, i, acc) {
        None => None,
        Some((acc2, j)) => {
            let k = spec_skip_ws(s, j);
            if 0 <= k < s.len() && s[k] == 44 {
                let m = spec_skip_ws(s, k + 1);
                if i < m <= s.len() {
                    spec_parse_header_members(s, m, acc2)
                } else {
                    None
                }
            } else if 0 <= k < s.len() && s[k] == 125 {
                Some((acc2, k + 1))
            } else {
                None
            }
        },
    }
}

/// Every value of the sequence fits in a machine word.
pub open spec fn all_fit_usize(s: Seq<u64>) -> bool {
    forall|i: int| 0 <= i < s.len() ==> #[trigger] s[i] <= usize::MAX
}

/// The sequence narrowed to machine words.
pub open spec fn to_usize_seq(s: Seq<u64>) -> Seq<usize> {
    s.map_values(|v: u64| v as usize)
}

/// Turn the gathered fields into a header: every key must have been seen,
/// every count and index must fit in a machine word, and the field
/// characteristic must be a decimal digit string.
pub open spec fn finalize_header(acc: HeaderAcc) -> Option<HeaderV> {
    if acc.extension_degree is Some && acc.field_characteristic is Some && acc.input_variables
        is Some && acc.n_constraints is Some && acc.n_variables is Some && acc.output_variables
        is Some && acc.extension_degree->0 <= usize::MAX && acc.n_constraints->0 <= usize::MAX
        && acc.n_variables->0 <= usize::MAX && all_fit_usize(acc.input_variables->0)
        && all_fit_usize(acc.output_variables->0) && is_decimal_digits(
        acc.field_characteristic->0,
    ) {
        Some(
            HeaderV {
                extension_degree: acc.extension_degree->0 as usize,
                field_characteristic: acc.field_characteristic->0,
                input_variables: to_usize_seq(acc.input_variables->0),
                n_constraints: acc.n_constraints->0 as usize,
                n_variables: acc.n_variables->0 as usize,
                output_variables: to_usize_seq(acc.output_variables->0),
            },
        )
    } else {
        None
    }
}

/// Decode a whole header line: a JSON object with the six known keys, each
/// exactly once, in any order, and nothing but whitespace around it.
pub open spec fn spec_parse_header_line(s: Seq<u8>) -> Option<HeaderV> {
    let i = spec_skip_ws(s, 0);
    if !(0 <= i < s.len() && s[i] == 123) {
        None
    } else {
        let j = spec_skip_ws(s, i + 1);
        match spec_parse_header_members(s, j, empty_header_acc()) {
            None => None,
            Some((acc, e)) => {
                if spec_skip_ws(s, e) == s.len() {
                    finalize_header(acc)
                } else {
                    None
                }
            },
        }
    }
}

/// Compare two byte strings.
pub fn bytes_eq(a: &[u8], b: &[u8]) -> (r: bool)
    ensures
        r == (a@ == b@),
{
    if a.len() != b.len() {
        proof {
            assert(a@ != b@) by {
                if a@ == b@ {
                    assert(a@.len() == b@.len());
                }
            }
        }
        return false;
    }
    let mut i: usize = 0;
    while i < a.len()
        invariant
            i <= a@.len(),
            a@.len() == b@.len(),
            forall|k: int| 0 <= k < i ==> a@[k] == b@[k],
        decreases a@.len() - i,
    {
        if a[i] != b[i] {
            proof {
                assert(a@ != b@) by {
                    if a@ == b@ {
                        assert(a@[i as int] == b@[i as int]);
                    }
                }
            }
            return false;
        }
        i = i + 1;
    }
    proof {
        assert(a@ =~= b@);
    }
    true
}

/// The header fields gathered so far, as executable state.
struct GatheredHeader {
    ext: Option<u64>,
    chr: Option<Vec<u8>>,
    inp: Option<Vec<u64>>,
    ncon: Option<u64>,
    nvar: Option<u64>,
    outp: Option<Vec<u64>>,
}

impl GatheredHeader {
    spec fn acc(&self) -> HeaderAcc {
        HeaderAcc {
            extension_degree: self.ext,
            field_characteristic: match self.chr {
                None => None,
                Some(v) => Some(v@),
            },
            input_variables: match self.inp {
                None => None,
                Some(v) => Some(v@),
            },
            n_constraints: self.ncon,
            n_variables: self.nvar,
            output_variables: match self.outp {
                None => None,
                Some(v) => Some(v@),
            },
        }
    }
}

/// Decode one `"key": value` member and fold it into the gathered fields.
fn parse_header_member(s: &[u8], i: usize, f: GatheredHeader) -> (r: Option<
    (GatheredHeader, usize),
>)
    requires
        i <= s@.len(),
    ensures
        match r {
            None => spec_parse_header_member(s@, i as int, f.acc()) is None,
            Some((f2, j)) => spec_parse_header_member(s@, i as int, f.acc()) == Some(
                (f2.acc(), j as int),
            ) && i < j <= s@.len(),
        },
{
    let key_ext: Vec<u8> = vec![101u8, 120, 116, 101, 110, 115, 105, 111, 110, 95, 100, 101, 103, 114, 101, 101];
    let key_chr: Vec<u8> = vec![102u8, 105, 101, 108, 100, 95, 99, 104, 97, 114, 97, 99, 116, 101, 114, 105, 115, 116, 105, 99];
    let key_inp: Vec<u8> = vec![105u8, 110, 112, 117, 116, 95, 118, 97, 114, 105, 97, 98, 108, 101, 115];
    let key_ncon: Vec<u8> = vec![110u8, 95, 99, 111, 110, 115, 116, 114, 97, 105, 110, 116, 115];
    let key_nvar: Vec<u8> = vec![110u8, 95, 118, 97, 114, 105, 97, 98, 108, 101, 115];
    let key_outp: Vec<u8> = vec![111u8, 117, 116, 112, 117, 116, 95, 118, 97, 114, 105, 97, 98, 108, 101, 115];
    proof {
        assert(key_ext@ =~= key_extension_degree());
        assert(key_chr@ =~= key_field_characteristic());
        assert(key_inp@ =~= key_input_variables());
        assert(key_ncon@ =~= key_n_constraints());
        assert(key_nvar@ =~= key_n_variables());
        assert(key_outp@ =~= key_output_variables());
    }
    let (key_bytes, j) = match parse_string(s, i) {
        None => {
            return None;
        },
        Some(kv) => kv,
    };
    let k = skip_ws(s, j);
    if !(k < s.len() && s[k] == 58) {
        return None;
    }
    let m = skip_ws(s, k + 1);
    if bytes_eq(key_bytes.as_slice(), key_ext.as_slice()) {
        if f.ext.is_some() {
            return None;
        }
        match parse_u64(s, m) {
            None => None,
            Some((v, q)) => Some((GatheredHeader { ext: Some(v), ..f }, q)),
        }
    } else if bytes_eq(key_bytes.as_slice(), key_chr.as_slice()) {
        if f.chr.is_some() {
            return None;
        }
        match parse_string(s, m) {
            None => None,
            Some((v, q)) => Some((GatheredHeader { chr: Some(v), ..f }, q)),
        }
    } else if bytes_eq(key_bytes.as_slice(), key_inp.as_slice()) {
        if f.inp.is_some() {
            return None;
        }
        match parse_index_array(s, m) {
            None => None,
            Some((v, q)) => Some((GatheredHeader { inp: Some(v), ..f }, q)),
        }
    } else if bytes_eq(key_bytes.as_slice(), key_ncon.as_slice()) {
        if f.ncon.is_some() {
            return None;
        }
        match parse_u64(s, m) {
            None => None,
            Some((v, q)) => Some((GatheredHeader { ncon: Some(v), ..f }, q)),
        }
    } else if bytes_eq(key_bytes.as_slice(), key_nvar.as_slice()) {
        if f.nvar.is_some() {
            return None;
        }
        match parse_u64(s, m) {
            None => None,
            Some((v, q)) => Some((GatheredHeader { nvar: Some(v), ..f }, q)),
        }
    } else if bytes_eq(key_bytes.as_slice(), key_outp.as_slice()) {
        if f.outp.is_some() {
            return None;
        }
        match parse_index_array(s, m) {
            None => None,
            Some((v, q)) => Some((GatheredHeader { outp: Some(v), ..f }, q)),
        }
    } else {
        return None;
    }
}

/// Narrow a vector of 64-bit values to machine words.
fn to_usize_vec(v: Vec<u64>) -> (r: Option<Vec<usize>>)
    ensures
        r is Some <==> all_fit_usize(v@),
        r is Some ==> r->0@ == to_usize_seq(v@),
{
    let mut out: Vec<usize> = Vec::new();
    let mut i: usize = 0;
    while i < v.len()
        invariant
            i <= v@.len(),
            forall|k: int| 0 <= k < i ==> #[trigger] v@[k] <= usize::MAX,
            out@ == to_usize_seq(v@.subrange(0, i as int)),
        decreases v@.len() - i,
    {
        let x = v[i];
        if x > usize::MAX as u64 {
            return None;
        }
        out.push(x as usize);
        proof {
            assert(v@.subrange(0, i + 1) =~= v@.subrange(0, i as int).push(v@[i as int]));
            assert(to_usize_seq(v@.subrange(0, i + 1)) =~= to_usize_seq(
                v@.subrange(0, i as int),
            ).push(v@[i as int] as usize));
        }
        i = i + 1;
    }
    proof {
        assert(v@.subrange(0, i as int) =~= v@);
    }
    Some(out)
}

/// Decode a whole header line.
pub fn parse_header_line(s: &[u8]) -> (r: Option<Header>)
    ensures
        match r {
            None => spec_parse_header_line(s@) is None,
            Some(h) => spec_parse_header_line(s@) == Some(h@),
        },
{
    let i = skip_ws(s, 0);
    if i == s.len() || s[i] != 123 {
        return None;
    }
    let start = skip_ws(s, i + 1);
    let mut f = GatheredHeader {
        ext: None,
        chr: None,
        inp: None,
        ncon: None,
        nvar: None,
        outp: None,
    };
    proof {
        assert(f.acc() == empty_header_acc());
    }
    let mut pos = start;
    let ghost target = spec_parse_header_members(s@, start as int, empty_header_acc());
    let mut end: usize = 0;
    proof {
        assert(spec_parse_header_line(s@) == (match target {
            None => None::<HeaderV>,
            Some((acc, e)) => {
                if spec_skip_ws(s@, e) == s@.len() {
                    finalize_header(acc)
                } else {
                    None
                }
            },
        }));
    }
    loop
        invariant_except_break
            target == spec_parse_header_members(s@, pos as int, f.acc()),
        invariant
            pos <= s@.len(),
            spec_parse_header_line(s@) == (match target {
                None => None::<HeaderV>,
                Some((acc, e)) => {
                    if spec_skip_ws(s@, e) == s@.len() {
                        finalize_header(acc)
                    } else {
                        None
                    }
                },
            }),
        ensures
            target == Some((f.acc(), end as int)),
            end <= s@.len(),
        decreases s@.len() - pos,
    {
        let ghost pos0 = pos as int;
        let stepped = match parse_header_member(s, pos, f) {
            None => {
                return None;
            },
            Some(x) => x,
        };
        f = stepped.0;
        let j = stepped.1;
        let k = skip_ws(s, j);
        if k < s.len() && s[k] == 44 {
            let m = skip_ws(s, k + 1);
            proof {
                assert(pos0 < m <= s@.len());
            }
            pos = m;
        } else if k < s.len() && s[k] == 125 {
            end = k + 1;
            break;
        } else {
            return None;
        }
    }
    let tail = skip_ws(s, end);
    if tail != s.len() {
        return None;
    }
    // Turn the gathered fields into the header value.
    let GatheredHeader { ext, chr, inp, ncon, nvar, outp } = f;
    let ext_v = match ext {
        None => {
            return None;
        },
        Some(v) => v,
    };
    let chr_v = match chr {
        None => {
            return None;
        },
        Some(v) => v,
    };
    let inp_v = match inp {
        None => {
            return None;
        },
        Some(v) => v,
    };
    let ncon_v = match ncon {
        None => {
            return None;
        },
        Some(v) => v,
    };
    let nvar_v = match nvar {
        None => {
            return None;
        },
        Some(v) => v,
    };
    let outp_v = match outp {
        None => {
            return None;
        },
        Some(v) => v,
    };
    if ext_v > usize::MAX as u64 || ncon_v > usize::MAX as u64 || nvar_v > usize::MAX as u64 {
        return None;
    }
    let chr_digits = match crate::field::parse_characteristic(chr_v.as_slice()) {
        Err(_) => {
            return None;
        },
        Ok(v) => v,
    };
    let inp_us = match to_usize_vec(inp_v) {
        None => {
            return None;
        },
        Some(v) => v,
    };
    let outp_us = match to_usize_vec(outp_v) {
        None => {
            return None;
        },
        Some(v) => v,
    };
    let header = Header {
        extension_degree: ext_v as usize,
        field_characteristic: chr_digits,
        input_variables: inp_us,
        n_constraints: ncon_v as usize,
        n_variables: nvar_v as usize,
        output_variables: outp_us,
    };
    Some(header)
}

} // verus!
