//! Line splitting and decoding of the JSON record shapes the file formats
//! use.
//!
//! Every record is one line of UTF-8 text holding a single JSON value built
//! from objects, arrays, unsigned integers and strings of printable ASCII.
//! Each decoding function is a plain function of the bytes; its result is
//! pinned to a specification-level parser, so that re-running a loader on
//! the same bytes always rebuilds the same structures.

use vstd::prelude::*;
use crate::field::is_ascii_digit;

verus! {

/// JSON insignificant whitespace.
pub open spec fn is_json_ws(b: u8) -> bool {
    b == 32 || b == 9 || b == 10 || b == 13
}

/// The first position at or after `i` that does not hold whitespace.
pub open spec fn spec_skip_ws(s: Seq<u8>, i: int) -> int
    decreases s.len() - i,
{
    if 0 <= i < s.len() && is_json_ws(s[i]) {
        spec_skip_ws(s, i + 1)
    } else {
        i
    }
}

/// Advance past whitespace.
pub fn skip_ws(s: &[u8], i: usize) -> (r: usize)
    requires
        i <= s@.len(),
    ensures
        r == spec_skip_ws(s@, i as int),
        i <= r <= s@.len(),
{
    let mut j = i;
    loop
        invariant
            i <= j <= s@.len(),
            spec_skip_ws(s@, i as int) == spec_skip_ws(s@, j as int),
        ensures
            i <= j <= s@.len(),
            spec_skip_ws(s@, i as int) == j,
        decreases s@.len() - j,
    {
        if j == s.len() {
            break;
        }
        let b = s[j];
        if !(b == 32 || b == 9 || b == 10 || b == 13) {
            break;
        }
        j = j + 1;
    }
    j
}

/// The end of the run of decimal digits that starts at `i`.
pub open spec fn digit_run_end(s: Seq<u8>, i: int) -> int
    decreases s.len() - i,
{
    if 0 <= i < s.len() && is_ascii_digit(s[i]) {
        digit_run_end(s, i + 1)
    } else {
        i
    }
}

pub proof fn lemma_digit_run_end_range(s: Seq<u8>, i: int)
    requires
        0 <= i <= s.len(),
    ensures
        i <= digit_run_end(s, i) <= s.len(),
        digit_run_end(s, i) < s.len() ==> !is_ascii_digit(s[digit_run_end(s, i)]),
        forall|k: int| i <= k < digit_run_end(s, i) ==> is_ascii_digit(#[trigger] s[k]),
    decreases s.len() - i,
{
    if i < s.len() && is_ascii_digit(s[i]) {
        lemma_digit_run_end_range(s, i + 1);
    }
}

/// The value of a run of decimal digits.
pub open spec fn dec_value(digits: Seq<u8>) -> nat
    decreases digits.len(),
{
    if digits.len() == 0 {
        0
    } else {
        10 * dec_value(digits.drop_last()) + (if digits.last() >= 48 {
            (digits.last() - 48) as nat
        } else {
            0
        })
    }
}

/// Appending a digit multiplies the value by ten and adds the digit.
pub proof fn lemma_dec_value_push(digits: Seq<u8>, d: u8)
    requires
        48 <= d <= 57,
    ensures
        dec_value(digits.push(d)) == 10 * dec_value(digits) + (d - 48),
{
    assert(digits.push(d).drop_last() =~= digits);
    assert(digits.push(d).last() == d);
}

/// A longer run of digits never has a smaller value.
pub proof fn lemma_dec_value_monotonic(s: Seq<u8>, i: int, j: int, k: int)
    requires
        0 <= i <= j <= k <= s.len(),
        forall|m: int| i <= m < k ==> is_ascii_digit(#[trigger] s[m]),
    ensures
        dec_value(s.subrange(i, j)) <= dec_value(s.subrange(i, k)),
    decreases k - j,
{
    if j < k {
        lemma_dec_value_monotonic(s, i, j + 1, k);
        assert(s.subrange(i, j + 1) =~= s.subrange(i, j).push(s[j]));
        lemma_dec_value_push(s.subrange(i, j), s[j]);
    }
}

/// Decode an unsigned JSON integer starting at `i`: a digit run with no
/// unnecessary leading zero, whose value fits in 64 bits.
pub open spec fn spec_parse_u64(s: Seq<u8>, i: int) -> Option<(u64, int)> {
    let j = digit_run_end(s, i);
    if j == i {
        None
    } else if s[i] == 48 && j > i + 1 {
        None
    } else if dec_value(s.subrange(i, j)) > u64::MAX {
        None
    } else {
        Some((dec_value(s.subrange(i, j)) as u64, j))
    }
}

/// Decode an unsigned JSON integer.
pub fn parse_u64(s: &[u8], i: usize) -> (r: Option<(u64, usize)>)
    requires
        i <= s@.len(),
    ensures
        match r {
            None => spec_parse_u64(s@, i as int) is None,
            Some((v, j)) => spec_parse_u64(s@, i as int) == Some((v, j as int)) && i < j
                <= s@.len(),
        },
{
    proof {
        lemma_digit_run_end_range(s@, i as int);
    }
    let ghost end = digit_run_end(s@, i as int);
    if i == s.len() || s[i] < 48 || s[i] > 57 {
        return None;
    }
    if s[i] == 48 {
        // A leading zero is only the single digit zero.
        if i + 1 < s.len() && s[i + 1] >= 48 && s[i + 1] <= 57 {
            proof {
                assert(digit_run_end(s@, i as int) == digit_run_end(s@, i + 1));
                assert(digit_run_end(s@, i + 1) == digit_run_end(s@, i + 2));
                lemma_digit_run_end_range(s@, i + 2);
            }
            return None;
        }
        proof {
            assert(digit_run_end(s@, i as int) == digit_run_end(s@, i + 1));
            assert(end == i + 1);
            let digits = s@.subrange(i as int, end);
            assert(digits =~= seq![48u8]);
            assert(digits.drop_last() =~= Seq::<u8>::empty());
            assert(dec_value(digits.drop_last()) == 0);
            assert(digits.last() == 48);
            assert(dec_value(digits) == 0);
        }
        return Some((0, i + 1));
    }
    proof {
        assert(is_ascii_digit(s@[i as int]));
        assert(digit_run_end(s@, i as int) == digit_run_end(s@, i + 1));
        lemma_digit_run_end_range(s@, i + 1);
        assert(end > i);
    }
    let mut acc: u64 = 0;
    let mut j = i;
    loop
        invariant
            i <= j <= s@.len(),
            j <= end <= s@.len(),
            i < end,
            end == digit_run_end(s@, i as int),
            s@[i as int] != 48,
            forall|m: int| i <= m < end ==> is_ascii_digit(#[trigger] s@[m]),
            end < s@.len() ==> !is_ascii_digit(s@[end]),
            j < end ==> is_ascii_digit(s@[j as int]),
            j == end ==> (j == s@.len() || !is_ascii_digit(s@[j as int])),
            acc == dec_value(s@.subrange(i as int, j as int)),
        ensures
            i <= j <= s@.len(),
            j == end,
            acc == dec_value(s@.subrange(i as int, j as int)),
            dec_value(s@.subrange(i as int, end)) <= u64::MAX,
        decreases s@.len() - j,
    {
        if j == s.len() {
            break;
        }
        let b = s[j];
        if b < 48 || b > 57 {
            proof {
                assert(j == end) by {
                    if j < end {
                        assert(is_ascii_digit(s@[j as int]));
                    }
                }
            }
            break;
        }
        proof {
            assert(j < end) by {
                if j == end {
                    assert(!is_ascii_digit(s@[j as int]));
                }
            }
        }
        let d: u64 = (b - 48) as u64;
        if acc > (u64::MAX - d) / 10 {
            // The run's value exceeds 64 bits.
            proof {
                lemma_dec_value_push(s@.subrange(i as int, j as int), b);
                assert(s@.subrange(i as int, j + 1) =~= s@.subrange(i as int, j as int).push(b));
                lemma_dec_value_monotonic(s@, i as int, j + 1, end);
                assert(dec_value(s@.subrange(i as int, end)) > u64::MAX);
            }
            return None;
        }
        proof {
            lemma_dec_value_push(s@.subrange(i as int, j as int), b);
            assert(s@.subrange(i as int, j + 1) =~= s@.subrange(i as int, j as int).push(b));
        }
        acc = acc * 10 + d;
        j = j + 1;
    }
    proof {
        assert(j == digit_run_end(s@, i as int));
        assert(i < j);
        assert(s@[i as int] != 48);
    }
    Some((acc, j))
}

/// A byte that may stand unescaped inside a string literal of these
/// formats: printable ASCII other than the quote and the backslash.
pub open spec fn is_string_content(b: u8) -> bool {
    32 <= b <= 126 && b != 34 && b != 92
}

/// The end of the run of string-content bytes that starts at `i`.
pub open spec fn string_run_end(s: Seq<u8>, i: int) -> int
    decreases s.len() - i,
{
    if 0 <= i < s.len() && is_string_content(s[i]) {
        string_run_end(s, i + 1)
    } else {
        i
    }
}

pub proof fn lemma_string_run_end_range(s: Seq<u8>, i: int)
    requires
        0 <= i <= s.len(),
    ensures
        i <= string_run_end(s, i) <= s.len(),
        string_run_end(s, i) < s.len() ==> !is_string_content(s[string_run_end(s, i)]),
        forall|k: int| i <= k < string_run_end(s, i) ==> is_string_content(#[trigger] s[k]),
    decreases s.len() - i,
{
    if i < s.len() && is_string_content(s[i]) {
        lemma_string_run_end_range(s, i + 1);
    }
}

/// Decode a string literal starting at `i`: a quote, a run of printable
/// ASCII without quotes or backslashes, and a closing quote. The result is
/// the content between the quotes.
pub open spec fn spec_parse_string(s: Seq<u8>, i: int) -> Option<(Seq<u8>, int)> {
    if !(0 <= i < s.len() && s[i] == 34) {
        None
    } else {
        let j = string_run_end(s, i + 1);
        if j < s.len() && s[j] == 34 {
            Some((s.subrange(i + 1, j), j + 1))
        } else {
            None
        }
    }
}

/// Decode a string literal; the returned position stands after the closing
/// quote.
pub fn parse_string(s: &[u8], i: usize) -> (r: Option<(Vec<u8>, usize)>)
    requires
        i <= s@.len(),
    ensures
        match r {
            None => spec_parse_string(s@, i as int) is None,
            Some((v, j)) => spec_parse_string(s@, i as int) == Some((v@, j as int)) && i < j
                <= s@.len(),
        },
{
    if i == s.len() || s[i] != 34 {
        return None;
    }
    proof {
        lemma_string_run_end_range(s@, i + 1);
    }
    let ghost end = string_run_end(s@, i + 1);
    let mut out: Vec<u8> = Vec::new();
    let mut j = i + 1;
    loop
        invariant
            i + 1 <= j <= end <= s@.len(),
            forall|m: int| i + 1 <= m < end ==> is_string_content(#[trigger] s@[m]),
            end < s@.len() ==> !is_string_content(s@[end]),
            out@ == s@.subrange(i + 1, j as int),
        ensures
            j == end,
            out@ == s@.subrange(i + 1, end),
        decreases s@.len() - j,
    {
        if j == s.len() {
            proof {
                assert(j == end);
            }
            break;
        }
        let b = s[j];
        if !(32 <= b && b <= 126 && b != 34 && b != 92) {
            proof {
                assert(j == end) by {
                    if j < end {
                        assert(is_string_content(s@[j as int]));
                    }
                }
            }
            break;
        }
        proof {
            assert(j < end) by {
                if j == end {
                    assert(!is_string_content(s@[j as int]));
                }
            }
            assert(s@.subrange(i + 1, j + 1) =~= s@.subrange(i + 1, j as int).push(s@[j as int]));
        }
        out.push(b);
        j = j + 1;
    }
    if j < s.len() && s[j] == 34 {
        Some((out, j + 1))
    } else {
        None
    }
}

/// Decode the elements of a nonempty array of unsigned integers, starting
/// at the first element; `acc` holds the elements already decoded.
pub open spec fn spec_parse_index_elems(s: Seq<u8>, i: int, acc: Seq<u64>) -> Option<
    (Seq<u64>, int),
>
    decreases s.len() - i,
{
    match spec_parse_u64(s, i) {
        None => None,
        Some((v, j)) => {
            let k = spec_skip_ws(s, j);
            if 0 <= k < s.len() && s[k] == 44 {
                let m = spec_skip_ws(s, k + 1);
                if i < m <= s.len() {
                    spec_parse_index_elems(s, m, acc.push(v))
                } else {
                    None
                }
            } else if 0 <= k < s.len() && s[k] == 93 {
                Some((acc.push(v), k + 1))
            } else {
                None
            }
        },
    }
}

/// Decode an array of unsigned integers starting at `i`.
pub open spec fn spec_parse_index_array(s: Seq<u8>, i: int) -> Option<(Seq<u64>, int)> {
    if !(0 <= i < s.len() && s[i] == 91) {
        None
    } else {
        let j = spec_skip_ws(s, i + 1);
        if 0 <= j < s.len() && s[j] == 93 {
            Some((Seq::empty(), j + 1))
        } else {
            spec_parse_index_elems(s, j, Seq::empty())
        }
    }
}

/// Decode an array of unsigned integers.
pub fn parse_index_array(s: &[u8], i: usize) -> (r: Option<(Vec<u64>, usize)>)
    requires
        i <= s@.len(),
    ensures
        match r {
            None => spec_parse_index_array(s@, i as int) is None,
            Some((v, j)) => spec_parse_index_array(s@, i as int) == Some((v@, j as int)) && i < j
                <= s@.len(),
        },
{
    if i == s.len() || s[i] != 91 {
        return None;
    }
    let start = skip_ws(s, i + 1);
    if start < s.len() && s[start] == 93 {
        let empty: Vec<u64> = Vec::new();
        proof {
            assert(empty@ =~= Seq::<u64>::empty());
        }
        return Some((empty, start + 1));
    }
    let mut acc: Vec<u64> = Vec::new();
    let mut pos = start;
    proof {
        assert(spec_parse_index_array(s@, i as int) == spec_parse_index_elems(
            s@,
            pos as int,
            acc@,
        ));
    }
    loop
        invariant
            i < pos <= s@.len(),
            spec_parse_index_array(s@, i as int) == spec_parse_index_elems(s@, pos as int, acc@),
        decreases s@.len() - pos,
    {
        match parse_u64(s, pos) {
            None => {
                return None;
            },
            Some((v, j)) => {
                let k = skip_ws(s, j);
                if k < s.len() && s[k] == 44 {
                    let m = skip_ws(s, k + 1);
                    acc.push(v);
                    proof {
                        assert(pos < m <= s@.len());
                    }
                    if m <= pos {
                        // Unreachable: the scan always advances.
                        return None;
                    }
                    pos = m;
                } else if k < s.len() && s[k] == 93 {
                    acc.push(v);
                    return Some((acc, k + 1));
                } else {
                    return None;
                }
            },
        }
    }
}

/// Decode one coefficient-index pair `["coefficient", index]` starting at
/// `i`: the coefficient as the raw digits of its decimal literal, the index
/// as an unsigned integer.
pub open spec fn spec_parse_term(s: Seq<u8>, i: int) -> Option<((Seq<u8>, u64), int)> {
    if !(0 <= i < s.len() && s[i] == 91) {
        None
    } else {
        let j = spec_skip_ws(s, i + 1);
        match spec_parse_string(s, j) {
            None => None,
            Some((coeff, k)) => {
                let m = spec_skip_ws(s, k);
                if 0 <= m < s.len() && s[m] == 44 {
                    let p = spec_skip_ws(s, m + 1);
                    match spec_parse_u64(s, p) {
                        None => None,
                        Some((v, q)) => {
                            let t = spec_skip_ws(s, q);
                            if 0 <= t < s.len() && s[t] == 93 {
                                Some(((coeff, v), t + 1))
                            } else {
                                None
                            }
                        },
                    }
                } else {
                    None
                }
            },
        }
    }
}

/// Decode one coefficient-index pair.
pub fn parse_term(s: &[u8], i: usize) -> (r: Option<((Vec<u8>, u64), usize)>)
    requires
        i <= s@.len(),
    ensures
        match r {
            None => spec_parse_term(s@, i as int) is None,
            Some(((coeff, v), j)) => spec_parse_term(s@, i as int) == Some(
                ((coeff@, v), j as int),
            ) && i < j <= s@.len(),
        },
{
    if i == s.len() || s[i] != 91 {
        return None;
    }
    let j = skip_ws(s, i + 1);
    match parse_string(s, j) {
        None => None,
        Some((coeff, k)) => {
            let m = skip_ws(s, k);
            if m < s.len() && s[m] == 44 {
                let p = skip_ws(s, m + 1);
                match parse_u64(s, p) {
                    None => None,
                    Some((v, q)) => {
                        let t = skip_ws(s, q);
                        if t < s.len() && s[t] == 93 {
                            Some(((coeff, v), t + 1))
                        } else {
                            None
                        }
                    },
                }
            } else {
                None
            }
        },
    }
}

/// The view of a decoded term list: each coefficient as its byte sequence.
pub open spec fn terms_view(v: Seq<(Vec<u8>, u64)>) -> Seq<(Seq<u8>, u64)> {
    v.map_values(|p: (Vec<u8>, u64)| (p.0@, p.1))
}

/// Decode the elements of a nonempty array of coefficient-index pairs.
pub open spec fn spec_parse_term_elems(s: Seq<u8>, i: int, acc: Seq<(Seq<u8>, u64)>) -> Option<
    (Seq<(Seq<u8>, u64)>, int),
>
    decreases s.len() - i,
{
    match spec_parse_term(s, i) {
        None => None,
        Some((term, j)) => {
            let k = spec_skip_ws(s, j);
            if 0 <= k < s.len() && s[k] == 44 {
                let m = spec_skip_ws(s, k + 1);
                if i < m <= s.len() {
                    spec_parse_term_elems(s, m, acc.push(term))
                } else {
                    None
                }
            } else if 0 <= k < s.len() && s[k] == 93 {
                Some((acc.push(term), k + 1))
            } else {
                None
            }
        },
    }
}

/// Decode an array of coefficient-index pairs starting at `i`.
pub open spec fn spec_parse_term_array(s: Seq<u8>, i: int) -> Option<(Seq<(Seq<u8>, u64)>, int)> {
    if !(0 <= i < s.len() && s[i] == 91) {
        None
    } else {
        let j = spec_skip_ws(s, i + 1);
        if 0 <= j < s.len() && s[j] == 93 {
            Some((Seq::empty(), j + 1))
        } else {
            spec_parse_term_elems(s, j, Seq::empty())
        }
    }
}

/// Decode an array of coefficient-index pairs.
pub fn parse_term_array(s: &[u8], i: usize) -> (r: Option<(Vec<(Vec<u8>, u64)>, usize)>)
    requires
        i <= s@.len(),
    ensures
        match r {
            None => spec_parse_term_array(s@, i as int) is None,
            Some((v, j)) => spec_parse_term_array(s@, i as int) == Some(
                (terms_view(v@), j as int),
            ) && i < j <= s@.len(),
        },
{
    if i == s.len() || s[i] != 91 {
        return None;
    }
    let start = skip_ws(s, i + 1);
    if start < s.len() && s[start] == 93 {
        let empty: Vec<(Vec<u8>, u64)> = Vec::new();
        proof {
            assert(terms_view(empty@) =~= Seq::<(Seq<u8>, u64)>::empty());
        }
        return Some((empty, start + 1));
    }
    let mut acc: Vec<(Vec<u8>, u64)> = Vec::new();
    let mut pos = start;
    proof {
        assert(terms_view(acc@) =~= Seq::<(Seq<u8>, u64)>::empty());
        assert(spec_parse_term_array(s@, i as int) == spec_parse_term_elems(
            s@,
            pos as int,
            terms_view(acc@),
        ));
    }
    loop
        invariant
            i < pos <= s@.len(),
            spec_parse_term_array(s@, i as int) == spec_parse_term_elems(
                s@,
                pos as int,
                terms_view(acc@),
            ),
        decreases s@.len() - pos,
    {
        match parse_term(s, pos) {
            None => {
                return None;
            },
            Some(((coeff, v), j)) => {
                let ghost termv = (coeff@, v);
                let ghost old_terms = terms_view(acc@);
                let k = skip_ws(s, j);
                if k < s.len() && s[k] == 44 {
                    let m = skip_ws(s, k + 1);
                    acc.push((coeff, v));
                    proof {
                        assert(terms_view(acc@) =~= old_terms.push(termv));
                        assert(pos < m <= s@.len());
                    }
                    if m <= pos {
                        // Unreachable: the scan always advances.
                        return None;
                    }
                    pos = m;
                } else if k < s.len() && s[k] == 93 {
                    acc.push((coeff, v));
                    proof {
                        assert(terms_view(acc@) =~= old_terms.push(termv));
                    }
                    return Some((acc, k + 1));
                } else {
                    return None;
                }
            },
        }
    }
}

/// Decode a whole assignment line `[index, "coefficient"]`: an index and
/// the raw digits of a decimal coefficient literal, with nothing but
/// whitespace around them.
pub open spec fn spec_parse_pair_line(s: Seq<u8>) -> Option<(u64, Seq<u8>)> {
    let i = spec_skip_ws(s, 0);
    if !(0 <= i < s.len() && s[i] == 91) {
        None
    } else {
        let j = spec_skip_ws(s, i + 1);
        match spec_parse_u64(s, j) {
            None => None,
            Some((v, k)) => {
                let m = spec_skip_ws(s, k);
                if 0 <= m < s.len() && s[m] == 44 {
                    let p = spec_skip_ws(s, m + 1);
                    match spec_parse_string(s, p) {
                        None => None,
                        Some((coeff, q)) => {
                            let t = spec_skip_ws(s, q);
                            if 0 <= t < s.len() && s[t] == 93 {
                                if spec_skip_ws(s, t + 1) == s.len() {
                                    Some((v, coeff))
                                } else {
                                    None
                                }
                            } else {
                                None
                            }
                        },
                    }
                } else {
                    None
                }
            },
        }
    }
}

/// Decode a whole assignment line `[index, "coefficient"]`.
pub fn parse_pair_line(s: &[u8]) -> (r: Option<(u64, Vec<u8>)>)
    ensures
        match r {
            None => spec_parse_pair_line(s@) is None,
            Some((v, coeff)) => spec_parse_pair_line(s@) == Some((v, coeff@)),
        },
{
    let i = skip_ws(s, 0);
    if i == s.len() || s[i] != 91 {
        return None;
    }
    let j = skip_ws(s, i + 1);
    match parse_u64(s, j) {
        None => None,
        Some((v, k)) => {
            let m = skip_ws(s, k);
            if m < s.len() && s[m] == 44 {
                let p = skip_ws(s, m + 1);
                match parse_string(s, p) {
                    None => None,
                    Some((coeff, q)) => {
                        let t = skip_ws(s, q);
                        if t < s.len() && s[t] == 93 {
                            let u = skip_ws(s, t + 1);
                            if u == s.len() {
                                Some((v, coeff))
                            } else {
                                None
                            }
                        } else {
                            None
                        }
                    },
                }
            } else {
                None
            }
        },
    }
}

/// The position of the line break at or after `i`: the first newline byte,
/// or the end of the input.
pub open spec fn line_break(s: Seq<u8>, i: int) -> int
    decreases s.len() - i,
{
    if 0 <= i < s.len() && s[i] != 10 {
        line_break(s, i + 1)
    } else {
        i
    }
}

pub proof fn lemma_line_break_range(s: Seq<u8>, i: int)
    requires
        0 <= i <= s.len(),
    ensures
        i <= line_break(s, i) <= s.len(),
        line_break(s, i) < s.len() ==> s[line_break(s, i)] == 10,
        forall|k: int| i <= k < line_break(s, i) ==> s[k] != 10,
    decreases s.len() - i,
{
    if i < s.len() && s[i] != 10 {
        lemma_line_break_range(s, i + 1);
    }
}

/// A line with its trailing carriage return, if any, removed.
pub open spec fn strip_cr(l: Seq<u8>) -> Seq<u8> {
    if l.len() > 0 && l.last() == 13 {
        l.drop_last()
    } else {
        l
    }
}

/// The lines of the input from position `i` on: split at newline bytes,
/// each line without its line ending; a trailing newline opens no final
/// empty line.
pub open spec fn spec_lines_from(s: Seq<u8>, i: int) -> Seq<Seq<u8>>
    decreases s.len() - i,
{
    if !(0 <= i < s.len()) {
        Seq::empty()
    } else {
        let j = line_break(s, i);
        if i <= j < s.len() {
            seq![strip_cr(s.subrange(i, j))] + spec_lines_from(s, j + 1)
        } else if i <= j <= s.len() {
            seq![strip_cr(s.subrange(i, j))]
        } else {
            Seq::empty()
        }
    }
}

/// The lines of the input.
pub open spec fn spec_lines(s: Seq<u8>) -> Seq<Seq<u8>> {
    spec_lines_from(s, 0)
}

/// Split the input into lines: at newline bytes, each line without its
/// line ending (a trailing carriage return is removed too), and with no
/// final empty line after a trailing newline. An empty input has no lines.
pub fn split_lines(s: &[u8]) -> (r: Vec<Vec<u8>>)
    ensures
        r.deep_view() == spec_lines(s@),
{
    let mut out: Vec<Vec<u8>> = Vec::new();
    let mut pos: usize = 0;
    proof {
        assert(out.deep_view() =~~= Seq::<Seq<u8>>::empty());
    }
    while pos < s.len()
        invariant
            pos <= s@.len(),
            spec_lines(s@) == out.deep_view() + spec_lines_from(s@, pos as int),
        decreases s@.len() - pos,
    {
        proof {
            lemma_line_break_range(s@, pos as int);
        }
        let ghost brk = line_break(s@, pos as int);
        let mut line: Vec<u8> = Vec::new();
        let mut j = pos;
        loop
            invariant
                pos <= j <= brk <= s@.len(),
                brk == line_break(s@, pos as int),
                brk < s@.len() ==> s@[brk] == 10,
                forall|m: int| pos <= m < brk ==> s@[m] != 10,
                line@ == s@.subrange(pos as int, j as int),
            ensures
                j == brk,
                line@ == s@.subrange(pos as int, brk),
            decreases s@.len() - j,
        {
            if j == s.len() {
                break;
            }
            let b = s[j];
            if b == 10 {
                proof {
                    assert(j == brk) by {
                        if j < brk {
                            assert(s@[j as int] != 10);
                        }
                    }
                }
                break;
            }
            proof {
                assert(j < brk) by {
                    if j == brk {
                        assert(j < s@.len() && s@[j as int] != 10);
                    }
                }
                assert(s@.subrange(pos as int, j + 1) =~= s@.subrange(pos as int, j as int).push(
                    s@[j as int],
                ));
            }
            line.push(b);
            j = j + 1;
        }
        let ghost raw = s@.subrange(pos as int, brk);
        if line.len() > 0 && line[line.len() - 1] == 13 {
            line.pop();
            proof {
                assert(line@ =~= strip_cr(raw));
            }
        }
        proof {
            assert(line@ == strip_cr(raw));
        }
        let ghost old_out = out.deep_view();
        out.push(line);
        proof {
            assert(out.deep_view() =~~= old_out.push(strip_cr(raw)));
            if brk < s@.len() {
                assert(spec_lines_from(s@, pos as int) =~~= seq![strip_cr(raw)]
                    + spec_lines_from(s@, brk + 1));
                assert(old_out + spec_lines_from(s@, pos as int) =~~= out.deep_view()
                    + spec_lines_from(s@, brk + 1));
            } else {
                assert(spec_lines_from(s@, pos as int) =~~= seq![strip_cr(raw)]);
                assert(spec_lines_from(s@, brk) =~~= Seq::<Seq<u8>>::empty());
                assert(old_out + spec_lines_from(s@, pos as int) =~~= out.deep_view()
                    + spec_lines_from(s@, brk));
            }
        }
        if j == s.len() {
            pos = j;
        } else {
            pos = j + 1;
        }
    }
    proof {
        assert(spec_lines_from(s@, pos as int) =~~= Seq::<Seq<u8>>::empty());
        assert(out.deep_view() + spec_lines_from(s@, pos as int) =~~= out.deep_view());
    }
    out
}

} // verus!
