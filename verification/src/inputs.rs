//! The public-inputs file: (index, value) pairs consumed only for their
//! value sequence at verification time.
//!
//! The value order handed to the verifier is re-derived by sorting on the
//! index, never taken from the file's row order, so that a reordered file
//! verifies the same proof.

use vstd::prelude::*;
use vstd::multiset::Multiset;
use crate::errors::BridgeError;
use crate::field::Scalar;
use crate::witness::{spec_load_entries, load_entries};
use crate::records::{spec_lines, split_lines};

verus! {

/// The contents of a public-inputs file: one (index, value) entry per
/// nonempty line, in file order. Unlike the other formats, this file opens
/// with no header line.
#[derive(Clone, PartialEq, Eq)]
pub struct Inputs {
    /// The entries, in file order.
    pub inputs: Vec<(usize, Scalar)>,
}

impl View for Inputs {
    type V = Seq<(usize, Scalar)>;

    open spec fn view(&self) -> Seq<(usize, Scalar)> {
        self.inputs@
    }
}

/// Decode a whole public-inputs file: one assignment entry per nonempty
/// line. An empty file holds no entries.
pub open spec fn spec_parse_inputs_file(bytes: Seq<u8>) -> Result<Seq<(usize, Scalar)>, BridgeError> {
    spec_load_entries(spec_lines(bytes), 0)
}

/// Decode a whole public-inputs file from its bytes.
///
/// Fails with `MalformedRecord` naming the first line that is not an
/// (index, value) pair, and with `InvalidFieldElement` when a value is not
/// a decimal field literal.
pub fn parse_inputs_file(bytes: &[u8]) -> (r: Result<Inputs, BridgeError>)
    ensures
        match r {
            Ok(inputs) => spec_parse_inputs_file(bytes@) == Ok::<
                Seq<(usize, Scalar)>,
                BridgeError,
            >(inputs@),
            Err(e) => spec_parse_inputs_file(bytes@) == Err::<Seq<(usize, Scalar)>, BridgeError>(e),
        },
{
    let lines = split_lines(bytes);
    match load_entries(&lines, 0) {
        Err(e) => Err(e),
        Ok(entries) => Ok(Inputs { inputs: entries }),
    }
}

/// Entry keys never decrease from left to right.
pub open spec fn sorted_by_index(s: Seq<(usize, Scalar)>) -> bool {
    forall|i: int, j: int| 0 <= i < j < s.len() ==> (#[trigger] s[i]).0 <= (#[trigger] s[j]).0
}

/// Place an entry after every entry of a sorted sequence whose key is not
/// larger: stable insertion.
pub open spec fn spec_insert_entry(s: Seq<(usize, Scalar)>, e: (usize, Scalar)) -> Seq<
    (usize, Scalar),
>
    decreases s.len(),
{
    if s.len() == 0 {
        seq![e]
    } else if s.last().0 > e.0 {
        spec_insert_entry(s.drop_last(), e).push(s.last())
    } else {
        s.push(e)
    }
}

/// Sort the entries by key, keeping the file order of entries with equal
/// keys: insertion sort.
pub open spec fn spec_sort_entries(s: Seq<(usize, Scalar)>) -> Seq<(usize, Scalar)>
    decreases s.len(),
{
    if s.len() == 0 {
        Seq::empty()
    } else {
        spec_insert_entry(spec_sort_entries(s.drop_last()), s.last())
    }
}

/// Inserting keeps sortedness and adds exactly the new entry.
pub proof fn lemma_insert_entry_props(s: Seq<(usize, Scalar)>, e: (usize, Scalar))
    requires
        sorted_by_index(s),
    ensures
        sorted_by_index(spec_insert_entry(s, e)),
        spec_insert_entry(s, e).to_multiset() == s.to_multiset().insert(e),
        spec_insert_entry(s, e).len() == s.len() + 1,
    decreases s.len(),
{
    broadcast use vstd::seq_lib::group_to_multiset_ensures;

    let out = spec_insert_entry(s, e);
    if s.len() == 0 {
        assert(out =~= Seq::<(usize, Scalar)>::empty().push(e));
        assert(Seq::<(usize, Scalar)>::empty().to_multiset() =~= Multiset::<(usize, Scalar)>::empty());
        assert(out.to_multiset() =~= s.to_multiset().insert(e));
    } else if s.last().0 > e.0 {
        assert(sorted_by_index(s.drop_last())) by {
            assert(forall|i: int, j: int|
                0 <= i < j < s.drop_last().len() ==> (#[trigger] s.drop_last()[i]).0
                    <= (#[trigger] s.drop_last()[j]).0);
        }
        lemma_insert_entry_props(s.drop_last(), e);
        let inner = spec_insert_entry(s.drop_last(), e);
        assert(out =~= inner.push(s.last()));
        assert(sorted_by_index(out)) by {
            assert forall|i: int, j: int|
                0 <= i < j < out.len() implies (#[trigger] out[i]).0 <= (#[trigger] out[j]).0 by {
                if j < out.len() - 1 {
                    assert(out[i] == inner[i] && out[j] == inner[j]);
                } else {
                    assert(out[j] == s.last());
                    assert(out[i] == inner[i]);
                    assert(inner.to_multiset().count(inner[i]) > 0);
                    assert(s.drop_last().to_multiset().insert(e).count(inner[i]) > 0);
                    if inner[i] == e {
                        assert(out[i].0 <= out[j].0);
                    } else {
                        assert(s.drop_last().to_multiset().count(inner[i]) > 0);
                        assert(s.drop_last().contains(inner[i]));
                        let k = choose|k: int|
                            0 <= k < s.drop_last().len() && s.drop_last()[k] == inner[i];
                        assert(s[k] == inner[i]);
                        assert(s[k].0 <= s.last().0);
                    }
                }
            }
        }
        assert(out.to_multiset() =~= inner.to_multiset().insert(s.last()));
        assert(s.drop_last().push(s.last()) =~= s);
        assert(s.drop_last().to_multiset().insert(s.last()) =~= s.to_multiset());
        assert(out.to_multiset() =~= s.to_multiset().insert(e)) by {
            assert(inner.to_multiset() =~= s.drop_last().to_multiset().insert(e));
        }
    } else {
        assert(out =~= s.push(e));
        assert(sorted_by_index(out)) by {
            assert forall|i: int, j: int|
                0 <= i < j < out.len() implies (#[trigger] out[i]).0 <= (#[trigger] out[j]).0 by {
                if j < out.len() - 1 {
                    assert(out[i] == s[i] && out[j] == s[j]);
                } else {
                    assert(out[j] == e);
                    assert(out[i] == s[i]);
                    if i < s.len() - 1 {
                        assert(s[i].0 <= s[s.len() - 1].0);
                    }
                    assert(s[i].0 <= s.last().0);
                    assert(s.last().0 <= e.0);
                }
            }
        }
    }
}

/// Sorting keeps exactly the entries, sorted by key.
pub proof fn lemma_sort_entries_props(s: Seq<(usize, Scalar)>)
    ensures
        sorted_by_index(spec_sort_entries(s)),
        spec_sort_entries(s).to_multiset() == s.to_multiset(),
        spec_sort_entries(s).len() == s.len(),
    decreases s.len(),
{
    broadcast use vstd::seq_lib::group_to_multiset_ensures;

    if s.len() == 0 {
        assert(spec_sort_entries(s) =~= Seq::<(usize, Scalar)>::empty());
        assert(s.to_multiset() =~= Seq::<(usize, Scalar)>::empty().to_multiset());
    } else {
        lemma_sort_entries_props(s.drop_last());
        lemma_insert_entry_props(spec_sort_entries(s.drop_last()), s.last());
        assert(s.drop_last().push(s.last()) =~= s);
        assert(s.drop_last().to_multiset().insert(s.last()) =~= s.to_multiset());
        assert(spec_sort_entries(s).to_multiset() =~= s.to_multiset()) by {
            assert(spec_sort_entries(s).to_multiset() == spec_sort_entries(
                s.drop_last(),
            ).to_multiset().insert(s.last()));
        }
    }
}

/// Insert one entry into a sorted vector, after every entry whose key is
/// not larger.
fn insert_entry(v: &mut Vec<(usize, Scalar)>, e: (usize, Scalar))
    ensures
        final(v)@ == spec_insert_entry(old(v)@, e),
{
    let ghost orig = v@;
    let mut pos = v.len();
    proof {
        assert(orig.subrange(0, orig.len() as int) =~= orig);
        assert(orig.subrange(orig.len() as int, orig.len() as int) =~= Seq::<
            (usize, Scalar),
        >::empty());
        assert(spec_insert_entry(orig, e) + Seq::<(usize, Scalar)>::empty() =~= spec_insert_entry(
            orig,
            e,
        ));
    }
    loop
        invariant
            pos <= v@.len(),
            v@ == orig,
            forall|k: int| pos <= k < v@.len() ==> (#[trigger] v@[k]).0 > e.0,
            spec_insert_entry(orig, e) == spec_insert_entry(orig.subrange(0, pos as int), e)
                + orig.subrange(pos as int, orig.len() as int),
        ensures
            pos <= v@.len(),
            v@ == orig,
            pos == 0 || v@[pos - 1].0 <= e.0,
            spec_insert_entry(orig, e) == spec_insert_entry(orig.subrange(0, pos as int), e)
                + orig.subrange(pos as int, orig.len() as int),
        decreases pos,
    {
        proof {
            assert(orig.subrange(pos as int, orig.len() as int) =~= orig.subrange(
                pos as int,
                orig.len() as int,
            ));
        }
        if pos == 0 {
            break;
        }
        if v[pos - 1].0 <= e.0 {
            break;
        }
        proof {
            let pre = orig.subrange(0, pos as int);
            assert(pre.last() == orig[pos - 1]);
            assert(pre.drop_last() =~= orig.subrange(0, pos - 1));
            assert(spec_insert_entry(pre, e) == spec_insert_entry(
                orig.subrange(0, pos - 1),
                e,
            ).push(orig[pos - 1]));
            assert(spec_insert_entry(orig.subrange(0, pos - 1), e).push(orig[pos - 1])
                + orig.subrange(pos as int, orig.len() as int) =~= spec_insert_entry(
                orig.subrange(0, pos - 1),
                e,
            ) + orig.subrange(pos - 1, orig.len() as int));
        }
        pos = pos - 1;
    }
    proof {
        if pos == 0 {
            assert(orig.subrange(0, 0) =~= Seq::<(usize, Scalar)>::empty());
            assert(spec_insert_entry(orig.subrange(0, 0), e) =~= seq![e]);
        } else {
            let pre = orig.subrange(0, pos as int);
            assert(pre.last() == orig[pos - 1]);
            assert(pre.last().0 <= e.0);
            assert(spec_insert_entry(pre, e) == pre.push(e));
        }
        assert(spec_insert_entry(orig.subrange(0, pos as int), e) =~= orig.subrange(
            0,
            pos as int,
        ).push(e));
    }
    v.insert(pos, e);
    proof {
        assert(v@ =~= orig.subrange(0, pos as int).push(e) + orig.subrange(
            pos as int,
            orig.len() as int,
        ));
    }
}

impl Inputs {
    /// The values sorted by variable index, ascending, entries with equal
    /// indices keeping their file order. This is the sequence handed to the
    /// verifier: it depends on the indices, never on the file's row order.
    pub fn sorted_values(&self) -> (r: Vec<Scalar>)
        ensures
            r@ == spec_sort_entries(self.inputs@).map_values(|e: (usize, Scalar)| e.1),
    {
        let mut sorted: Vec<(usize, Scalar)> = Vec::new();
        let mut i: usize = 0;
        proof {
            assert(sorted@ =~= spec_sort_entries(self.inputs@.subrange(0, 0)));
        }
        while i < self.inputs.len()
            invariant
                i <= self.inputs@.len(),
                sorted@ == spec_sort_entries(self.inputs@.subrange(0, i as int)),
            decreases self.inputs@.len() - i,
        {
            let e = self.inputs[i];
            insert_entry(&mut sorted, e);
            proof {
                assert(self.inputs@.subrange(0, i + 1).drop_last() =~= self.inputs@.subrange(
                    0,
                    i as int,
                ));
                assert(self.inputs@.subrange(0, i + 1).last() == self.inputs@[i as int]);
            }
            i = i + 1;
        }
        proof {
            assert(self.inputs@.subrange(0, i as int) =~= self.inputs@);
        }
        let mut out: Vec<Scalar> = Vec::new();
        let mut j: usize = 0;
        let ghost target = spec_sort_entries(self.inputs@);
        proof {
            assert(out@ =~= target.subrange(0, 0).map_values(|e: (usize, Scalar)| e.1));
        }
        while j < sorted.len()
            invariant
                j <= sorted@.len(),
                sorted@ == target,
                out@ == target.subrange(0, j as int).map_values(|e: (usize, Scalar)| e.1),
            decreases sorted@.len() - j,
        {
            out.push(sorted[j].1);
            proof {
                assert(target.subrange(0, j + 1) =~= target.subrange(0, j as int).push(
                    target[j as int],
                ));
                assert(target.subrange(0, j + 1).map_values(|e: (usize, Scalar)| e.1)
                    =~= target.subrange(0, j as int).map_values(|e: (usize, Scalar)| e.1).push(
                    target[j as int].1,
                ));
            }
            j = j + 1;
        }
        proof {
            assert(target.subrange(0, j as int) =~= target);
        }
        out
    }
}

} // verus!
