//! The splitting engine proper: one forward pass over the input's lines
//! that hands every line to each destination whose range contains its
//! 1-based number, and the post-pass check that finds ranges which began
//! past end-of-file.
//!
//! The engine works on lines already in memory; reading the input and
//! writing the destinations is the caller's I/O layer.  Because every
//! range is one contiguous interval, the lines a destination receives are
//! exactly one contiguous slice of the input, in source order.

use vstd::prelude::*;
use crate::config::SplitConfig;
use crate::digits::dec_digits;
use crate::digits::usize_to_string;
use crate::errors::RangeFailure;
use crate::errors::SplitError;
use vstd::string::StringExecFns;

verus! {

/// The first line index (0-based, inclusive) that `c` selects, clamped to
/// the number of lines.
pub open spec fn slice_lo(c: SplitConfig, total: int) -> int {
    vstd::math::min(c.start as int - 1, total)
}

/// The last line index (0-based, exclusive) that `c` selects, clamped to
/// the number of lines.
pub open spec fn slice_hi(c: SplitConfig, total: int) -> int {
    vstd::math::min(c.end as int, total)
}

/// The lines that the destination of `c` receives: the contiguous slice
/// of the input selected by `[start, end]`, cut off at end-of-file.
pub open spec fn spec_slice_for(lines: Seq<String>, c: SplitConfig) -> Seq<String>
    recommends
        c.wf(),
{
    lines.subrange(slice_lo(c, lines.len() as int), slice_hi(c, lines.len() as int))
}

/// Fans the input lines out to one group per config, in a single forward
/// pass per destination slice.  Group `i` holds exactly the lines whose
/// 1-based number lies in `[parts[i].start, parts[i].end]`, in source
/// order.
pub fn split_lines(lines: &Vec<String>, parts: &Vec<SplitConfig>) -> (outs: Vec<Vec<String>>)
    requires
        forall|i: int| 0 <= i < parts@.len() ==> (#[trigger] parts@[i]).wf(),
    ensures
        outs@.len() == parts@.len(),
        forall|i: int|
            0 <= i < parts@.len() ==> (#[trigger] outs@[i])@ == spec_slice_for(lines@, parts@[i]),
{
    let total = lines.len();
    let mut outs: Vec<Vec<String>> = Vec::new();
    let mut pi: usize = 0;
    while pi < parts.len()
        invariant
            0 <= pi <= parts@.len(),
            total == lines@.len(),
            outs@.len() == pi,
            forall|i: int| 0 <= i < parts@.len() ==> (#[trigger] parts@[i]).wf(),
            forall|i: int|
                0 <= i < pi ==> (#[trigger] outs@[i])@ == spec_slice_for(lines@, parts@[i]),
        decreases parts@.len() - pi,
    {
        let start = parts[pi].start;
        let end = parts[pi].end;
        let lo = if start - 1 < total {
            start - 1
        } else {
            total
        };
        let hi = if end < total {
            end
        } else {
            total
        };
        let mut group: Vec<String> = Vec::new();
        let mut j: usize = lo;
        while j < hi
            invariant
                lo <= j <= hi <= lines@.len(),
                total == lines@.len(),
                group@ == lines@.subrange(lo as int, j as int),
            decreases hi - j,
        {
            group.push(lines[j].clone());
            j = j + 1;
            proof {
                assert(lines@.subrange(lo as int, j as int) =~= lines@.subrange(
                    lo as int,
                    j - 1,
                ).push(lines@[j - 1]));
            }
        }
        proof {
            assert(group@ == spec_slice_for(lines@, parts@[pi as int]));
        }
        outs.push(group);
        pi = pi + 1;
    }
    outs
}

/// The positions (in plan order) of the ranges that began past line
/// `total`.
pub open spec fn spec_failed_indices(parts: Seq<SplitConfig>, total: nat) -> Seq<usize>
    decreases parts.len(),
{
    if parts.len() == 0 {
        Seq::empty()
    } else {
        let rest = spec_failed_indices(parts.drop_last(), total);
        if parts.last().start > total {
            rest.push((parts.len() - 1) as usize)
        } else {
            rest
        }
    }
}

/// The bounds of the ranges that began past line `total`, in plan order.
pub open spec fn spec_failures(parts: Seq<SplitConfig>, total: nat) -> Seq<RangeFailure>
    decreases parts.len(),
{
    if parts.len() == 0 {
        Seq::empty()
    } else {
        let rest = spec_failures(parts.drop_last(), total);
        if parts.last().start > total {
            rest.push(RangeFailure { start: parts.last().start, end: parts.last().end })
        } else {
            rest
        }
    }
}

/// No range fails the coverage check exactly when every range starts at
/// or before line `total`.
pub proof fn lemma_spec_failures_empty(parts: Seq<SplitConfig>, total: nat)
    ensures
        spec_failures(parts, total).len() == 0 <==> (forall|i: int|
            0 <= i < parts.len() ==> (#[trigger] parts[i]).start <= total),
    decreases parts.len(),
{
    if parts.len() > 0 {
        lemma_spec_failures_empty(parts.drop_last(), total);
        if spec_failures(parts, total).len() == 0 {
            assert forall|i: int| 0 <= i < parts.len() implies (#[trigger] parts[i]).start
                <= total by {
                if i < parts.len() - 1 {
                    assert(parts[i] == parts.drop_last()[i]);
                }
            }
        } else {
            if parts.last().start > total {
                assert(parts[parts.len() - 1].start > total);
            } else {
                assert(exists|i: int|
                    0 <= i < parts.len() - 1 && (#[trigger] parts.drop_last()[i]).start > total);
                let i = choose|i: int|
                    0 <= i < parts.len() - 1 && (#[trigger] parts.drop_last()[i]).start > total;
                assert(parts[i].start > total);
            }
        }
    }
}

/// Law: the failed positions are exactly those of ranges starting past
/// `total`, each listed once, in plan order.
pub proof fn lemma_failed_indices(parts: Seq<SplitConfig>, total: nat)
    requires
        parts.len() <= usize::MAX,
    ensures
        forall|k: int|
            0 <= k < spec_failed_indices(parts, total).len()
                ==> #[trigger] spec_failed_indices(parts, total)[k] < parts.len() && parts[
                spec_failed_indices(parts, total)[k] as int
            ].start > total,
        forall|i: int|
            0 <= i < parts.len() && (#[trigger] parts[i]).start > total ==> spec_failed_indices(
                parts,
                total,
            ).contains(i as usize),
        forall|k: int|
            0 < k < spec_failed_indices(parts, total).len() ==> #[trigger] spec_failed_indices(
                parts,
                total,
            )[k - 1] < spec_failed_indices(parts, total)[k],
    decreases parts.len(),
{
    if parts.len() > 0 {
        lemma_failed_indices(parts.drop_last(), total);
        let rest = spec_failed_indices(parts.drop_last(), total);
        let whole = spec_failed_indices(parts, total);
        assert(forall|i: int|
            0 <= i < parts.len() - 1 ==> parts[i] == #[trigger] parts.drop_last()[i]);
        if parts.last().start > total {
            assert(whole == rest.push((parts.len() - 1) as usize));
            assert(forall|k: int| 0 <= k < rest.len() ==> whole[k] == #[trigger] rest[k]);
            assert forall|i: int|
                0 <= i < parts.len() && (#[trigger] parts[i]).start > total implies whole.contains(
                i as usize,
            ) by {
                if i < parts.len() - 1 {
                    assert(parts.drop_last()[i] == parts[i]);
                    assert(rest.contains(i as usize));
                    let k = choose|k: int| 0 <= k < rest.len() && rest[k] == i as usize;
                    assert(whole[k] == i as usize);
                } else {
                    assert(whole[whole.len() - 1] == i as usize);
                }
            }
        } else {
            assert(whole == rest);
            assert forall|i: int|
                0 <= i < parts.len() && (#[trigger] parts[i]).start > total implies whole.contains(
                i as usize,
            ) by {
                assert(i < parts.len() - 1);
                assert(parts.drop_last()[i] == parts[i]);
                assert(rest.contains(i as usize));
            }
        }
    }
}

/// Lists the positions of the ranges whose start lies past the last line
/// actually read; their destination files received nothing and are the
/// ones the caller deletes.
pub fn coverage_failures(parts: &Vec<SplitConfig>, total_lines: usize) -> (idx: Vec<usize>)
    ensures
        idx@ == spec_failed_indices(parts@, total_lines as nat),
{
    let mut idx: Vec<usize> = Vec::new();
    let mut i: usize = 0;
    while i < parts.len()
        invariant
            0 <= i <= parts@.len(),
            idx@ == spec_failed_indices(parts@.subrange(0, i as int), total_lines as nat),
        decreases parts@.len() - i,
    {
        if parts[i].start > total_lines {
            idx.push(i);
        }
        i = i + 1;
        proof {
            let pref = parts@.subrange(0, i as int);
            assert(pref.drop_last() =~= parts@.subrange(0, i - 1));
            assert(pref.last() == parts@[i - 1]);
        }
    }
    proof {
        assert(parts@.subrange(0, parts@.len() as int) =~= parts@);
    }
    idx
}

/// The success summary of one split invocation.
#[derive(Clone, Copy, Debug, PartialEq, Eq, Structural)]
pub struct SplitSummary {
    pub total_lines: usize,
    pub file_count: usize,
}

/// Reconciles the plan against the number of lines actually read: an
/// aggregate coverage error when any range began past end-of-file, and a
/// success summary otherwise.  A range that merely ends past end-of-file
/// is accepted as a partial result.
pub fn verify_coverage(parts: &Vec<SplitConfig>, total_lines: usize) -> (r: Result<
    SplitSummary,
    SplitError,
>)
    ensures
        r is Ok <==> (forall|i: int|
            0 <= i < parts@.len() ==> (#[trigger] parts@[i]).start <= total_lines),
        r matches Ok(s) ==> s == (SplitSummary { total_lines, file_count: parts@.len() as usize }),
        r matches Err(e) ==> e matches SplitError::CoverageFailed { failures, total_lines: t }
            && failures@ == spec_failures(parts@, total_lines as nat) && t == total_lines,
{
    let mut failures: Vec<RangeFailure> = Vec::new();
    let mut i: usize = 0;
    while i < parts.len()
        invariant
            0 <= i <= parts@.len(),
            failures@ == spec_failures(parts@.subrange(0, i as int), total_lines as nat),
        decreases parts@.len() - i,
    {
        if parts[i].start > total_lines {
            failures.push(RangeFailure { start: parts[i].start, end: parts[i].end });
        }
        i = i + 1;
        proof {
            let pref = parts@.subrange(0, i as int);
            assert(pref.drop_last() =~= parts@.subrange(0, i - 1));
            assert(pref.last() == parts@[i - 1]);
        }
    }
    proof {
        assert(parts@.subrange(0, parts@.len() as int) =~= parts@);
        lemma_spec_failures_empty(parts@, total_lines as nat);
    }
    if failures.len() == 0 {
        Ok(SplitSummary { total_lines, file_count: parts.len() })
    } else {
        Err(SplitError::CoverageFailed { failures, total_lines })
    }
}

/// Renders the summary line reported after a fully covered run.
pub fn success_message(total_lines: usize) -> (r: String)
    ensures
        r@ == "Success! Processed "@ + dec_digits(total_lines as nat) + " lines."@,
{
    let mut r = String::from_str("Success! Processed ");
    r.append(usize_to_string(total_lines).as_str());
    r.append(" lines.");
    r
}

/// Ends of a plan whose ranges sit back to back never decrease from one
/// range to a later one.
proof fn lemma_chain_ends(parts: Seq<SplitConfig>, i: int, j: int)
    requires
        forall|k: int| 0 <= k < parts.len() ==> (#[trigger] parts[k]).wf(),
        forall|k: int| 0 < k < parts.len() ==> (#[trigger] parts[k]).start == parts[k - 1].end + 1,
        0 <= i <= j < parts.len(),
    ensures
        parts[i].end <= parts[j].end,
    decreases j - i,
{
    if i < j {
        lemma_chain_ends(parts, i, j - 1);
        assert(parts[j].start == parts[j - 1].end + 1);
    }
}

/// The outputs of the first `k` ranges of a back-to-back plan,
/// concatenated, are the input's lines up to the `k`-th range's end.
#[verifier::rlimit(100)]
#[verifier::spinoff_prover]
proof fn lemma_round_trip_prefix(
    lines: Seq<String>,
    parts: Seq<SplitConfig>,
    outs: Seq<Seq<String>>,
    k: int,
)
    requires
        outs.len() == parts.len(),
        forall|i: int| 0 <= i < parts.len() ==> (#[trigger] parts[i]).wf(),
        forall|i: int| 0 <= i < parts.len() ==> #[trigger] outs[i] == spec_slice_for(lines, parts[i]),
        parts.len() > 0,
        parts[0].start == 1,
        forall|i: int| 0 < i < parts.len() ==> (#[trigger] parts[i]).start == parts[i - 1].end + 1,
        parts[parts.len() - 1].end == lines.len(),
        1 <= k <= parts.len(),
    ensures
        outs.subrange(0, k).flatten_alt() == lines.subrange(0, parts[k - 1].end as int),
    decreases k,
{
    lemma_chain_ends(parts, k - 1, parts.len() - 1);
    assert(parts[k - 1].end <= lines.len());
    if k == 1 {
        let single = outs.subrange(0, 1);
        assert(single.drop_last() =~= Seq::<Seq<String>>::empty());
        assert(single.flatten_alt() == Seq::<Seq<String>>::empty().flatten_alt() + single.last());
        assert(outs[0] == lines.subrange(0, parts[0].end as int));
        assert(single.flatten_alt() =~= lines.subrange(0, parts[0].end as int));
    } else {
        lemma_round_trip_prefix(lines, parts, outs, k - 1);
        let sub = outs.subrange(0, k);
        assert(sub.drop_last() =~= outs.subrange(0, k - 1));
        assert(sub.flatten_alt() == outs.subrange(0, k - 1).flatten_alt() + sub.last());
        assert(sub.last() == outs[k - 1]);
        assert(parts[k - 1].start == parts[k - 2].end + 1);
        assert(outs[k - 1] == lines.subrange(
            parts[k - 2].end as int,
            parts[k - 1].end as int,
        ));
        assert(lines.subrange(0, parts[k - 2].end as int) + lines.subrange(
            parts[k - 2].end as int,
            parts[k - 1].end as int,
        ) =~= lines.subrange(0, parts[k - 1].end as int));
    }
}

/// Law: when the plan's ranges sit back to back — the first starts at
/// line 1, each next range starts right after the previous one ends, and
/// the last ends at the input's last line — concatenating the outputs in
/// plan order reproduces the input's lines exactly.
pub proof fn lemma_round_trip(lines: Seq<String>, parts: Seq<SplitConfig>, outs: Seq<Seq<String>>)
    requires
        outs.len() == parts.len(),
        forall|i: int| 0 <= i < parts.len() ==> (#[trigger] parts[i]).wf(),
        forall|i: int| 0 <= i < parts.len() ==> #[trigger] outs[i] == spec_slice_for(lines, parts[i]),
        parts.len() > 0,
        parts[0].start == 1,
        forall|i: int| 0 < i < parts.len() ==> (#[trigger] parts[i]).start == parts[i - 1].end + 1,
        parts[parts.len() - 1].end == lines.len(),
    ensures
        outs.flatten() == lines,
{
    lemma_round_trip_prefix(lines, parts, outs, parts.len() as int);
    assert(outs.subrange(0, parts.len() as int) =~= outs);
    assert(lines.subrange(0, parts[parts.len() - 1].end as int) =~= lines);
    outs.lemma_flatten_and_flatten_alt_are_equivalent();
}

/// Law: the fan-out is a function of the input lines and the plan alone;
/// two passes over the same input with the same plan yield outputs with
/// identical contents.
pub proof fn lemma_split_deterministic(
    lines: Seq<String>,
    parts: Seq<SplitConfig>,
    outs1: Seq<Seq<String>>,
    outs2: Seq<Seq<String>>,
)
    requires
        outs1.len() == parts.len(),
        outs2.len() == parts.len(),
        forall|i: int|
            0 <= i < parts.len() ==> #[trigger] outs1[i] == spec_slice_for(lines, parts[i]),
        forall|i: int|
            0 <= i < parts.len() ==> #[trigger] outs2[i] == spec_slice_for(lines, parts[i]),
    ensures
        outs1 == outs2,
{
    assert(outs1 =~= outs2);
}

} // verus!
