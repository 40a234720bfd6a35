//! Planning: turning a user-chosen mode into a concrete, validated list
//! of range/destination pairs.
//!
//! Manual mode parses each `"<start>-<end>"` string; auto mode lays
//! contiguous, non-overlapping windows of a fixed size over the whole
//! file.  Either way destination filenames are derived from the input
//! file's stem and extension, and every produced config satisfies the
//! range invariant.  The planner itself performs no I/O; the caller
//! probes the input file and passes what it found.

use vstd::prelude::*;
use vstd::string::*;
use crate::config::SplitConfig;
use crate::digits::dec_value;
use crate::digits::parse_usize;
use crate::digits::parses_to_usize;
use crate::errors::SplitError;
use crate::paths::path_extension;
use crate::paths::path_file_stem;
use crate::paths::path_parent;
use crate::paths::generate_part_filename;
use crate::paths::spec_extension;
use crate::paths::spec_file_stem;
use crate::paths::spec_part_filename;
use crate::paths::spec_path_parent;

verus! {

/// `p` is the position of the one and only `'-'` in `s`.
pub open spec fn the_dash_at(s: Seq<char>, p: int) -> bool {
    0 <= p < s.len() && s[p] == '-' && (forall|j: int|
        0 <= j < s.len() ==> (#[trigger] s[j]) == '-' ==> j == p)
}

/// A well-formed range string: exactly one dash, with a decimal `usize`
/// on each side.
pub open spec fn spec_range_ok(s: Seq<char>) -> bool {
    exists|p: int|
        #[trigger] the_dash_at(s, p) && parses_to_usize(s.subrange(0, p)) && parses_to_usize(
            s.subrange(p + 1, s.len() as int),
        )
}

/// The number before the dash of a well-formed range string.
pub open spec fn spec_range_start(s: Seq<char>) -> nat {
    let p = choose|p: int| the_dash_at(s, p);
    dec_value(s.subrange(0, p))
}

/// The number after the dash of a well-formed range string.
pub open spec fn spec_range_end(s: Seq<char>) -> nat {
    let p = choose|p: int| the_dash_at(s, p);
    dec_value(s.subrange(p + 1, s.len() as int))
}

/// Parses a range string of the form `"<start>-<end>"`, naming the
/// offending string on failure.
pub fn parse_range_string(range: String) -> (r: Result<(usize, usize), SplitError>)
    ensures
        r is Ok <==> spec_range_ok(range@),
        r matches Ok(v) ==> v.0 == spec_range_start(range@) && v.1 == spec_range_end(range@),
        !(exists|p: int| #[trigger] the_dash_at(range@, p)) ==> r == Err::<
            (usize, usize),
            SplitError,
        >(SplitError::InvalidRangeFormat { raw: range }),
        forall|p: int|
            #[trigger] the_dash_at(range@, p) && !parses_to_usize(range@.subrange(0, p)) ==> r
                == Err::<(usize, usize), SplitError>(SplitError::InvalidStartNumber { raw: range }),
        forall|p: int|
            #[trigger] the_dash_at(range@, p) && parses_to_usize(range@.subrange(0, p))
                && !parses_to_usize(range@.subrange(p + 1, range@.len() as int)) ==> r == Err::<
                (usize, usize),
                SplitError,
            >(SplitError::InvalidEndNumber { raw: range }),
{
    let n = range.as_str().unicode_len();
    let mut dash: Option<usize> = None;
    let mut i: usize = 0;
    while i < n
        invariant
            n == range@.len(),
            0 <= i <= n,
            match dash {
                Some(p) => p < i && range@[p as int] == '-' && (forall|j: int|
                    0 <= j < i && j != p ==> range@[j] != '-'),
                None => forall|j: int| 0 <= j < i ==> range@[j] != '-',
            },
        decreases n - i,
    {
        let c = range.as_str().get_char(i);
        if c == '-' {
            match dash {
                None => {
                    dash = Some(i);
                },
                Some(p) => {
                    proof {
                        assert forall|q: int| !the_dash_at(range@, q) by {
                            if the_dash_at(range@, q) {
                                assert(range@[p as int] == '-');
                                assert(range@[i as int] == '-');
                            }
                        }
                    }
                    return Err(SplitError::InvalidRangeFormat { raw: range });
                },
            }
        }
        i = i + 1;
    }
    match dash {
        None => {
            proof {
                assert forall|q: int| !the_dash_at(range@, q) by {}
            }
            Err(SplitError::InvalidRangeFormat { raw: range })
        },
        Some(p) => {
            proof {
                assert(the_dash_at(range@, p as int));
                assert forall|q: int| the_dash_at(range@, q) implies q == p as int by {
                    assert(range@[p as int] == '-');
                }
                let q = choose|q: int| the_dash_at(range@, q);
                assert(the_dash_at(range@, q));
                assert(q == p as int);
            }
            let left = range.as_str().substring_char(0, p);
            let left_val = parse_usize(left);
            match left_val {
                None => Err(SplitError::InvalidStartNumber { raw: range }),
                Some(a) => {
                    let right = range.as_str().substring_char(p + 1, n);
                    match parse_usize(right) {
                        None => Err(SplitError::InvalidEndNumber { raw: range }),
                        Some(b) => Ok((a, b)),
                    }
                },
            }
        },
    }
}

/// What the caller's I/O layer found out about the input path.
#[derive(Clone, Copy, Debug, PartialEq, Eq, Structural)]
pub struct InputStatus {
    /// The path names an existing filesystem entry.
    pub exists: bool,
    /// The entry is a regular file.
    pub is_file: bool,
    /// The file's size in bytes.
    pub byte_len: u64,
}

/// Rejects a path that does not name an existing regular file.
pub fn validate_input_path(path_input: String, status: &InputStatus) -> (r: Result<
    (),
    SplitError,
>)
    ensures
        r == if !status.exists {
            Err::<(), SplitError>(SplitError::InputNotFound { path: path_input })
        } else if !status.is_file {
            Err::<(), SplitError>(SplitError::InputNotAFile { path: path_input })
        } else {
            Ok::<(), SplitError>(())
        },
{
    if !status.exists {
        return Err(SplitError::InputNotFound { path: path_input });
    }
    if !status.is_file {
        return Err(SplitError::InputNotAFile { path: path_input });
    }
    Ok(())
}

/// Rejects an input that is missing or holds zero bytes, before any
/// destination is created.
pub fn validate_file(path: String, status: &InputStatus) -> (r: Result<(), SplitError>)
    ensures
        r == if !status.exists {
            Err::<(), SplitError>(SplitError::InputNotFound { path })
        } else if status.byte_len == 0 {
            Err::<(), SplitError>(SplitError::InputEmpty { path })
        } else {
            Ok::<(), SplitError>(())
        },
{
    if !status.exists {
        return Err(SplitError::InputNotFound { path });
    }
    if status.byte_len == 0 {
        return Err(SplitError::InputEmpty { path });
    }
    Ok(())
}

/// A range string that yields a valid config: it parses, its start is at
/// least one, and its start does not exceed its end.
pub open spec fn spec_arg_ok(a: Seq<char>) -> bool {
    spec_range_ok(a) && 1 <= spec_range_start(a) <= spec_range_end(a)
}

/// The exact error a failing range string produces, given the
/// destination path its config would have carried.
pub open spec fn spec_arg_error(e: SplitError, arg: String, out_path: Seq<char>) -> bool {
    if !(exists|p: int| #[trigger] the_dash_at(arg@, p)) {
        e == SplitError::InvalidRangeFormat { raw: arg }
    } else if exists|p: int|
        #[trigger] the_dash_at(arg@, p) && !parses_to_usize(arg@.subrange(0, p)) {
        e == SplitError::InvalidStartNumber { raw: arg }
    } else if !spec_range_ok(arg@) {
        e == SplitError::InvalidEndNumber { raw: arg }
    } else if spec_range_start(arg@) == 0 {
        e matches SplitError::ZeroStart { output_path } && output_path@ == out_path
    } else {
        e matches SplitError::StartAfterEnd { start, end, output_path }
            && start == spec_range_start(arg@) && end == spec_range_end(arg@) && output_path@
            == out_path
    }
}

/// Builds one config per range string, with destinations derived from
/// the given directory, stem and extension; fails on the first offending
/// string.
fn build_configs(range_args: &Vec<String>, dir: &str, stem: &str, ext: &str) -> (r: Result<
    Vec<SplitConfig>,
    SplitError,
>)
    ensures
        r is Ok <==> (forall|i: int|
            0 <= i < range_args@.len() ==> spec_arg_ok((#[trigger] range_args@[i])@)),
        r matches Ok(cs) ==> cs@.len() == range_args@.len() && (forall|i: int|
            0 <= i < cs@.len() ==> {
                &&& (#[trigger] cs@[i]).start == spec_range_start(range_args@[i]@)
                &&& cs@[i].end == spec_range_end(range_args@[i]@)
                &&& cs@[i].output_path@ == spec_part_filename(dir@, stem@, ext@, i as nat)
                &&& cs@[i].wf()
            }),
        r matches Err(e) ==> exists|i: int|
            {
                &&& 0 <= i < range_args@.len()
                &&& !spec_arg_ok((#[trigger] range_args@[i])@)
                &&& (forall|j: int| 0 <= j < i ==> spec_arg_ok((#[trigger] range_args@[j])@))
                &&& spec_arg_error(e, range_args@[i], spec_part_filename(dir@, stem@, ext@, i as nat))
            },
{
    let mut configs: Vec<SplitConfig> = Vec::new();
    let mut i: usize = 0;
    while i < range_args.len()
        invariant
            0 <= i <= range_args@.len(),
            configs@.len() == i,
            forall|j: int| 0 <= j < i ==> spec_arg_ok((#[trigger] range_args@[j])@),
            forall|j: int|
                0 <= j < i ==> {
                    &&& (#[trigger] configs@[j]).start == spec_range_start(range_args@[j]@)
                    &&& configs@[j].end == spec_range_end(range_args@[j]@)
                    &&& configs@[j].output_path@ == spec_part_filename(dir@, stem@, ext@, j as nat)
                    &&& configs@[j].wf()
                },
        decreases range_args@.len() - i,
    {
        let arg = range_args[i].clone();
        match parse_range_string(arg) {
            Err(e) => {
                proof {
                    assert(!spec_range_ok(range_args@[i as int]@));
                    assert(spec_arg_error(
                        e,
                        range_args@[i as int],
                        spec_part_filename(dir@, stem@, ext@, i as nat),
                    ));
                }
                return Err(e);
            },
            Ok((start, end)) => {
                let output_path = generate_part_filename(dir, stem.to_owned(), ext.to_owned(), i);
                match SplitConfig::new(start, end, output_path) {
                    Err(e) => {
                        proof {
                            assert(!spec_arg_ok(range_args@[i as int]@));
                            assert(spec_arg_error(
                                e,
                                range_args@[i as int],
                                spec_part_filename(dir@, stem@, ext@, i as nat),
                            ));
                        }
                        return Err(e);
                    },
                    Ok(c) => {
                        configs.push(c);
                    },
                }
            },
        }
        i = i + 1;
    }
    Ok(configs)
}

/// Builds the task list for a manual split of `input_path`: one config
/// per range string, each destination placed alongside the input and
/// named after its stem, extension and one-based position.
pub fn create_task_list(input_path: String, status: &InputStatus, range_args: Vec<String>) -> (r:
    Result<Vec<SplitConfig>, SplitError>)
    ensures
        r is Ok <==> status.exists && status.is_file && (forall|i: int|
            0 <= i < range_args@.len() ==> spec_arg_ok((#[trigger] range_args@[i])@)),
        r matches Ok(cs) ==> cs@.len() == range_args@.len() && (forall|i: int|
            0 <= i < cs@.len() ==> {
                &&& (#[trigger] cs@[i]).start == spec_range_start(range_args@[i]@)
                &&& cs@[i].end == spec_range_end(range_args@[i]@)
                &&& cs@[i].output_path@ == spec_part_filename(
                    spec_path_parent(input_path@),
                    spec_file_stem(input_path@),
                    spec_extension(input_path@),
                    i as nat,
                )
                &&& cs@[i].wf()
            }),
        !status.exists ==> r == Err::<Vec<SplitConfig>, SplitError>(
            SplitError::InputNotFound { path: input_path },
        ),
        status.exists && !status.is_file ==> r == Err::<Vec<SplitConfig>, SplitError>(
            SplitError::InputNotAFile { path: input_path },
        ),
        r matches Err(e) ==> status.exists && status.is_file ==> exists|i: int|
            {
                &&& 0 <= i < range_args@.len()
                &&& !spec_arg_ok((#[trigger] range_args@[i])@)
                &&& (forall|j: int| 0 <= j < i ==> spec_arg_ok((#[trigger] range_args@[j])@))
                &&& spec_arg_error(
                    e,
                    range_args@[i],
                    spec_part_filename(
                        spec_path_parent(input_path@),
                        spec_file_stem(input_path@),
                        spec_extension(input_path@),
                        i as nat,
                    ),
                )
            },
{
    match validate_input_path(input_path.clone(), status) {
        Err(e) => {
            return Err(e);
        },
        Ok(()) => {},
    }
    let parent = path_parent(input_path.as_str());
    let stem = path_file_stem(input_path.as_str());
    let ext = path_extension(input_path.as_str());
    build_configs(&range_args, parent.as_str(), stem.as_str(), ext.as_str())
}

/// How the caller asked for the file to be split.
#[derive(Debug)]
pub enum SplitMode {
    /// Explicit `"<start>-<end>"` range strings, one destination each.
    Manual { ranges: Vec<String>, output_dir: Option<String> },
    /// Contiguous windows of a fixed number of lines covering the whole
    /// file.
    Auto { chunk_size: usize, output_dir: Option<String> },
}

/// The number of chunks of size `n` needed to cover `total` lines: the
/// quotient rounded up.
pub open spec fn spec_ceil_div(total: nat, n: nat) -> nat
    recommends
        n >= 1,
{
    ((total as int + n as int - 1) / n as int) as nat
}

/// Bounds on the rounded-up quotient: one more chunk would overshoot,
/// one fewer would fall short.
pub proof fn lemma_ceil_div_bounds(total: nat, n: nat)
    requires
        n >= 1,
        total >= 1,
    ensures
        spec_ceil_div(total, n) == (total as int - 1) / n as int + 1,
        spec_ceil_div(total, n) >= 1,
        (spec_ceil_div(total, n) - 1) * (n as int) < total,
        total <= spec_ceil_div(total, n) * (n as int),
{
    let t = total as int;
    let nn = n as int;
    vstd::arithmetic::div_mod::lemma_fundamental_div_mod(t - 1, nn);
    vstd::arithmetic::div_mod::lemma_mod_bound(t - 1, nn);
    let q = (t - 1) / nn;
    let r = (t - 1) % nn;
    assert(t - 1 == nn * q + r);
    assert(q >= 0) by (nonlinear_arith)
        requires
            t - 1 == nn * q + r,
            t >= 1,
            nn >= 1,
            r < nn,
    ;
    assert(t + nn - 1 == (q + 1) * nn + r) by (nonlinear_arith)
        requires
            t - 1 == nn * q + r,
    ;
    vstd::arithmetic::div_mod::lemma_fundamental_div_mod_converse_div(t + nn - 1, nn, q + 1, r);
    assert(spec_ceil_div(total, n) == q + 1);
    assert(q * nn <= nn * q + r && nn * q + r + 1 <= (q + 1) * nn) by (nonlinear_arith)
        requires
            0 <= r < nn,
    ;
}

/// Lays contiguous windows of `chunk_size` lines over lines
/// `1..=total_lines`: window `i` (zero-based) covers
/// `[1 + i * chunk_size, min((i + 1) * chunk_size, total_lines)]`, and
/// windows are produced until they cover the last line.
pub fn auto_chunk_bounds(total_lines: usize, chunk_size: usize) -> (r: Vec<(usize, usize)>)
    requires
        chunk_size >= 1,
        total_lines >= 1,
    ensures
        r@.len() == spec_ceil_div(total_lines as nat, chunk_size as nat),
        forall|i: int|
            0 <= i < r@.len() ==> {
                &&& (#[trigger] r@[i]).0 == 1 + i * (chunk_size as int)
                &&& r@[i].1 == vstd::math::min((i + 1) * (chunk_size as int), total_lines as int)
                &&& 1 <= r@[i].0 <= r@[i].1 <= total_lines
            },
{
    proof {
        lemma_ceil_div_bounds(total_lines as nat, chunk_size as nat);
    }
    let count = (total_lines - 1) / chunk_size + 1;
    let ghost t = total_lines as int;
    let ghost nn = chunk_size as int;
    let mut r: Vec<(usize, usize)> = Vec::new();
    let mut k: usize = 0;
    while k < count
        invariant
            chunk_size >= 1,
            total_lines >= 1,
            t == total_lines as int,
            nn == chunk_size as int,
            count == spec_ceil_div(total_lines as nat, chunk_size as nat),
            (count - 1) * nn < t,
            t <= count * nn,
            0 <= k <= count,
            r@.len() == k,
            forall|i: int|
                0 <= i < k ==> {
                    &&& (#[trigger] r@[i]).0 == 1 + i * nn
                    &&& r@[i].1 == vstd::math::min((i + 1) * nn, t)
                    &&& 1 <= r@[i].0 <= r@[i].1 <= total_lines
                },
        decreases count - k,
    {
        proof {
            assert((k as int) * nn <= (count - 1) * nn && (k as int + 1) * nn == (k as int) * nn
                + nn) by (nonlinear_arith)
                requires
                    0 <= k as int <= count - 1,
                    nn >= 1,
            ;
        }
        let start = 1 + k * chunk_size;
        let end = if chunk_size - 1 <= total_lines - start {
            start + (chunk_size - 1)
        } else {
            total_lines
        };
        r.push((start, end));
        k = k + 1;
    }
    r
}

/// The directory destinations land in: the one the caller chose, or the
/// input file's own directory.
pub open spec fn spec_dest_dir(input_path: Seq<char>, output_dir: Option<String>) -> Seq<char> {
    match output_dir {
        Some(d) => d@,
        None => spec_path_parent(input_path),
    }
}

/// Builds the full plan for one split invocation: validates the input
/// probe, then lays out either the caller's explicit ranges or automatic
/// fixed-size windows, with destination filenames derived from the
/// input's stem and extension.  `total_lines` is the caller's line count
/// of the input, consulted only in auto mode.
pub fn build_split_plan(
    input_path: String,
    mode: SplitMode,
    status: &InputStatus,
    total_lines: usize,
) -> (r: Result<Vec<SplitConfig>, SplitError>)
    ensures
        !status.exists ==> r == Err::<Vec<SplitConfig>, SplitError>(
            SplitError::InputNotFound { path: input_path },
        ),
        status.exists && !status.is_file ==> r == Err::<Vec<SplitConfig>, SplitError>(
            SplitError::InputNotAFile { path: input_path },
        ),
        status.exists && status.is_file && status.byte_len == 0 ==> r == Err::<
            Vec<SplitConfig>,
            SplitError,
        >(SplitError::InputEmpty { path: input_path }),
        mode matches SplitMode::Manual { ranges, output_dir } ==> (status.exists && status.is_file
            && status.byte_len > 0) ==> {
            &&& (r is Ok <==> forall|i: int|
                0 <= i < ranges@.len() ==> spec_arg_ok((#[trigger] ranges@[i])@))
            &&& (r matches Ok(cs) ==> cs@.len() == ranges@.len() && (forall|i: int|
                0 <= i < cs@.len() ==> {
                    &&& (#[trigger] cs@[i]).start == spec_range_start(ranges@[i]@)
                    &&& cs@[i].end == spec_range_end(ranges@[i]@)
                    &&& cs@[i].output_path@ == spec_part_filename(
                        spec_dest_dir(input_path@, output_dir),
                        spec_file_stem(input_path@),
                        spec_extension(input_path@),
                        i as nat,
                    )
                    &&& cs@[i].wf()
                }))
            &&& (r matches Err(e) ==> exists|i: int|
                {
                    &&& 0 <= i < ranges@.len()
                    &&& !spec_arg_ok((#[trigger] ranges@[i])@)
                    &&& (forall|j: int| 0 <= j < i ==> spec_arg_ok((#[trigger] ranges@[j])@))
                    &&& spec_arg_error(
                        e,
                        ranges@[i],
                        spec_part_filename(
                            spec_dest_dir(input_path@, output_dir),
                            spec_file_stem(input_path@),
                            spec_extension(input_path@),
                            i as nat,
                        ),
                    )
                })
        },
        mode matches SplitMode::Auto { chunk_size, output_dir } ==> (status.exists
            && status.is_file && status.byte_len > 0) ==> {
            &&& (chunk_size == 0 ==> r == Err::<Vec<SplitConfig>, SplitError>(
                SplitError::ZeroChunkSize,
            ))
            &&& (chunk_size >= 1 && total_lines == 0 ==> r == Err::<Vec<SplitConfig>, SplitError>(
                SplitError::InputEmpty { path: input_path },
            ))
            &&& (chunk_size >= 1 && total_lines >= 1 ==> (r matches Ok(cs) && cs@.len()
                == spec_ceil_div(total_lines as nat, chunk_size as nat) && (forall|i: int|
                0 <= i < cs@.len() ==> {
                    &&& (#[trigger] cs@[i]).start == 1 + i * (chunk_size as int)
                    &&& cs@[i].end == vstd::math::min(
                        (i + 1) * (chunk_size as int),
                        total_lines as int,
                    )
                    &&& cs@[i].output_path@ == spec_part_filename(
                        spec_dest_dir(input_path@, output_dir),
                        spec_file_stem(input_path@),
                        spec_extension(input_path@),
                        i as nat,
                    )
                    &&& cs@[i].wf()
                })))
        },
{
    match validate_input_path(input_path.clone(), status) {
        Err(e) => {
            return Err(e);
        },
        Ok(()) => {},
    }
    if status.byte_len == 0 {
        return Err(SplitError::InputEmpty { path: input_path });
    }
    let parent = path_parent(input_path.as_str());
    let stem = path_file_stem(input_path.as_str());
    let ext = path_extension(input_path.as_str());
    match mode {
        SplitMode::Manual { ranges, output_dir } => {
            let dir = match output_dir {
                Some(d) => d,
                None => parent,
            };
            build_configs(&ranges, dir.as_str(), stem.as_str(), ext.as_str())
        },
        SplitMode::Auto { chunk_size, output_dir } => {
            if chunk_size == 0 {
                return Err(SplitError::ZeroChunkSize);
            }
            if total_lines == 0 {
                return Err(SplitError::InputEmpty { path: input_path });
            }
            let dir = match output_dir {
                Some(d) => d,
                None => parent,
            };
            let bounds = auto_chunk_bounds(total_lines, chunk_size);
            let mut configs: Vec<SplitConfig> = Vec::new();
            let mut k: usize = 0;
            while k < bounds.len()
                invariant
                    0 <= k <= bounds@.len(),
                    configs@.len() == k,
                    forall|i: int|
                        0 <= i < bounds@.len() ==> {
                            &&& (#[trigger] bounds@[i]).0 == 1 + i * (chunk_size as int)
                            &&& bounds@[i].1 == vstd::math::min(
                                (i + 1) * (chunk_size as int),
                                total_lines as int,
                            )
                            &&& 1 <= bounds@[i].0 <= bounds@[i].1 <= total_lines
                        },
                    forall|i: int|
                        0 <= i < k ==> {
                            &&& (#[trigger] configs@[i]).start == bounds@[i].0
                            &&& configs@[i].end == bounds@[i].1
                            &&& configs@[i].output_path@ == spec_part_filename(
                                dir@,
                                stem@,
                                ext@,
                                i as nat,
                            )
                            &&& configs@[i].wf()
                        },
                decreases bounds@.len() - k,
            {
                let output_path = generate_part_filename(
                    dir.as_str(),
                    stem.clone(),
                    ext.clone(),
                    k,
                );
                let lo = bounds[k].0;
                let hi = bounds[k].1;
                match SplitConfig::new(lo, hi, output_path) {
                    Ok(c) => {
                        configs.push(c);
                    },
                    Err(e) => {
                        proof {
                            assert(false);
                        }
                        return Err(e);
                    },
                }
                k = k + 1;
            }
            Ok(configs)
        },
    }
}

/// Law: over an input of `total` lines, an auto plan with chunk size `n`
/// yields `ceil(total / n)` outputs; every output but the last holds
/// exactly `n` lines, and the last holds the remainder
/// `total - n * (count - 1)`.
pub proof fn lemma_auto_chunk_sizes(
    lines: Seq<String>,
    parts: Seq<SplitConfig>,
    outs: Seq<Seq<String>>,
    n: nat,
)
    requires
        n >= 1,
        lines.len() >= 1,
        parts.len() == spec_ceil_div(lines.len(), n),
        forall|i: int|
            0 <= i < parts.len() ==> (#[trigger] parts[i]).start == 1 + i * (n as int),
        forall|i: int|
            0 <= i < parts.len() ==> (#[trigger] parts[i]).end == vstd::math::min(
                (i + 1) * (n as int),
                lines.len() as int,
            ),
        outs.len() == parts.len(),
        forall|i: int|
            0 <= i < parts.len() ==> #[trigger] outs[i] == crate::engine::spec_slice_for(
                lines,
                parts[i],
            ),
    ensures
        outs.len() == spec_ceil_div(lines.len(), n),
        forall|i: int| 0 <= i < outs.len() - 1 ==> (#[trigger] outs[i]).len() == n,
        outs[outs.len() - 1].len() == lines.len() - (n as int) * (outs.len() - 1),
{
    let t = lines.len() as int;
    let nn = n as int;
    lemma_ceil_div_bounds(lines.len(), n);
    let c = spec_ceil_div(lines.len(), n) as int;
    assert forall|i: int| 0 <= i < c implies (#[trigger] outs[i]).len() == vstd::math::min(
        (i + 1) * nn,
        t,
    ) - i * nn by {
        assert(0 <= i * nn && i * nn <= (c - 1) * nn && (i + 1) * nn <= c * nn && (i + 1) * nn == i
            * nn + nn) by (nonlinear_arith)
            requires
                0 <= i <= c - 1,
                nn >= 1,
        ;
        assert(parts[i].start == 1 + i * nn);
        assert(parts[i].end == vstd::math::min((i + 1) * nn, t));
        assert(outs[i] == crate::engine::spec_slice_for(lines, parts[i]));
        assert(crate::engine::slice_lo(parts[i], t) == i * nn);
        assert(crate::engine::slice_hi(parts[i], t) == vstd::math::min((i + 1) * nn, t));
        assert(outs[i].len() == crate::engine::slice_hi(parts[i], t) - crate::engine::slice_lo(
            parts[i],
            t,
        ));
    }
    assert forall|i: int| 0 <= i < c - 1 implies (#[trigger] outs[i]).len() == n by {
        assert((i + 1) * nn <= (c - 1) * nn && (i + 1) * nn == i * nn + nn) by (nonlinear_arith)
            requires
                0 <= i < c - 1,
                nn >= 1,
        ;
    }
    assert((c - 1) * nn < t <= c * nn);
    assert(outs[c - 1].len() == t - (c - 1) * nn) by {
        assert(vstd::math::min(c * nn, t) == t);
    }
    assert((c - 1) * nn == nn * (c - 1)) by (nonlinear_arith);
}

/// What a Unicode classifier says of one character; a function of the
/// character alone.
pub uninterp spec fn unicode_whitespace(c: char) -> bool;

/// Relies on char::is_whitespace: the classification depends on the
/// character alone, and the ASCII blank characters are whitespace.
#[verifier::external_body]
fn char_is_whitespace(c: char) -> (r: bool)
    ensures
        r == unicode_whitespace(c),
        c == ' ' || c == '\t' || c == '\n' || c == '\r' ==> r,
{
    c.is_whitespace()
}

/// The maximal whitespace-free runs of `s`, in order.
pub open spec fn spec_tokens(s: Seq<char>) -> Seq<Seq<char>>
    decreases s.len(),
{
    if s.len() == 0 {
        Seq::empty()
    } else {
        let rest = spec_tokens(s.drop_last());
        let c = s.last();
        if unicode_whitespace(c) {
            rest
        } else if s.len() >= 2 && !unicode_whitespace(s[s.len() - 2]) {
            rest.update(rest.len() - 1, rest.last().push(c))
        } else {
            rest.push(seq![c])
        }
    }
}

/// Splits a parameter string into whitespace-separated fields.
pub fn split_whitespace_args(param: &str) -> (r: Vec<String>)
    ensures
        r@.len() == spec_tokens(param@).len(),
        forall|i: int| 0 <= i < r@.len() ==> (#[trigger] r@[i])@ == spec_tokens(param@)[i],
{
    let n = param.unicode_len();
    let mut tokens: Vec<String> = Vec::new();
    let mut current = String::new();
    let mut i: usize = 0;
    while i < n
        invariant
            n == param@.len(),
            0 <= i <= n,
            current@.len() == 0 ==> {
                &&& (i == 0 || unicode_whitespace(param@[i - 1]))
                &&& tokens@.map_values(|t: String| t@) == spec_tokens(param@.subrange(0, i as int))
            },
            current@.len() > 0 ==> {
                &&& i > 0
                &&& !unicode_whitespace(param@[i - 1])
                &&& tokens@.map_values(|t: String| t@).push(current@) == spec_tokens(
                    param@.subrange(0, i as int),
                )
            },
        decreases n - i,
    {
        let c = param.get_char(i);
        let ghost pre = param@.subrange(0, i as int);
        let ghost post = param@.subrange(0, i + 1);
        proof {
            assert(post.drop_last() =~= pre);
            assert(post.last() == param@[i as int]);
        }
        if char_is_whitespace(c) {
            if current.as_str().unicode_len() > 0 {
                tokens.push(current);
                current = String::new();
                proof {
                    assert(tokens@.map_values(|t: String| t@) =~= tokens@.drop_last().map_values(
                        |t: String| t@,
                    ).push(tokens@.last()@));
                }
            }
        } else {
            let piece = param.substring_char(i, i + 1);
            proof {
                assert(piece@ =~= seq![param@[i as int]]);
            }
            if current.as_str().unicode_len() > 0 {
                let ghost cur0 = current@;
                current.append(piece);
                proof {
                    let toks = tokens@.map_values(|t: String| t@);
                    let whole = spec_tokens(post);
                    assert(whole == toks.push(cur0).update(
                        toks.push(cur0).len() - 1,
                        toks.push(cur0).last().push(param@[i as int]),
                    ));
                    assert(cur0.push(param@[i as int]) =~= cur0 + seq![param@[i as int]]);
                    assert(whole =~= toks.push(cur0 + seq![param@[i as int]]));
                    assert(current@ == cur0 + seq![param@[i as int]]);
                }
            } else {
                current.append(piece);
                proof {
                    assert(current@ =~= seq![param@[i as int]]);
                }
            }
        }
        i = i + 1;
    }
    proof {
        assert(param@.subrange(0, n as int) =~= param@);
    }
    if current.as_str().unicode_len() > 0 {
        tokens.push(current);
        proof {
            assert(tokens@.map_values(|t: String| t@) =~= tokens@.drop_last().map_values(
                |t: String| t@,
            ).push(tokens@.last()@));
        }
    }
    proof {
        assert(forall|i: int|
            0 <= i < tokens@.len() ==> (#[trigger] tokens@[i])@ == tokens@.map_values(
                |t: String| t@,
            )[i]);
    }
    tokens
}

/// Turns a mode switch and its parameter field into a split mode: switch
/// zero reads the parameter as an automatic chunk size, anything else as
/// whitespace-separated manual ranges, of which there must be at least
/// one.
pub fn select_mode(mode_index: i32, param: &str, output_dir: Option<String>) -> (r: Result<
    SplitMode,
    SplitError,
>)
    ensures
        mode_index == 0 && !parses_to_usize(param@) ==> r == Err::<SplitMode, SplitError>(
            SplitError::InvalidChunkSize,
        ),
        mode_index == 0 && parses_to_usize(param@) ==> (r matches Ok(m) && m matches
            SplitMode::Auto { chunk_size, output_dir: od } && chunk_size == dec_value(param@)
            && od == output_dir),
        mode_index != 0 && spec_tokens(param@).len() == 0 ==> r == Err::<SplitMode, SplitError>(
            SplitError::NoRanges,
        ),
        mode_index != 0 && spec_tokens(param@).len() > 0 ==> (r matches Ok(m) && m matches
            SplitMode::Manual { ranges, output_dir: od } && od == output_dir && ranges@.len()
            == spec_tokens(param@).len() && (forall|i: int|
            0 <= i < ranges@.len() ==> (#[trigger] ranges@[i])@ == spec_tokens(param@)[i])),
{
    if mode_index == 0 {
        match parse_usize(param) {
            Some(size) => Ok(SplitMode::Auto { chunk_size: size, output_dir }),
            None => Err(SplitError::InvalidChunkSize),
        }
    } else {
        let ranges = split_whitespace_args(param);
        if ranges.len() == 0 {
            Err(SplitError::NoRanges)
        } else {
            Ok(SplitMode::Manual { ranges, output_dir })
        }
    }
}

} // verus!
