//! Pure string treatment of slash-separated paths: splitting a path into
//! parent directory, file stem and extension, joining a directory with a
//! file name, and deriving the destination filename of each part.
//!
//! A path here is simply a string whose components are separated by `'/'`;
//! the stem and extension of a name split at its last `'.'`, except that a
//! leading dot (a hidden file) starts the stem.

use vstd::prelude::*;
use vstd::string::*;
use crate::digits::dec_digits;
use crate::digits::usize_to_string;

verus! {

/// The position of the last occurrence of `c` in `s`, if any.
pub open spec fn last_index_of(s: Seq<char>, c: char) -> Option<int>
    decreases s.len(),
{
    if s.len() == 0 {
        None
    } else if s.last() == c {
        Some(s.len() - 1)
    } else {
        last_index_of(s.drop_last(), c)
    }
}

/// What `last_index_of` returns is the rightmost occurrence.
pub proof fn lemma_last_index_of(s: Seq<char>, c: char)
    ensures
        match last_index_of(s, c) {
            Some(p) => 0 <= p < s.len() && s[p] == c && (forall|j: int|
                p < j < s.len() ==> s[j] != c),
            None => forall|j: int| 0 <= j < s.len() ==> s[j] != c,
        },
    decreases s.len(),
{
    if s.len() > 0 && s.last() != c {
        lemma_last_index_of(s.drop_last(), c);
        match last_index_of(s.drop_last(), c) {
            Some(p) => {
                assert(s[p] == s.drop_last()[p]);
                assert forall|j: int| p < j < s.len() implies s[j] != c by {
                    if j < s.len() - 1 {
                        assert(s[j] == s.drop_last()[j]);
                    }
                }
            },
            None => {
                assert forall|j: int| 0 <= j < s.len() implies s[j] != c by {
                    if j < s.len() - 1 {
                        assert(s[j] == s.drop_last()[j]);
                    }
                }
            },
        }
    }
}

/// Finds the last occurrence of `c` in `s`.
pub fn rfind_char(s: &str, c: char) -> (r: Option<usize>)
    ensures
        r is Some <==> last_index_of(s@, c) is Some,
        r matches Some(p) ==> last_index_of(s@, c) == Some(p as int),
{
    let n = s.unicode_len();
    proof {
        assert(s@.subrange(0, n as int) =~= s@);
    }
    let mut i: usize = n;
    while i > 0
        invariant
            n == s@.len(),
            0 <= i <= n,
            last_index_of(s@, c) == last_index_of(s@.subrange(0, i as int), c),
        decreases i,
    {
        let d = s.get_char(i - 1);
        proof {
            let pref = s@.subrange(0, i as int);
            assert(pref.last() == s@[i - 1]);
            assert(pref.drop_last() =~= s@.subrange(0, i - 1));
        }
        if d == c {
            return Some(i - 1);
        }
        i = i - 1;
    }
    proof {
        assert(s@.subrange(0, 0) =~= Seq::<char>::empty());
    }
    None
}

/// The parent directory of a path: everything before the last slash, the
/// root for a path whose only slash leads it, and the empty string for a
/// bare file name.
pub open spec fn spec_path_parent(p: Seq<char>) -> Seq<char> {
    match last_index_of(p, '/') {
        None => Seq::empty(),
        Some(q) => if q == 0 {
            "/"@
        } else {
            p.subrange(0, q)
        },
    }
}

/// The file name of a path: everything after the last slash.
pub open spec fn spec_file_name(p: Seq<char>) -> Seq<char> {
    match last_index_of(p, '/') {
        None => p,
        Some(q) => p.subrange(q + 1, p.len() as int),
    }
}

/// The stem of a path's file name: the part before the last dot, unless
/// that dot leads the name.
pub open spec fn spec_file_stem(p: Seq<char>) -> Seq<char> {
    let name = spec_file_name(p);
    match last_index_of(name, '.') {
        None => name,
        Some(q) => if q == 0 {
            name
        } else {
            name.subrange(0, q)
        },
    }
}

/// The extension of a path's file name: the part after the last dot,
/// empty when there is no dot or the dot leads the name.
pub open spec fn spec_extension(p: Seq<char>) -> Seq<char> {
    let name = spec_file_name(p);
    match last_index_of(name, '.') {
        None => Seq::empty(),
        Some(q) => if q == 0 {
            Seq::empty()
        } else {
            name.subrange(q + 1, name.len() as int)
        },
    }
}

/// A directory joined with a file name, inserting a single slash where
/// one is needed.
pub open spec fn spec_join_path(dir: Seq<char>, name: Seq<char>) -> Seq<char> {
    if dir.len() == 0 {
        name
    } else if dir.last() == '/' {
        dir + name
    } else {
        dir + "/"@ + name
    }
}

pub fn path_parent(path: &str) -> (r: String)
    ensures
        r@ == spec_path_parent(path@),
{
    proof {
        lemma_last_index_of(path@, '/');
    }
    match rfind_char(path, '/') {
        None => String::new(),
        Some(q) => {
            if q == 0 {
                String::from_str("/")
            } else {
                path.substring_char(0, q).to_owned()
            }
        },
    }
}

pub fn path_file_stem(path: &str) -> (r: String)
    ensures
        r@ == spec_file_stem(path@),
{
    proof {
        lemma_last_index_of(path@, '/');
    }
    let n = path.unicode_len();
    let name: &str = match rfind_char(path, '/') {
        None => path,
        Some(q) => path.substring_char(q + 1, n),
    };
    proof {
        assert(name@ == spec_file_name(path@));
        lemma_last_index_of(name@, '.');
    }
    match rfind_char(name, '.') {
        None => name.to_owned(),
        Some(q) => {
            if q == 0 {
                name.to_owned()
            } else {
                name.substring_char(0, q).to_owned()
            }
        },
    }
}

pub fn path_extension(path: &str) -> (r: String)
    ensures
        r@ == spec_extension(path@),
{
    proof {
        lemma_last_index_of(path@, '/');
    }
    let n = path.unicode_len();
    let name: &str = match rfind_char(path, '/') {
        None => path,
        Some(q) => path.substring_char(q + 1, n),
    };
    proof {
        assert(name@ == spec_file_name(path@));
        lemma_last_index_of(name@, '.');
    }
    match rfind_char(name, '.') {
        None => String::new(),
        Some(q) => {
            if q == 0 {
                String::new()
            } else {
                let m = name.unicode_len();
                name.substring_char(q + 1, m).to_owned()
            }
        },
    }
}

pub fn join_path(dir: &str, name: &str) -> (r: String)
    ensures
        r@ == spec_join_path(dir@, name@),
{
    let n = dir.unicode_len();
    if n == 0 {
        return name.to_owned();
    }
    let lastc = dir.get_char(n - 1);
    let mut r = dir.to_owned();
    if lastc != '/' {
        r.append("/");
    }
    r.append(name);
    r
}

/// The name of the `index`-th destination (zero-based): the input's stem,
/// a part marker carrying the one-based position, and the input's
/// extension when it has one.
pub open spec fn spec_part_name(stem: Seq<char>, ext: Seq<char>, index: nat) -> Seq<char> {
    stem + " - Part "@ + dec_digits(index + 1) + (if ext.len() == 0 {
        Seq::<char>::empty()
    } else {
        "."@ + ext
    })
}

/// The full destination path of the `index`-th part.
pub open spec fn spec_part_filename(dir: Seq<char>, stem: Seq<char>, ext: Seq<char>, index: nat) -> Seq<
    char,
> {
    spec_join_path(dir, spec_part_name(stem, ext, index))
}

/// Derives the destination path of one part from the input file's parent
/// directory, stem and extension.
pub fn generate_part_filename(parent: &str, stem: String, ext: String, index: usize) -> (r: String)
    requires
        index < usize::MAX,
    ensures
        r@ == spec_part_filename(parent@, stem@, ext@, index as nat),
{
    let mut name = stem;
    name.append(" - Part ");
    let num = usize_to_string(index + 1);
    name.append(num.as_str());
    if ext.as_str().unicode_len() > 0 {
        name.append(".");
        name.append(ext.as_str());
    }
    proof {
        assert(name@ =~= spec_part_name(stem@, ext@, index as nat));
    }
    join_path(parent, name.as_str())
}

} // verus!
