//! Framing of the player object embedded in a video watch page.
//!
//! A watch page carries `var ytInitialPlayerResponse = {...};` in a
//! script block.  This module finds that assignment and cuts out the
//! JSON object literal between the braces; turning those bytes into
//! values is left to the caller's deserializer.  The rule is the one the
//! scan follows: at the first marker occurrence, optional whitespace, an
//! equals sign, optional whitespace, then an opening brace; the object
//! ends at the first `};` after it, and may not span a line break.  When
//! the text after a marker does not fit this shape the search resumes
//! behind that occurrence.

use vstd::prelude::*;
use vstd::string::*;

verus! {

/// A character the scan skips between the marker, the equals sign and
/// the opening brace.
pub open spec fn is_space(c: char) -> bool {
    c == ' ' || c == '\t' || c == '\n' || c == '\r' || c == '\u{b}' || c == '\u{c}'
}

/// The assignment marker.
pub open spec fn marker() -> Seq<char> {
    "var ytInitialPlayerResponse"@
}

/// The marker occurs in `s` at position `i`.
pub open spec fn marker_at(s: Seq<char>, i: int) -> bool {
    0 <= i && i + marker().len() <= s.len() && s.subrange(i, i + marker().len() as int)
        == marker()
}

/// The first non-space position at or after `lo`, or the end of `s`.
pub open spec fn spec_skip_spaces(s: Seq<char>, lo: int) -> int
    recommends
        0 <= lo <= s.len(),
    decreases s.len() - lo,
{
    if lo < 0 || lo >= s.len() {
        s.len() as int
    } else if is_space(s[lo]) {
        spec_skip_spaces(s, lo + 1)
    } else {
        lo
    }
}

/// The position of the first `"};"` at or after `from`, unless a line
/// break comes first.
pub open spec fn spec_find_close(s: Seq<char>, from: int) -> Option<int>
    recommends
        0 <= from <= s.len(),
    decreases s.len() - from,
{
    if from < 0 || from >= s.len() {
        None
    } else if s[from] == '\n' {
        None
    } else if s[from] == '}' && from + 1 < s.len() && s[from + 1] == ';' {
        Some(from)
    } else {
        spec_find_close(s, from + 1)
    }
}

/// The brace positions of the object assigned after a marker at `i`:
/// the opening brace and the closing brace of the first `"};"`.
pub open spec fn spec_tail_parse(s: Seq<char>, i: int) -> Option<(int, int)> {
    let j = spec_skip_spaces(s, i);
    if j < s.len() && s[j] == '=' {
        let b = spec_skip_spaces(s, j + 1);
        if b < s.len() && s[b] == '{' {
            match spec_find_close(s, b + 1) {
                Some(e) => Some((b, e)),
                None => None,
            }
        } else {
            None
        }
    } else {
        None
    }
}

/// The JSON object literal of the first well-formed player assignment
/// at or after `from`: the text from its opening brace to its closing
/// brace inclusive.
pub open spec fn spec_player_json(s: Seq<char>, from: int) -> Option<Seq<char>>
    recommends
        0 <= from,
    decreases s.len() - from,
{
    if from < 0 || from >= s.len() || from + marker().len() > s.len() {
        None
    } else if marker_at(s, from) && spec_tail_parse(s, from + marker().len() as int) is Some {
        let be = spec_tail_parse(s, from + marker().len() as int)->0;
        Some(s.subrange(be.0, be.1 + 1))
    } else {
        spec_player_json(s, from + 1)
    }
}

fn marker_str() -> (r: &'static str)
    ensures
        r@ == marker(),
{
    "var ytInitialPlayerResponse"
}

fn matches_marker(s: &str, i: usize, n: usize) -> (r: bool)
    requires
        n == s@.len(),
        i as int + marker().len() <= n,
    ensures
        r == marker_at(s@, i as int),
{
    let m = marker_str();
    let mlen = m.unicode_len();
    let mut k: usize = 0;
    while k < mlen
        invariant
            n == s@.len(),
            mlen == marker().len(),
            m@ == marker(),
            i + mlen <= n,
            0 <= k <= mlen,
            forall|j: int| 0 <= j < k ==> s@[i + j] == marker()[j],
        decreases mlen - k,
    {
        if s.get_char(i + k) != m.get_char(k) {
            proof {
                assert(s@[i + k] != marker()[k as int]);
                assert(s@.subrange(i as int, i + marker().len() as int)[k as int] == s@[i + k]);
            }
            return false;
        }
        k = k + 1;
    }
    proof {
        assert(s@.subrange(i as int, i + marker().len() as int) =~= marker());
    }
    true
}

fn is_space_char(c: char) -> (r: bool)
    ensures
        r == is_space(c),
{
    c == ' ' || c == '\t' || c == '\n' || c == '\r' || c == '\u{b}' || c == '\u{c}'
}

fn skip_spaces(s: &str, lo: usize, n: usize) -> (r: usize)
    requires
        n == s@.len(),
        lo <= n,
    ensures
        r == spec_skip_spaces(s@, lo as int),
        lo <= r <= n,
{
    let mut i: usize = lo;
    while i < n
        invariant
            n == s@.len(),
            lo <= i <= n,
            spec_skip_spaces(s@, lo as int) == spec_skip_spaces(s@, i as int),
        decreases n - i,
    {
        if !is_space_char(s.get_char(i)) {
            return i;
        }
        i = i + 1;
    }
    i
}

fn find_close(s: &str, from: usize, n: usize) -> (r: Option<usize>)
    requires
        n == s@.len(),
        from <= n,
    ensures
        match r {
            Some(e) => spec_find_close(s@, from as int) == Some(e as int) && from <= e && e + 1
                < n,
            None => spec_find_close(s@, from as int) is None,
        },
{
    let mut i: usize = from;
    while i < n
        invariant
            n == s@.len(),
            from <= i <= n,
            spec_find_close(s@, from as int) == spec_find_close(s@, i as int),
        decreases n - i,
    {
        let c = s.get_char(i);
        if c == '\n' {
            return None;
        }
        if c == '}' && i + 1 < n {
            if s.get_char(i + 1) == ';' {
                return Some(i);
            }
        }
        proof {
            if s@[i as int] == '}' && i + 1 < n && s@[i + 1] == ';' {
                assert(false);
            }
        }
        i = i + 1;
    }
    None
}

/// Cuts the player-response object literal out of a watch page: the
/// text between the braces of the first well-formed
/// `var ytInitialPlayerResponse = {...};` assignment, braces included.
pub fn extract_player_json(html: &str) -> (r: Option<String>)
    ensures
        match r {
            Some(j) => spec_player_json(html@, 0) == Some(j@),
            None => spec_player_json(html@, 0) is None,
        },
{
    proof {
        reveal_strlit("var ytInitialPlayerResponse");
    }
    let n = html.unicode_len();
    let m = marker_str();
    let mlen = m.unicode_len();
    let mut i: usize = 0;
    while mlen <= n && i <= n - mlen
        invariant
            n == html@.len(),
            mlen == marker().len(),
            m@ == marker(),
            mlen >= 1,
            0 <= i <= n,
            spec_player_json(html@, 0) == spec_player_json(html@, i as int),
        decreases n - i,
    {
        if matches_marker(html, i, n) {
            let j = skip_spaces(html, i + mlen, n);
            if j < n && html.get_char(j) == '=' {
                let b = skip_spaces(html, j + 1, n);
                if b < n && html.get_char(b) == '{' {
                    match find_close(html, b + 1, n) {
                        Some(e) => {
                            proof {
                                assert(spec_tail_parse(html@, i + mlen) == Some(
                                    (b as int, e as int),
                                ));
                            }
                            return Some(html.substring_char(b, e + 1).to_owned());
                        },
                        None => {
                            proof {
                                assert(spec_tail_parse(html@, i + mlen) is None);
                            }
                        },
                    }
                }
            }
        }
        i = i + 1;
    }
    None
}

} // verus!
