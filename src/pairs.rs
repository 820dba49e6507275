//! The `NAME=value` grammar of command-line pairs and variable files.
//!
//! An entry matches `^\s*([A-Z0-9][A-Z0-9_]+)\s*=\s*(.+?)\s*$`, where `\s` is
//! Unicode white space and `.` any character but a line feed; the first group
//! is the name and the second the value, with leftmost-first priority.

use vstd::prelude::*;
use vstd::string::*;
use crate::error::Error;

verus! {

/// Unicode white space, the class that `\s` denotes.
pub open spec fn is_space(c: char) -> bool {
    let u = c as u32;
    (0x09 <= u <= 0x0d) || u == 0x20 || u == 0x85 || u == 0xa0 || u == 0x1680
        || (0x2000 <= u <= 0x200a) || u == 0x2028 || u == 0x2029 || u == 0x202f
        || u == 0x205f || u == 0x3000
}

/// A character that may stand in a variable name.
pub open spec fn is_name_char(c: char) -> bool {
    ('A' as u32 <= c as u32 <= 'Z' as u32) || ('0' as u32 <= c as u32 <= '9' as u32) || c == '_'
}

/// The first position at or after `i` that does not hold white space.
pub open spec fn skip_space(s: Seq<char>, i: int) -> int
    decreases s.len() - i,
{
    if 0 <= i < s.len() && is_space(s[i]) {
        skip_space(s, i + 1)
    } else {
        i
    }
}

/// The first position at or after `i` that does not hold a name character.
pub open spec fn skip_name(s: Seq<char>, i: int) -> int
    decreases s.len() - i,
{
    if 0 <= i < s.len() && is_name_char(s[i]) {
        skip_name(s, i + 1)
    } else {
        i
    }
}

/// Going back from `j`, no further than `lo`, the end of the last character
/// that is not white space.
pub open spec fn trim_back(s: Seq<char>, lo: int, j: int) -> int
    decreases j - lo,
{
    if lo < j && is_space(s[j - 1]) {
        trim_back(s, lo, j - 1)
    } else {
        j
    }
}

/// Going back from `j`, no further than `lo`, the position of the last
/// character that is not a line feed; `lo - 1` where there is none.
pub open spec fn last_not_newline(s: Seq<char>, lo: int, j: int) -> int
    decreases j - lo,
{
    if lo < j {
        if s[j - 1] != '\n' {
            j - 1
        } else {
            last_not_newline(s, lo, j - 1)
        }
    } else {
        lo - 1
    }
}

/// The value that the entry's second group captures, given the start `lo` of
/// what follows `=`.
pub open spec fn value_of(s: Seq<char>, lo: int) -> Option<Seq<char>> {
    let a = skip_space(s, lo);
    if a < s.len() {
        let b = trim_back(s, a, s.len() as int);
        if s.subrange(a, b).contains('\n') {
            None
        } else {
            Some(s.subrange(a, b))
        }
    } else {
        let j = last_not_newline(s, lo, s.len() as int);
        if lo <= j {
            Some(single_char(s[j]))
        } else {
            None
        }
    }
}

/// A sequence of one character.
pub open spec fn single_char(c: char) -> Seq<char> {
    seq![c]
}

/// The name and value that an entry holds, or `None` where it does not match.
pub open spec fn parse_pair(s: Seq<char>) -> Option<(Seq<char>, Seq<char>)> {
    let k0 = skip_space(s, 0);
    let k1 = skip_name(s, k0);
    let e = skip_space(s, k1);
    if k1 - k0 >= 2 && s[k0] != '_' && e < s.len() && s[e] == '=' {
        match value_of(s, e + 1) {
            Some(v) => Some((s.subrange(k0, k1), v)),
            None => None,
        }
    } else {
        None
    }
}


/// Whether `e` is the error for the entry `line` from `source`.
pub open spec fn is_parse_error(e: Error, source: Seq<char>, line: Seq<char>) -> bool {
    match e {
        Error::UnparseableLine { source: s, line: l } => s@ == source && l@ == line,
        _ => false,
    }
}

fn space_char(c: char) -> (r: bool)
    ensures
        r == is_space(c),
{
    let u = c as u32;
    (0x09 <= u && u <= 0x0d) || u == 0x20 || u == 0x85 || u == 0xa0 || u == 0x1680 || (0x2000
        <= u && u <= 0x200a) || u == 0x2028 || u == 0x2029 || u == 0x202f || u == 0x205f || u
        == 0x3000
}

fn name_char(c: char) -> (r: bool)
    ensures
        r == is_name_char(c),
{
    let u = c as u32;
    ('A' as u32 <= u && u <= 'Z' as u32) || ('0' as u32 <= u && u <= '9' as u32) || c == '_'
}

fn skip_space_at(s: &str, n: usize, i: usize) -> (r: usize)
    requires
        n == s@.len(),
        i <= n,
    ensures
        r as int == skip_space(s@, i as int),
        i <= r <= n,
{
    let mut j = i;
    while j < n && space_char(s.get_char(j))
        invariant
            i <= j <= n,
            n == s@.len(),
            skip_space(s@, j as int) == skip_space(s@, i as int),
        decreases n - j,
    {
        j += 1;
    }
    j
}

fn skip_name_at(s: &str, n: usize, i: usize) -> (r: usize)
    requires
        n == s@.len(),
        i <= n,
    ensures
        r as int == skip_name(s@, i as int),
        i <= r <= n,
{
    let mut j = i;
    while j < n && name_char(s.get_char(j))
        invariant
            i <= j <= n,
            n == s@.len(),
            skip_name(s@, j as int) == skip_name(s@, i as int),
        decreases n - j,
    {
        j += 1;
    }
    j
}

fn trim_back_at(s: &str, lo: usize, n: usize) -> (r: usize)
    requires
        n == s@.len(),
        lo <= n,
    ensures
        r as int == trim_back(s@, lo as int, n as int),
        lo <= r <= n,
{
    let mut j = n;
    while lo < j && space_char(s.get_char(j - 1))
        invariant
            lo <= j <= n,
            n == s@.len(),
            trim_back(s@, lo as int, j as int) == trim_back(s@, lo as int, n as int),
        decreases j - lo,
    {
        j -= 1;
    }
    j
}

/// The position of the last character in `lo..n` that is not a line feed.
fn last_not_newline_at(s: &str, lo: usize, n: usize) -> (r: Option<usize>)
    requires
        n == s@.len(),
        lo <= n,
    ensures
        match r {
            Some(j) => j as int == last_not_newline(s@, lo as int, n as int) && lo <= j < n,
            None => last_not_newline(s@, lo as int, n as int) == lo - 1,
        },
{
    let mut j = n;
    while lo < j
        invariant
            lo <= j <= n,
            n == s@.len(),
            last_not_newline(s@, lo as int, j as int) == last_not_newline(s@, lo as int, n as int),
        decreases j - lo,
    {
        if s.get_char(j - 1) != '\n' {
            return Some(j - 1);
        }
        j -= 1;
    }
    None
}

fn has_newline(s: &str, a: usize, b: usize) -> (r: bool)
    requires
        a <= b <= s@.len(),
    ensures
        r == s@.subrange(a as int, b as int).contains('\n'),
{
    let mut j = a;
    while j < b
        invariant
            a <= j <= b <= s@.len(),
            forall|k: int| a <= k < j ==> s@[k] != '\n',
        decreases b - j,
    {
        if s.get_char(j) == '\n' {
            assert(s@.subrange(a as int, b as int)[j - a] == '\n');
            return true;
        }
        j += 1;
    }
    false
}

/// Reads the name and the value from one `NAME=value` entry; `from` says
/// where the entry came from, for the error.
pub fn try_parse_var_string(line: &str, from: &str) -> (r: Result<(String, String), Error>)
    ensures
        match parse_pair(line@) {
            Some((k, v)) => match r {
                Ok((rk, rv)) => rk@ == k && rv@ == v,
                Err(_) => false,
            },
            None => match r {
                Ok(_) => false,
                Err(e) => is_parse_error(e, from@, line@),
            },
        },
{
    let n = line.unicode_len();
    let k0 = skip_space_at(line, n, 0);
    let k1 = skip_name_at(line, n, k0);
    let e = skip_space_at(line, n, k1);
    if k1 - k0 >= 2 && line.get_char(k0) != '_' && e < n && line.get_char(e) == '=' {
        let lo = e + 1;
        let a = skip_space_at(line, n, lo);
        let key = line.substring_char(k0, k1).to_owned();
        if a < n {
            let b = trim_back_at(line, a, n);
            if !has_newline(line, a, b) {
                return Ok((key, line.substring_char(a, b).to_owned()));
            }
        } else {
            match last_not_newline_at(line, lo, n) {
                Some(j) => {
                    let value = line.substring_char(j, j + 1).to_owned();
                    assert(value@ =~= single_char(line@[j as int]));
                    return Ok((key, value));
                },
                None => {},
            }
        }
    }
    Err(Error::UnparseableLine { source: from.to_owned(), line: line.to_owned() })
}

} // verus!
