//! The toolchain locator: the compiler directory named in a build log, and
//! the choice of the compiler among that directory's entries.

use vstd::prelude::*;
use crate::text::{chars_of, find_from, lemma_find_from_found};

verus! {

/// `Toolchain Path:`, the marker of the line that names the compiler directory.
pub open spec fn path_marker() -> Seq<u8> {
    seq![84u8, 111, 111, 108, 99, 104, 97, 105, 110, 32, 80, 97, 116, 104, 58]
}

/// An ASCII whitespace byte: space, tab, line feed, vertical tab, form feed
/// or carriage return.
pub open spec fn is_space(b: u8) -> bool {
    b == 32 || (9 <= b && b <= 13)
}

/// The first position at or after `i` that holds no whitespace.
pub open spec fn skip_spaces(s: Seq<u8>, i: int) -> int
    decreases s.len() - i,
{
    if 0 <= i < s.len() && is_space(s[i]) {
        skip_spaces(s, i + 1)
    } else {
        i
    }
}

/// The position of the first line feed at or after `i`, or the end of `s`.
pub open spec fn line_end(s: Seq<u8>, i: int) -> int
    decreases s.len() - i,
{
    if 0 <= i < s.len() && s[i] != 10 {
        line_end(s, i + 1)
    } else {
        i
    }
}

/// `hi` moved back over the whitespace that ends `s[lo..hi]`.
pub open spec fn trim_end(s: Seq<u8>, lo: int, hi: int) -> int
    decreases hi - lo,
{
    if lo < hi && is_space(s[hi - 1]) {
        trim_end(s, lo, hi - 1)
    } else {
        hi
    }
}

/// The directory that a build log names: after the first `Toolchain Path:`
/// and the whitespace that follows it, the rest of that line, trimmed.
pub open spec fn toolchain_path(log: Seq<u8>) -> Option<Seq<u8>> {
    match find_from(log, path_marker(), 0) {
        None => None,
        Some(m) => {
            let a = skip_spaces(log, m + 15);
            Some(log.subrange(a, trim_end(log, a, line_end(log, a))))
        },
    }
}

fn is_space_byte(b: u8) -> (r: bool)
    ensures
        r == is_space(b),
{
    b == 32 || (9 <= b && b <= 13)
}

/// Where the marker first stands in `log`.
fn find_marker(log: &[u8]) -> (r: Option<usize>)
    ensures
        r matches Some(m) ==> find_from(log@, path_marker(), 0) == Some(m as int),
        r is None ==> find_from(log@, path_marker(), 0) is None,
{
    let marker: Vec<u8> = vec![84u8, 111, 111, 108, 99, 104, 97, 105, 110, 32, 80, 97, 116, 104, 58];
    proof {
        assert(marker@ =~= path_marker());
    }
    let mut i: usize = 0;
    while i < log.len() && 15 <= log.len() - i
        invariant
            marker@ == path_marker(),
            find_from(log@, path_marker(), 0) == find_from(log@, path_marker(), i as int),
        decreases log.len() - i,
    {
        let mut j: usize = 0;
        while j < 15 && log[i + j] == marker[j]
            invariant
                j <= 15,
                i + 15 <= log.len(),
                marker@ == path_marker(),
                log@.subrange(i as int, i + j) =~= marker@.subrange(0, j as int),
            decreases 15 - j,
        {
            j = j + 1;
        }
        if j == 15 {
            proof {
                assert(marker@.subrange(0, 15) =~= marker@);
            }
            return Some(i);
        }
        proof {
            assert(log@.subrange(i as int, i + 15)[j as int] != path_marker()[j as int]);
        }
        i = i + 1;
    }
    None
}

/// The directory that a build log names after `Toolchain Path:`, as
/// `toolchain_path` says; `None` where the log holds no such line.
pub fn toolchain_dir(log: &[u8]) -> (r: Option<Vec<u8>>)
    ensures
        match r {
            Some(d) => toolchain_path(log@) == Some(d@),
            None => toolchain_path(log@) is None,
        },
{
    let m = match find_marker(log) {
        Some(m) => m,
        None => return None,
    };
    proof {
        lemma_find_from_found(log@, path_marker(), 0);
        assert(path_marker().len() == 15);
        assert(log@.len() == log.len());
    }
    let mut a: usize = m + 15;
    while a < log.len() && is_space_byte(log[a])
        invariant
            m + 15 <= a <= log.len(),
            skip_spaces(log@, m + 15) == skip_spaces(log@, a as int),
        decreases log.len() - a,
    {
        a = a + 1;
    }
    let mut e: usize = a;
    while e < log.len() && log[e] != 10
        invariant
            a <= e <= log.len(),
            line_end(log@, a as int) == line_end(log@, e as int),
        decreases log.len() - e,
    {
        e = e + 1;
    }
    let mut t: usize = e;
    while t > a && is_space_byte(log[t - 1])
        invariant
            a <= t <= e,
            e <= log.len(),
            trim_end(log@, a as int, e as int) == trim_end(log@, a as int, t as int),
        decreases t - a,
    {
        t = t - 1;
    }
    let mut out: Vec<u8> = Vec::new();
    let mut k: usize = a;
    while k < t
        invariant
            a <= k <= t,
            t <= log.len(),
            out@ =~= log@.subrange(a as int, k as int),
        decreases t - k,
    {
        out.push(log[k]);
        k = k + 1;
    }
    Some(out)
}

/// The name begins with `armcc` or `armclang`, the two compiler executables.
pub open spec fn is_compiler_name(name: Seq<char>) -> bool {
    (name.len() >= 5 && name.take(5) == seq!['a', 'r', 'm', 'c', 'c']) || (name.len() >= 8
        && name.take(8) == seq![
        'a',
        'r',
        'm',
        'c',
        'l',
        'a',
        'n',
        'g',
    ])
}

fn compiler_name(name: &String) -> (r: bool)
    ensures
        r == is_compiler_name(name@),
{
    let c = chars_of(name.as_str());
    let cc = c.len() >= 5 && c[0] == 'a' && c[1] == 'r' && c[2] == 'm' && c[3] == 'c' && c[4] == 'c';
    let clang = c.len() >= 8 && c[0] == 'a' && c[1] == 'r' && c[2] == 'm' && c[3] == 'c' && c[4]
        == 'l' && c[5] == 'a' && c[6] == 'n' && c[7] == 'g';
    proof {
        if cc {
            assert(c@.take(5) =~= seq!['a', 'r', 'm', 'c', 'c']);
        }
        if clang {
            assert(c@.take(8) =~= seq!['a', 'r', 'm', 'c', 'l', 'a', 'n', 'g']);
        }
        if c.len() >= 5 && c@.take(5) == seq!['a', 'r', 'm', 'c', 'c'] {
            assert(c@.take(5)[0] == c@[0]);
            assert(c@.take(5)[1] == c@[1]);
            assert(c@.take(5)[2] == c@[2]);
            assert(c@.take(5)[3] == c@[3]);
            assert(c@.take(5)[4] == c@[4]);
        }
        if c.len() >= 8 && c@.take(8) == seq!['a', 'r', 'm', 'c', 'l', 'a', 'n', 'g'] {
            assert(c@.take(8)[0] == c@[0]);
            assert(c@.take(8)[1] == c@[1]);
            assert(c@.take(8)[2] == c@[2]);
            assert(c@.take(8)[3] == c@[3]);
            assert(c@.take(8)[4] == c@[4]);
            assert(c@.take(8)[5] == c@[5]);
            assert(c@.take(8)[6] == c@[6]);
            assert(c@.take(8)[7] == c@[7]);
        }
    }
    cc || clang
}

/// The position of the first directory entry whose name is that of a
/// compiler executable, if any.
pub fn pick_compiler(names: &Vec<String>) -> (r: Option<usize>)
    ensures
        match r {
            Some(i) => i < names.len() && is_compiler_name(names@[i as int]@) && forall|k: int|
                0 <= k < i ==> !is_compiler_name(#[trigger] names@[k]@),
            None => forall|k: int| 0 <= k < names.len() ==> !is_compiler_name(#[trigger] names@[k]@),
        },
{
    let mut i: usize = 0;
    while i < names.len()
        invariant
            i <= names.len(),
            forall|k: int| 0 <= k < i ==> !is_compiler_name(#[trigger] names@[k]@),
        decreases names.len() - i,
    {
        if compiler_name(&names[i]) {
            return Some(i);
        }
        i = i + 1;
    }
    None
}

} // verus!
