//! Drive-letter path rewriting through a replacement template.
//!
//! A template is literal text in which `$$` stands for one `$`, and `$D`,
//! `$DISK`, `${D}`, `${DISK}` stand for the drive letter in upper case while
//! `$d`, `$disk`, `${d}`, `${disk}` stand for it in lower case. An unbraced
//! macro counts only where no word character follows it.

use vstd::prelude::*;
use vstd::string::StringExecFns;
use crate::text::{chars_of, matches_at, occurs_at, string_of};

verus! {

/// One piece of a compiled template.
#[derive(Debug, Clone, Copy, PartialEq, Eq, Structural)]
pub enum Piece {
    /// A character copied as it is.
    Literal(char),
    /// The drive letter in upper case.
    Upper,
    /// The drive letter in lower case.
    Lower,
}

/// An ASCII letter.
pub open spec fn is_letter(c: char) -> bool {
    ('a' <= c && c <= 'z') || ('A' <= c && c <= 'Z')
}

/// A character that `\w` matches: an ASCII letter or digit, or `_`.
pub open spec fn is_word_char(c: char) -> bool {
    is_letter(c) || ('0' <= c && c <= '9') || c == '_'
}

/// The upper-case form of an ASCII letter.
pub open spec fn upper(c: char) -> char {
    if 'a' <= c && c <= 'z' {
        ((c as u32 - 32) as u8) as char
    } else {
        c
    }
}

/// The lower-case form of an ASCII letter.
pub open spec fn lower(c: char) -> char {
    if 'A' <= c && c <= 'Z' {
        ((c as u32 + 32) as u8) as char
    } else {
        c
    }
}

fn to_upper(c: char) -> (r: char)
    ensures
        r == upper(c),
{
    if 'a' <= c && c <= 'z' {
        ((c as u32 - 32) as u8) as char
    } else {
        c
    }
}

fn to_lower(c: char) -> (r: char)
    ensures
        r == lower(c),
{
    if 'A' <= c && c <= 'Z' {
        ((c as u32 + 32) as u8) as char
    } else {
        c
    }
}

/// An unbraced macro `m` stands at `i` of `t`: no word character follows it.
pub open spec fn bare_macro_at(t: Seq<char>, i: int, m: Seq<char>) -> bool {
    occurs_at(t, i, m) && (i + m.len() == t.len() || !is_word_char(t[i + m.len()]))
}

/// How many characters the macro at `i` of `t` spans, or 0 where none stands there.
pub open spec fn macro_len(t: Seq<char>, i: int) -> int {
    if occurs_at(t, i, seq!['$', '{', 'D', 'I', 'S', 'K', '}'])
        || occurs_at(t, i, seq!['$', '{', 'd', 'i', 's', 'k', '}']) {
        7
    } else if occurs_at(t, i, seq!['$', '{', 'D', '}']) || occurs_at(t, i, seq!['$', '{', 'd', '}']) {
        4
    } else if bare_macro_at(t, i, seq!['$', 'D', 'I', 'S', 'K']) || bare_macro_at(
        t,
        i,
        seq!['$', 'd', 'i', 's', 'k'],
    ) {
        5
    } else if bare_macro_at(t, i, seq!['$', 'D']) || bare_macro_at(t, i, seq!['$', 'd']) {
        2
    } else {
        0
    }
}

/// Which half of the drive letter the macro at `i` of `t` stands for: the
/// upper case where the macro is spelt in capitals.
pub open spec fn macro_piece(t: Seq<char>, i: int) -> Piece {
    if t[i + 1] == 'D' || (t[i + 1] == '{' && t[i + 2] == 'D') {
        Piece::Upper
    } else {
        Piece::Lower
    }
}

/// The piece that copies `c`.
pub open spec fn literal(c: char) -> Piece {
    Piece::Literal(c)
}

/// The pieces of the template `t` from position `i` on.
pub open spec fn template_from(t: Seq<char>, i: int) -> Seq<Piece>
    decreases t.len() - i,
{
    if i < 0 || i >= t.len() {
        seq![]
    } else if i + 1 < t.len() && t[i] == '$' && t[i + 1] == '$' {
        seq![literal('$')] + template_from(t, i + 2)
    } else if macro_len(t, i) > 0 {
        seq![macro_piece(t, i)] + template_from(t, i + macro_len(t, i))
    } else {
        seq![literal(t[i])] + template_from(t, i + 1)
    }
}

/// The compiled form of a replacement template.
pub open spec fn template_pieces(t: Seq<char>) -> Seq<Piece> {
    template_from(t, 0)
}

fn bare_macro_here(t: &Vec<char>, i: usize, m: &Vec<char>) -> (r: bool)
    ensures
        r == bare_macro_at(t@, i as int, m@),
{
    if !matches_at(t, i, m) {
        return false;
    }
    proof {
        assert(t@.len() == t.len());
    }
    i + m.len() == t.len() || {
        let c = t[i + m.len()];
        !(('a' <= c && c <= 'z') || ('A' <= c && c <= 'Z') || ('0' <= c && c <= '9') || c == '_')
    }
}

fn macro_here(t: &Vec<char>, i: usize) -> (r: (usize, Piece))
    ensures
        r.0 == macro_len(t@, i as int),
        r.0 > 0 ==> r.1 == macro_piece(t@, i as int),
{
    let braced_word_up = vec!['$', '{', 'D', 'I', 'S', 'K', '}'];
    let braced_word_low = vec!['$', '{', 'd', 'i', 's', 'k', '}'];
    let braced_up = vec!['$', '{', 'D', '}'];
    let braced_low = vec!['$', '{', 'd', '}'];
    let word_up = vec!['$', 'D', 'I', 'S', 'K'];
    let word_low = vec!['$', 'd', 'i', 's', 'k'];
    let letter_up = vec!['$', 'D'];
    let letter_low = vec!['$', 'd'];
    proof {
        assert(braced_word_up@ =~= seq!['$', '{', 'D', 'I', 'S', 'K', '}']);
        assert(braced_word_low@ =~= seq!['$', '{', 'd', 'i', 's', 'k', '}']);
        assert(braced_up@ =~= seq!['$', '{', 'D', '}']);
        assert(braced_low@ =~= seq!['$', '{', 'd', '}']);
        assert(word_up@ =~= seq!['$', 'D', 'I', 'S', 'K']);
        assert(word_low@ =~= seq!['$', 'd', 'i', 's', 'k']);
        assert(letter_up@ =~= seq!['$', 'D']);
        assert(letter_low@ =~= seq!['$', 'd']);
    }
    let len: usize = if matches_at(t, i, &braced_word_up) || matches_at(t, i, &braced_word_low) {
        7
    } else if matches_at(t, i, &braced_up) || matches_at(t, i, &braced_low) {
        4
    } else if bare_macro_here(t, i, &word_up) || bare_macro_here(t, i, &word_low) {
        5
    } else if bare_macro_here(t, i, &letter_up) || bare_macro_here(t, i, &letter_low) {
        2
    } else {
        0
    };
    if len == 0 {
        return (0, Piece::Lower);
    }
    proof {
        assert(t@.len() == t.len());
        assert(t@.subrange(i as int, i + len)[1] == t@[i + 1]);
        if len > 2 {
            assert(t@.subrange(i as int, i + len)[2] == t@[i + 2]);
        }
    }
    let piece = if t[i + 1] == 'D' || (t[i + 1] == '{' && t[i + 2] == 'D') {
        Piece::Upper
    } else {
        Piece::Lower
    };
    (len, piece)
}

/// Compiles a replacement template into its pieces: `$$` becomes a literal
/// `$`, each macro becomes the half of the drive letter it names, and every
/// other character is kept.
pub fn compile_template(rep: &str) -> (r: Vec<Piece>)
    ensures
        r@ == template_pieces(rep@),
{
    let t = chars_of(rep);
    let mut out: Vec<Piece> = Vec::new();
    let mut i: usize = 0;
    proof {
        assert(out@ + template_from(t@, 0) =~= template_from(t@, 0));
    }
    while i < t.len()
        invariant
            i <= t.len(),
            t@ == rep@,
            out@ + template_from(t@, i as int) == template_from(t@, 0),
        decreases t.len() - i,
    {
        let ghost before = out@;
        let ghost i0 = i as int;
        proof {
            assert(t@.len() == t.len());
        }
        let piece: Piece;
        if i + 1 < t.len() && t[i] == '$' && t[i + 1] == '$' {
            piece = Piece::Literal('$');
            i = i + 2;
        } else {
            let (len, p) = macro_here(&t, i);
            if len > 0 {
                piece = p;
                i = i + len;
            } else {
                piece = Piece::Literal(t[i]);
                i = i + 1;
            }
        }
        out.push(piece);
        proof {
            assert(template_from(t@, i0) == seq![piece] + template_from(t@, i as int));
            assert(out@ + template_from(t@, i as int) =~= before + template_from(t@, i0));
        }
    }
    proof {
        assert(out@ + seq![] =~= out@);
    }
    out
}

/// Letter words joined by single hyphens, as in `foo-bar`.
pub open spec fn option_words(q: Seq<char>) -> bool {
    &&& q.len() > 0
    &&& is_letter(q[0])
    &&& is_letter(q.last())
    &&& forall|j: int| 0 <= j < q.len() ==> is_letter(#[trigger] q[j]) || q[j] == '-'
    &&& forall|j: int| 0 <= j < q.len() - 1 ==> !(#[trigger] q[j] == '-' && q[j + 1] == '-')
}

/// An option prefix such as `-I` or `--include-dir`: one or two hyphens,
/// then letter words joined by single hyphens.
pub open spec fn is_option_prefix(p: Seq<char>) -> bool {
    &&& p.len() >= 2
    &&& p[0] == '-'
    &&& option_words(
        if p[1] == '-' {
            p.subrange(2, p.len() as int)
        } else {
            p.subrange(1, p.len() as int)
        },
    )
}

/// A drive letter stands at `k - 1` of `s`: `s` begins with an optional
/// option prefix, then that letter, then `:/` at `k`.
pub open spec fn drive_at(s: Seq<char>, k: int) -> bool {
    &&& 1 <= k
    &&& k + 1 < s.len()
    &&& s[k] == ':'
    &&& s[k + 1] == '/'
    &&& is_letter(s[k - 1])
    &&& (k == 1 || is_option_prefix(s.subrange(0, k - 1)))
}

/// The character that a piece gives for the drive letter `letter`.
pub open spec fn piece_char(p: Piece, letter: char) -> char {
    match p {
        Piece::Literal(c) => c,
        Piece::Upper => upper(letter),
        Piece::Lower => lower(letter),
    }
}

/// The text that the pieces give for the drive letter `letter`.
pub open spec fn expand(pieces: Seq<Piece>, letter: char) -> Seq<char> {
    pieces.map_values(|p: Piece| piece_char(p, letter))
}

/// `s` with its leading drive letter and `:/` replaced by the pieces'
/// text and a slash; `s` itself where it has no drive letter there.
pub open spec fn rewrite_path(s: Seq<char>, pieces: Seq<Piece>) -> Seq<char> {
    if exists|k: int| drive_at(s, k) {
        let k = choose|k: int| drive_at(s, k);
        s.subrange(0, k - 1) + expand(pieces, s[k - 1]) + seq!['/'] + s.subrange(
            k + 2,
            s.len() as int,
        )
    } else {
        s
    }
}

/// No option prefix holds a colon.
proof fn lemma_option_prefix_no_colon(p: Seq<char>, j: int)
    requires
        is_option_prefix(p),
        0 <= j < p.len(),
    ensures
        p[j] != ':',
{
    let q = if p[1] == '-' {
        p.subrange(2, p.len() as int)
    } else {
        p.subrange(1, p.len() as int)
    };
    if j >= 2 && p[1] == '-' {
        assert(p[j] == q[j - 2]);
    } else if j >= 1 && p[1] != '-' {
        assert(p[j] == q[j - 1]);
    }
}

/// A drive letter can stand only before the first colon of `s`.
proof fn lemma_drive_at_first_colon(s: Seq<char>, k: int, c: int)
    requires
        drive_at(s, k),
        0 <= c < s.len(),
        s[c] == ':',
    ensures
        k <= c,
{
    if c < k {
        if c == k - 1 {
        } else {
            assert(s.subrange(0, k - 1)[c] == s[c]);
            lemma_option_prefix_no_colon(s.subrange(0, k - 1), c);
        }
    }
}

fn is_letter_char(c: char) -> (r: bool)
    ensures
        r == is_letter(c),
{
    ('a' <= c && c <= 'z') || ('A' <= c && c <= 'Z')
}

/// Whether `s[start..end]` is letter words joined by single hyphens.
fn words_between(s: &Vec<char>, start: usize, end: usize) -> (r: bool)
    requires
        start <= end <= s.len(),
    ensures
        r == option_words(s@.subrange(start as int, end as int)),
{
    let ghost q = s@.subrange(start as int, end as int);
    if start == end || !is_letter_char(s[start]) || !is_letter_char(s[end - 1]) {
        return false;
    }
    let mut j: usize = start;
    while j < end
        invariant
            start <= j <= end,
            end <= s.len(),
            q == s@.subrange(start as int, end as int),
            forall|x: int| 0 <= x < j - start ==> is_letter(#[trigger] q[x]) || q[x] == '-',
            forall|x: int| 0 <= x < j - start && x < q.len() - 1 ==> !(#[trigger] q[x] == '-' && q[x + 1] == '-'),
        decreases end - j,
    {
        let c = s[j];
        if !is_letter_char(c) && c != '-' {
            proof {
                assert(q[j - start] == c);
            }
            return false;
        }
        if c == '-' && j + 1 < end && s[j + 1] == '-' {
            proof {
                assert(q[j - start] == c);
                assert(q[j - start + 1] == s[j + 1 as int]);
            }
            return false;
        }
        proof {
            assert(q[j - start] == c);
            if j + 1 < end {
                assert(q[j - start + 1] == s@[j + 1]);
            }
        }
        j = j + 1;
    }
    true
}

/// Whether `s[0..end]` is an option prefix.
fn option_prefix_before(s: &Vec<char>, end: usize) -> (r: bool)
    requires
        end <= s.len(),
    ensures
        r == is_option_prefix(s@.subrange(0, end as int)),
{
    let ghost p = s@.subrange(0, end as int);
    if end < 2 || s[0] != '-' {
        return false;
    }
    let start: usize = if s[1] == '-' {
        2
    } else {
        1
    };
    let r = words_between(s, start, end);
    proof {
        assert(p[0] == s@[0]);
        assert(p[1] == s@[1]);
        assert(p.subrange(start as int, p.len() as int) =~= s@.subrange(start as int, end as int));
    }
    r
}

/// Where the drive letter's colon stands in `s`, if it has one.
fn drive_position(s: &Vec<char>) -> (r: Option<usize>)
    ensures
        r matches Some(k) ==> drive_at(s@, k as int),
        r is None ==> forall|k: int| !drive_at(s@, k),
{
    let mut c: usize = 0;
    while c < s.len() && s[c] != ':'
        invariant
            c <= s.len(),
            forall|x: int| 0 <= x < c ==> s@[x] != ':',
        decreases s.len() - c,
    {
        c = c + 1;
    }
    if c == s.len() {
        return None;
    }
    let found = c >= 1 && c + 1 < s.len() && s[c + 1] == '/' && is_letter_char(s[c - 1]) && (c
        == 1 || option_prefix_before(s, c - 1));
    proof {
        assert forall|k: int| drive_at(s@, k) implies k == c by {
            lemma_drive_at_first_colon(s@, k, c as int);
        }
    }
    if found {
        Some(c)
    } else {
        None
    }
}

fn push_range(out: &mut Vec<char>, c: &Vec<char>, lo: usize, hi: usize)
    requires
        lo <= hi <= c.len(),
    ensures
        final(out)@ == old(out)@ + c@.subrange(lo as int, hi as int),
{
    let ghost start = out@;
    let mut i: usize = lo;
    while i < hi
        invariant
            lo <= i <= hi,
            hi <= c.len(),
            out@ =~= start + c@.subrange(lo as int, i as int),
        decreases hi - i,
    {
        out.push(c[i]);
        i = i + 1;
    }
}

fn push_expanded(out: &mut Vec<char>, pieces: &Vec<Piece>, letter: char)
    ensures
        final(out)@ == old(out)@ + expand(pieces@, letter),
{
    let ghost start = out@;
    let mut j: usize = 0;
    while j < pieces.len()
        invariant
            j <= pieces.len(),
            out@ =~= start + expand(pieces@, letter).take(j as int),
        decreases pieces.len() - j,
    {
        let ch = match pieces[j] {
            Piece::Literal(x) => x,
            Piece::Upper => to_upper(letter),
            Piece::Lower => to_lower(letter),
        };
        out.push(ch);
        j = j + 1;
    }
    proof {
        assert(expand(pieces@, letter).take(pieces.len() as int) =~= expand(pieces@, letter));
    }
}

/// Rewrites the leading drive letter of `s` (after an optional option
/// prefix such as `-I`) with the compiled template: `C:/inc` with the
/// template of `/mnt/$d` becomes `/mnt/c/inc`. A string with no drive
/// letter there is returned unchanged.
pub fn rewrite_drive(s: &str, pieces: &Vec<Piece>) -> (r: String)
    ensures
        r@ == rewrite_path(s@, pieces@),
{
    let c = chars_of(s);
    match drive_position(&c) {
        None => String::from_str(s),
        Some(k) => {
            let letter = c[k - 1];
            let mut out: Vec<char> = Vec::new();
            push_range(&mut out, &c, 0, k - 1);
            push_expanded(&mut out, pieces, letter);
            out.push('/');
            push_range(&mut out, &c, k + 2, c.len());
            proof {
                let k2 = choose|k2: int| drive_at(s@, k2);
                lemma_drive_at_first_colon(s@, k2, k as int);
                lemma_drive_at_first_colon(s@, k as int, k2);
                assert(out@ =~= rewrite_path(s@, pieces@));
            }
            string_of(&out)
        },
    }
}

} // verus!
