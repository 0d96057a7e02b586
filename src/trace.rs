//! The dependency trace: records of the form `F (<file>)(<hash>)(<arguments>)`,
//! and the tokenizing of each record's argument string.

use vstd::prelude::*;
use vstd::string::StringExecFns;
use crate::command::{CommandView, CompileCommand, command_views};
use crate::text::{chars_of, find_from, find_pattern, lemma_find_from_found, push_char, string_between, views};

verus! {

/// What `shell_words::split` makes of `s`: the words, or `None` where the
/// quoting or escaping is malformed.
pub uninterp spec fn shell_split(s: Seq<char>) -> Option<Seq<Seq<char>>>;

/// Relies on `shell_words::split`: POSIX-shell-like word splitting, which
/// depends on the text alone and fails only on malformed quoting.
#[verifier::external_body]
fn split_words(s: &str) -> (r: Option<Vec<String>>)
    ensures
        match r {
            Some(v) => shell_split(s@) == Some(views(v@)),
            None => shell_split(s@) is None,
        },
{
    shell_words::split(s).ok()
}

/// Why a trace could not be read.
#[derive(Debug, Clone, Copy, PartialEq, Eq)]
pub enum TraceError {
    /// A record's argument string has malformed quoting.
    MalformedTrace,
}

/// The include-path flag written as a token of its own.
pub open spec fn include_flag() -> Seq<char> {
    seq!['-', 'I']
}

/// Joins each standalone include flag with the token after it.
pub open spec fn merge_includes(t: Seq<Seq<char>>) -> Seq<Seq<char>>
    decreases t.len(),
{
    if t.len() == 0 {
        seq![]
    } else if t[0] == include_flag() {
        if t.len() >= 2 {
            seq![include_flag() + t[1]] + merge_includes(t.subrange(2, t.len() as int))
        } else {
            seq![]
        }
    } else {
        seq![t[0]] + merge_includes(t.subrange(1, t.len() as int))
    }
}

fn is_include_flag(s: &String) -> (r: bool)
    ensures
        r == (s@ == include_flag()),
{
    let c = chars_of(s.as_str());
    let r = c.len() == 2 && c[0] == '-' && c[1] == 'I';
    proof {
        if c.len() == 2 && c[0] == '-' && c[1] == 'I' {
            assert(c@ =~= include_flag());
        }
    }
    r
}

/// Joins each token that is exactly `-I` with the token that follows it
/// (`-I`, `C:/inc` becomes `-IC:/inc`); a trailing lone `-I` is dropped.
/// Every other token is kept, in order.
pub fn merge_include_flags(tokens: Vec<String>) -> (r: Vec<String>)
    ensures
        views(r@) == merge_includes(views(tokens@)),
{
    let ghost t = views(tokens@);
    let mut out: Vec<String> = Vec::new();
    let mut i: usize = 0;
    proof {
        assert(t.subrange(0, t.len() as int) =~= t);
        assert(views(out@) + merge_includes(t) =~= merge_includes(t));
    }
    while i < tokens.len()
        invariant
            i <= tokens.len(),
            t == views(tokens@),
            views(out@) + merge_includes(t.subrange(i as int, t.len() as int)) == merge_includes(t),
        decreases tokens.len() - i,
    {
        let ghost rest = t.subrange(i as int, t.len() as int);
        if is_include_flag(&tokens[i]) {
            if i + 1 < tokens.len() {
                let mut joined = String::new();
                push_char(&mut joined, '-');
                push_char(&mut joined, 'I');
                joined.append(tokens[i + 1].as_str());
                proof {
                    assert(joined@ =~= include_flag() + t[i + 1]);
                    assert(rest.subrange(2, rest.len() as int) =~= t.subrange(i + 2, t.len() as int));
                    assert(views(out@.push(joined)) =~= views(out@) + seq![include_flag() + rest[1]]);
                }
                out.push(joined);
                i = i + 2;
            } else {
                proof {
                    assert(t.subrange(i + 1, t.len() as int) =~= seq![]);
                }
                i = i + 1;
            }
        } else {
            let tok = tokens[i].clone();
            proof {
                assert(rest.subrange(1, rest.len() as int) =~= t.subrange(i + 1, t.len() as int));
                assert(views(out@.push(tok)) =~= views(out@) + seq![rest[0]]);
            }
            out.push(tok);
            i = i + 1;
        }
    }
    proof {
        assert(t.subrange(i as int, t.len() as int) =~= seq![]);
        assert(views(out@) + seq![] =~= views(out@));
    }
    out
}

/// Splits an argument string into shell words and joins standalone include
/// flags with their values; `None` where the quoting is malformed.
pub fn tokenize_arguments(s: &str) -> (r: Option<Vec<String>>)
    ensures
        match r {
            Some(v) => shell_split(s@) matches Some(t) && views(v@) == merge_includes(t),
            None => shell_split(s@) is None,
        },
{
    match split_words(s) {
        Some(words) => Some(merge_include_flags(words)),
        None => None,
    }
}

/// The character that trace preprocessing puts in place of `c`: backslashes
/// become slashes, line breaks become spaces.
pub open spec fn normalize_char(c: char) -> char {
    if c == '\\' {
        '/'
    } else if c == '\r' || c == '\n' {
        ' '
    } else {
        c
    }
}

/// The trace text after preprocessing.
pub open spec fn normalized(s: Seq<char>) -> Seq<char> {
    s.map_values(|c: char| normalize_char(c))
}

/// `F (`, which opens a record.
pub open spec fn record_open() -> Seq<char> {
    seq!['F', ' ', '(']
}

/// `)(`, between the groups of a record.
pub open spec fn group_sep() -> Seq<char> {
    seq![')', '(']
}

/// `)`, which closes a record.
pub open spec fn group_close() -> Seq<char> {
    seq![')']
}

/// Where the next record at or after `from` lies: the start and end of its
/// file group and of its argument group. Each group ends at the first
/// delimiter that can close it.
pub open spec fn next_record(s: Seq<char>, from: int) -> Option<(int, int, int, int)> {
    match find_from(s, record_open(), from) {
        None => None,
        Some(a) => match find_from(s, group_sep(), a + 3) {
            None => None,
            Some(b) => match find_from(s, group_sep(), b + 2) {
                None => None,
                Some(c) => match find_from(s, group_close(), c + 2) {
                    None => None,
                    Some(d) => Some((a + 3, b, c + 2, d)),
                },
            },
        },
    }
}

/// The records of `s` at or after `from`, in order: each one's file and
/// argument string.
pub open spec fn records_from(s: Seq<char>, from: int) -> Seq<(Seq<char>, Seq<char>)>
    decreases s.len() + 1 - from,
{
    if from < 0 || from > s.len() {
        seq![]
    } else {
        match next_record(s, from) {
            None => seq![],
            Some((fs, fe, ast, ae)) => if from <= ae < s.len() {
                seq![(s.subrange(fs, fe), s.subrange(ast, ae))] + records_from(s, ae + 1)
            } else {
                seq![]
            },
        }
    }
}

/// The records of a trace text, after preprocessing.
pub open spec fn trace_records(text: Seq<char>) -> Seq<(Seq<char>, Seq<char>)> {
    records_from(normalized(text), 0)
}

/// The command that a record gives, or `None` where its quoting is malformed.
pub open spec fn record_command(rec: (Seq<char>, Seq<char>), directory: Seq<char>) -> Option<
    CommandView,
> {
    match shell_split(rec.1) {
        Some(t) => Some(CommandView { directory, file: rec.0, arguments: merge_includes(t) }),
        None => None,
    }
}

/// The commands of a list of records, or `None` where any record is malformed.
pub open spec fn record_commands(recs: Seq<(Seq<char>, Seq<char>)>, directory: Seq<char>) -> Option<
    Seq<CommandView>,
>
    decreases recs.len(),
{
    if recs.len() == 0 {
        Some(seq![])
    } else {
        match (record_commands(recs.drop_last(), directory), record_command(recs.last(), directory)) {
            (Some(cs), Some(c)) => Some(cs.push(c)),
            _ => None,
        }
    }
}

/// The commands of a trace text, or `None` where any record is malformed.
pub open spec fn trace_commands(text: Seq<char>, directory: Seq<char>) -> Option<Seq<CommandView>> {
    record_commands(trace_records(text), directory)
}

/// Well-formed records give exactly one command each, in the records'
/// order: the command at each position is the one its record gives.
pub proof fn lemma_one_command_per_record(
    recs: Seq<(Seq<char>, Seq<char>)>,
    directory: Seq<char>,
)
    requires
        record_commands(recs, directory) is Some,
    ensures
        record_commands(recs, directory)->0.len() == recs.len(),
        forall|k: int|
            0 <= k < recs.len() ==> record_command(#[trigger] recs[k], directory) == Some(
                record_commands(recs, directory)->0[k],
            ),
    decreases recs.len(),
{
    if recs.len() > 0 {
        let init = recs.drop_last();
        lemma_one_command_per_record(init, directory);
        assert forall|k: int| 0 <= k < recs.len() implies record_command(
            #[trigger] recs[k],
            directory,
        ) == Some(record_commands(recs, directory)->0[k]) by {
            if k < recs.len() - 1 {
                assert(recs[k] == init[k]);
            }
        }
    }
}

/// A list of records with a malformed one among them gives no commands,
/// whatever follows it.
pub proof fn lemma_malformed_prefix(
    a: Seq<(Seq<char>, Seq<char>)>,
    b: Seq<(Seq<char>, Seq<char>)>,
    directory: Seq<char>,
)
    requires
        record_commands(a, directory) is None,
    ensures
        record_commands(a + b, directory) is None,
    decreases b.len(),
{
    if b.len() == 0 {
        assert(a + b =~= a);
    } else {
        lemma_malformed_prefix(a, b.drop_last(), directory);
        assert((a + b).drop_last() =~= a + b.drop_last());
    }
}

/// The text after preprocessing.
fn normalize(text: &str) -> (r: Vec<char>)
    ensures
        r@ == normalized(text@),
{
    let c = chars_of(text);
    let mut out: Vec<char> = Vec::new();
    let mut i: usize = 0;
    while i < c.len()
        invariant
            i <= c.len(),
            c@ == text@,
            out@ =~= normalized(text@).take(i as int),
        decreases c.len() - i,
    {
        let ch = c[i];
        let n = if ch == '\\' {
            '/'
        } else if ch == '\r' || ch == '\n' {
            ' '
        } else {
            ch
        };
        out.push(n);
        i = i + 1;
    }
    out
}

/// Where the next record at or after `pos` lies, as `next_record` gives it.
fn locate_record(s: &Vec<char>, pos: usize) -> (r: Option<(usize, usize, usize, usize)>)
    ensures
        match r {
            Some((fs, fe, ast, ae)) => next_record(s@, pos as int) == Some(
                (fs as int, fe as int, ast as int, ae as int),
            ) && pos <= fs <= fe && fe + 2 <= ast <= ae < s.len(),
            None => next_record(s@, pos as int) is None,
        },
{
    let open = vec!['F', ' ', '('];
    let sep = vec![')', '('];
    let close = vec![')'];
    proof {
        assert(open@ =~= record_open());
        assert(sep@ =~= group_sep());
        assert(close@ =~= group_close());
        lemma_find_from_found(s@, record_open(), pos as int);
    }
    let a = match find_pattern(s, &open, pos) {
        Some(a) => a,
        None => return None,
    };
    proof {
        assert(record_open().len() == 3);
        assert(s@.len() == s.len());
        lemma_find_from_found(s@, group_sep(), a + 3);
    }
    let b = match find_pattern(s, &sep, a + 3) {
        Some(b) => b,
        None => return None,
    };
    proof {
        assert(group_sep().len() == 2);
        assert(s@.len() == s.len());
        lemma_find_from_found(s@, group_sep(), b + 2);
    }
    let c = match find_pattern(s, &sep, b + 2) {
        Some(c) => c,
        None => return None,
    };
    proof {
        assert(group_close().len() == 1);
        lemma_find_from_found(s@, group_close(), c + 2);
    }
    let d = match find_pattern(s, &close, c + 2) {
        Some(d) => d,
        None => return None,
    };
    Some((a + 3, b, c + 2, d))
}

/// The commands that a trace text describes, in the order of its records,
/// each with `directory`. Fails as a whole where any record's argument string
/// has malformed quoting.
pub fn parse_trace(text: &str, directory: &str) -> (r: Result<Vec<CompileCommand>, TraceError>)
    ensures
        match r {
            Ok(v) => trace_commands(text@, directory@) == Some(command_views(v@)),
            Err(_) => trace_commands(text@, directory@) is None,
        },
{
    let s = normalize(text);
    let mut cmds: Vec<CompileCommand> = Vec::new();
    let ghost mut done: Seq<(Seq<char>, Seq<char>)> = seq![];
    let mut pos: usize = 0;
    proof {
        assert(done + records_from(s@, 0) =~= records_from(s@, 0));
        assert(command_views(cmds@) =~= seq![]);
    }
    loop
        invariant
            pos <= s.len(),
            s@ == normalized(text@),
            records_from(s@, 0) == done + records_from(s@, pos as int),
            record_commands(done, directory@) == Some(command_views(cmds@)),
        decreases s.len() - pos,
    {
        let (fs, fe, ast, ae) = match locate_record(&s, pos) {
            Some(bounds) => bounds,
            None => {
                proof {
                    assert(done + records_from(s@, pos as int) =~= done);
                }
                return Ok(cmds);
            },
        };
        let file = string_between(&s, fs, fe);
        let args = string_between(&s, ast, ae);
        let ghost rec = (file@, args@);
        let ghost rest = records_from(s@, ae + 1);
        proof {
            assert(records_from(s@, pos as int) == seq![rec] + rest);
            assert(records_from(s@, 0) =~= done.push(rec) + rest);
            assert(done.push(rec).drop_last() =~= done);
        }
        match tokenize_arguments(args.as_str()) {
            Some(arguments) => {
                let cmd = CompileCommand {
                    directory: String::from_str(directory),
                    file,
                    arguments,
                };
                proof {
                    assert(command_views(cmds@.push(cmd)) =~= command_views(cmds@).push(cmd@));
                }
                cmds.push(cmd);
                proof {
                    done = done.push(rec);
                }
                pos = ae + 1;
            },
            None => {
                proof {
                    lemma_malformed_prefix(done.push(rec), rest, directory@);
                }
                return Err(TraceError::MalformedTrace);
            },
        }
    }
}

} // verus!
