//! The ordered list of compile commands and the transforms applied to it.

use vstd::prelude::*;
use crate::command::{CommandView, CompileCommand, command_views};
use crate::disk::{Piece, compile_template, rewrite_drive, rewrite_path, template_pieces};
use crate::text::{chars_of, string_between, views};
use crate::trace::{TraceError, parse_trace, trace_commands};

verus! {

/// An ordered list of compile commands: the compilation database of one or
/// more build targets.
#[derive(Debug)]
pub struct Convertor {
    commands: Vec<CompileCommand>,
}

impl View for Convertor {
    type V = Seq<CommandView>;

    closed spec fn view(&self) -> Seq<CommandView> {
        command_views(self.commands@)
    }
}

/// `c` with `extra` after its arguments.
pub open spec fn appended(c: CommandView, extra: Seq<Seq<char>>) -> CommandView {
    CommandView { arguments: c.arguments + extra, ..c }
}

/// `c` with `compiler` before its arguments, where one was located.
pub open spec fn with_compiler(c: CommandView, compiler: Option<Seq<char>>) -> CommandView {
    match compiler {
        Some(cc) => CommandView { arguments: seq![cc] + c.arguments, ..c },
        None => c,
    }
}

/// The view of an optional string.
pub open spec fn string_option(o: Option<String>) -> Option<Seq<char>> {
    match o {
        Some(s) => Some(s@),
        None => None,
    }
}

/// The token begins with a hyphen.
pub open spec fn starts_with_hyphen(a: Seq<char>) -> bool {
    a.len() > 0 && a[0] == '-'
}

/// Scans `args` left to right, drops each token found in `prefixes`, and
/// with it the token right after it unless that one begins with a hyphen.
pub open spec fn remove_flags(args: Seq<Seq<char>>, prefixes: Seq<Seq<char>>) -> Seq<Seq<char>>
    decreases args.len(),
{
    if args.len() == 0 {
        seq![]
    } else if prefixes.contains(args[0]) {
        if args.len() >= 2 && !starts_with_hyphen(args[1]) {
            remove_flags(args.subrange(2, args.len() as int), prefixes)
        } else {
            remove_flags(args.subrange(1, args.len() as int), prefixes)
        }
    } else {
        seq![args[0]] + remove_flags(args.subrange(1, args.len() as int), prefixes)
    }
}

/// `c` with `remove_flags` applied to its arguments.
pub open spec fn removed(c: CommandView, prefixes: Seq<Seq<char>>) -> CommandView {
    CommandView { arguments: remove_flags(c.arguments, prefixes), ..c }
}

/// No token that `remove_flags` keeps is one of `prefixes`.
pub proof fn lemma_remove_flags_leaves_none(args: Seq<Seq<char>>, prefixes: Seq<Seq<char>>)
    ensures
        forall|i: int|
            0 <= i < remove_flags(args, prefixes).len() ==> !prefixes.contains(
                #[trigger] remove_flags(args, prefixes)[i],
            ),
    decreases args.len(),
{
    if args.len() == 0 {
    } else if prefixes.contains(args[0]) {
        if args.len() >= 2 && !starts_with_hyphen(args[1]) {
            let rest = args.subrange(2, args.len() as int);
            lemma_remove_flags_leaves_none(rest, prefixes);
            assert(remove_flags(args, prefixes) == remove_flags(rest, prefixes));
        } else {
            let rest = args.subrange(1, args.len() as int);
            lemma_remove_flags_leaves_none(rest, prefixes);
            assert(remove_flags(args, prefixes) == remove_flags(rest, prefixes));
        }
    } else {
        let rest = args.subrange(1, args.len() as int);
        lemma_remove_flags_leaves_none(rest, prefixes);
        assert forall|i: int|
            0 <= i < remove_flags(args, prefixes).len() implies !prefixes.contains(
                #[trigger] remove_flags(args, prefixes)[i],
            ) by {
            if i > 0 {
                assert(remove_flags(args, prefixes)[i] == remove_flags(rest, prefixes)[i - 1]);
            }
        }
    }
}

/// Arguments that hold none of `prefixes` pass through `remove_flags` unchanged.
pub proof fn lemma_remove_flags_keeps_clean(args: Seq<Seq<char>>, prefixes: Seq<Seq<char>>)
    requires
        forall|i: int| 0 <= i < args.len() ==> !prefixes.contains(#[trigger] args[i]),
    ensures
        remove_flags(args, prefixes) == args,
    decreases args.len(),
{
    if args.len() > 0 {
        let rest = args.subrange(1, args.len() as int);
        assert forall|i: int| 0 <= i < rest.len() implies !prefixes.contains(#[trigger] rest[i]) by {
            assert(rest[i] == args[i + 1]);
        }
        lemma_remove_flags_keeps_clean(rest, prefixes);
        assert(!prefixes.contains(args[0]));
        assert(seq![args[0]] + rest =~= args);
    }
}

/// Removing the same flags a second time changes nothing.
pub proof fn lemma_remove_flags_idempotent(args: Seq<Seq<char>>, prefixes: Seq<Seq<char>>)
    ensures
        remove_flags(remove_flags(args, prefixes), prefixes) == remove_flags(args, prefixes),
{
    lemma_remove_flags_leaves_none(args, prefixes);
    lemma_remove_flags_keeps_clean(remove_flags(args, prefixes), prefixes);
}

/// Removing the same flags from every command a second time changes nothing.
pub proof fn lemma_remove_arguments_idempotent(cs: Seq<CommandView>, prefixes: Seq<Seq<char>>)
    ensures
        cs.map_values(|x: CommandView| removed(x, prefixes)).map_values(
            |x: CommandView| removed(x, prefixes),
        ) == cs.map_values(|x: CommandView| removed(x, prefixes)),
{
    let once = cs.map_values(|x: CommandView| removed(x, prefixes));
    let twice = once.map_values(|x: CommandView| removed(x, prefixes));
    assert forall|i: int| 0 <= i < cs.len() implies twice[i] == once[i] by {
        lemma_remove_flags_idempotent(cs[i].arguments, prefixes);
    }
    assert(twice =~= once);
}

fn contains_string(v: &[String], s: &String) -> (r: bool)
    ensures
        r == views(v@).contains(s@),
{
    let mut i: usize = 0;
    while i < v.len()
        invariant
            i <= v.len(),
            forall|k: int| 0 <= k < i ==> v@[k]@ != s@,
        decreases v.len() - i,
    {
        if v[i] == *s {
            proof {
                assert(views(v@)[i as int] == s@);
            }
            return true;
        }
        i = i + 1;
    }
    proof {
        if views(v@).contains(s@) {
            let k = choose|k: int| 0 <= k < views(v@).len() && views(v@)[k] == s@;
            assert(v@[k]@ == s@);
        }
    }
    false
}

fn begins_with_hyphen(s: &String) -> (r: bool)
    ensures
        r == starts_with_hyphen(s@),
{
    let c = chars_of(s.as_str());
    c.len() > 0 && c[0] == '-'
}

/// `c` with its file and each argument passed through `rewrite_path`.
pub open spec fn rewritten(c: CommandView, pieces: Seq<Piece>) -> CommandView {
    CommandView {
        directory: c.directory,
        file: rewrite_path(c.file, pieces),
        arguments: c.arguments.map_values(|a: Seq<char>| rewrite_path(a, pieces)),
    }
}

/// The include argument that names `path`.
pub open spec fn include_arg(path: Seq<char>) -> Seq<char> {
    seq!['-', 'I'] + path
}

/// The path that an include argument names, if `a` is one.
pub open spec fn include_path(a: Seq<char>) -> Option<Seq<char>> {
    if a.len() >= 2 && a[0] == '-' && a[1] == 'I' {
        Some(a.subrange(2, a.len() as int))
    } else {
        None
    }
}

proof fn lemma_include_arg(a: Seq<char>, p: Seq<char>)
    ensures
        (include_path(a) == Some(p)) <==> (a == include_arg(p)),
{
    if a == include_arg(p) {
        assert(a.subrange(2, a.len() as int) =~= p);
    }
    if include_path(a) == Some(p) {
        assert(a =~= include_arg(p));
    }
}

proof fn lemma_push_contains<T>(s: Seq<T>, x: T, y: T)
    ensures
        s.push(x).contains(y) <==> (s.contains(y) || x == y),
{
    if s.contains(y) {
        let w = choose|w: int| 0 <= w < s.len() && s[w] == y;
        assert(s.push(x)[w] == y);
    }
    if x == y {
        assert(s.push(x)[s.len() as int] == y);
    }
    if s.push(x).contains(y) {
        let w = choose|w: int| 0 <= w < s.len() + 1 && s.push(x)[w] == y;
        if w < s.len() {
            assert(s[w] == y);
        }
    }
}

/// Some argument of some command is the include argument of `p`.
pub open spec fn names_include(cs: Seq<CommandView>, p: Seq<char>) -> bool {
    exists|i: int| 0 <= i < cs.len() && #[trigger] cs[i].arguments.contains(include_arg(p))
}

proof fn lemma_names_include_push(cs: Seq<CommandView>, i: int, p: Seq<char>)
    requires
        0 <= i < cs.len(),
    ensures
        names_include(cs.take(i + 1), p) <==> (names_include(cs.take(i), p)
            || cs[i].arguments.contains(include_arg(p))),
{
    if names_include(cs.take(i + 1), p) {
        let w = choose|w: int| 0 <= w < i + 1 && #[trigger] cs.take(i + 1)[w].arguments.contains(include_arg(p));
        if w < i {
            assert(cs.take(i)[w] == cs[w]);
        }
    }
    if names_include(cs.take(i), p) {
        let w = choose|w: int| 0 <= w < i && #[trigger] cs.take(i)[w].arguments.contains(include_arg(p));
        assert(cs.take(i + 1)[w] == cs[w]);
    }
    if cs[i].arguments.contains(include_arg(p)) {
        assert(cs.take(i + 1)[i] == cs[i]);
    }
}

/// The views of probe entries: a path and whether standard headers were found there.
pub open spec fn probe_views(v: Seq<(String, bool)>) -> Seq<(Seq<char>, bool)> {
    v.map_values(|e: (String, bool)| (e.0@, e.1))
}

/// Some probe entry marks `path` as holding standard headers.
pub open spec fn has_std_headers(probes: Seq<(Seq<char>, bool)>, path: Seq<char>) -> bool {
    exists|i: int| 0 <= i < probes.len() && #[trigger] probes[i] == (path, true)
}

/// The argument stays: it is no include argument, or its path holds standard headers.
pub open spec fn keeps(a: Seq<char>, probes: Seq<(Seq<char>, bool)>) -> bool {
    match include_path(a) {
        Some(p) => has_std_headers(probes, p),
        None => true,
    }
}

/// The arguments that `keeps` keeps, in order.
pub open spec fn retained(args: Seq<Seq<char>>, probes: Seq<(Seq<char>, bool)>) -> Seq<Seq<char>>
    decreases args.len(),
{
    if args.len() == 0 {
        seq![]
    } else if keeps(args.last(), probes) {
        retained(args.drop_last(), probes).push(args.last())
    } else {
        retained(args.drop_last(), probes)
    }
}

/// `c` with only the arguments that `keeps` keeps.
pub open spec fn stripped(c: CommandView, probes: Seq<(Seq<char>, bool)>) -> CommandView {
    CommandView { arguments: retained(c.arguments, probes), ..c }
}

fn include_path_of(a: &String) -> (r: Option<String>)
    ensures
        match r {
            Some(p) => include_path(a@) == Some(p@),
            None => include_path(a@) is None,
        },
{
    let c = chars_of(a.as_str());
    if c.len() >= 2 && c[0] == '-' && c[1] == 'I' {
        Some(string_between(&c, 2, c.len()))
    } else {
        None
    }
}

fn probe_says(probes: &Vec<(String, bool)>, path: &String) -> (r: bool)
    ensures
        r == has_std_headers(probe_views(probes@), path@),
{
    let ghost pv = probe_views(probes@);
    let mut i: usize = 0;
    while i < probes.len()
        invariant
            i <= probes.len(),
            pv == probe_views(probes@),
            forall|k: int| 0 <= k < i ==> pv[k] != (path@, true),
        decreases probes.len() - i,
    {
        if probes[i].1 && probes[i].0 == *path {
            proof {
                assert(pv[i as int] == (path@, true));
            }
            return true;
        }
        proof {
            assert(pv[i as int] == (probes@[i as int].0@, probes@[i as int].1));
        }
        i = i + 1;
    }
    false
}

/// The arguments that `keeps` keeps, in order.
fn retain_includes(args: &Vec<String>, probes: &Vec<(String, bool)>) -> (r: Vec<String>)
    ensures
        views(r@) == retained(views(args@), probe_views(probes@)),
{
    let ghost a = views(args@);
    let ghost pv = probe_views(probes@);
    let mut out: Vec<String> = Vec::new();
    let mut i: usize = 0;
    proof {
        assert(a.take(0) =~= seq![]);
        assert(views(out@) =~= seq![]);
    }
    while i < args.len()
        invariant
            i <= args.len(),
            a == views(args@),
            pv == probe_views(probes@),
            views(out@) == retained(a.take(i as int), pv),
        decreases args.len() - i,
    {
        let keep = match include_path_of(&args[i]) {
            Some(p) => probe_says(probes, &p),
            None => true,
        };
        proof {
            assert(a.take(i + 1).drop_last() =~= a.take(i as int));
            assert(a.take(i + 1).last() == a[i as int]);
        }
        if keep {
            let tok = args[i].clone();
            proof {
                assert(views(out@.push(tok)) =~= views(out@).push(tok@));
            }
            out.push(tok);
        }
        i = i + 1;
    }
    proof {
        assert(a.take(args.len() as int) =~= a);
    }
    out
}

/// Each argument of `args` passed through `rewrite_drive`.
fn rewrite_all(args: &Vec<String>, pieces: &Vec<Piece>) -> (r: Vec<String>)
    ensures
        views(r@) == views(args@).map_values(|a: Seq<char>| rewrite_path(a, pieces@)),
{
    let mut out: Vec<String> = Vec::new();
    let mut i: usize = 0;
    while i < args.len()
        invariant
            i <= args.len(),
            views(out@) =~= views(args@).take(i as int).map_values(
                |a: Seq<char>| rewrite_path(a, pieces@),
            ),
        decreases args.len() - i,
    {
        let r = rewrite_drive(args[i].as_str(), pieces);
        proof {
            assert(views(out@.push(r)) =~= views(out@).push(r@));
        }
        out.push(r);
        i = i + 1;
    }
    proof {
        assert(views(args@).take(args.len() as int) =~= views(args@));
    }
    out
}

/// A copy of each string of `v`, in order.
fn copy_strings(v: &[String]) -> (r: Vec<String>)
    ensures
        views(r@) == views(v@),
{
    let mut out: Vec<String> = Vec::new();
    let mut i: usize = 0;
    while i < v.len()
        invariant
            i <= v.len(),
            views(out@) =~= views(v@).take(i as int),
        decreases v.len() - i,
    {
        let c = v[i].clone();
        proof {
            assert(views(out@.push(c)) =~= views(out@).push(c@));
            assert(views(v@).take(i + 1) =~= views(v@).take(i as int).push(v@[i as int]@));
        }
        out.push(c);
        i = i + 1;
    }
    proof {
        assert(views(v@).take(v.len() as int) =~= views(v@));
    }
    out
}

/// `args` with the flags in `prefixes` removed, as `remove_flags` says.
fn remove_from(args: &Vec<String>, prefixes: &[String]) -> (r: Vec<String>)
    ensures
        views(r@) == remove_flags(views(args@), views(prefixes@)),
{
    let ghost a = views(args@);
    let ghost p = views(prefixes@);
    let mut out: Vec<String> = Vec::new();
    let mut i: usize = 0;
    proof {
        assert(a.subrange(0, a.len() as int) =~= a);
        assert(views(out@) + remove_flags(a, p) =~= remove_flags(a, p));
    }
    while i < args.len()
        invariant
            i <= args.len(),
            a == views(args@),
            p == views(prefixes@),
            views(out@) + remove_flags(a.subrange(i as int, a.len() as int), p) == remove_flags(
                a,
                p,
            ),
        decreases args.len() - i,
    {
        let ghost rest = a.subrange(i as int, a.len() as int);
        if contains_string(prefixes, &args[i]) {
            if i + 1 < args.len() && !begins_with_hyphen(&args[i + 1]) {
                proof {
                    assert(rest.subrange(2, rest.len() as int) =~= a.subrange(i + 2, a.len() as int));
                }
                i = i + 2;
            } else {
                proof {
                    assert(rest.subrange(1, rest.len() as int) =~= a.subrange(i + 1, a.len() as int));
                }
                i = i + 1;
            }
        } else {
            let tok = args[i].clone();
            proof {
                assert(rest.subrange(1, rest.len() as int) =~= a.subrange(i + 1, a.len() as int));
                assert(views(out@.push(tok)) =~= views(out@) + seq![rest[0]]);
            }
            out.push(tok);
            i = i + 1;
        }
    }
    proof {
        assert(a.subrange(i as int, a.len() as int) =~= seq![]);
        assert(views(out@) + seq![] =~= views(out@));
    }
    out
}

impl Convertor {
    /// An empty list of commands.
    pub fn new() -> (r: Self)
        ensures
            r@ == Seq::<CommandView>::empty(),
    {
        Convertor { commands: Vec::new() }
    }

    /// The commands, in order.
    pub fn commands(&self) -> (r: &Vec<CompileCommand>)
        ensures
            command_views(r@) == self@,
    {
        &self.commands
    }

    fn take_commands(&mut self) -> (r: Vec<CompileCommand>)
        ensures
            command_views(r@) == old(self)@,
            final(self)@ == Seq::<CommandView>::empty(),
    {
        let mut taken: Vec<CompileCommand> = Vec::new();
        core::mem::swap(&mut self.commands, &mut taken);
        proof {
            assert(command_views(self.commands@) =~= Seq::<CommandView>::empty());
        }
        taken
    }

    /// The commands of a dependency trace, each with `directory`, in the
    /// order of the trace's records; where a compiler was located, it stands
    /// before each command's arguments. Fails as a whole where a record's
    /// argument string has malformed quoting.
    pub fn from(trace: &str, directory: &str, compiler: Option<String>) -> (r: Result<
        Self,
        TraceError,
    >)
        ensures
            match r {
                Ok(c) => trace_commands(trace@, directory@) matches Some(cs) && c@ == cs.map_values(
                    |x: CommandView| with_compiler(x, string_option(compiler)),
                ),
                Err(_) => trace_commands(trace@, directory@) is None,
            },
    {
        let mut parsed = match parse_trace(trace, directory) {
            Ok(v) => v,
            Err(e) => return Err(e),
        };
        let ghost cs = command_views(parsed@);
        let ghost cc = string_option(compiler);
        let mut out: Vec<CompileCommand> = Vec::new();
        let mut k: usize = 0;
        let n = parsed.len();
        while k < n
            invariant
                n == cs.len(),
                k <= n,
                command_views(parsed@) == cs.subrange(k as int, n as int),
                command_views(out@) == cs.take(k as int).map_values(
                    |x: CommandView| with_compiler(x, cc),
                ),
                cc == string_option(compiler),
            decreases n - k,
        {
            proof {
                assert(command_views(parsed@).len() == parsed@.len());
                assert(command_views(parsed@)[0] == parsed@[0]@);
            }
            let ghost before = parsed@;
            let cmd = parsed.remove(0);
            proof {
                assert(cmd@ == cs[k as int]);
                assert(parsed@ =~= before.subrange(1, before.len() as int));
                assert(command_views(parsed@) =~= command_views(before).subrange(
                    1,
                    before.len() as int,
                ));
                assert(command_views(parsed@) =~= cs.subrange(k + 1, n as int));
            }
            let CompileCommand { directory: dir, file, arguments } = cmd;
            let arguments = match &compiler {
                Some(cc_exec) => {
                    let mut a: Vec<String> = Vec::new();
                    a.push(cc_exec.clone());
                    let mut rest = arguments;
                    a.append(&mut rest);
                    proof {
                        assert(views(a@) =~= seq![cc_exec@] + cs[k as int].arguments);
                    }
                    a
                },
                None => arguments,
            };
            let next = CompileCommand { directory: dir, file, arguments };
            proof {
                assert(next@ == with_compiler(cs[k as int], cc));
                assert(command_views(out@.push(next)) =~= command_views(out@).push(next@));
                assert(cs.take(k + 1).map_values(|x: CommandView| with_compiler(x, cc))
                    =~= cs.take(k as int).map_values(|x: CommandView| with_compiler(x, cc)).push(
                    with_compiler(cs[k as int], cc),
                ));
                assert(command_views(out@.push(next)) =~= cs.take(k + 1).map_values(
                    |x: CommandView| with_compiler(x, cc),
                ));
            }
            out.push(next);
            k = k + 1;
        }
        proof {
            assert(cs.take(n as int) =~= cs);
        }
        Ok(Convertor { commands: out })
    }

    /// Puts `arguments` after the existing arguments of every command.
    pub fn add_arguments(&mut self, arguments_to_add: &[String])
        ensures
            final(self)@ == old(self)@.map_values(
                |x: CommandView| appended(x, views(arguments_to_add@)),
            ),
    {
        let mut parsed = self.take_commands();
        let ghost cs = command_views(parsed@);
        let mut out: Vec<CompileCommand> = Vec::new();
        let mut k: usize = 0;
        let n = parsed.len();
        while k < n
            invariant
                n == cs.len(),
                k <= n,
                command_views(parsed@) == cs.subrange(k as int, n as int),
                command_views(out@) == cs.take(k as int).map_values(|x: CommandView| appended(x, views(arguments_to_add@))),
                
            decreases n - k,
        {
            proof {
                assert(command_views(parsed@).len() == parsed@.len());
                assert(command_views(parsed@)[0] == parsed@[0]@);
            }
            let ghost before = parsed@;
            let cmd = parsed.remove(0);
            proof {
                assert(cmd@ == cs[k as int]);
                assert(parsed@ =~= before.subrange(1, before.len() as int));
                assert(command_views(parsed@) =~= command_views(before).subrange(
                    1,
                    before.len() as int,
                ));
                assert(command_views(parsed@) =~= cs.subrange(k + 1, n as int));
            }
            let CompileCommand { directory, file, arguments } = cmd;
            let mut extended = arguments;
            let mut extra = copy_strings(arguments_to_add);
            let ghost first = extended@;
            let ghost second = extra@;
            extended.append(&mut extra);
            proof {
                assert(views(extended@) =~= views(first) + views(second));
            }
            let next = CompileCommand { directory, file, arguments: extended };
            proof {
                let x = cs[k as int];
                assert(next@ == appended(x, views(arguments_to_add@)));
                assert(command_views(out@.push(next)) =~= command_views(out@).push(next@));
                assert(cs.take(k + 1).map_values(|x: CommandView| appended(x, views(arguments_to_add@))) =~= cs.take(
                    k as int,
                ).map_values(|x: CommandView| appended(x, views(arguments_to_add@))).push(appended(cs[k as int], views(arguments_to_add@))));
            }
            out.push(next);
            k = k + 1;
        }
        proof {
            assert(cs.take(n as int) =~= cs);
        }
        self.commands = out;
    }

    /// Removes from every command's arguments each token that equals one of
    /// `prefixes`, together with the value token after it (one that does not
    /// begin with a hyphen). The remaining arguments keep their order.
    pub fn remove_arguments(&mut self, prefixes: &[String])
        ensures
            final(self)@ == old(self)@.map_values(|x: CommandView| removed(x, views(prefixes@))),
    {
        let mut parsed = self.take_commands();
        let ghost cs = command_views(parsed@);
        let mut out: Vec<CompileCommand> = Vec::new();
        let mut k: usize = 0;
        let n = parsed.len();
        while k < n
            invariant
                n == cs.len(),
                k <= n,
                command_views(parsed@) == cs.subrange(k as int, n as int),
                command_views(out@) == cs.take(k as int).map_values(|x: CommandView| removed(x, views(prefixes@))),
                
            decreases n - k,
        {
            proof {
                assert(command_views(parsed@).len() == parsed@.len());
                assert(command_views(parsed@)[0] == parsed@[0]@);
            }
            let ghost before = parsed@;
            let cmd = parsed.remove(0);
            proof {
                assert(cmd@ == cs[k as int]);
                assert(parsed@ =~= before.subrange(1, before.len() as int));
                assert(command_views(parsed@) =~= command_views(before).subrange(
                    1,
                    before.len() as int,
                ));
                assert(command_views(parsed@) =~= cs.subrange(k + 1, n as int));
            }
            let CompileCommand { directory, file, arguments } = cmd;
            let kept = remove_from(&arguments, prefixes);
            let next = CompileCommand { directory, file, arguments: kept };
            proof {
                let x = cs[k as int];
                assert(next@ == removed(x, views(prefixes@)));
                assert(command_views(out@.push(next)) =~= command_views(out@).push(next@));
                assert(cs.take(k + 1).map_values(|x: CommandView| removed(x, views(prefixes@))) =~= cs.take(
                    k as int,
                ).map_values(|x: CommandView| removed(x, views(prefixes@))).push(removed(cs[k as int], views(prefixes@))));
            }
            out.push(next);
            k = k + 1;
        }
        proof {
            assert(cs.take(n as int) =~= cs);
        }
        self.commands = out;
    }

    /// Rewrites the drive letter at the head of every command's file and
    /// of each of its arguments through the replacement template `rep`.
    pub fn replace_disk(&mut self, rep: &str)
        ensures
            final(self)@ == old(self)@.map_values(
                |x: CommandView| rewritten(x, template_pieces(rep@)),
            ),
    {
        let pieces = compile_template(rep);
        let mut parsed = self.take_commands();
        let ghost cs = command_views(parsed@);
        let mut out: Vec<CompileCommand> = Vec::new();
        let mut k: usize = 0;
        let n = parsed.len();
        while k < n
            invariant
                n == cs.len(),
                k <= n,
                command_views(parsed@) == cs.subrange(k as int, n as int),
                command_views(out@) == cs.take(k as int).map_values(|x: CommandView| rewritten(x, pieces@)),
                
            decreases n - k,
        {
            proof {
                assert(command_views(parsed@).len() == parsed@.len());
                assert(command_views(parsed@)[0] == parsed@[0]@);
            }
            let ghost before = parsed@;
            let cmd = parsed.remove(0);
            proof {
                assert(cmd@ == cs[k as int]);
                assert(parsed@ =~= before.subrange(1, before.len() as int));
                assert(command_views(parsed@) =~= command_views(before).subrange(
                    1,
                    before.len() as int,
                ));
                assert(command_views(parsed@) =~= cs.subrange(k + 1, n as int));
            }
            let CompileCommand { directory, file, arguments } = cmd;
            let new_file = rewrite_drive(file.as_str(), &pieces);
            let new_arguments = rewrite_all(&arguments, &pieces);
            let next = CompileCommand { directory, file: new_file, arguments: new_arguments };
            proof {
                let x = cs[k as int];
                assert(next@ == rewritten(x, pieces@));
                assert(command_views(out@.push(next)) =~= command_views(out@).push(next@));
                assert(cs.take(k + 1).map_values(|x: CommandView| rewritten(x, pieces@)) =~= cs.take(
                    k as int,
                ).map_values(|x: CommandView| rewritten(x, pieces@)).push(rewritten(cs[k as int], pieces@)));
            }
            out.push(next);
            k = k + 1;
        }
        proof {
            assert(cs.take(n as int) =~= cs);
        }
        self.commands = out;
    }

    /// The distinct paths that the commands' include arguments (`-I<path>`)
    /// name, each once: the directories to probe for standard headers.
    pub fn include_paths(&self) -> (r: Vec<String>)
        ensures
            forall|i: int, j: int|
                0 <= i < r.len() && 0 <= j < r.len() && i != j ==> r@[i]@ != r@[j]@,
            forall|p: Seq<char>| views(r@).contains(p) <==> names_include(self@, p),
    {
        let mut out: Vec<String> = Vec::new();
        let mut i: usize = 0;
        while i < self.commands.len()
            invariant
                i <= self.commands.len(),
                forall|a: int, b: int|
                    0 <= a < out.len() && 0 <= b < out.len() && a != b ==> out@[a]@ != out@[b]@,
                forall|p: Seq<char>|
                    views(out@).contains(p) <==> names_include(self@.take(i as int), p),
            decreases self.commands.len() - i,
        {
            let args = &self.commands[i].arguments;
            let ghost cmd = self@[i as int];
            proof {
                assert(cmd.arguments == views(args@));
            }
            let mut j: usize = 0;
            while j < args.len()
                invariant
                    j <= args.len(),
                    i < self.commands.len(),
                    cmd == self@[i as int],
                    cmd.arguments == views(args@),
                    forall|a: int, b: int|
                        0 <= a < out.len() && 0 <= b < out.len() && a != b ==> out@[a]@ != out@[b]@,
                    forall|p: Seq<char>|
                        views(out@).contains(p) <==> (names_include(self@.take(i as int), p)
                            || cmd.arguments.take(j as int).contains(include_arg(p))),
                decreases args.len() - j,
            {
                let ghost before = out@;
                let ghost arg = cmd.arguments[j as int];
                match include_path_of(&args[j]) {
                    Some(path) => {
                        if !contains_string(out.as_slice(), &path) {
                            proof {
                                assert forall|a: int| 0 <= a < before.len() implies before[a]@
                                    != path@ by {
                                    assert(views(before)[a] == before[a]@);
                                }
                            }
                            out.push(path);
                            proof {
                                assert(views(out@) =~= views(before).push(path@));
                            }
                        }
                        proof {
                            assert forall|p: Seq<char>|
                                views(out@).contains(p) <==> (views(before).contains(p) || arg
                                    == include_arg(p)) by {
                                lemma_include_arg(arg, p);
                                lemma_push_contains(views(before), path@, p);
                            }
                        }
                    },
                    None => {
                        proof {
                            assert forall|p: Seq<char>|
                                views(out@).contains(p) <==> (views(before).contains(p) || arg
                                    == include_arg(p)) by {
                                lemma_include_arg(arg, p);
                            }
                        }
                    },
                }
                proof {
                    assert(cmd.arguments.take(j + 1) =~= cmd.arguments.take(j as int).push(arg));
                    assert forall|p: Seq<char>|
                        views(out@).contains(p) <==> (names_include(self@.take(i as int), p)
                            || cmd.arguments.take(j + 1).contains(include_arg(p))) by {
                        lemma_push_contains(cmd.arguments.take(j as int), arg, include_arg(p));
                    }
                }
                j = j + 1;
            }
            proof {
                assert(cmd.arguments.take(args.len() as int) =~= cmd.arguments);
                assert forall|p: Seq<char>|
                    views(out@).contains(p) <==> names_include(self@.take(i + 1), p) by {
                    lemma_names_include_push(self@, i as int, p);
                }
            }
            i = i + 1;
        }
        proof {
            assert(self@.take(self.commands.len() as int) =~= self@);
        }
        out
    }

    /// Keeps, in every command, each include argument (`-I<path>`) whose path
    /// a probe entry marks as holding standard headers, and drops the other
    /// include arguments; all other arguments stay, in order. A path with no
    /// probe entry counts as holding none.
    pub fn remove_sysroot(&mut self, probes: &Vec<(String, bool)>)
        ensures
            final(self)@ == old(self)@.map_values(
                |x: CommandView| stripped(x, probe_views(probes@)),
            ),
    {
        let mut parsed = self.take_commands();
        let ghost cs = command_views(parsed@);
        let mut out: Vec<CompileCommand> = Vec::new();
        let mut k: usize = 0;
        let n = parsed.len();
        while k < n
            invariant
                n == cs.len(),
                k <= n,
                command_views(parsed@) == cs.subrange(k as int, n as int),
                command_views(out@) == cs.take(k as int).map_values(|x: CommandView| stripped(x, probe_views(probes@))),
                
            decreases n - k,
        {
            proof {
                assert(command_views(parsed@).len() == parsed@.len());
                assert(command_views(parsed@)[0] == parsed@[0]@);
            }
            let ghost before = parsed@;
            let cmd = parsed.remove(0);
            proof {
                assert(cmd@ == cs[k as int]);
                assert(parsed@ =~= before.subrange(1, before.len() as int));
                assert(command_views(parsed@) =~= command_views(before).subrange(
                    1,
                    before.len() as int,
                ));
                assert(command_views(parsed@) =~= cs.subrange(k + 1, n as int));
            }
            let CompileCommand { directory, file, arguments } = cmd;
            let kept = retain_includes(&arguments, probes);
            let next = CompileCommand { directory, file, arguments: kept };
            proof {
                let x = cs[k as int];
                assert(next@ == stripped(x, probe_views(probes@)));
                assert(command_views(out@.push(next)) =~= command_views(out@).push(next@));
                assert(cs.take(k + 1).map_values(|x: CommandView| stripped(x, probe_views(probes@))) =~= cs.take(
                    k as int,
                ).map_values(|x: CommandView| stripped(x, probe_views(probes@))).push(stripped(cs[k as int], probe_views(probes@))));
            }
            out.push(next);
            k = k + 1;
        }
        proof {
            assert(cs.take(n as int) =~= cs);
        }
        self.commands = out;
    }

    /// Moves the commands of `rhs` after those of `self`.
    pub fn append(&mut self, rhs: Self)
        ensures
            final(self)@ == old(self)@ + rhs@,
            final(self)@.len() == old(self)@.len() + rhs@.len(),
    {
        let mut other = rhs.commands;
        let ghost mine = self.commands@;
        let ghost theirs = other@;
        self.commands.append(&mut other);
        proof {
            assert(command_views(mine + theirs) =~= command_views(mine) + command_views(theirs));
        }
    }
}

impl core::ops::Add for Convertor {
    type Output = Self;

    /// The commands of `self` followed by those of `rhs`.
    fn add(self, rhs: Self) -> (r: Self)
        ensures
            r@ == self@ + rhs@,
    {
        let mut left = self;
        left.append(rhs);
        left
    }
}

/// `+` is described by the contract of `add` above; no spec value is
/// claimed for it.
impl vstd::std_specs::ops::AddSpecImpl for Convertor {
    open spec fn obeys_add_spec() -> bool {
        false
    }

    open spec fn add_req(self, rhs: Self) -> bool {
        true
    }

    open spec fn add_spec(self, rhs: Self) -> Self {
        self
    }
}

} // verus!
