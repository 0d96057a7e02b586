//! One entry of a compilation database.

use vstd::prelude::*;
use vstd::string::StringExecFns;
use crate::text::push_char;

verus! {

/// How one source file was compiled: the working directory, the file and
/// the compiler arguments, in order.
#[derive(Debug)]
pub struct CompileCommand {
    pub directory: String,
    pub file: String,
    pub arguments: Vec<String>,
}

/// The mathematical value of a `CompileCommand`.
pub struct CommandView {
    pub directory: Seq<char>,
    pub file: Seq<char>,
    pub arguments: Seq<Seq<char>>,
}

impl View for CompileCommand {
    type V = CommandView;

    open spec fn view(&self) -> CommandView {
        CommandView {
            directory: self.directory@,
            file: self.file@,
            arguments: self.arguments@.map_values(|a: String| a@),
        }
    }
}

/// The views of a sequence of commands.
pub open spec fn command_views(v: Seq<CompileCommand>) -> Seq<CommandView> {
    v.map_values(|c: CompileCommand| c@)
}

/// `<stem>_<target>.dep`: the name of a target's dependency trace.
pub open spec fn trace_name(stem: Seq<char>, target: Seq<char>) -> Seq<char> {
    stem + seq!['_'] + target + seq!['.', 'd', 'e', 'p']
}

/// `<output>.build_log.htm`: the name of a target's build log.
pub open spec fn build_log_name(output: Seq<char>) -> Seq<char> {
    output + seq!['.', 'b', 'u', 'i', 'l', 'd', '_', 'l', 'o', 'g', '.', 'h', 't', 'm']
}

fn push_all(s: &mut String, cs: &[char])
    ensures
        final(s)@ == old(s)@ + cs@,
{
    let mut i: usize = 0;
    let ghost start = s@;
    while i < cs.len()
        invariant
            i <= cs.len(),
            s@ =~= start + cs@.take(i as int),
        decreases cs.len() - i,
    {
        push_char(s, cs[i]);
        i = i + 1;
    }
    proof {
        assert(cs@.take(cs.len() as int) =~= cs@);
    }
}

/// The file name of the dependency trace of target `target` in the project
/// whose descriptor file is named `stem` (without extension).
pub fn trace_file_name(stem: &str, target: &str) -> (r: String)
    ensures
        r@ == trace_name(stem@, target@),
{
    let mut r = String::from_str(stem);
    push_char(&mut r, '_');
    r.append(target);
    let ext = ['.', 'd', 'e', 'p'];
    push_all(&mut r, &ext);
    proof {
        assert(ext@ =~= seq!['.', 'd', 'e', 'p']);
    }
    r
}

/// The file name of the build log of the output named `output`.
pub fn build_log_file_name(output: &str) -> (r: String)
    ensures
        r@ == build_log_name(output@),
{
    let mut r = String::from_str(output);
    let ext = ['.', 'b', 'u', 'i', 'l', 'd', '_', 'l', 'o', 'g', '.', 'h', 't', 'm'];
    push_all(&mut r, &ext);
    proof {
        assert(ext@ =~= seq!['.', 'b', 'u', 'i', 'l', 'd', '_', 'l', 'o', 'g', '.', 'h', 't', 'm']);
    }
    r
}

} // verus!
