use uvconvertor::command::{build_log_file_name, trace_file_name};
use uvconvertor::convertor::Convertor;
use uvconvertor::disk::{compile_template, rewrite_drive, Piece};
use uvconvertor::toolchain::{pick_compiler, toolchain_dir};
use uvconvertor::trace::{merge_include_flags, parse_trace, tokenize_arguments, TraceError};

fn strings(v: &[&str]) -> Vec<String> {
    v.iter().map(|s| s.to_string()).collect()
}

fn arguments(c: &Convertor) -> Vec<Vec<String>> {
    c.commands().iter().map(|c| c.arguments.clone()).collect()
}

fn files(c: &Convertor) -> Vec<String> {
    c.commands().iter().map(|c| c.file.clone()).collect()
}

fn convertor(trace: &str) -> Convertor {
    Convertor::from(trace, "/proj", None).unwrap()
}

#[test]
fn records_give_one_command_each_in_order() {
    let trace = "F (src/a.c)(h1)(-c a.c)\nF (src/b.c)(h2)(-c b.c)\r\nF (src/c.c)(h3)(-O2 c.c)";
    let c = convertor(trace);
    assert_eq!(files(&c), strings(&["src/a.c", "src/b.c", "src/c.c"]));
    assert_eq!(arguments(&c)[2], strings(&["-O2", "c.c"]));
    assert!(c.commands().iter().all(|x| x.directory == "/proj"));
}

#[test]
fn trace_without_records_is_empty() {
    let c = convertor("nothing to see here");
    assert_eq!(c.commands().len(), 0);
}

#[test]
fn record_split_over_lines_and_backslashes() {
    let c = convertor("F (src\\a.c)(h1)(-c\n-I inc\\x src\\a.c)");
    assert_eq!(files(&c), strings(&["src/a.c"]));
    assert_eq!(arguments(&c)[0], strings(&["-c", "-Iinc/x", "src/a.c"]));
}

#[test]
fn malformed_quoting_fails_the_whole_trace() {
    let r = parse_trace("F (a.c)(h)(-c a.c)F (b.c)(h)(-c 'b.c)", "/p");
    assert_eq!(r.err(), Some(TraceError::MalformedTrace));
}

#[test]
fn tokenize_merges_include_flag_and_value() {
    let t = tokenize_arguments("-c -I C:/inc src/a.c").unwrap();
    assert_eq!(t, strings(&["-c", "-IC:/inc", "src/a.c"]));
}

#[test]
fn tokenize_keeps_quoted_words_whole() {
    let t = tokenize_arguments("-DNAME='a b' \"x y\"").unwrap();
    assert_eq!(t, strings(&["-DNAME=a b", "x y"]));
    assert_eq!(tokenize_arguments("-c 'open"), None);
}

#[test]
fn trailing_include_flag_is_dropped() {
    assert_eq!(merge_include_flags(strings(&["-c", "-I"])), strings(&["-c"]));
    assert_eq!(merge_include_flags(strings(&["-I", "-I", "x"])), strings(&["-I-I", "x"]));
}

#[test]
fn remove_drops_flag_and_value() {
    let mut c = convertor("F (a.c)(h)(--cpu Cortex-M3 -g --apcs=interwork -O1 a.c)");
    c.remove_arguments(&strings(&["--cpu", "-g"]));
    assert_eq!(arguments(&c)[0], strings(&["--apcs=interwork", "-O1", "a.c"]));
}

#[test]
fn remove_keeps_hyphen_token_after_flag() {
    let mut c = convertor("F (a.c)(h)(-g -O1 a.c)");
    c.remove_arguments(&strings(&["-g"]));
    assert_eq!(arguments(&c)[0], strings(&["-O1", "a.c"]));
}

#[test]
fn remove_twice_is_remove_once() {
    let trace = "F (a.c)(h)(-x v -y -x -z w a.c)F (b.c)(h)(-x)";
    let prefixes = strings(&["-x", "-z"]);
    let mut once = convertor(trace);
    once.remove_arguments(&prefixes);
    let mut twice = convertor(trace);
    twice.remove_arguments(&prefixes);
    twice.remove_arguments(&prefixes);
    assert_eq!(arguments(&once), arguments(&twice));
    assert_eq!(arguments(&once)[0], strings(&["-y", "a.c"]));
}

#[test]
fn add_puts_arguments_last() {
    let mut c = convertor("F (a.c)(h)(-c a.c)F (b.c)(h)()");
    c.add_arguments(&strings(&["-DX", "-Wall"]));
    c.add_arguments(&strings(&["-Y"]));
    assert_eq!(arguments(&c)[0], strings(&["-c", "a.c", "-DX", "-Wall", "-Y"]));
    assert_eq!(arguments(&c)[1], strings(&["-DX", "-Wall", "-Y"]));
}

#[test]
fn template_lower_letter() {
    let p = compile_template("/mnt/$d");
    assert_eq!(rewrite_drive("C:/inc", &p), "/mnt/c/inc");
}

#[test]
fn template_braced_word_upper_keeps_option() {
    let p = compile_template("${DISK}");
    assert_eq!(p, vec![Piece::Upper]);
    assert_eq!(rewrite_drive("-IC:/inc", &p), "-IC/inc");
    assert_eq!(rewrite_drive("-Ic:/inc", &p), "-IC/inc");
}

#[test]
fn template_escaped_dollar_and_word_boundary() {
    let p = compile_template("$$d/$disk$dx");
    assert_eq!(
        p,
        vec![
            Piece::Literal('$'),
            Piece::Literal('d'),
            Piece::Literal('/'),
            Piece::Lower,
            Piece::Literal('$'),
            Piece::Literal('d'),
            Piece::Literal('x'),
        ]
    );
    assert_eq!(rewrite_drive("D:/x", &p), "$d/d$dx/x");
}

#[test]
fn template_without_macro_is_verbatim() {
    let p = compile_template("/root");
    assert_eq!(rewrite_drive("--include-dir=x", &p), "--include-dir=x");
    assert_eq!(rewrite_drive("--sys-rootE:/a/b", &p), "--sys-root/root/a/b");
    assert_eq!(rewrite_drive("src/a.c", &p), "src/a.c");
    assert_eq!(rewrite_drive("-1C:/a", &p), "-1C:/a");
    assert_eq!(rewrite_drive("x/C:/a", &p), "x/C:/a");
}

#[test]
fn replace_disk_rewrites_file_and_arguments() {
    let mut c = convertor("F (D:/src/a.c)(h)(-c -I C:/inc D:/src/a.c)");
    c.replace_disk("/mnt/$d");
    assert_eq!(files(&c), strings(&["/mnt/d/src/a.c"]));
    assert_eq!(arguments(&c)[0], strings(&["-c", "-I/mnt/c/inc", "/mnt/d/src/a.c"]));
}

#[test]
fn append_concatenates_in_order() {
    let mut left = convertor("F (a.c)(h)()F (b.c)(h)()");
    let right = convertor("F (c.c)(h)()");
    left.append(right);
    assert_eq!(files(&left), strings(&["a.c", "b.c", "c.c"]));
    let sum = convertor("F (x.c)(h)()") + left;
    assert_eq!(files(&sum), strings(&["x.c", "a.c", "b.c", "c.c"]));
    assert_eq!((Convertor::new() + Convertor::new()).commands().len(), 0);
}

#[test]
fn include_paths_are_distinct() {
    let c = convertor("F (a.c)(h)(-Isys -Iinc a.c)F (b.c)(h)(-I sys -Iinc -I other)");
    let mut paths = c.include_paths();
    paths.sort();
    assert_eq!(paths, strings(&["inc", "other", "sys"]));
}

#[test]
fn remove_sysroot_keeps_probed_paths() {
    let mut c = convertor("F (a.c)(h)(-Isys -c -Iinc -Iunknown a.c)");
    let probes = vec![("sys".to_string(), true), ("inc".to_string(), false)];
    c.remove_sysroot(&probes);
    assert_eq!(arguments(&c)[0], strings(&["-Isys", "-c", "a.c"]));
}

#[test]
fn compiler_goes_first() {
    let c = Convertor::from("F (a.c)(h)(-c a.c)", "/p", Some("/tc/armcc".to_string())).unwrap();
    assert_eq!(arguments(&c)[0], strings(&["/tc/armcc", "-c", "a.c"]));
}

#[test]
fn end_to_end_without_compiler() {
    let mut c = Convertor::from("F (src/a.c)(h1)(-c -I C:/inc src/a.c)", "/p", None).unwrap();
    c.replace_disk("/mnt/$d");
    assert_eq!(files(&c), strings(&["src/a.c"]));
    assert_eq!(arguments(&c), vec![strings(&["-c", "-I/mnt/c/inc", "src/a.c"])]);
}

#[test]
fn toolchain_line_is_found_and_trimmed() {
    let log = b"<pre>\r\nToolchain Path:  C:\\Keil\\ARM\\BIN \r\nother\r\n";
    assert_eq!(toolchain_dir(log), Some(b"C:\\Keil\\ARM\\BIN".to_vec()));
    assert_eq!(toolchain_dir(b"no such line"), None);
    assert_eq!(toolchain_dir(b"Toolchain Path:"), Some(Vec::new()));
}

#[test]
fn compiler_entry_is_picked() {
    let names = strings(&["fromelf.exe", "armlink.exe", "armclang.exe", "armcc.exe"]);
    assert_eq!(pick_compiler(&names), Some(2));
    assert_eq!(pick_compiler(&strings(&["armar.exe", "arm"])), None);
}

#[test]
fn derived_file_names() {
    assert_eq!(trace_file_name("Project", "Target 1"), "Project_Target 1.dep");
    assert_eq!(build_log_file_name("out"), "out.build_log.htm");
}
