//! The command builder: turns a declarative description of one operation
//! into the concrete argument vector and execution mode of a process
//! invocation.
//!
//! The argument order is fixed: verb, `--id` and the target, the flag list
//! (a curated default set per verb when the caller supplies none), then
//! `--source`, `--proxy` and, for downloads, `--download-directory` pairs.
//! A flag list containing an interactive marker routes the invocation
//! through a visible shell wrapper that first switches the console code
//! page; every other invocation runs the tool directly with no window.

use crate::strutil::{
    is_blank, join_with, lemma_join_with_push, lemma_push_deep_view, lower_of, contains_seq,
    str_eq, str_is_blank, str_to_chars, to_lower, contains_str, push_char, chars_to_string,
    rfind_char,
};
use vstd::prelude::*;
use vstd::string::StringExecFns;

verus! {

/// How a built command is to be launched.
#[derive(Debug, Clone, Copy, PartialEq, Eq, Structural)]
pub enum ExecutionMode {
    /// No visible window; output is captured or piped.
    Hidden,
    /// A visible console via a shell wrapper; output goes to that console.
    Interactive,
}

/// Why a description was rejected before any process existed.
#[derive(Debug, Clone, Copy, PartialEq, Eq, Structural)]
pub enum BuildError {
    /// The target id was empty or all whitespace.
    BlankTarget,
}

/// Declarative description of one invocation, built once per submission.
#[derive(Debug, Clone)]
pub struct CommandSpec {
    /// The operation: `install`, `upgrade`, `uninstall` or `download`.
    pub verb: String,
    /// The target package id; also the caller's task id.
    pub id: String,
    /// Explicit flags; an empty list selects the verb's default set.
    pub flags: Vec<String>,
    /// An explicit source, passed through when non-blank.
    pub source: Option<String>,
    /// An explicit proxy, passed through when non-blank.
    pub proxy: Option<String>,
    /// Output directory for downloads; a deterministic default under the
    /// user's downloads area applies when blank.
    pub dir: Option<String>,
    /// Keep generated descriptor artifacts after a successful download.
    pub keep_artifact: bool,
}

/// The concrete invocation: ordered arguments and an execution mode.
#[derive(Debug, Clone)]
pub struct BuiltCommand {
    pub args: Vec<String>,
    pub mode: ExecutionMode,
}

/// The curated default flag set of each verb.
pub open spec fn default_flags(verb: Seq<char>) -> Seq<Seq<char>> {
    if verb == "upgrade"@ || verb == "install"@ {
        seq![
            "--exact"@,
            "--source"@,
            "winget"@,
            "--accept-source-agreements"@,
            "--accept-package-agreements"@,
            "--disable-interactivity"@,
            "--silent"@,
            "--include-unknown"@,
            "--force"@,
        ]
    } else if verb == "uninstall"@ {
        seq!["--exact"@, "--accept-source-agreements"@]
    } else if verb == "download"@ {
        seq![
            "--exact"@,
            "--source"@,
            "winget"@,
            "--accept-source-agreements"@,
            "--accept-package-agreements"@,
            "--disable-interactivity"@,
        ]
    } else {
        Seq::empty()
    }
}

/// The flag list after defaulting: the caller's flags, or the verb's
/// default set when the caller supplied none.
pub open spec fn effective_flags(verb: Seq<char>, flags: Seq<Seq<char>>) -> Seq<Seq<char>> {
    if flags.len() == 0 {
        default_flags(verb)
    } else {
        flags
    }
}

/// The flag list with every `--source` and `winget` token removed, to
/// avoid conflicting source arguments when the caller names a source.
pub open spec fn strip_source_defaults(flags: Seq<Seq<char>>) -> Seq<Seq<char>>
    decreases flags.len(),
{
    if flags.len() == 0 {
        Seq::empty()
    } else if flags[0] == "--source"@ || flags[0] == "winget"@ {
        strip_source_defaults(flags.skip(1))
    } else {
        seq![flags[0]] + strip_source_defaults(flags.skip(1))
    }
}

/// True iff the flag list contains an interactive marker.
pub open spec fn has_interactive_flag(flags: Seq<Seq<char>>) -> bool {
    exists|i: int|
        0 <= i < flags.len() && ((#[trigger] flags[i]) == "--interactive"@ || flags[i] == "-i"@)
}

/// The flags of the built command: defaulted, and stripped of default
/// source tokens when the download names its own source.
pub open spec fn command_flags(c: CommandSpec) -> Seq<Seq<char>> {
    let base = effective_flags(c.verb@, c.flags.deep_view());
    if c.verb@ == "download"@ && c.source is Some {
        strip_source_defaults(base)
    } else {
        base
    }
}

/// The `--source` pair, present when an explicit source is non-blank.
pub open spec fn source_pair(c: CommandSpec) -> Seq<Seq<char>> {
    match c.source {
        Some(s) => if !is_blank(s@) {
            seq!["--source"@, s@]
        } else {
            Seq::empty()
        },
        None => Seq::empty(),
    }
}

/// The `--proxy` pair, present when an explicit proxy is non-blank.
pub open spec fn proxy_pair(c: CommandSpec) -> Seq<Seq<char>> {
    match c.proxy {
        Some(p) => if !is_blank(p@) {
            seq!["--proxy"@, p@]
        } else {
            Seq::empty()
        },
        None => Seq::empty(),
    }
}

/// The output directory a download resolves to: the caller's directory
/// when non-blank, else a fixed location under the user's downloads area.
pub open spec fn resolved_dir_spec(dir: Option<String>, home: Seq<char>) -> Seq<char> {
    match dir {
        Some(d) => if !is_blank(d@) {
            d@
        } else {
            home + "\\Downloads\\winget-downloads"@
        },
        None => home + "\\Downloads\\winget-downloads"@,
    }
}

/// The trailing `--download-directory` pair, always appended for the
/// download verb.
pub open spec fn dir_pair(c: CommandSpec, home: Seq<char>) -> Seq<Seq<char>> {
    if c.verb@ == "download"@ {
        seq!["--download-directory"@, resolved_dir_spec(c.dir, home)]
    } else {
        Seq::empty()
    }
}

/// The full argument vector of the built command.
pub open spec fn built_args(c: CommandSpec, home: Seq<char>) -> Seq<Seq<char>> {
    seq![c.verb@, "--id"@, c.id@] + command_flags(c) + source_pair(c) + proxy_pair(c) + dir_pair(
        c,
        home,
    )
}

/// The execution mode: interactive iff the flag list, after defaulting,
/// holds an interactive marker.
pub open spec fn built_mode(c: CommandSpec) -> ExecutionMode {
    if has_interactive_flag(effective_flags(c.verb@, c.flags.deep_view())) {
        ExecutionMode::Interactive
    } else {
        ExecutionMode::Hidden
    }
}

/// The default flag set of one verb, as executable data.
pub fn default_exec_flags_for(subcmd: &str) -> (r: Vec<&'static str>)
    ensures
        r.deep_view() == default_flags(subcmd@),
{
    let mut v: Vec<&'static str> = Vec::new();
    if str_eq(subcmd, "upgrade") || str_eq(subcmd, "install") {
        v.push("--exact");
        v.push("--source");
        v.push("winget");
        v.push("--accept-source-agreements");
        v.push("--accept-package-agreements");
        v.push("--disable-interactivity");
        v.push("--silent");
        v.push("--include-unknown");
        v.push("--force");
    } else if str_eq(subcmd, "uninstall") {
        v.push("--exact");
        v.push("--accept-source-agreements");
    } else if str_eq(subcmd, "download") {
        v.push("--exact");
        v.push("--source");
        v.push("winget");
        v.push("--accept-source-agreements");
        v.push("--accept-package-agreements");
        v.push("--disable-interactivity");
    }
    proof {
        assert(v.deep_view() =~= default_flags(subcmd@));
    }
    v
}

fn to_owned_vec(v: &Vec<&str>) -> (r: Vec<String>)
    ensures
        r.deep_view() == v.deep_view(),
{
    let mut out: Vec<String> = Vec::new();
    let mut i: usize = 0;
    while i < v.len()
        invariant
            i <= v@.len(),
            out.deep_view() == v.deep_view().subrange(0, i as int),
        decreases v@.len() - i,
    {
        let ghost pre = out;
        out.push(v[i].to_owned());
        proof {
            lemma_push_deep_view(&pre, &out, out@.last());
            assert(v.deep_view().subrange(0, i as int).push(v.deep_view()[i as int])
                =~= v.deep_view().subrange(0, i + 1));
        }
        i = i + 1;
    }
    proof {
        assert(v.deep_view().subrange(0, v@.len() as int) =~= v.deep_view());
    }
    out
}

/// Copies a vector of strings.
pub fn clone_string_vec(v: &Vec<String>) -> (r: Vec<String>)
    ensures
        r@ == v@,
{
    let mut out: Vec<String> = Vec::new();
    let mut i: usize = 0;
    while i < v.len()
        invariant
            i <= v@.len(),
            out@ == v@.subrange(0, i as int),
        decreases v@.len() - i,
    {
        out.push(v[i].clone());
        proof {
            assert(out@ =~= v@.subrange(0, i + 1));
        }
        i = i + 1;
    }
    proof {
        assert(v@.subrange(0, v@.len() as int) =~= v@);
    }
    out
}

pub(crate) fn append_all(dst: Vec<String>, src: &Vec<String>) -> (r: Vec<String>)
    ensures
        r.deep_view() == dst.deep_view() + src.deep_view(),
{
    let mut out = dst;
    let ghost base = out.deep_view();
    let mut i: usize = 0;
    proof {
        assert(base + src.deep_view().subrange(0, 0) =~= base);
    }
    while i < src.len()
        invariant
            i <= src@.len(),
            out.deep_view() == base + src.deep_view().subrange(0, i as int),
        decreases src@.len() - i,
    {
        let ghost pre = out;
        out.push(src[i].clone());
        proof {
            lemma_push_deep_view(&pre, &out, out@.last());
            assert((base + src.deep_view().subrange(0, i as int)).push(
                src.deep_view()[i as int],
            ) =~= base + src.deep_view().subrange(0, i + 1));
        }
        i = i + 1;
    }
    proof {
        assert(src.deep_view().subrange(0, src@.len() as int) =~= src.deep_view());
    }
    out
}

fn strip_source_flags(v: &Vec<String>) -> (r: Vec<String>)
    ensures
        r.deep_view() == strip_source_defaults(v.deep_view()),
{
    let mut out: Vec<String> = Vec::new();
    let mut i: usize = 0;
    proof {
        assert(v.deep_view().skip(0) =~= v.deep_view());
        assert(Seq::<Seq<char>>::empty() + strip_source_defaults(v.deep_view())
            =~= strip_source_defaults(v.deep_view()));
    }
    while i < v.len()
        invariant
            i <= v@.len(),
            out.deep_view() + strip_source_defaults(v.deep_view().skip(i as int))
                == strip_source_defaults(v.deep_view()),
        decreases v@.len() - i,
    {
        proof {
            assert(v.deep_view().skip(i as int).skip(1) =~= v.deep_view().skip(i + 1));
            assert(v.deep_view().skip(i as int)[0] == v@[i as int]@);
        }
        let keep = !(str_eq(v[i].as_str(), "--source") || str_eq(v[i].as_str(), "winget"));
        if keep {
            let ghost before = out.deep_view();
            out.push(v[i].clone());
            proof {
                assert(out.deep_view() =~= before.push(v@[i as int]@));
                assert(before.push(v@[i as int]@) + strip_source_defaults(
                    v.deep_view().skip(i + 1),
                ) =~= before + (seq![v@[i as int]@] + strip_source_defaults(
                    v.deep_view().skip(i + 1),
                )));
            }
        }
        i = i + 1;
    }
    proof {
        assert(v.deep_view().skip(v@.len() as int) =~= Seq::<Seq<char>>::empty());
        assert(out.deep_view() + Seq::<Seq<char>>::empty() =~= out.deep_view());
    }
    out
}

fn has_interactive(v: &Vec<String>) -> (r: bool)
    ensures
        r == has_interactive_flag(v.deep_view()),
{
    let mut i: usize = 0;
    while i < v.len()
        invariant
            i <= v@.len(),
            forall|j: int|
                0 <= j < i ==> !((#[trigger] v.deep_view()[j]) == "--interactive"@
                    || v.deep_view()[j] == "-i"@),
        decreases v@.len() - i,
    {
        if str_eq(v[i].as_str(), "--interactive") || str_eq(v[i].as_str(), "-i") {
            proof {
                assert(v.deep_view()[i as int] == v@[i as int]@);
            }
            return true;
        }
        proof {
            assert(v.deep_view()[i as int] == v@[i as int]@);
        }
        i = i + 1;
    }
    false
}

/// Resolves the output directory of a download.
pub fn resolve_download_dir(dir: &Option<String>, home: &str) -> (r: String)
    ensures
        r@ == resolved_dir_spec(*dir, home@),
{
    match dir {
        Some(d) => {
            if !str_is_blank(d.as_str()) {
                return d.clone();
            }
        },
        None => {},
    }
    home.to_owned().concat("\\Downloads\\winget-downloads")
}

/// Builds the invocation for one command description.  A blank target id
/// is rejected before any process exists; everything else builds.
pub fn build_stream_command(c: &CommandSpec, home: &str) -> (r: Result<BuiltCommand, BuildError>)
    ensures
        r is Err <==> is_blank(c.id@),
        r is Err ==> r == Err::<BuiltCommand, BuildError>(BuildError::BlankTarget),
        r matches Ok(b) ==> b.args.deep_view() == built_args(*c, home@) && b.mode == built_mode(
            *c,
        ),
{
    if str_is_blank(c.id.as_str()) {
        return Err(BuildError::BlankTarget);
    }
    let flags: Vec<String> = if c.flags.len() == 0 {
        let defaults = default_exec_flags_for(c.verb.as_str());
        to_owned_vec(&defaults)
    } else {
        let cloned = clone_string_vec(&c.flags);
        proof {
            assert(cloned.deep_view() =~= c.flags.deep_view());
        }
        cloned
    };
    proof {
        assert(flags.deep_view() == effective_flags(c.verb@, c.flags.deep_view()));
    }
    let interactive = has_interactive(&flags);
    let is_download = str_eq(c.verb.as_str(), "download");
    let use_flags: Vec<String> = if is_download && c.source.is_some() {
        strip_source_flags(&flags)
    } else {
        flags
    };
    proof {
        assert(use_flags.deep_view() == command_flags(*c));
    }
    let mut args: Vec<String> = Vec::new();
    args.push(c.verb.clone());
    args.push("--id".to_owned());
    args.push(c.id.clone());
    let ghost head = args.deep_view();
    proof {
        assert(head =~= seq![c.verb@, "--id"@, c.id@]);
    }
    args = append_all(args, &use_flags);
    let ghost with_flags = args.deep_view();
    match &c.source {
        Some(s) => {
            if !str_is_blank(s.as_str()) {
                args.push("--source".to_owned());
                args.push(s.clone());
                proof {
                    assert(args.deep_view() =~= with_flags + source_pair(*c));
                }
            }
        },
        None => {},
    }
    let ghost with_source = args.deep_view();
    proof {
        if source_pair(*c).len() == 0 {
            assert(with_source =~= with_flags + source_pair(*c));
        }
    }
    match &c.proxy {
        Some(p) => {
            if !str_is_blank(p.as_str()) {
                args.push("--proxy".to_owned());
                args.push(p.clone());
                proof {
                    assert(args.deep_view() =~= with_source + proxy_pair(*c));
                }
            }
        },
        None => {},
    }
    let ghost with_proxy = args.deep_view();
    proof {
        if proxy_pair(*c).len() == 0 {
            assert(with_proxy =~= with_source + proxy_pair(*c));
        }
    }
    if is_download {
        args.push("--download-directory".to_owned());
        let resolved = resolve_download_dir(&c.dir, home);
        args.push(resolved);
        proof {
            assert(args.deep_view() =~= with_proxy + dir_pair(*c, home@));
        }
    }
    proof {
        if !is_download {
            assert(args.deep_view() =~= with_proxy + dir_pair(*c, home@));
        }
        assert(args.deep_view() =~= built_args(*c, home@));
    }
    let mode = if interactive {
        ExecutionMode::Interactive
    } else {
        ExecutionMode::Hidden
    };
    Ok(BuiltCommand { args, mode })
}

/// Joins strings with a separator.
pub fn join_strings(v: &Vec<String>, sep: &str) -> (r: String)
    ensures
        r@ == join_with(v.deep_view(), sep@),
{
    let mut out: String = String::new();
    let mut k: usize = 0;
    proof {
        assert(v.deep_view().subrange(0, 0) =~= Seq::<Seq<char>>::empty());
    }
    while k < v.len()
        invariant
            k <= v@.len(),
            out@ == join_with(v.deep_view().subrange(0, k as int), sep@),
        decreases v@.len() - k,
    {
        proof {
            assert(v.deep_view().subrange(0, k as int).push(v.deep_view()[k as int])
                =~= v.deep_view().subrange(0, k + 1));
            lemma_join_with_push(v.deep_view().subrange(0, k as int), v.deep_view()[k as int], sep@);
            assert(v.deep_view()[k as int] == v@[k as int]@);
        }
        if k > 0 {
            out.append(sep);
        }
        out.append(v[k].as_str());
        k = k + 1;
    }
    proof {
        assert(v.deep_view().subrange(0, v@.len() as int) =~= v.deep_view());
    }
    out
}

/// The display line of one invocation: the tool name and the arguments,
/// space-separated.
pub open spec fn display_line(args: Seq<Seq<char>>) -> Seq<char> {
    "winget "@ + join_with(args, " "@)
}

/// The composite command line of an interactive invocation: the console
/// code page is switched first so multi-byte text renders correctly.
pub open spec fn composite_line(args: Seq<Seq<char>>) -> Seq<char> {
    "chcp 65001>nul & winget "@ + join_with(args, " "@)
}

impl BuiltCommand {
    /// The human-readable command line, for the launch notification.
    pub fn display(&self) -> (r: String)
        ensures
            r@ == display_line(self.args.deep_view()),
    {
        let joined = join_strings(&self.args, " ");
        "winget ".to_owned().concat(joined.as_str())
    }

    /// The single composite line an interactive invocation runs through
    /// the shell.
    pub fn composite_command_line(&self) -> (r: String)
        ensures
            r@ == composite_line(self.args.deep_view()),
    {
        let joined = join_strings(&self.args, " ");
        "chcp 65001>nul & winget ".to_owned().concat(joined.as_str())
    }

    /// The program and argument vector to hand to the OS: the shell
    /// wrapper around the composite line in interactive mode, the tool
    /// itself otherwise.
    pub fn invocation(&self) -> (r: (String, Vec<String>))
        ensures
            self.mode is Interactive ==> r.0@ == "cmd"@ && r.1.deep_view() == seq![
                "/C"@,
                composite_line(self.args.deep_view()),
            ],
            self.mode is Hidden ==> r.0@ == "winget"@ && r.1@ == self.args@,
    {
        match self.mode {
            ExecutionMode::Interactive => {
                let line = self.composite_command_line();
                let mut v: Vec<String> = Vec::new();
                v.push("/C".to_owned());
                v.push(line);
                proof {
                    assert(v.deep_view() =~= seq![
                        "/C"@,
                        composite_line(self.args.deep_view()),
                    ]);
                }
                ("cmd".to_owned(), v)
            },
            ExecutionMode::Hidden => {
                let cloned = clone_string_vec(&self.args);
                ("winget".to_owned(), cloned)
            },
        }
    }
}

/// The environment override of every captured launch: an artificially
/// wide terminal column count, so the tool does not truncate its tabular
/// output.
pub fn wide_terminal_env() -> (r: (String, String))
    ensures
        r.0@ == "COLUMNS"@,
        r.1@ == "10000"@,
{
    ("COLUMNS".to_owned(), "10000".to_owned())
}

/// The space-prefixed rendering of each argument after a program name.
pub open spec fn args_display(args: Seq<Seq<char>>) -> Seq<char>
    decreases args.len(),
{
    if args.len() == 0 {
        Seq::empty()
    } else {
        seq![' '] + args[0] + args_display(args.skip(1))
    }
}

/// One line naming a program and its arguments, for logging.
pub fn display_command(exe: &str, args: &Vec<String>) -> (r: String)
    ensures
        r@ == exe@ + args_display(args.deep_view()),
{
    let mut out: String = exe.to_owned();
    let mut i: usize = 0;
    proof {
        assert(args.deep_view().skip(0) =~= args.deep_view());
    }
    while i < args.len()
        invariant
            i <= args@.len(),
            out@ + args_display(args.deep_view().skip(i as int)) == exe@ + args_display(
                args.deep_view(),
            ),
        decreases args@.len() - i,
    {
        proof {
            assert(args.deep_view().skip(i as int).skip(1) =~= args.deep_view().skip(i + 1));
            assert(args.deep_view().skip(i as int)[0] == args@[i as int]@);
        }
        let ghost before = out@;
        push_char(&mut out, ' ');
        out.append(args[i].as_str());
        proof {
            assert(out@ =~= before + (seq![' '] + args@[i as int]@));
            assert(before + (seq![' '] + args@[i as int]@) + args_display(
                args.deep_view().skip(i + 1),
            ) =~= before + (seq![' '] + args@[i as int]@ + args_display(
                args.deep_view().skip(i + 1),
            )));
        }
        i = i + 1;
    }
    proof {
        assert(args.deep_view().skip(args@.len() as int) =~= Seq::<Seq<char>>::empty());
        assert(out@ + Seq::<char>::empty() =~= out@);
    }
    out
}

/// The joined text with every single quote doubled, as the shell's
/// single-quoted argument syntax requires.
pub open spec fn escape_quotes(s: Seq<char>) -> Seq<char>
    decreases s.len(),
{
    if s.len() == 0 {
        Seq::empty()
    } else if s[0] == '\'' {
        seq!['\'', '\''] + escape_quotes(s.skip(1))
    } else {
        seq![s[0]] + escape_quotes(s.skip(1))
    }
}

/// The elevated invocation's inner command line: the arguments joined,
/// quote-escaped, and wrapped in a request to relaunch the tool with
/// administrative rights, waiting and with no window.
pub open spec fn admin_command_line_spec(args: Seq<Seq<char>>) -> Seq<char> {
    "Start-Process winget -ArgumentList '"@ + escape_quotes(join_with(args, " "@))
        + "' -Verb RunAs -Wait -WindowStyle Hidden"@
}

fn escape_quotes_exec(s: &str) -> (r: String)
    ensures
        r@ == escape_quotes(s@),
{
    let chars = str_to_chars(s);
    let n: usize = chars.len();
    let mut out: Vec<char> = Vec::new();
    let mut i: usize = 0;
    proof {
        assert(s@.skip(0) =~= s@);
        assert(Seq::<char>::empty() + escape_quotes(s@) =~= escape_quotes(s@));
    }
    while i < n
        invariant
            i <= n,
            n == s@.len(),
            chars@ == s@,
            out@ + escape_quotes(s@.skip(i as int)) == escape_quotes(s@),
        decreases n - i,
    {
        let c = chars[i];
        proof {
            assert(s@.skip(i as int).skip(1) =~= s@.skip(i + 1));
        }
        let ghost before = out@;
        if c == '\'' {
            out.push('\'');
            out.push('\'');
            proof {
                assert(out@ =~= before + seq!['\'', '\'']);
                assert(before + seq!['\'', '\''] + escape_quotes(s@.skip(i + 1)) =~= before + (seq![
                    '\'',
                    '\'',
                ] + escape_quotes(s@.skip(i + 1))));
            }
        } else {
            out.push(c);
            proof {
                assert(out@ =~= before + seq![s@[i as int]]);
                assert(before + seq![s@[i as int]] + escape_quotes(s@.skip(i + 1)) =~= before + (
                seq![s@[i as int]] + escape_quotes(s@.skip(i + 1))));
            }
        }
        i = i + 1;
    }
    proof {
        assert(s@.skip(n as int) =~= Seq::<char>::empty());
        assert(out@ + Seq::<char>::empty() =~= out@);
    }
    chars_to_string(&out)
}

/// The inner command line of an elevated run.
pub fn admin_command_line(args: &Vec<String>) -> (r: String)
    ensures
        r@ == admin_command_line_spec(args.deep_view()),
{
    let joined = join_strings(args, " ");
    let escaped = escape_quotes_exec(joined.as_str());
    let head = "Start-Process winget -ArgumentList '".to_owned();
    let with_args = head.concat(escaped.as_str());
    with_args.concat("' -Verb RunAs -Wait -WindowStyle Hidden")
}

/// The program and argument vector of an elevated run: the shell that can
/// request elevation, told to run the inner command line.
pub fn admin_invocation(args: &Vec<String>) -> (r: (String, Vec<String>))
    ensures
        r.0@ == "powershell"@,
        r.1.deep_view() == seq![
            "-NoProfile"@,
            "-Command"@,
            admin_command_line_spec(args.deep_view()),
        ],
{
    let line = admin_command_line(args);
    let mut v: Vec<String> = Vec::new();
    v.push("-NoProfile".to_owned());
    v.push("-Command".to_owned());
    v.push(line);
    proof {
        assert(v.deep_view() =~= seq![
            "-NoProfile"@,
            "-Command"@,
            admin_command_line_spec(args.deep_view()),
        ]);
    }
    ("powershell".to_owned(), v)
}

/// True iff the file name carries a `yaml` extension: a dot that is not
/// the first character, with nothing but `yaml` after the last dot.
pub open spec fn yaml_ext(s: Seq<char>) -> bool {
    exists|k: int|
        0 < k < s.len() && (#[trigger] s[k]) == '.' && (forall|j: int|
            k < j < s.len() ==> #[trigger] s[j] != '.') && s.subrange(k + 1, s.len() as int)
            == "yaml"@
}

fn yaml_ext_exec(name: &str) -> (r: bool)
    ensures
        r == yaml_ext(name@),
{
    let chars = str_to_chars(name);
    let n: usize = chars.len();
    match rfind_char(&chars, '.') {
        Some(k) => {
            if k == 0 {
                proof {
                    assert(!yaml_ext(name@)) by {
                        if yaml_ext(name@) {
                            let w = choose|w: int|
                                0 < w < name@.len() && (#[trigger] name@[w]) == '.' && (forall|
                                    j: int,
                                |
                                    w < j < name@.len() ==> #[trigger] name@[j] != '.')
                                    && name@.subrange(w + 1, name@.len() as int) == "yaml"@;
                            assert(name@[w] != '.');
                        }
                    }
                }
                return false;
            }
            let suffix_ok = n - k == 5 && chars[k + 1] == 'y' && chars[k + 2] == 'a' && chars[k
                + 3] == 'm' && chars[k + 4] == 'l';
            proof {
                reveal_strlit("yaml");
                if suffix_ok {
                    assert(name@.subrange(k + 1, name@.len() as int) =~= "yaml"@);
                    assert(yaml_ext(name@));
                } else {
                    if yaml_ext(name@) {
                        let w = choose|w: int|
                            0 < w < name@.len() && (#[trigger] name@[w]) == '.' && (forall|j: int|
                                w < j < name@.len() ==> #[trigger] name@[j] != '.')
                                && name@.subrange(w + 1, name@.len() as int) == "yaml"@;
                        assert(w == k);
                        assert(name@.subrange(k + 1, name@.len() as int).len() == 4);
                        assert(name@[k + 1] == "yaml"@[0]);
                        assert(name@[k + 2] == "yaml"@[1]);
                        assert(name@[k + 3] == "yaml"@[2]);
                        assert(name@[k + 4] == "yaml"@[3]);
                    }
                }
            }
            suffix_ok
        },
        None => {
            proof {
                assert(!yaml_ext(name@)) by {
                    if yaml_ext(name@) {
                        let w = choose|w: int|
                            0 < w < name@.len() && (#[trigger] name@[w]) == '.' && (forall|j: int|
                                w < j < name@.len() ==> #[trigger] name@[j] != '.')
                                && name@.subrange(w + 1, name@.len() as int) == "yaml"@;
                        assert(name@[w] != '.');
                    }
                }
            }
            false
        },
    }
}

/// The post-success cleanup decision for one file of the download
/// directory: a generated `yaml` descriptor whose name contains the task
/// id or the generic marker is removed, unless the caller asked to keep
/// artifacts.  Name comparison is case-insensitive.
pub fn should_remove_artifact(file_name: &str, id: &str, keep: bool) -> (r: bool)
    ensures
        r == (!keep && yaml_ext(file_name@) && (contains_seq(lower_of(file_name@), lower_of(id@))
            || contains_seq(lower_of(file_name@), "manifest"@))),
{
    if keep {
        return false;
    }
    if !yaml_ext_exec(file_name) {
        return false;
    }
    let lower_name = to_lower(file_name);
    let lower_id = to_lower(id);
    contains_str(lower_name.as_str(), lower_id.as_str()) || contains_str(
        lower_name.as_str(),
        "manifest",
    )
}

} // verus!
