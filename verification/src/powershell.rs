//! `powershell`: the script that is run and how it is handed over.

use crate::child_run::{ProcessOutput, shell_result};
use crate::child_run;
use crate::encoding::encode_base64;
use crate::encoding;
use crate::error::ToolExecError;
use crate::json::{Json, JsonView};
use crate::json;
use crate::paths;
use crate::schema::{list_of, object_of};
use crate::shell_util::resolve_workdir;
use crate::text::{chars_of, push_decimal};
use crate::text;
use vstd::prelude::*;
use vstd::string::*;

verus! {

/// Milliseconds that a command has where no other number is asked for.
pub const DEFAULT_PS_TIMEOUT_MS: u64 = 30000;

/// What makes the shell write UTF-8 and keep its progress to itself.
pub const PS_PREAMBLE: &'static str =
    "[Console]::OutputEncoding=[System.Text.Encoding]::UTF8; $ProgressPreference='SilentlyContinue'; ";

/// A PowerShell.
#[derive(Debug, Clone, Copy, PartialEq, Eq, Structural)]
pub enum PsShell {
    /// Version 5.1, which comes with Windows.
    Powershell,
    /// Version 7 and later.
    Pwsh,
}

/// The program of a shell.
pub open spec fn shell_binary(s: PsShell) -> Seq<char> {
    match s {
        PsShell::Powershell => "powershell"@,
        PsShell::Pwsh => "pwsh"@,
    }
}

/// The name of a shell.
pub open spec fn shell_name(s: PsShell) -> Seq<char> {
    match s {
        PsShell::Powershell => "Powershell"@,
        PsShell::Pwsh => "Pwsh"@,
    }
}

impl PsShell {
    /// The program of the shell.
    pub fn binary(self) -> (r: &'static str)
        ensures
            r@ == shell_binary(self),
    {
        match self {
            PsShell::Powershell => "powershell",
            PsShell::Pwsh => "pwsh",
        }
    }

    /// The name of the shell.
    pub fn label(self) -> (r: &'static str)
        ensures
            r@ == shell_name(self),
    {
        match self {
            PsShell::Powershell => "Powershell",
            PsShell::Pwsh => "Pwsh",
        }
    }
}

/// Arguments of `powershell`.
#[derive(Debug)]
pub struct PsArgs {
    pub command: String,
    pub shell: PsShell,
    pub workdir: Option<String>,
    /// Milliseconds.
    pub timeout: Option<u64>,
}

/// The tool itself.
pub struct PowerShell;

/// The script of a command.
pub open spec fn ps_script(command: Seq<char>) -> Seq<char> {
    PS_PREAMBLE@ + command
}

/// The script of a command: the preamble, then the command as it is.
pub fn build_ps_script(command: &str) -> (r: String)
    ensures
        r@ == ps_script(command@),
{
    let mut out = PS_PREAMBLE.to_owned();
    out.append(command);
    out
}

/// The units of UTF-16 for a character: one, or two where its number needs more than sixteen bits.
pub open spec fn utf16_units(c: char) -> Seq<u16> {
    let v = c as u32;
    if v < 0x10000 {
        seq![v as u16]
    } else {
        seq![(0xD800 + (v - 0x10000) / 0x400) as u16, (0xDC00 + (v - 0x10000) % 0x400) as u16]
    }
}

/// A unit as two bytes, the low one first.
pub open spec fn le_bytes(u: u16) -> Seq<u8> {
    seq![(u % 256) as u8, (u / 256) as u8]
}

/// The bytes of UTF-16 for a character, the low byte of each unit first.
pub open spec fn utf16_char(c: char) -> Seq<u8> {
    let u = utf16_units(c);
    if u.len() == 1 {
        le_bytes(u[0])
    } else {
        le_bytes(u[0]) + le_bytes(u[1])
    }
}

/// The bytes of UTF-16 for a text.
pub open spec fn utf16_bytes(s: Seq<char>) -> Seq<u8>
    decreases s.len(),
{
    if s.len() == 0 {
        Seq::empty()
    } else {
        utf16_bytes(s.drop_last()) + utf16_char(s.last())
    }
}

fn push_unit(out: &mut Vec<u8>, u: u16)
    ensures
        final(out)@ == old(out)@ + le_bytes(u),
{
    out.push((u % 256) as u8);
    out.push((u / 256) as u8);
    assert(out@ =~= old(out)@ + le_bytes(u));
}

/// The bytes of UTF-16 for a text, the low byte of each unit first.
pub fn utf16_of(s: &str) -> (r: Vec<u8>)
    ensures
        r@ == utf16_bytes(s@),
{
    let cs = chars_of(s);
    let mut out: Vec<u8> = Vec::new();
    assert(s@.take(0) =~= Seq::<char>::empty());
    for i in 0..cs.len()
        invariant
            cs@ == s@,
            out@ == utf16_bytes(s@.take(i as int)),
    {
        let c = cs[i];
        let v: u32 = c as u32;
        let ghost before = out@;
        proof {
            assert(s@.take(i + 1).drop_last() =~= s@.take(i as int));
            assert(s@.take(i + 1).last() == c);
            vstd::utf8::char_is_scalar(c);
        }
        if v < 0x10000 {
            push_unit(&mut out, v as u16);
        } else {
            push_unit(&mut out, (0xD800 + (v - 0x10000) / 0x400) as u16);
            push_unit(&mut out, (0xDC00 + (v - 0x10000) % 0x400) as u16);
        }
        assert(out@ =~= before + utf16_char(c));
    }
    assert(s@.take(s@.len() as int) =~= s@);
    out
}

/// A script as the shell takes it: base64 of UTF-16.
pub fn encode_ps_script(script: &str) -> (r: String)
    requires
        utf16_bytes(script@).len() <= usize::MAX / 2,
    ensures
        r@ == encoding::base64_text(utf16_bytes(script@)),
        encoding::stands_for(r@, utf16_bytes(script@)),
{
    let bytes = utf16_of(script);
    encode_base64(bytes.as_slice())
}

/// A process to be started, with both outputs piped.
#[derive(Debug)]
pub struct CommandLine {
    pub program: String,
    pub arguments: Vec<String>,
    pub workdir: String,
}

/// Whether `c` runs `command` in `shell`.
pub open spec fn runs(c: CommandLine, shell: PsShell, command: Seq<char>, workdir: Seq<char>) -> bool {
    &&& c.program@ == shell_binary(shell)
    &&& text::views(c.arguments@) == seq![
        "-NoProfile"@,
        "-NonInteractive"@,
        "-EncodedCommand"@,
        encoding::base64_text(utf16_bytes(ps_script(command))),
    ]
    &&& c.workdir@ == workdir
}

/// The process that runs a command.
pub fn build_ps_command(shell: PsShell, command: &str, workdir: &str) -> (c: CommandLine)
    requires
        utf16_bytes(ps_script(command@)).len() <= usize::MAX / 2,
    ensures
        runs(c, shell, command@, workdir@),
        encoding::stands_for(c.arguments@[3]@, utf16_bytes(ps_script(command@))),
{
    let script = build_ps_script(command);
    let encoded = encode_ps_script(script.as_str());
    let mut arguments: Vec<String> = Vec::new();
    arguments.push("-NoProfile".to_owned());
    arguments.push("-NonInteractive".to_owned());
    arguments.push("-EncodedCommand".to_owned());
    arguments.push(encoded);
    assert(text::views(arguments@) =~= seq![
        "-NoProfile"@,
        "-NonInteractive"@,
        "-EncodedCommand"@,
        encoding::base64_text(utf16_bytes(ps_script(command@))),
    ]);
    CommandLine { program: shell.binary().to_owned(), arguments, workdir: workdir.to_owned() }
}

/// Milliseconds that a command has.
pub open spec fn ps_timeout(args: PsArgs) -> u64 {
    match args.timeout {
        Some(t) => t,
        None => DEFAULT_PS_TIMEOUT_MS,
    }
}

/// The process of a call and how long it may take. The working directory is the one asked for, or
/// the session's own.
pub fn plan_ps_tool(args: &PsArgs, working_dir: Option<&str>) -> (r: (CommandLine, u64))
    requires
        utf16_bytes(ps_script(args.command@)).len() <= usize::MAX / 2,
    ensures
        r.1 == ps_timeout(*args),
        exists|home: Option<Seq<char>>|
            runs(
                r.0,
                args.shell,
                args.command@,
                #[trigger] paths::resolved_path(chosen_workdir(args.workdir), paths::opt_str(working_dir), home),
            ),
        !paths::tilde_form(chosen_workdir(args.workdir)) ==> runs(
            r.0,
            args.shell,
            args.command@,
            paths::resolved_path(chosen_workdir(args.workdir), paths::opt_str(working_dir), None),
        ),
{
    let dir = match &args.workdir {
        Some(w) => resolve_workdir(Some(w.as_str()), working_dir),
        None => resolve_workdir(None, working_dir),
    };
    let ghost home = choose|home: Option<Seq<char>>|
        dir@ == #[trigger] paths::resolved_path(
            chosen_workdir(args.workdir),
            paths::opt_str(working_dir),
            home,
        );
    assert(dir@ == paths::resolved_path(
        chosen_workdir(args.workdir),
        paths::opt_str(working_dir),
        home,
    ));
    let timeout_ms: u64 = match args.timeout {
        Some(t) => t,
        None => DEFAULT_PS_TIMEOUT_MS,
    };
    (build_ps_command(args.shell, args.command.as_str(), dir.as_str()), timeout_ms)
}

/// The working directory asked for, or a dot.
pub open spec fn chosen_workdir(workdir: Option<String>) -> Seq<char> {
    match workdir {
        Some(w) => w@,
        None => "."@,
    }
}

/// Makes the result of a call out of what its process left behind, or why it could not be run.
pub fn execute_ps_tool(args: &PsArgs, ran: Result<ProcessOutput, ToolExecError>) -> (r: Result<
    String,
    ToolExecError,
>)
    ensures
        child_run::shell_record(args.command@, ps_timeout(*args), ran, r),
{
    let timeout_ms: u64 = match args.timeout {
        Some(t) => t,
        None => DEFAULT_PS_TIMEOUT_MS,
    };
    shell_result(args.command.as_str(), timeout_ms, ran)
}

/// The text on a call.
pub open spec fn ps_invocation(args: PsArgs) -> Seq<char> {
    "Running PowerShell command: `"@ + args.command@ + "`."@ + " Shell: "@ + shell_name(args.shell)
        + "."@ + (match args.timeout {
        Some(t) => " Timeout: "@ + text::decimal(t as nat) + "ms."@,
        None => Seq::empty(),
    })
}

impl PowerShell {
    /// A short text on a call.
    pub fn describe_invocation(&self, args: &PsArgs) -> (r: String)
        ensures
            r@ == ps_invocation(*args),
    {
        let limit = match args.timeout {
            Some(t) => {
                let mut s = " Timeout: ".to_owned();
                push_decimal(&mut s, t);
                s.append("ms.");
                s
            },
            None => String::new(),
        };
        let mut out = "Running PowerShell command: `".to_owned();
        out.append(args.command.as_str());
        out.append("`.");
        out.append(" Shell: ");
        out.append(args.shell.label());
        out.append(".");
        out.append(limit.as_str());
        out
    }
}

/// The number of the unit at place `i` of bytes of UTF-16.
pub open spec fn unit_at(b: Seq<u8>, i: int) -> int {
    b[i] + 256 * b[i + 1]
}

/// The text that bytes of UTF-16 stand for, read from the end.
pub open spec fn utf16_text(b: Seq<u8>) -> Option<Seq<char>>
    decreases b.len(),
{
    if b.len() == 0 {
        Some(Seq::empty())
    } else if b.len() < 2 {
        None
    } else {
        let n = b.len() as int;
        let low = unit_at(b, n - 2);
        if 0xDC00 <= low < 0xE000 {
            if n < 4 {
                None
            } else {
                let high = unit_at(b, n - 4);
                if 0xD800 <= high < 0xDC00 {
                    match utf16_text(b.take(n - 4)) {
                        Some(s) => Some(
                            s.push(
                                (0x10000 + (high - 0xD800) * 0x400 + (low - 0xDC00)) as u32 as char,
                            ),
                        ),
                        None => None,
                    }
                } else {
                    None
                }
            }
        } else if 0xD800 <= low < 0xDC00 {
            None
        } else {
            match utf16_text(b.take(n - 2)) {
                Some(s) => Some(s.push(low as u32 as char)),
                None => None,
            }
        }
    }
}

/// A script reaches the shell letter for letter: reading its bytes of UTF-16 gives it back, whatever
/// quotes and signs it holds.
pub proof fn law_script_reads_back(script: Seq<char>)
    ensures
        utf16_text(utf16_bytes(script)) == Some(script),
        utf16_bytes(script).len() % 2 == 0,
    decreases script.len(),
{
    if script.len() > 0 {
        let front = script.drop_last();
        let c = script.last();
        law_script_reads_back(front);
        let b = utf16_bytes(script);
        let f = utf16_bytes(front);
        let n = b.len() as int;
        lemma_char_reads_back(c);
        let w = utf16_char(c);
        assert(b.take(n - w.len()) =~= f);
        if w.len() == 2 {
            assert(b[n - 2] == w[0] && b[n - 1] == w[1]);
            assert(unit_at(b, n - 2) == unit_at(w, 0));
        } else {
            assert(b[n - 4] == w[0] && b[n - 3] == w[1] && b[n - 2] == w[2] && b[n - 1] == w[3]);
            assert(unit_at(b, n - 2) == unit_at(w, 2));
            assert(unit_at(b, n - 4) == unit_at(w, 0));
        }
        assert(front.push(c) =~= script);
    }
}

proof fn lemma_char_reads_back(c: char)
    ensures
        ({
            let w = utf16_char(c);
            let v = c as u32;
            if v < 0x10000 {
                &&& w.len() == 2
                &&& unit_at(w, 0) == v
                &&& !(0xD800 <= v < 0xE000)
                &&& v as char == c
            } else {
                let high = unit_at(w, 0);
                let low = unit_at(w, 2);
                &&& w.len() == 4
                &&& 0xD800 <= high < 0xDC00
                &&& 0xDC00 <= low < 0xE000
                &&& (0x10000 + (high - 0xD800) * 0x400 + (low - 0xDC00)) == v
                &&& v as char == c
            }
        }),
{
    vstd::utf8::char_is_scalar(c);
    let v = c as u32;
    if v >= 0x10000 {
        let d = v - 0x10000;
        assert(d < 0x100000);
        assert(d / 0x400 < 0x400);
        assert(d == (d / 0x400) * 0x400 + d % 0x400);
    }
}

/// The schema of a shell: one of two texts.
pub open spec fn shell_schema_view() -> JsonView {
    JsonView::Object(
        seq![
            ("type"@, JsonView::Text("string"@)),
            (
                "enum"@,
                JsonView::List(seq![JsonView::Text("powershell"@), JsonView::Text("pwsh"@)]),
            ),
        ],
    )
}

impl PsShell {
    /// The schema of a shell.
    pub fn json_schema() -> (r: Json)
        ensures
            r@ == shell_schema_view(),
    {
        let mut names: Vec<Json> = Vec::new();
        names.push(Json::Text("powershell".to_owned()));
        names.push(Json::Text("pwsh".to_owned()));
        assert(json::item_views(names@) =~= seq![
            JsonView::Text("powershell"@),
            JsonView::Text("pwsh"@),
        ]);
        let mut root: Vec<(String, Json)> = Vec::new();
        root.push(("type".to_owned(), Json::Text("string".to_owned())));
        root.push(("enum".to_owned(), list_of(names)));
        assert(json::entry_views(root@) =~= shell_schema_view()->Object_0);
        object_of(root)
    }
}

} // verus!
