//! `read_file`: a numbered view of a window of lines of a text file.

use crate::error::{ToolExecError, tool_error};
use crate::paths::strip_prefix;
use crate::paths;
use crate::sanitize::{sanitize_content, sanitize_name};
use crate::sanitize;
use crate::text::{byte_len, is_blank, push_decimal, push_decimal_wide};
use crate::text;
use crate::text_stream::{LineWindow, WindowView, read_window};
use crate::text_stream;
use vstd::prelude::*;
use vstd::string::*;
use vstd::utf8::*;

verus! {

/// Most lines that one call returns, and the number where none is asked for.
pub const MAX_READ_FILE_LINES: usize = 2000;

/// Arguments of `read_file`.
#[derive(Debug)]
pub struct ReadFileArgs {
    pub path: String,
    /// First line, counted from one.
    pub start_line: usize,
    /// Most lines to return.
    pub max_lines: usize,
}

/// First line where none is asked for.
pub fn default_start_line() -> (r: usize)
    ensures
        r == 1,
{
    1
}

/// Number of lines where none is asked for.
pub fn default_max_lines() -> (r: usize)
    ensures
        r == MAX_READ_FILE_LINES,
{
    MAX_READ_FILE_LINES
}

/// Why the arguments of a read are refused, if they are.
pub open spec fn refused_range(path: Seq<char>, start: nat, max: nat, limit: nat) -> Option<
    Seq<char>,
> {
    if text::blank(path) {
        Some("missing required string argument: path"@)
    } else if start == 0 {
        Some("start_line must be >= 1"@)
    } else if max == 0 {
        Some("max_lines must be >= 1"@)
    } else if max > limit {
        Some("max_lines must be <= "@ + text::decimal(limit))
    } else {
        None
    }
}

/// Refuses a read without a path, or with a line number or a number of lines out of bounds.
pub fn check_range(path: &str, start: usize, max: usize, limit: usize) -> (r: Result<
    (),
    ToolExecError,
>)
    ensures
        match (r, refused_range(path@, start as nat, max as nat, limit as nat)) {
            (Ok(_), None) => true,
            (Err(e), Some(f)) => e@ == f,
            _ => false,
        },
{
    if is_blank(path) {
        return Err(tool_error("missing required string argument: path"));
    }
    if start == 0 {
        return Err(tool_error("start_line must be >= 1"));
    }
    if max == 0 {
        return Err(tool_error("max_lines must be >= 1"));
    }
    if max > limit {
        let mut m = "max_lines must be <= ".to_owned();
        push_decimal(&mut m, limit as u64);
        return Err(ToolExecError(m));
    }
    Ok(())
}

/// The label of a file: its path below the working directory, or else the whole path.
pub open spec fn shown_path(resolved: Seq<char>, working_dir: Option<Seq<char>>) -> Seq<char> {
    match working_dir {
        None => resolved,
        Some(w) => match paths::relative_to(resolved, w) {
            Some(r) => r,
            None => resolved,
        },
    }
}

/// The label of a file: its path below the working directory, or else the whole path.
pub fn display_path_label(resolved: &str, working_dir: Option<&str>) -> (r: String)
    ensures
        r@ == shown_path(resolved@, paths::opt_str(working_dir)),
{
    match working_dir {
        None => resolved.to_owned(),
        Some(w) => match strip_prefix(resolved, w) {
            Some(r) => r,
            None => resolved.to_owned(),
        },
    }
}

/// Last line of the window that was asked for.
pub open spec fn requested_end(total: nat, start: nat, max: nat) -> nat {
    if start + max - 1 <= total {
        (start + max - 1) as nat
    } else {
        total
    }
}

/// The message for a window that begins behind the end.
pub open spec fn past_end_error(start: nat, total: nat) -> Seq<char> {
    "start_line "@ + text::decimal(start) + " is past end of file; file has "@ + text::decimal(total)
        + " lines"@
}

/// The lines above the numbered view: the path, and which lines of how many are shown.
pub open spec fn window_header(w: WindowView, start: nat, max: nat, label: Seq<char>) -> Seq<char> {
    if w.truncated && w.shown == 0 {
        "path: "@ + label + "\nlines: none of "@ + text::decimal(w.lines)
            + " (first line exceeds output budget)\n\n"@
    } else {
        let end = if w.truncated {
            (start + w.shown - 1) as nat
        } else {
            requested_end(w.lines, start, max)
        };
        "path: "@ + label + "\nlines: "@ + text::decimal(start) + "-"@ + text::decimal(end) + " of "@ + text::decimal(
            w.lines,
        ) + "\n\n"@
    }
}

/// The note below the view: what is missing, and where to continue.
pub open spec fn read_file_note(
    w: WindowView,
    start: nat,
    max: nat,
    header: Seq<char>,
) -> Seq<char> {
    let end = requested_end(w.lines, start, max);
    if w.truncated {
        "\n...[truncated: showing "@ + text::decimal(text::utf8_len(w.out) + text::utf8_len(header) + 1) + " of "@
            + text::decimal(w.bytes) + " bytes ("@ + text::decimal(w.shown) + " of "@ + text::decimal(w.lines)
            + " lines) — continue with start_line="@ + text::decimal(start + w.shown) + "]"@
    } else if end < w.lines {
        "\n...[more lines follow: showing "@ + text::decimal(w.shown) + " of "@ + text::decimal(w.lines)
            + " lines — continue with start_line="@ + text::decimal(end + 1) + "]"@
    } else {
        Seq::empty()
    }
}

/// The result of reading a window.
pub open spec fn read_file_result(
    w: WindowView,
    start: nat,
    max: nat,
    label: Seq<char>,
) -> Result<Seq<char>, Seq<char>> {
    if w.lines == 0 {
        Ok("path: "@ + label + "\nlines: none (empty file)\n\n"@)
    } else if start > w.lines {
        Err(past_end_error(start, w.lines))
    } else {
        let header = window_header(w, start, max, label);
        Ok(header + w.out + read_file_note(w, start, max, header))
    }
}

/// Last line of the window that was asked for.
fn last_requested(total: u64, start: u64, max: u64) -> (r: u64)
    requires
        max >= 1,
    ensures
        r == requested_end(total as nat, start as nat, max as nat),
{
    if start <= total && max - 1 <= total - start {
        start + (max - 1)
    } else {
        total
    }
}

/// The message for a window that begins behind the end.
pub fn past_end(start: u64, total: u64) -> (e: ToolExecError)
    ensures
        e@ == past_end_error(start as nat, total as nat),
{
    let mut m = "start_line ".to_owned();
    push_decimal(&mut m, start);
    m.append(" is past end of file; file has ");
    push_decimal(&mut m, total);
    m.append(" lines");
    ToolExecError(m)
}

/// The lines above the numbered view.
pub fn header_of(w: &LineWindow, label: &str) -> (r: String)
    requires
        w.max >= 1,
        1 <= w.start <= w.total_lines,
        w.truncated ==> w.start + w.lines_shown <= w.total_lines,
    ensures
        r@ == window_header(w@, w.start as nat, w.max as nat, label@),
{
    if w.truncated && w.lines_shown == 0 {
        let mut h = "path: ".to_owned();
        h.append(label);
        h.append("\nlines: none of ");
        push_decimal(&mut h, w.total_lines);
        h.append(" (first line exceeds output budget)\n\n");
        h
    } else {
        let end: u64 = if w.truncated {
            w.start + (w.lines_shown - 1)
        } else {
            last_requested(w.total_lines, w.start, w.max)
        };
        let mut h = "path: ".to_owned();
        h.append(label);
        h.append("\nlines: ");
        push_decimal(&mut h, w.start);
        h.append("-");
        push_decimal(&mut h, end);
        h.append(" of ");
        push_decimal(&mut h, w.total_lines);
        h.append("\n\n");
        h
    }
}

/// The result of reading a window: its header, its lines, and a note on what is missing.
pub fn finish_read_file(w: &LineWindow, label: &str) -> (r: Result<String, ToolExecError>)
    requires
        w.wf(),
        w.start >= 1,
        w.max >= 1,
        w.truncated ==> w.start + w.lines_shown <= w.total_lines,
    ensures
        match (r, read_file_result(w@, w.start as nat, w.max as nat, label@)) {
            (Ok(s), Ok(t)) => s@ == t,
            (Err(e), Err(f)) => e@ == f,
            _ => false,
        },
{
    if w.total_lines == 0 {
        let mut out = "path: ".to_owned();
        out.append(label);
        out.append("\nlines: none (empty file)\n\n");
        return Ok(out);
    }
    if w.start > w.total_lines {
        return Err(past_end(w.start, w.total_lines));
    }
    let header = header_of(w, label);
    let end: u64 = last_requested(w.total_lines, w.start, w.max);
    let mut note = String::new();
    if w.truncated {
        note.append("\n...[truncated: showing ");
        assert(note@ =~= "\n...[truncated: showing "@);
        push_decimal_wide(&mut note, w.shown_bytes as u128 + byte_len(&header) as u128 + 1);
        note.append(" of ");
        push_decimal(&mut note, w.total_bytes);
        note.append(" bytes (");
        push_decimal(&mut note, w.lines_shown);
        note.append(" of ");
        push_decimal(&mut note, w.total_lines);
        note.append(" lines) — continue with start_line=");
        push_decimal_wide(&mut note, w.start as u128 + w.lines_shown as u128);
        note.append("]");
    } else if end < w.total_lines {
        note.append("\n...[more lines follow: showing ");
        assert(note@ =~= "\n...[more lines follow: showing "@);
        push_decimal(&mut note, w.lines_shown);
        note.append(" of ");
        push_decimal(&mut note, w.total_lines);
        note.append(" lines — continue with start_line=");
        push_decimal_wide(&mut note, end as u128 + 1);
        note.append("]");
    }
    assert(note@ == read_file_note(w@, w.start as nat, w.max as nat, header@));
    let mut out = header;
    out.append(&w.out);
    out.append(&note);
    Ok(out)
}

/// The result of `read_file` for a file that holds `content`.
pub open spec fn read_file_outcome(
    args: ReadFileArgs,
    resolved: Seq<char>,
    working_dir: Option<Seq<char>>,
    content: Seq<u8>,
) -> Result<Seq<char>, Seq<char>> {
    let start = args.start_line as nat;
    let max = args.max_lines as nat;
    match refused_range(args.path@, start, max, MAX_READ_FILE_LINES as nat) {
        Some(e) => Err(e),
        None => match text_stream::file_window(content, start, max, resolved) {
            Err(e) => Err(e),
            Ok(w) => read_file_result(
                w,
                start,
                max,
                sanitize::sanitized(shown_path(resolved, working_dir), false),
            ),
        },
    }
}

/// Reads a numbered view of the file at `resolved`, which holds `content`: a header with the
/// path and the lines shown, the lines with their numbers, and a note on what is missing.
pub fn execute_read_file_tool(
    args: &ReadFileArgs,
    resolved: &str,
    working_dir: Option<&str>,
    content: &[u8],
) -> (r: Result<String, ToolExecError>)
    ensures
        match (r, read_file_outcome(*args, resolved@, paths::opt_str(working_dir), content@)) {
            (Ok(s), Ok(t)) => s@ == t,
            (Err(e), Err(f)) => e@ == f,
            _ => false,
        },
{
    match check_range(&args.path, args.start_line, args.max_lines, MAX_READ_FILE_LINES) {
        Err(e) => {
            return Err(e);
        },
        Ok(_) => {},
    }
    let w = match read_window(content, args.start_line as u64, args.max_lines as u64, resolved) {
        Err(e) => {
            return Err(e);
        },
        Ok(w) => w,
    };
    proof {
        if w.truncated {
            text_stream::law_cut_window_resumes(
                text_stream::file_lines(content@),
                args.start_line as nat,
                args.max_lines as nat,
                resolved@,
            );
        }
    }
    let label = sanitize_name(&display_path_label(resolved, working_dir));
    finish_read_file(&w, &label)
}

/// The sentence that announces a read.
pub open spec fn read_file_description(args: ReadFileArgs) -> Seq<char> {
    let path = sanitize::sanitized(args.path@, true);
    if args.start_line <= 1 && args.max_lines >= MAX_READ_FILE_LINES {
        "Reading file `"@ + path + "`."@
    } else {
        "Reading file `"@ + path + "` from line "@ + text::decimal(args.start_line as nat) + " (max "@
            + text::decimal(args.max_lines as nat) + " lines)."@
    }
}

/// The sentence that announces a read; the path stays on one line.
pub fn describe_read_file_invocation(args: &ReadFileArgs) -> (r: String)
    ensures
        r@ == read_file_description(*args),
{
    let path = sanitize_content(&args.path);
    let mut out = "Reading file `".to_owned();
    out.append(&path);
    if args.start_line <= 1 && args.max_lines >= MAX_READ_FILE_LINES {
        out.append("`.");
    } else {
        out.append("` from line ");
        push_decimal(&mut out, args.start_line as u64);
        out.append(" (max ");
        push_decimal(&mut out, args.max_lines as u64);
        out.append(" lines).");
    }
    out
}

/// The number of bytes that a truncated result reports is the number of bytes that stand in it
/// before the report.
pub proof fn law_reported_bytes_are_returned(
    w: WindowView,
    start: nat,
    max: nat,
    label: Seq<char>,
)
    requires
        1 <= start <= w.lines,
        w.truncated,
    ensures
        ({
            let header = window_header(w, start, max, label);
            let before = header + w.out + "\n"@;
            let report = "...[truncated: showing "@ + text::decimal(text::utf8_len(before)) + " of "@;
            read_file_result(w, start, max, label) matches Ok(text) && (before
                + report).is_prefix_of(text)
        }),
{
    let header = window_header(w, start, max, label);
    let before = header + w.out + "\n"@;
    text::lemma_utf8_len_concat(header + w.out, "\n"@);
    text::lemma_utf8_len_concat(header, w.out);
    reveal_strlit("\n");
    is_ascii_chars_encode_utf8("\n"@);
    reveal_strlit("\n...[truncated: showing ");
    reveal_strlit("...[truncated: showing ");
    assert("\n...[truncated: showing "@ =~= "\n"@ + "...[truncated: showing "@);
    let n = text::decimal(text::utf8_len(before));
    let report = "...[truncated: showing "@ + n + " of "@;
    let text = read_file_result(w, start, max, label)->Ok_0;
    let lead = "\n...[truncated: showing "@ + n + " of "@;
    assert(lead =~= "\n"@ + report);
    let q1 = lead + text::decimal(w.bytes);
    let q2 = q1 + " bytes ("@;
    let q3 = q2 + text::decimal(w.shown);
    let q4 = q3 + " of "@;
    let q5 = q4 + text::decimal(w.lines);
    let q6 = q5 + " lines) — continue with start_line="@;
    let q7 = q6 + text::decimal(start + w.shown);
    assert(lead.is_prefix_of(lead)) by {
        assert(lead.take(lead.len() as int) =~= lead);
    }
    text::lemma_prefix_extends(lead, lead, text::decimal(w.bytes));
    text::lemma_prefix_extends(lead, q1, " bytes ("@);
    text::lemma_prefix_extends(lead, q2, text::decimal(w.shown));
    text::lemma_prefix_extends(lead, q3, " of "@);
    text::lemma_prefix_extends(lead, q4, text::decimal(w.lines));
    text::lemma_prefix_extends(lead, q5, " lines) — continue with start_line="@);
    text::lemma_prefix_extends(lead, q6, text::decimal(start + w.shown));
    text::lemma_prefix_extends(lead, q7, "]"@);
    text::lemma_prefix_under(header + w.out, lead, q7 + "]"@);
    assert(header + w.out + lead =~= before + report);
}

/// Reading on where a read says to continue leaves no line out: a read that is not truncated and
/// stops short names the line behind the last one shown.
pub proof fn law_resume_line_follows(
    lines: Seq<Seq<u8>>,
    start: nat,
    max: nat,
    path: Seq<char>,
)
    requires
        1 <= start <= lines.len(),
        max >= 1,
        text_stream::window_of(lines, start, max, path) matches Ok(w) && !w.truncated,
    ensures
        requested_end(lines.len(), start, max) + 1 == start + text_stream::window_of(
            lines,
            start,
            max,
            path,
        )->Ok_0.shown,
{
    text_stream::law_window_is_complete(lines, start, max, path);
}

} // verus!
