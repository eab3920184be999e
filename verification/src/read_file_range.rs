//! `read_file_range`: a small numbered window of lines of a text file.

use crate::error::ToolExecError;
use crate::read_file::{check_range, header_of, past_end};
use crate::read_file;
use crate::text::push_decimal;
use crate::text;
use crate::text_stream::{LineWindow, WindowView, read_window};
use crate::text_stream;
use vstd::prelude::*;
use vstd::string::*;

verus! {

/// Most lines that one call returns.
pub const MAX_READ_FILE_RANGE_LINES: usize = 500;

/// Arguments of `read_file_range`.
#[derive(Debug)]
pub struct ReadFileRangeArgs {
    pub path: String,
    /// First line, counted from one.
    pub start_line: usize,
    /// Most lines to return.
    pub max_lines: usize,
}

/// The note below the view.
pub open spec fn range_note(w: WindowView) -> Seq<char> {
    if w.truncated {
        "\n...[truncated: showing "@ + text::decimal(text::utf8_len(w.out)) + " of "@ + text::decimal(w.bytes)
            + " bytes ("@ + text::decimal(w.shown) + " of "@ + text::decimal(w.lines)
            + " lines) — use a smaller range]"@
    } else {
        Seq::empty()
    }
}

/// The result of reading a range of a file that holds `content`.
pub open spec fn read_range_outcome(
    args: ReadFileRangeArgs,
    resolved: Seq<char>,
    content: Seq<u8>,
) -> Result<Seq<char>, Seq<char>> {
    let start = args.start_line as nat;
    let max = args.max_lines as nat;
    match read_file::refused_range(args.path@, start, max, MAX_READ_FILE_RANGE_LINES as nat) {
        Some(e) => Err(e),
        None => match text_stream::file_window(content, start, max, resolved) {
            Err(e) => Err(e),
            Ok(w) => if start > w.lines {
                Err(read_file::past_end_error(start, w.lines))
            } else {
                Ok(read_file::window_header(w, start, max, resolved) + w.out + range_note(w))
            },
        },
    }
}

/// The result of reading a range: its header, its lines, and a note where the byte budget cut it
/// short.
pub fn finish_read_range(w: &LineWindow, resolved: &str) -> (r: Result<String, ToolExecError>)
    requires
        w.wf(),
        w.start >= 1,
        w.max >= 1,
        w.truncated ==> w.start + w.lines_shown <= w.total_lines,
    ensures
        w.start > w.total_lines ==> (r matches Err(e) && e@ == read_file::past_end_error(
            w.start as nat,
            w.total_lines as nat,
        )),
        w.start <= w.total_lines ==> (r matches Ok(s) && s@ == read_file::window_header(
            w@,
            w.start as nat,
            w.max as nat,
            resolved@,
        ) + w.out@ + range_note(w@)),
{
    if w.start > w.total_lines {
        return Err(past_end(w.start, w.total_lines));
    }
    let header = header_of(w, resolved);
    let mut note = String::new();
    if w.truncated {
        note.append("\n...[truncated: showing ");
        assert(note@ =~= "\n...[truncated: showing "@);
        push_decimal(&mut note, w.shown_bytes as u64);
        note.append(" of ");
        push_decimal(&mut note, w.total_bytes);
        note.append(" bytes (");
        push_decimal(&mut note, w.lines_shown);
        note.append(" of ");
        push_decimal(&mut note, w.total_lines);
        note.append(" lines) — use a smaller range]");
    }
    assert(note@ == range_note(w@));
    let mut out = header;
    out.append(&w.out);
    out.append(&note);
    Ok(out)
}

/// Reads a range of lines of the file at `resolved`, which holds `content`.
pub fn execute_read_file_range_tool(
    args: &ReadFileRangeArgs,
    resolved: &str,
    content: &[u8],
) -> (r: Result<String, ToolExecError>)
    ensures
        match (r, read_range_outcome(*args, resolved@, content@)) {
            (Ok(s), Ok(t)) => s@ == t,
            (Err(e), Err(f)) => e@ == f,
            _ => false,
        },
{
    match check_range(&args.path, args.start_line, args.max_lines, MAX_READ_FILE_RANGE_LINES) {
        Err(e) => {
            return Err(e);
        },
        Ok(_) => {},
    }
    let w = match read_window(content, args.start_line as u64, args.max_lines as u64, resolved) {
        Err(e) => {
            return Err(e);
        },
        Ok(w) => w,
    };
    proof {
        if w.truncated {
            text_stream::law_cut_window_resumes(
                text_stream::file_lines(content@),
                args.start_line as nat,
                args.max_lines as nat,
                resolved@,
            );
        }
    }
    finish_read_range(&w, resolved)
}

/// The sentence that announces a read.
pub fn describe_read_file_range_invocation(args: &ReadFileRangeArgs) -> (r: String)
    ensures
        r@ == "Reading file `"@ + args.path@ + "` from line "@ + text::decimal(args.start_line as nat)
            + " (max "@ + text::decimal(args.max_lines as nat) + " lines)."@,
{
    let mut out = "Reading file `".to_owned();
    out.append(&args.path);
    out.append("` from line ");
    push_decimal(&mut out, args.start_line as u64);
    out.append(" (max ");
    push_decimal(&mut out, args.max_lines as u64);
    out.append(" lines).");
    out
}

} // verus!
