//! `grep`: search file contents for a pattern.
//!
//! Reading directories and running the search over a file are done by the caller; what is
//! searched, what is kept of it, when to stop and what comes out is decided here.

use crate::error::{ToolExecError, tool_error_with};
use crate::grep_sink::{Bucket, GrepOutputMode, GrepSink, SinkView};
use crate::grep_sink;
use crate::order::{deduplicated, sorted_pairs, sorted_texts};
use crate::order;
use crate::paths::{file_name, path_label, resolve_path};
use crate::paths;
use crate::sanitize::{finish_tool_output, sanitize_name, truncation_marker};
use crate::sanitize;
use crate::text::{chars_of, join_lines, push_decimal};
use crate::text;
use vstd::prelude::*;
use vstd::string::*;

verus! {

/// Result cap where none is asked for.
pub const DEFAULT_MAX_RESULTS: u32 = 50;

/// Largest result cap.
pub const MAX_RESULTS_CAP: u32 = 200;

/// Largest number of context lines on each side of a match.
pub const MAX_CONTEXT_LINES: u32 = 100;

/// Arguments of `grep`.
#[derive(Debug)]
pub struct GrepArgs {
    /// What to search for.
    pub pattern: String,
    /// Whether the pattern is a regular expression.
    pub regex: bool,
    /// Whether case is ignored.
    pub ignore_case: bool,
    /// Lines to show before and after each match.
    pub context: u32,
    pub output_mode: GrepOutputMode,
    /// Glob that a file must match to be searched.
    pub include_glob: Option<String>,
    /// Directory or file to search in; the working directory where it is left out.
    pub path: Option<String>,
    /// Cap on matching lines (content) or on files (the other modes).
    pub max_results: Option<u32>,
}

/// The `grep` tool.
#[derive(Debug, Clone, Copy)]
pub struct Grep;

/// A compiled pattern of the `grep-regex` crate.
#[verifier::external_type_specification]
#[verifier::external_body]
pub struct ExRegexMatcher(grep_regex::RegexMatcher);

/// Why `grep-regex` refuses a pattern, if it does.
pub uninterp spec fn pattern_refusal(
    pattern: Seq<char>,
    fixed: bool,
    ignore_case: bool,
) -> Option<Seq<char>>;

/// What `grep-regex` makes of a pattern that it does not refuse.
pub uninterp spec fn compiled_pattern(
    pattern: Seq<char>,
    fixed: bool,
    ignore_case: bool,
) -> grep_regex::RegexMatcher;

/// Compiles a pattern, literally where `fixed` is set.
///
/// Calls `grep_regex::RegexMatcherBuilder::build`. Whether it refuses the pattern, and with what
/// words, is named, and so is the matcher that it makes.
#[verifier::external_body]
fn compile_pattern(
    pattern: &str,
    fixed: bool,
    ignore_case: bool,
) -> (r: Result<grep_regex::RegexMatcher, String>)
    ensures
        match r {
            Ok(m) => pattern_refusal(pattern@, fixed, ignore_case) is None && m
                == compiled_pattern(pattern@, fixed, ignore_case),
            Err(e) => pattern_refusal(pattern@, fixed, ignore_case) == Some(e@),
        },
{
    grep_regex::RegexMatcherBuilder::new()
        .case_insensitive(ignore_case)
        .fixed_strings(fixed)
        .build(pattern)
        .map_err(|e| e.to_string())
}

/// Whether `c` has a meaning of its own in a regular expression.
pub open spec fn regex_char(c: char) -> bool {
    c == '|' || c == '(' || c == ')' || c == '^' || c == '$' || c == '+' || c == '*' || c == '?'
        || c == '[' || c == ']' || c == '\\'
}

/// Whether a pattern looks like a regular expression.
pub open spec fn looks_like_regex(pattern: Seq<char>) -> bool {
    exists|i: int| 0 <= i < pattern.len() && regex_char(#[trigger] pattern[i])
}

fn has_regex_chars(pattern: &str) -> (r: bool)
    ensures
        r == looks_like_regex(pattern@),
{
    let cs = chars_of(pattern);
    for i in 0..cs.len()
        invariant
            cs@ == pattern@,
            forall|j: int| 0 <= j < i ==> !regex_char(#[trigger] pattern@[j]),
    {
        let c = cs[i];
        if c == '|' || c == '(' || c == ')' || c == '^' || c == '$' || c == '+' || c == '*' || c
            == '?' || c == '[' || c == ']' || c == '\\' {
            assert(regex_char(pattern@[i as int]));
            return true;
        }
    }
    false
}

/// A hint for a search that found nothing although its pattern looks like a regular expression
/// and was taken literally.
pub fn regex_mode_hint(pattern: &str, regex: bool, has_results: bool) -> (r: Option<String>)
    ensures
        r is Some <==> !regex && !has_results && looks_like_regex(pattern@),
        r matches Some(h) ==> h@
            == "Note: pattern matched literally. Set regex:true to interpret it as a regular expression."@,
{
    if regex || has_results {
        return None;
    }
    if !has_regex_chars(pattern) {
        return None;
    }
    Some(
        "Note: pattern matched literally. Set regex:true to interpret it as a regular expression.".to_owned(),
    )
}

/// What a search that found nothing says.
pub open spec fn nothing_found(pattern: Seq<char>, regex: bool) -> Seq<char> {
    if !regex && looks_like_regex(pattern) {
        "Note: pattern matched literally. Set regex:true to interpret it as a regular expression."@
            + "\nNo matches found."@
    } else {
        "No matches found."@
    }
}

/// What a search that found nothing says, with the hint first where there is one.
pub fn empty_result(pattern: &str, regex: bool) -> (r: String)
    ensures
        r@ == nothing_found(pattern@, regex),
{
    match regex_mode_hint(pattern, regex, false) {
        Some(hint) => {
            let mut out = hint;
            out.append("\nNo matches found.");
            out
        },
        None => "No matches found.".to_owned(),
    }
}

/// The collected lines, in the order in which they were found.
pub fn render_content(sink: &GrepSink) -> (r: String)
    ensures
        r@ == grep_sink::rendered_content(sink@.buckets),
{
    let mut out = String::new();
    let ghost bs = sink@.buckets;
    let ghost nl = seq!['\n'];
    let mut first = true;
    assert(bs.take(0) =~= Seq::<Bucket>::empty());
    for k in 0..sink.content_files.len()
        invariant
            bs == grep_sink::bucket_views(sink.content_files@),
            nl == seq!['\n'],
            first == (grep_sink::all_lines(bs.take(k as int)).len() == 0),
            out@ == text::join(grep_sink::all_lines(bs.take(k as int)), nl),
    {
        let label = &sink.content_files[k].0;
        let items = &sink.content_files[k].1;
        let ghost head = grep_sink::all_lines(bs.take(k as int));
        let ghost own = grep_sink::bucket_lines(bs[k as int]);
        assert(bs[k as int] == grep_sink::bucket_view(sink.content_files@[k as int]));
        assert(head + own.take(0) =~= head);
        for j in 0..items.len()
            invariant
                bs[k as int].label == label@,
                bs[k as int].items == grep_sink::item_views(items@),
                own == grep_sink::bucket_lines(bs[k as int]),
                nl == seq!['\n'],
                first == ((head + own.take(j as int)).len() == 0),
                out@ == text::join(head + own.take(j as int), nl),
        {
            if !first {
                out.append("\n");
            }
            let line = items[j].render(label);
            out.append(&line);
            proof {
                reveal_strlit("\n");
                assert("\n"@ =~= nl);
                assert(own[j as int] == line@);
                assert(head + own.take(j + 1) =~= (head + own.take(j as int)).push(line@));
                text::lemma_join_push(head + own.take(j as int), line@, nl);
                if first {
                    assert(out@ =~= line@);
                } else {
                    assert(out@ =~= text::join(head + own.take(j as int), nl) + nl + line@);
                }
            }
            first = false;
        }
        proof {
            assert(own.take(own.len() as int) =~= own);
            assert(bs.take(k + 1).drop_last() =~= bs.take(k as int));
            assert(grep_sink::all_lines(bs.take(k + 1)) == head + own);
        }
    }
    assert(bs.take(bs.len() as int) =~= bs);
    out
}

/// The labels of the files that hold a match.
pub open spec fn file_labels(v: SinkView) -> Seq<Seq<char>> {
    Seq::new(
        v.matched_files.len(),
        |i: int| sanitize::sanitized(paths::label_of(v.matched_files[i], v.root, v.single_file), false),
    )
}

/// The files that hold a match, in order and each once, one on each line.
pub fn render_files(sink: &GrepSink) -> (r: String)
    ensures
        r@ == text::join(
            order::without_repeats(order::sort_texts(file_labels(sink@))),
            seq!['\n'],
        ),
{
    let mut labels: Vec<String> = Vec::new();
    let ghost all = file_labels(sink@);
    assert(text::views(labels@) =~= all.take(0));
    for i in 0..sink.matched_files.len()
        invariant
            all == file_labels(sink@),
            all.len() == sink.matched_files.len(),
            text::views(labels@) == all.take(i as int),
    {
        let label = path_label(&sink.matched_files[i], &sink.resolved, sink.single_file);
        let clean = sanitize_name(&label);
        proof {
            text::lemma_views_push(labels@, clean);
            assert(sink@.matched_files[i as int] == sink.matched_files[i as int]@);
            assert(all[i as int] == clean@);
            assert(all.take(i + 1) =~= all.take(i as int).push(clean@));
        }
        labels.push(clean);
    }
    assert(all.take(all.len() as int) =~= all);
    let listed = deduplicated(sorted_texts(labels));
    join_lines(&listed)
}

/// The labels of the counted files with their counts.
pub open spec fn count_labels(v: SinkView) -> Seq<(Seq<char>, u64)> {
    Seq::new(
        v.count_entries.len(),
        |i: int|
            (
                sanitize::sanitized(paths::label_of(v.count_entries[i].0, v.root, v.single_file), false),
                v.count_entries[i].1,
            ),
    )
}

/// The lines of a count.
pub open spec fn count_lines(entries: Seq<(Seq<char>, u64)>) -> Seq<Seq<char>> {
    Seq::new(entries.len(), |i: int| entries[i].0 + ": "@ + text::decimal(entries[i].1 as nat))
}

/// The counted files in order, one on each line.
pub fn render_count(sink: &GrepSink) -> (r: String)
    ensures
        r@ == text::join(count_lines(order::sort_pairs(count_labels(sink@))), seq!['\n']),
{
    let mut entries: Vec<(String, u64)> = Vec::new();
    let ghost all = count_labels(sink@);
    assert(order::pair_views(entries@) =~= all.take(0));
    for i in 0..sink.count_entries.len()
        invariant
            all == count_labels(sink@),
            all.len() == sink.count_entries.len(),
            order::pair_views(entries@) == all.take(i as int),
    {
        let label = path_label(&sink.count_entries[i].0, &sink.resolved, sink.single_file);
        let clean = sanitize_name(&label);
        let n: u64 = sink.count_entries[i].1;
        let ghost before = entries@;
        entries.push((clean, n));
        proof {
            assert(sink@.count_entries[i as int] == (
                sink.count_entries[i as int].0@,
                sink.count_entries[i as int].1,
            ));
            assert(all[i as int] == (clean@, n));
            assert(all.take(i + 1) =~= all.take(i as int).push((clean@, n)));
            assert(order::pair_views(entries@) =~= order::pair_views(before).push((clean@, n)));
        }
    }
    assert(all.take(all.len() as int) =~= all);
    let sorted = sorted_pairs(entries);
    let mut lines: Vec<String> = Vec::new();
    let ghost shown = count_lines(order::pair_views(sorted@));
    assert(text::views(lines@) =~= shown.take(0));
    for i in 0..sorted.len()
        invariant
            shown == count_lines(order::pair_views(sorted@)),
            shown.len() == sorted.len(),
            text::views(lines@) == shown.take(i as int),
    {
        let mut line = sorted[i].0.clone();
        line.append(": ");
        push_decimal(&mut line, sorted[i].1);
        proof {
            text::lemma_views_push(lines@, line);
            assert(order::pair_views(sorted@)[i as int] == (sorted[i as int].0@, sorted[i as int].1));
            assert(shown[i as int] == line@);
            assert(shown.take(i + 1) =~= shown.take(i as int).push(line@));
        }
        lines.push(line);
    }
    assert(shown.take(shown.len() as int) =~= shown);
    join_lines(&lines)
}

/// Caps the output at the byte budget with the truncation marker's room reserved.
pub fn assemble_grep_output(body: String, truncated: bool, max_results: usize, noun: &str) -> (r:
    String)
    ensures
        r@ == sanitize::finished(
            body@,
            if truncated {
                Some(sanitize::cap_marker(max_results as nat, noun@))
            } else {
                None
            },
        ),
{
    let marker = truncation_marker(truncated, max_results, noun);
    finish_tool_output(&body, marker)
}

/// The body of a search that found something.
pub open spec fn grep_body(v: SinkView) -> Seq<char> {
    match v.mode {
        GrepOutputMode::Content => grep_sink::rendered_content(v.buckets),
        GrepOutputMode::FilesWithMatches => text::join(
            order::without_repeats(order::sort_texts(file_labels(v))),
            seq!['\n'],
        ),
        GrepOutputMode::Count => text::join(count_lines(order::sort_pairs(count_labels(v))), seq!['\n']),
    }
}

/// Whether the output of a search says that it stops short.
pub open spec fn stops_short(v: SinkView) -> bool {
    v.stop is Some && !(v.single_file && v.mode != GrepOutputMode::Content)
}

/// The result of a search.
pub open spec fn grep_result(v: SinkView, pattern: Seq<char>, regex: bool) -> Seq<char> {
    if grep_sink::results(v) == 0 {
        if v.files_searched == 0 {
            "No matches found."@
        } else {
            nothing_found(pattern, regex)
        }
    } else {
        sanitize::finished(
            grep_body(v),
            if stops_short(v) {
                Some(sanitize::cap_marker(grep_sink::marked(v), grep_sink::mode_noun(v.mode)))
            } else {
                None
            },
        )
    }
}

/// The result of a search: what was collected, with the truncation marker where it stops short;
/// or that nothing was found, with the hint only where a file was searched.
pub fn finish_grep(sink: &GrepSink, pattern: &str, regex: bool) -> (r: String)
    ensures
        r@ == grep_result(sink@, pattern@, regex),
{
    if sink.result_count() == 0 {
        if sink.files_searched == 0 {
            return "No matches found.".to_owned();
        }
        return empty_result(pattern, regex);
    }
    let body = match sink.output_mode {
        GrepOutputMode::Content => render_content(sink),
        GrepOutputMode::FilesWithMatches => render_files(sink),
        GrepOutputMode::Count => render_count(sink),
    };
    assemble_grep_output(
        body,
        sink.truncated(),
        sink.marker_count(),
        sink.output_mode.cap_noun(),
    )
}

/// A search as it was asked for, with defaults filled in.
#[derive(Debug)]
pub struct GrepConfig {
    pub pattern: String,
    pub regex: bool,
    pub ignore_case: bool,
    pub context: u32,
    pub output_mode: GrepOutputMode,
    pub include_glob: Option<String>,
    pub max_results: u32,
}

/// A search that is under way.
#[derive(Debug)]
pub struct GrepRun {
    /// What has been found.
    pub sink: GrepSink,
    /// The compiled pattern, for the search of each file.
    pub matcher: grep_regex::RegexMatcher,
    pub pattern: String,
    pub regex: bool,
    /// Number of matches after which the search of a file may stop by itself.
    pub max_matches: Option<u64>,
}

/// `n` brought into `1 ..= MAX_RESULTS_CAP`.
pub open spec fn clamped_results(n: u32) -> u32 {
    if n < 1 {
        1
    } else if n > MAX_RESULTS_CAP {
        MAX_RESULTS_CAP
    } else {
        n
    }
}

/// `n`, but no more than `MAX_CONTEXT_LINES`.
pub open spec fn clamped_context(n: u32) -> u32 {
    if n > MAX_CONTEXT_LINES {
        MAX_CONTEXT_LINES
    } else {
        n
    }
}

/// Brings a result cap into its bounds.
pub fn clamp_results(n: u32) -> (r: u32)
    ensures
        r == clamped_results(n),
        1 <= r <= MAX_RESULTS_CAP,
{
    if n < 1 {
        1
    } else if n > MAX_RESULTS_CAP {
        MAX_RESULTS_CAP
    } else {
        n
    }
}

/// Brings a number of context lines into its bounds.
pub fn clamp_context(n: u32) -> (r: u32)
    ensures
        r == clamped_context(n),
        r <= MAX_CONTEXT_LINES,
{
    if n > MAX_CONTEXT_LINES {
        MAX_CONTEXT_LINES
    } else {
        n
    }
}

/// Context lines that a search shows behind a match: none but in content mode.
pub open spec fn applied_context(config: GrepConfig) -> u32 {
    if config.output_mode == GrepOutputMode::Content {
        clamped_context(config.context)
    } else {
        0
    }
}

/// The state in which a search starts.
pub open spec fn initial(config: GrepConfig, resolved: Seq<char>, single_file: bool) -> SinkView {
    grep_sink::fresh(
        config.output_mode,
        clamped_results(config.max_results) as nat,
        applied_context(config) as nat,
        resolved,
        single_file,
    )
}

/// Number of matches after which the search of a file may stop by itself.
pub open spec fn match_limit(config: GrepConfig) -> Option<u64> {
    if config.output_mode == GrepOutputMode::Content {
        Some(clamped_results(config.max_results) as u64)
    } else {
        None
    }
}

/// The compiled pattern of a search.
pub open spec fn pattern_of(config: GrepConfig) -> grep_regex::RegexMatcher {
    compiled_pattern(config.pattern@, !config.regex, config.ignore_case)
}

/// Why a pattern is refused.
pub open spec fn pattern_error(config: GrepConfig) -> Option<Seq<char>> {
    match pattern_refusal(config.pattern@, !config.regex, config.ignore_case) {
        None => None,
        Some(e) => Some(
            if config.regex {
                "invalid regex pattern: "@ + e
            } else {
                "invalid pattern: "@ + e
            },
        ),
    }
}

/// Starts a search below `resolved`: the result cap and the context are brought into their
/// bounds and the pattern is compiled. `include_error` says why the include glob could not be
/// compiled, if it could not.
pub fn run_grep_walk(
    resolved: &str,
    config: &GrepConfig,
    include_error: Option<&str>,
    single_file: bool,
) -> (r: Result<GrepRun, ToolExecError>)
    ensures
        match (pattern_error(*config), include_error) {
            (Some(e), _) => r matches Err(x) && x@ == e,
            (None, Some(e)) => r matches Err(x) && x@ == "invalid include glob: "@ + e@,
            (None, None) => r matches Ok(run) && {
                &&& run.sink@ == initial(*config, resolved@, single_file)
                &&& run.matcher == pattern_of(*config)
                &&& run.sink.wf()
                &&& run.pattern@ == config.pattern@
                &&& run.regex == config.regex
                &&& run.max_matches == match_limit(*config)
            },
        },
{
    let max_results: u32 = clamp_results(config.max_results);
    let context: u32 = clamp_context(config.context);
    let matcher = match compile_pattern(&config.pattern, !config.regex, config.ignore_case) {
        Ok(m) => m,
        Err(e) => {
            if config.regex {
                return Err(tool_error_with("invalid regex pattern: ", &e));
            } else {
                return Err(tool_error_with("invalid pattern: ", &e));
            }
        },
    };
    match include_error {
        Some(e) => {
            return Err(tool_error_with("invalid include glob: ", e));
        },
        None => {},
    }
    let after_context: usize = if config.output_mode == GrepOutputMode::Content && context > 0 {
        context as usize
    } else {
        0
    };
    let sink = GrepSink::new(
        config.output_mode,
        max_results as usize,
        after_context,
        resolved,
        single_file,
    );
    let max_matches: Option<u64> = if config.output_mode == GrepOutputMode::Content {
        Some(max_results as u64)
    } else {
        None
    };
    Ok(
        GrepRun {
            sink,
            matcher,
            pattern: config.pattern.clone(),
            regex: config.regex,
            max_matches,
        },
    )
}

impl GrepRun {
    /// Considers an entry of the walk. Where the result is true, it is to be searched and the
    /// reports of its search go to the sink; else it is passed over.
    pub fn consider(&mut self, path: &str, is_file: bool, included: bool) -> (r: bool)
        requires
            old(self).sink.wf(),
            old(self).sink.files_searched < usize::MAX,
        ensures
            r == (is_file && included),
            r ==> final(self).sink@ == grep_sink::begun(old(self).sink@, path@),
            !r ==> final(self).sink@ == old(self).sink@,
            final(self).sink.wf(),
            final(self).pattern@ == old(self).pattern@,
            final(self).regex == old(self).regex,
            final(self).matcher == old(self).matcher,
            final(self).max_matches == old(self).max_matches,
    {
        if !is_file || !included {
            return false;
        }
        self.sink.begin_file(path);
        true
    }

    /// Closes the entry that was searched; `error` says why its search failed, if it did. The
    /// result says whether the walk goes on.
    pub fn searched(&mut self, error: Option<&str>) -> (r: bool)
        requires
            old(self).sink.wf(),
        ensures
            final(self).sink@ == grep_sink::ended(
                SinkView {
                    aborted: old(self).sink@.aborted || error is Some,
                    ..old(self).sink@
                },
            ),
            r == (final(self).sink@.stop is None),
            final(self).sink.wf(),
            final(self).pattern@ == old(self).pattern@,
            final(self).regex == old(self).regex,
            final(self).matcher == old(self).matcher,
            final(self).max_matches == old(self).max_matches,
    {
        let ghost before = self.sink@;
        if error.is_some() {
            self.sink.abort_file();
        }
        assert(self.sink@ =~= (SinkView { aborted: before.aborted || error is Some, ..before }));
        self.sink.end_file();
        !self.sink.should_stop()
    }

    /// Turns to the single file that was asked for. Where the result is true, it is to be
    /// searched; else the include glob leaves it out.
    pub fn consider_single(&mut self, included: bool) -> (r: bool)
        requires
            old(self).sink.wf(),
            old(self).sink.files_searched < usize::MAX,
        ensures
            r == included,
            r ==> final(self).sink@ == grep_sink::begun(old(self).sink@, old(self).sink@.root),
            !r ==> final(self).sink@ == old(self).sink@,
            final(self).sink.wf(),
            final(self).pattern@ == old(self).pattern@,
            final(self).regex == old(self).regex,
            final(self).matcher == old(self).matcher,
            final(self).max_matches == old(self).max_matches,
    {
        if !included {
            return false;
        }
        let path = self.sink.resolved.clone();
        self.sink.begin_file(&path);
        true
    }

    /// The result of a search of a single file; a failure of it is an error.
    pub fn finish_single(&mut self, error: Option<&str>) -> (r: Result<String, ToolExecError>)
        requires
            old(self).sink.wf(),
        ensures
            match error {
                Some(e) => r matches Err(x) && x@ == "failed to search '"@ + old(self).sink@.root
                    + "': "@ + e@,
                None => r matches Ok(s) && s@ == grep_result(
                    grep_sink::ended(old(self).sink@),
                    old(self).pattern@,
                    old(self).regex,
                ),
            },
            final(self).sink@ == (if error is Some {
                old(self).sink@
            } else {
                grep_sink::ended(old(self).sink@)
            }),
            final(self).sink.wf(),
            final(self).pattern@ == old(self).pattern@,
            final(self).regex == old(self).regex,
            final(self).matcher == old(self).matcher,
            final(self).max_matches == old(self).max_matches,
    {
        match error {
            Some(e) => {
                let mut m = "failed to search '".to_owned();
                m.append(&self.sink.resolved);
                m.append("': ");
                m.append(e);
                Err(ToolExecError(m))
            },
            None => {
                self.sink.end_file();
                Ok(finish_grep(&self.sink, &self.pattern, self.regex))
            },
        }
    }

    /// The result of a walk; a walk that failed as a whole is an error.
    pub fn finish_walk(&self, failure: Option<WalkFailure>) -> (r: Result<String, ToolExecError>)
        ensures
            match failure {
                Some(WalkFailure::Create(e)) => r matches Err(x) && x@ == "failed to create walker: "@
                    + e@,
                Some(WalkFailure::Walk(e)) => r matches Err(x) && x@ == "walk error: "@ + e@,
                None => r matches Ok(s) && s@ == grep_result(
                    self.sink@,
                    self.pattern@,
                    self.regex,
                ),
            },
    {
        match failure {
            Some(WalkFailure::Create(e)) => Err(
                tool_error_with("failed to create walker: ", e.as_str()),
            ),
            Some(WalkFailure::Walk(e)) => Err(tool_error_with("walk error: ", e.as_str())),
            None => Ok(finish_grep(&self.sink, &self.pattern, self.regex)),
        }
    }
}

/// Why a walk failed as a whole.
#[derive(Debug)]
pub enum WalkFailure {
    /// It could not begin.
    Create(String),
    /// It broke off.
    Walk(String),
}

/// What an include glob is held against: a glob with a slash against the path below the root, any
/// other against the name of the file.
pub open spec fn glob_subject(glob: Seq<char>, relative: Seq<char>) -> Seq<char> {
    if glob.contains('/') {
        relative
    } else {
        match paths::file_name_of(relative) {
            Some(n) => n,
            None => Seq::empty(),
        }
    }
}

/// What an include glob is held against for the file that lies at `relative` below the root; a file
/// that was asked for by itself lies at its own name.
pub fn include_subject(glob: &str, relative: &str) -> (r: String)
    ensures
        r@ == glob_subject(glob@, relative@),
{
    let cs = chars_of(glob);
    for i in 0..cs.len()
        invariant
            cs@ == glob@,
            forall|j: int| 0 <= j < i ==> #[trigger] glob@[j] != '/',
    {
        if cs[i] == '/' {
            assert(glob@[i as int] == '/');
            return relative.to_owned();
        }
    }
    assert(!glob@.contains('/'));
    match file_name(relative) {
        Some(n) => n,
        None => String::new(),
    }
}

/// The given path, or a dot where there is none.
pub open spec fn path_or_dot(path: Option<String>) -> Seq<char> {
    match path {
        Some(p) => p@,
        None => seq!['.'],
    }
}

/// Whether a search is the one that a call asks for, with defaults filled in.
pub open spec fn configures(args: GrepArgs, config: GrepConfig) -> bool {
    &&& config.pattern@ == args.pattern@
    &&& config.regex == args.regex
    &&& config.ignore_case == args.ignore_case
    &&& config.context == args.context
    &&& config.output_mode == args.output_mode
    &&& sanitize::opt_view(config.include_glob) == sanitize::opt_view(args.include_glob)
    &&& config.max_results == (match args.max_results {
        Some(n) => n,
        None => DEFAULT_MAX_RESULTS,
    })
}

/// Turns the arguments into a search: where to search, with defaults filled in.
pub fn execute_grep_tool(args: &GrepArgs, working_dir: Option<&str>) -> (r: (String, GrepConfig))
    ensures
        exists|home: Option<Seq<char>>|
            r.0@ == #[trigger] paths::resolved_path(path_or_dot(args.path), paths::opt_str(working_dir), home),
        configures(*args, r.1),
{
    proof {
        reveal_strlit(".");
        assert("."@ =~= seq!['.']);
    }
    let path: String = match &args.path {
        Some(p) => p.clone(),
        None => ".".to_owned(),
    };
    assert(path@ == path_or_dot(args.path));
    let resolved = resolve_path(&path, working_dir);
    let include_glob: Option<String> = match &args.include_glob {
        Some(g) => Some(g.clone()),
        None => None,
    };
    let max_results: u32 = match args.max_results {
        Some(n) => n,
        None => DEFAULT_MAX_RESULTS,
    };
    (
        resolved,
        GrepConfig {
            pattern: args.pattern.clone(),
            regex: args.regex,
            ignore_case: args.ignore_case,
            context: args.context,
            output_mode: args.output_mode,
            include_glob,
            max_results,
        },
    )
}

/// `text` where `cond` holds, else nothing.
pub open spec fn when(cond: bool, text: Seq<char>) -> Seq<char> {
    if cond {
        text
    } else {
        Seq::empty()
    }
}

/// The sentence that announces a search.
pub open spec fn grep_description(args: GrepArgs) -> Seq<char> {
    let content = args.output_mode == GrepOutputMode::Content;
    "Searching for `"@ + args.pattern@ + "`."@ + when(args.regex, " Using regex."@) + when(
        args.ignore_case,
        " Ignoring case."@,
    ) + when(
        args.context > 0 && content,
        " Showing "@ + text::decimal(clamped_context(args.context) as nat) + " context line(s)."@,
    ) + when(!content, " Output mode: "@ + grep_sink::mode_name(args.output_mode) + "."@) + (
    match args.include_glob {
        Some(g) => " Include pattern: `"@ + g@ + "`."@,
        None => Seq::empty(),
    }) + (match args.path {
        Some(p) => " In path: `"@ + p@ + "`."@,
        None => " In working directory."@,
    }) + (match args.max_results {
        Some(n) => " Max results: "@ + text::decimal(clamped_results(n) as nat) + "."@,
        None => Seq::empty(),
    })
}

impl Grep {
    /// The sentence that announces a search, with the values that will be applied.
    pub fn describe_invocation(&self, args: &GrepArgs) -> (r: String)
        ensures
            r@ == grep_description(*args),
    {
        let content = args.output_mode == GrepOutputMode::Content;
        let mut shown = String::new();
        if args.context > 0 && content {
            shown.append(" Showing ");
            push_decimal(&mut shown, clamp_context(args.context) as u64);
            shown.append(" context line(s).");
            assert(shown@ =~= " Showing "@ + text::decimal(clamped_context(args.context) as nat)
                + " context line(s)."@);
        }
        let mut mode = String::new();
        if !content {
            mode.append(" Output mode: ");
            mode.append(args.output_mode.as_str());
            mode.append(".");
            assert(mode@ =~= " Output mode: "@ + grep_sink::mode_name(args.output_mode) + "."@);
        }
        let mut glob = String::new();
        match &args.include_glob {
            Some(g) => {
                glob.append(" Include pattern: `");
                glob.append(g);
                glob.append("`.");
                assert(glob@ =~= " Include pattern: `"@ + g@ + "`."@);
            },
            None => {},
        }
        let mut place = String::new();
        match &args.path {
            Some(p) => {
                place.append(" In path: `");
                place.append(p);
                place.append("`.");
                assert(place@ =~= " In path: `"@ + p@ + "`."@);
            },
            None => {
                place.append(" In working directory.");
                assert(place@ =~= " In working directory."@);
            },
        }
        let mut cap = String::new();
        match args.max_results {
            Some(n) => {
                cap.append(" Max results: ");
                push_decimal(&mut cap, clamp_results(n) as u64);
                cap.append(".");
                assert(cap@ =~= " Max results: "@ + text::decimal(clamped_results(n) as nat) + "."@);
            },
            None => {},
        }
        let mut out = "Searching for `".to_owned();
        out.append(&args.pattern);
        out.append("`.");
        out.append(if args.regex {
            " Using regex."
        } else {
            ""
        });
        out.append(if args.ignore_case {
            " Ignoring case."
        } else {
            ""
        });
        out.append(&shown);
        out.append(&mode);
        out.append(&glob);
        out.append(&place);
        out.append(&cap);
        proof {
            reveal_strlit("");
            assert(""@ =~= Seq::<char>::empty());
        }
        out
    }
}

} // verus!
