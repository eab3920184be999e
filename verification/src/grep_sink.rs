//! Collection and rendering of search results, one file at a time.

use crate::bytes::lossy_text;
use crate::bytes;
use crate::paths::path_label;
use crate::paths;
use crate::sanitize::{MAX_TOOL_OUTPUT_BYTES, sanitize_content, sanitize_name};
use crate::sanitize;
use crate::text::{byte_len, chars_of, cut_to, from_chars, push_decimal, same};
use crate::text;
use crate::text_stream::MAX_LINE_DISPLAY_BYTES;
use vstd::prelude::*;
use vstd::string::*;
use vstd::utf8::*;

verus! {

/// What a line that was cut ends with.
pub const LINE_TRUNCATED_MARKER: &'static str = "...[line truncated: exceeds 64 KiB]";

/// Output format of a search.
#[derive(Debug, Clone, Copy, PartialEq, Eq, Structural)]
pub enum GrepOutputMode {
    /// `path:line:content` for each matching line, with context lines around it.
    Content,
    /// One path for each file that holds a match.
    FilesWithMatches,
    /// `path: N` for each file, the number of its matching lines.
    Count,
}

impl Default for GrepOutputMode {
    fn default() -> (r: Self)
        ensures
            r == GrepOutputMode::Content,
    {
        GrepOutputMode::Content
    }
}

/// The name of an output mode.
pub open spec fn mode_name(mode: GrepOutputMode) -> Seq<char> {
    match mode {
        GrepOutputMode::Content => "content"@,
        GrepOutputMode::FilesWithMatches => "files_with_matches"@,
        GrepOutputMode::Count => "count"@,
    }
}

/// What the result cap of a mode counts.
pub open spec fn mode_noun(mode: GrepOutputMode) -> Seq<char> {
    match mode {
        GrepOutputMode::Content => "matches"@,
        _ => "files"@,
    }
}

impl GrepOutputMode {
    /// What the result cap counts in this mode.
    pub fn cap_noun(self) -> (r: &'static str)
        ensures
            r@ == mode_noun(self),
    {
        match self {
            GrepOutputMode::Content => "matches",
            GrepOutputMode::FilesWithMatches | GrepOutputMode::Count => "files",
        }
    }

    /// The name of the mode.
    pub fn as_str(self) -> (r: &'static str)
        ensures
            r@ == mode_name(self),
    {
        match self {
            GrepOutputMode::Content => "content",
            GrepOutputMode::FilesWithMatches => "files_with_matches",
            GrepOutputMode::Count => "count",
        }
    }
}

/// Number of decimal digits of `n`.
pub fn decimal_len(n: u64) -> (k: usize)
    ensures
        k == text::decimal(n as nat).len(),
        1 <= k <= 20,
{
    let mut k: usize = 1;
    let mut rest: u64 = n;
    let ghost total = text::decimal(n as nat).len();
    proof {
        reveal_with_fuel(pow10, 21);
        lemma_decimal_len_bound(n as nat, 20);
    }
    while rest >= 10
        invariant
            k + text::decimal(rest as nat).len() == total + 1,
            1 <= text::decimal(rest as nat).len(),
            1 <= k,
            total <= 20,
        decreases rest,
    {
        rest = rest / 10;
        proof {
            text::lemma_decimal_ascii(rest as nat);
        }
        k = k + 1;
    }
    k
}

spec fn pow10(k: nat) -> nat
    decreases k,
{
    if k == 0 {
        1
    } else {
        10 * pow10((k - 1) as nat)
    }
}

proof fn lemma_decimal_len_bound(n: nat, k: nat)
    requires
        n < pow10(k),
        k >= 1,
    ensures
        1 <= text::decimal(n).len() <= k,
    decreases n,
{
    if n >= 10 {
        assert(k >= 2) by {
            if k == 1 {
                reveal_with_fuel(pow10, 2);
            }
        }
        lemma_decimal_len_bound(n / 10, (k - 1) as nat);
    }
}

/// `s` without the line terminator that ends it: one CRLF, or else one LF.
pub open spec fn without_terminator(s: Seq<char>) -> Seq<char> {
    if s.len() > 0 && s.last() == '\n' {
        sanitize::without_cr(s.drop_last())
    } else {
        s
    }
}

/// `line` cut to what is shown of one line, and whether it was cut.
pub open spec fn capped_line(line: Seq<char>) -> (Seq<char>, bool) {
    if text::utf8_len(line) <= MAX_LINE_DISPLAY_BYTES {
        (line, false)
    } else {
        (text::cut(line, MAX_LINE_DISPLAY_BYTES as nat) + LINE_TRUNCATED_MARKER@, true)
    }
}

/// A decoded line as it is shown, and whether it was cut.
pub open spec fn shown_text(line: Seq<char>) -> (Seq<char>, bool) {
    let capped = capped_line(without_terminator(line));
    (sanitize::sanitized(capped.0, true), capped.1)
}

/// Bytes of a line that are decoded for showing it.
pub open spec fn line_window(bytes: Seq<u8>) -> Seq<u8> {
    if bytes.len() <= MAX_LINE_DISPLAY_BYTES + 4 {
        bytes
    } else {
        bytes.take(MAX_LINE_DISPLAY_BYTES + 4)
    }
}

/// A line as it is shown, and whether it was cut.
pub open spec fn shown_line(bytes: Seq<u8>) -> (Seq<char>, bool) {
    shown_text(bytes::utf8_lossy(line_window(bytes)))
}

/// Cuts `line` to what is shown of one line; the flag says whether it was cut.
pub fn cap_line(line: &str) -> (r: (String, bool))
    ensures
        (r.0@, r.1) == capped_line(line@),
{
    if byte_len(line) <= MAX_LINE_DISPLAY_BYTES {
        (line.to_owned(), false)
    } else {
        let mut out = cut_to(line, MAX_LINE_DISPLAY_BYTES);
        out.append(LINE_TRUNCATED_MARKER);
        (out, true)
    }
}

/// Shows a decoded line: without its terminator, cut where it is too long, on one line.
pub fn display_line(line: &str) -> (r: (String, bool))
    ensures
        (r.0@, r.1) == shown_text(line@),
{
    let mut cs = chars_of(line);
    let n: usize = cs.len();
    if n > 0 && cs[n - 1] == '\n' {
        cs.truncate(n - 1);
        assert(cs@ =~= line@.drop_last());
        if n > 1 && cs[n - 2] == '\r' {
            cs.truncate(n - 2);
            assert(cs@ =~= line@.drop_last().drop_last());
        }
    }
    let body = from_chars(&cs);
    assert(body@ == without_terminator(line@));
    let (capped, truncated) = cap_line(&body);
    (sanitize_content(&capped), truncated)
}

/// Shows a line held as bytes: decoded, without its terminator, cut where it is too long, on one
/// line. The flag says whether it was cut.
pub fn sanitized_line(bytes: &[u8]) -> (r: (String, bool))
    ensures
        (r.0@, r.1) == shown_line(bytes@),
{
    let n: usize = if bytes.len() <= MAX_LINE_DISPLAY_BYTES + 4 {
        bytes.len()
    } else {
        MAX_LINE_DISPLAY_BYTES + 4
    };
    let window = &bytes[0..n];
    assert(window@ =~= line_window(bytes@));
    let text = lossy_text(window);
    display_line(&text)
}

/// One line of output of a file's search, in the order of the search.
#[derive(Debug, Clone)]
pub enum GrepItem {
    /// A line that matched.
    Match { line_number: u64, content: String },
    /// A line around a match.
    Context { line_number: u64, content: String },
    /// A gap between groups of lines.
    Break,
}

/// What a [`GrepItem`] holds.
pub enum ItemView {
    Match { line: nat, content: Seq<char> },
    Context { line: nat, content: Seq<char> },
    Break,
}

impl View for GrepItem {
    type V = ItemView;

    open spec fn view(&self) -> ItemView {
        match *self {
            GrepItem::Match { line_number, content } => ItemView::Match {
                line: line_number as nat,
                content: content@,
            },
            GrepItem::Context { line_number, content } => ItemView::Context {
                line: line_number as nat,
                content: content@,
            },
            GrepItem::Break => ItemView::Break,
        }
    }
}

/// An item as a line of output: colons for a match, dashes for a context line.
pub open spec fn rendered_item(item: ItemView, label: Seq<char>) -> Seq<char> {
    match item {
        ItemView::Match { line, content } => label + ":"@ + text::decimal(line) + ":"@ + content,
        ItemView::Context { line, content } => label + "-"@ + text::decimal(line) + "-"@ + content,
        ItemView::Break => "--"@,
    }
}

/// Byte length of an item as a line of output.
pub proof fn lemma_rendered_len(item: ItemView, label: Seq<char>)
    ensures
        text::utf8_len(rendered_item(item, label)) == (match item {
            ItemView::Match { line, content } => text::utf8_len(label) + 2 + text::decimal(line).len()
                + text::utf8_len(content),
            ItemView::Context { line, content } => text::utf8_len(label) + 2 + text::decimal(line).len()
                + text::utf8_len(content),
            ItemView::Break => 2,
        }),
        text::utf8_len(rendered_item(item, label)) >= 2,
{
    reveal_strlit(":");
    reveal_strlit("-");
    reveal_strlit("--");
    is_ascii_chars_encode_utf8(":"@);
    is_ascii_chars_encode_utf8("-"@);
    is_ascii_chars_encode_utf8("--"@);
    match item {
        ItemView::Match { line, content } => {
            text::lemma_decimal_ascii(line);
            text::lemma_utf8_len_concat(label, ":"@);
            text::lemma_utf8_len_concat(label + ":"@, text::decimal(line));
            text::lemma_utf8_len_concat(label + ":"@ + text::decimal(line), ":"@);
            text::lemma_utf8_len_concat(label + ":"@ + text::decimal(line) + ":"@, content);
        },
        ItemView::Context { line, content } => {
            text::lemma_decimal_ascii(line);
            text::lemma_utf8_len_concat(label, "-"@);
            text::lemma_utf8_len_concat(label + "-"@, text::decimal(line));
            text::lemma_utf8_len_concat(label + "-"@ + text::decimal(line), "-"@);
            text::lemma_utf8_len_concat(label + "-"@ + text::decimal(line) + "-"@, content);
        },
        ItemView::Break => {},
    }
}

impl GrepItem {
    /// The item as a line of output below its file's label.
    pub fn render(&self, label: &str) -> (r: String)
        ensures
            r@ == rendered_item(self@, label@),
    {
        match self {
            GrepItem::Match { line_number, content } => {
                let mut out = label.to_owned();
                out.append(":");
                push_decimal(&mut out, *line_number);
                out.append(":");
                out.append(content);
                out
            },
            GrepItem::Context { line_number, content } => {
                let mut out = label.to_owned();
                out.append("-");
                push_decimal(&mut out, *line_number);
                out.append("-");
                out.append(content);
                out
            },
            GrepItem::Break => "--".to_owned(),
        }
    }

    /// Byte length of the item as a line of output, without building it.
    pub fn render_len(&self, label: &str) -> (n: usize)
        requires
            text::utf8_len(rendered_item(self@, label@)) <= usize::MAX,
        ensures
            n == text::utf8_len(rendered_item(self@, label@)),
    {
        proof {
            lemma_rendered_len(self@, label@);
        }
        match self {
            GrepItem::Match { line_number, content } | GrepItem::Context { line_number, content } => {
                byte_len(label) + 2 + decimal_len(*line_number) + byte_len(content)
            },
            GrepItem::Break => 2,
        }
    }

    /// Whether the item's line takes more than `room` bytes.
    fn exceeds(&self, label: &str, room: usize) -> (r: bool)
        ensures
            r == (text::utf8_len(rendered_item(self@, label@)) > room),
    {
        proof {
            lemma_rendered_len(self@, label@);
        }
        match self {
            GrepItem::Match { line_number, content } | GrepItem::Context { line_number, content } => {
                let total: u128 = byte_len(label) as u128 + 2 + decimal_len(*line_number) as u128
                    + byte_len(content) as u128;
                total > room as u128
            },
            GrepItem::Break => 2 > room,
        }
    }
}

/// Why a search stopped early.
#[derive(Debug, Clone, Copy, PartialEq, Eq, Structural)]
pub enum StopReason {
    /// The result cap was reached.
    Cap,
    /// The collected output reached the byte budget.
    ByteBudget,
}

/// Where a context line lies.
#[derive(Debug, Clone, Copy, PartialEq, Eq, Structural)]
pub enum ContextKind {
    Before,
    After,
    Other,
}

/// The collected lines of one file.
pub struct Bucket {
    pub label: Seq<char>,
    pub items: Seq<ItemView>,
}

/// The lines of output of one file.
pub open spec fn bucket_lines(b: Bucket) -> Seq<Seq<char>> {
    Seq::new(b.items.len(), |i: int| rendered_item(b.items[i], b.label))
}

/// The lines of output of all files, in order.
pub open spec fn all_lines(bs: Seq<Bucket>) -> Seq<Seq<char>>
    decreases bs.len(),
{
    if bs.len() == 0 {
        Seq::empty()
    } else {
        all_lines(bs.drop_last()) + bucket_lines(bs.last())
    }
}

/// The collected output.
pub open spec fn rendered_content(bs: Seq<Bucket>) -> Seq<char> {
    text::join(all_lines(bs), seq!['\n'])
}

/// Byte length of the collected output.
pub open spec fn content_len(bs: Seq<Bucket>) -> nat {
    text::utf8_len(rendered_content(bs))
}

/// Number of matches among `items`.
pub open spec fn match_count(items: Seq<ItemView>) -> nat
    decreases items.len(),
{
    if items.len() == 0 {
        0
    } else {
        match_count(items.drop_last()) + (if items.last() is Match {
            1nat
        } else {
            0nat
        })
    }
}

/// Number of matches in all files.
pub open spec fn total_matches(bs: Seq<Bucket>) -> nat
    decreases bs.len(),
{
    if bs.len() == 0 {
        0
    } else {
        total_matches(bs.drop_last()) + match_count(bs.last().items)
    }
}

/// Whether the last file collected is the one with the given label.
pub open spec fn open_for(bs: Seq<Bucket>, label: Seq<char>) -> bool {
    bs.len() > 0 && bs.last().label == label
}

/// The collected files with one more item for the given label.
pub open spec fn with_item(bs: Seq<Bucket>, label: Seq<char>, item: ItemView) -> Seq<Bucket> {
    if open_for(bs, label) {
        bs.drop_last().push(Bucket { label, items: bs.last().items.push(item) })
    } else {
        bs.push(Bucket { label, items: seq![item] })
    }
}

/// Whether a gap would separate nothing: there is no line before it, or a gap is there already.
pub open spec fn idle_break(bs: Seq<Bucket>, label: Seq<char>, item: ItemView) -> bool {
    item is Break && (!open_for(bs, label) || bs.last().items.last() is Break)
}

/// A file's lines never begin with a gap, and never hold two gaps in a row.
pub open spec fn well_separated(items: Seq<ItemView>) -> bool {
    &&& items.len() > 0
    &&& !(items[0] is Break)
    &&& forall|i: int|
        0 < i < items.len() ==> !(#[trigger] items[i] is Break && items[i - 1] is Break)
}

/// The state of a search.
#[verifier::ext_equal]
pub struct SinkView {
    pub mode: GrepOutputMode,
    pub max_results: nat,
    pub stop: Option<StopReason>,
    pub root: Seq<char>,
    pub single_file: bool,
    pub path: Seq<char>,
    pub label: Seq<char>,
    pub buckets: Seq<Bucket>,
    pub matches: nat,
    pub matched_files: Seq<Seq<char>>,
    pub hits_before: nat,
    pub count_lines: nat,
    pub count_entries: Seq<(Seq<char>, u64)>,
    pub after_context: nat,
    pub remaining: nat,
    pub files_searched: nat,
    pub aborted: bool,
}

/// The state before any file.
pub open spec fn fresh(
    mode: GrepOutputMode,
    max_results: nat,
    after_context: nat,
    root: Seq<char>,
    single_file: bool,
) -> SinkView {
    SinkView {
        mode,
        max_results,
        stop: None,
        root,
        single_file,
        path: Seq::empty(),
        label: Seq::empty(),
        buckets: Seq::empty(),
        matches: 0,
        matched_files: Seq::empty(),
        hits_before: 0,
        count_lines: 0,
        count_entries: Seq::empty(),
        after_context,
        remaining: after_context,
        files_searched: 0,
        aborted: false,
    }
}

/// A file is about to be searched.
pub open spec fn begun(v: SinkView, path: Seq<char>) -> SinkView {
    SinkView {
        path,
        label: sanitize::sanitized(paths::label_of(path, v.root, v.single_file), false),
        files_searched: v.files_searched + 1,
        hits_before: v.matched_files.len(),
        aborted: false,
        remaining: v.after_context,
        ..v
    }
}

/// A search that the result cap stopped goes on where fewer results than that are left.
pub open spec fn uncapped(v: SinkView) -> SinkView {
    SinkView {
        stop: if v.stop == Some(StopReason::Cap) && results(v) < v.max_results {
            None
        } else {
            v.stop
        },
        ..v
    }
}

/// The current file's collected lines are taken out again.
pub open spec fn dropped(v: SinkView) -> SinkView {
    if open_for(v.buckets, v.label) {
        uncapped(
            SinkView {
                buckets: v.buckets.drop_last(),
                matches: (v.matches - match_count(v.buckets.last().items)) as nat,
                ..v
            },
        )
    } else {
        v
    }
}

/// The current file's hits are taken out again.
pub open spec fn unlisted(v: SinkView) -> SinkView {
    if v.hits_before < v.matched_files.len() {
        uncapped(SinkView { matched_files: v.matched_files.take(v.hits_before as int), ..v })
    } else {
        v
    }
}

/// The current file has been searched: an aborted file leaves nothing, whatever the mode, and a
/// count is entered only for a file that was searched to its end.
pub open spec fn ended(v: SinkView) -> SinkView {
    let collected = if v.aborted {
        match v.mode {
            GrepOutputMode::Content => dropped(v),
            GrepOutputMode::FilesWithMatches => unlisted(v),
            GrepOutputMode::Count => v,
        }
    } else if v.mode == GrepOutputMode::Count && v.count_lines > 0 {
        let entries = v.count_entries.push((v.path, v.count_lines as u64));
        SinkView {
            count_entries: entries,
            stop: if entries.len() >= v.max_results {
                Some(StopReason::Cap)
            } else {
                v.stop
            },
            ..v
        }
    } else {
        v
    };
    SinkView {
        count_lines: if v.mode == GrepOutputMode::Count {
            0
        } else {
            v.count_lines
        },
        aborted: false,
        ..collected
    }
}

/// One more item for the current file, unless it is an idle gap or the byte budget is reached;
/// the flag says whether the search goes on.
pub open spec fn pushed(v: SinkView, item: ItemView) -> (SinkView, bool) {
    if v.stop == Some(StopReason::ByteBudget) {
        (v, false)
    } else if idle_break(v.buckets, v.label, item) {
        (v, true)
    } else if content_len(with_item(v.buckets, v.label, item)) > MAX_TOOL_OUTPUT_BYTES {
        (SinkView { stop: Some(StopReason::ByteBudget), ..v }, false)
    } else {
        (SinkView { buckets: with_item(v.buckets, v.label, item), ..v }, true)
    }
}

/// Whether a line of `raw_len` bytes is certain to exceed the byte budget.
pub open spec fn over_budget(v: SinkView, line: nat, raw_len: nat) -> bool {
    let bare = if raw_len >= 2 {
        (raw_len - 2) as nat
    } else {
        0
    };
    let shown = if bare <= MAX_LINE_DISPLAY_BYTES {
        bare
    } else {
        MAX_LINE_DISPLAY_BYTES as nat
    };
    content_len(v.buckets) + text::utf8_len(v.label) + 2 + text::decimal(line).len() + shown + 1
        > MAX_TOOL_OUTPUT_BYTES
}

/// One line of the context behind the match that reached the cap.
pub open spec fn drained(v: SinkView, line: nat, bytes: Seq<u8>) -> (SinkView, bool) {
    let shown = shown_line(bytes);
    let next = pushed(v, ItemView::Context { line, content: shown.0 });
    if next.1 {
        (SinkView { remaining: (v.remaining - 1) as nat, ..next.0 }, !shown.1)
    } else {
        next
    }
}

/// A line number, zero where the search gives none.
pub open spec fn line_or_zero(line: Option<u64>) -> nat {
    match line {
        Some(n) => n as nat,
        None => 0,
    }
}

/// A line matched.
pub open spec fn on_match(v: SinkView, line: Option<u64>, bytes: Seq<u8>) -> (SinkView, bool) {
    let n = line_or_zero(line);
    if v.stop == Some(StopReason::Cap) {
        if v.mode == GrepOutputMode::Content && v.remaining > 0 {
            drained(v, n, bytes)
        } else {
            (v, false)
        }
    } else if v.stop is Some {
        (v, false)
    } else {
        match v.mode {
            GrepOutputMode::Content => {
                if over_budget(v, n, bytes.len()) {
                    (SinkView { stop: Some(StopReason::ByteBudget), ..v }, false)
                } else {
                    let next = pushed(
                        v,
                        ItemView::Match { line: n, content: shown_line(bytes).0 },
                    );
                    if !next.1 {
                        next
                    } else if v.matches + 1 >= v.max_results {
                        (
                            SinkView {
                                matches: v.matches + 1,
                                stop: Some(StopReason::Cap),
                                ..next.0
                            },
                            v.after_context > 0,
                        )
                    } else {
                        (SinkView { matches: v.matches + 1, ..next.0 }, true)
                    }
                }
            },
            GrepOutputMode::FilesWithMatches => {
                let files = v.matched_files.push(v.path);
                (
                    SinkView {
                        matched_files: files,
                        stop: if files.len() >= v.max_results {
                            Some(StopReason::Cap)
                        } else {
                            None
                        },
                        ..v
                    },
                    false,
                )
            },
            GrepOutputMode::Count => (SinkView { count_lines: v.count_lines + 1, ..v }, true),
        }
    }
}

/// A line stands near a match.
pub open spec fn on_context(
    v: SinkView,
    kind: ContextKind,
    line: Option<u64>,
    bytes: Seq<u8>,
) -> (SinkView, bool) {
    let n = line_or_zero(line);
    if v.mode != GrepOutputMode::Content {
        (v, true)
    } else if v.stop == Some(StopReason::Cap) {
        if kind == ContextKind::After && v.remaining > 0 {
            drained(v, n, bytes)
        } else {
            (v, false)
        }
    } else if v.stop is Some {
        (v, false)
    } else if over_budget(v, n, bytes.len()) {
        (SinkView { stop: Some(StopReason::ByteBudget), ..v }, false)
    } else {
        pushed(v, ItemView::Context { line: n, content: shown_line(bytes).0 })
    }
}

/// Lines were left out between two groups.
pub open spec fn on_break(v: SinkView) -> (SinkView, bool) {
    if v.mode != GrepOutputMode::Content {
        (v, true)
    } else if v.stop is Some {
        (v, false)
    } else {
        pushed(v, ItemView::Break)
    }
}

/// What a search reports of a file.
pub enum SearchEvent {
    Match { line: Option<u64>, bytes: Seq<u8> },
    Context { kind: ContextKind, line: Option<u64>, bytes: Seq<u8> },
    Break,
    Binary,
}

/// The state after one report.
pub open spec fn after_event(v: SinkView, e: SearchEvent) -> SinkView {
    match e {
        SearchEvent::Match { line, bytes } => on_match(v, line, bytes).0,
        SearchEvent::Context { kind, line, bytes } => on_context(v, kind, line, bytes).0,
        SearchEvent::Break => on_break(v).0,
        SearchEvent::Binary => SinkView { aborted: true, ..v },
    }
}

/// The state after a list of reports.
pub open spec fn after_events(v: SinkView, es: Seq<SearchEvent>) -> SinkView
    decreases es.len(),
{
    if es.len() == 0 {
        v
    } else {
        after_event(after_events(v, es.drop_last()), es.last())
    }
}

/// The number of results in the unit that the mode counts.
pub open spec fn results(v: SinkView) -> nat {
    match v.mode {
        GrepOutputMode::Content => v.matches,
        GrepOutputMode::FilesWithMatches => v.matched_files.len(),
        GrepOutputMode::Count => v.count_entries.len(),
    }
}

/// What every state of a search keeps.
pub open spec fn consistent(v: SinkView) -> bool {
    &&& v.max_results >= 1
    &&& content_len(v.buckets) <= MAX_TOOL_OUTPUT_BYTES
    &&& forall|i: int|
        0 <= i < v.buckets.len() ==> well_separated(#[trigger] v.buckets[i].items)
    &&& v.matches == total_matches(v.buckets)
    &&& results(v) <= v.max_results
    &&& v.stop is None ==> results(v) < v.max_results
    &&& v.stop == Some(StopReason::Cap) ==> results(v) >= v.max_results
    &&& (v.stop is Some && v.mode == GrepOutputMode::Count) ==> v.count_lines == 0
    &&& v.remaining <= v.after_context
}

/// One more line behind a joined list.
pub proof fn lemma_join_len(parts: Seq<Seq<char>>, p: Seq<char>)
    ensures
        text::utf8_len(text::join(parts.push(p), seq!['\n'])) == (if parts.len() == 0 {
            text::utf8_len(p)
        } else {
            text::utf8_len(text::join(parts, seq!['\n'])) + 1 + text::utf8_len(p)
        }),
{
    let nl = seq!['\n'];
    text::lemma_join_push(parts, p, nl);
    text::lemma_utf8_len_concat(text::join(parts, nl) + nl, p);
    text::lemma_utf8_len_concat(text::join(parts, nl), nl);
    assert(Seq::<char>::empty().push('\n') =~= nl);
    text::lemma_utf8_len_push(Seq::empty(), '\n');
}

/// One more item is one more line.
pub proof fn lemma_lines_with_item(bs: Seq<Bucket>, label: Seq<char>, item: ItemView)
    ensures
        all_lines(with_item(bs, label, item)) == all_lines(bs).push(rendered_item(item, label)),
        total_matches(with_item(bs, label, item)) == total_matches(bs) + (if item is Match {
            1nat
        } else {
            0nat
        }),
{
    let next = with_item(bs, label, item);
    assert(next.drop_last() =~= (if open_for(bs, label) {
        bs.drop_last()
    } else {
        bs
    }));
    if open_for(bs, label) {
        assert(bucket_lines(next.last()) =~= bucket_lines(bs.last()).push(
            rendered_item(item, label),
        ));
        assert(all_lines(next) =~= all_lines(bs).push(rendered_item(item, label)));
        assert(bs.last().items.push(item).drop_last() =~= bs.last().items);
    } else {
        assert(bucket_lines(next.last()) =~= seq![rendered_item(item, label)]);
        assert(all_lines(next) =~= all_lines(bs).push(rendered_item(item, label)));
        assert(seq![item].drop_last() =~= Seq::<ItemView>::empty());
        reveal_with_fuel(match_count, 2);
    }
}

proof fn lemma_lines_nonempty(bs: Seq<Bucket>)
    requires
        forall|i: int| 0 <= i < bs.len() ==> #[trigger] bs[i].items.len() > 0,
    ensures
        all_lines(bs).len() >= bs.len(),
        bs.len() > 0 ==> content_len(bs) >= 2,
        bs.len() == 0 ==> content_len(bs) == 0,
    decreases bs.len(),
{
    if bs.len() > 0 {
        let head = bs.drop_last();
        assert forall|i: int| 0 <= i < head.len() implies #[trigger] head[i].items.len() > 0 by {
            assert(head[i] == bs[i]);
        }
        lemma_lines_nonempty(head);
        let b = bs[bs.len() - 1];
        assert(b == bs.last());
        let lines = all_lines(bs);
        let k = b.items.len() - 1;
        assert(lines.last() == bucket_lines(b)[k]);
        lemma_rendered_len(b.items[k], b.label);
        lemma_join_len(lines.drop_last(), lines.last());
        assert(lines.drop_last().push(lines.last()) =~= lines);
    } else {
        assert(rendered_content(bs) =~= Seq::<char>::empty());
    }
}

/// Byte length of the output with one more item: its line, and a line break unless it is the
/// first.
pub proof fn lemma_content_len_with_item(bs: Seq<Bucket>, label: Seq<char>, item: ItemView)
    requires
        forall|i: int| 0 <= i < bs.len() ==> #[trigger] bs[i].items.len() > 0,
    ensures
        content_len(with_item(bs, label, item)) == content_len(bs) + text::utf8_len(
            rendered_item(item, label),
        ) + (if content_len(bs) == 0 {
            0nat
        } else {
            1nat
        }),
        content_len(bs) == 0 <==> bs.len() == 0,
{
    lemma_lines_with_item(bs, label, item);
    lemma_lines_nonempty(bs);
    lemma_join_len(all_lines(bs), rendered_item(item, label));
}

/// Collects the results of a search, one file at a time, and knows when to stop.
///
/// The search reports what it finds by [`GrepSink::matched`], [`GrepSink::context`],
/// [`GrepSink::context_break`] and [`GrepSink::binary_data`], between
/// [`GrepSink::begin_file`] and [`GrepSink::end_file`].
#[derive(Debug)]
pub struct GrepSink {
    pub output_mode: GrepOutputMode,
    /// Cap on matching lines (content) or on files (the other modes).
    pub max_results: usize,
    pub stop: Option<StopReason>,
    /// Where the search started.
    pub resolved: String,
    /// Whether a single file was asked for directly.
    pub single_file: bool,
    pub current_path: String,
    pub current_label: String,
    /// For each file its label, its lines, and the bytes they were charged.
    pub content_files: Vec<(String, Vec<GrepItem>, usize)>,
    pub content_match_count: usize,
    /// Byte length of the output collected so far.
    pub content_bytes: usize,
    pub matched_files: Vec<String>,
    /// Number of hit files before the current one.
    pub hits_before: usize,
    pub count_file_lines: u64,
    pub count_entries: Vec<(String, u64)>,
    pub after_context: usize,
    /// Lines still to come behind the match that reached the cap.
    pub after_context_remaining: usize,
    pub files_searched: usize,
    /// Whether the current file's search did not run to its end.
    pub file_aborted: bool,
}

/// What the lines of a file hold.
pub open spec fn item_views(items: Seq<GrepItem>) -> Seq<ItemView> {
    Seq::new(items.len(), |i: int| items[i]@)
}

/// What a file's entry holds.
pub open spec fn bucket_view(f: (String, Vec<GrepItem>, usize)) -> Bucket {
    Bucket { label: f.0@, items: item_views(f.1@) }
}

/// What all entries hold.
pub open spec fn bucket_views(fs: Seq<(String, Vec<GrepItem>, usize)>) -> Seq<Bucket> {
    Seq::new(fs.len(), |i: int| bucket_view(fs[i]))
}

/// The entries of a count.
pub open spec fn entry_views(es: Seq<(String, u64)>) -> Seq<(Seq<char>, u64)> {
    Seq::new(es.len(), |i: int| (es[i].0@, es[i].1))
}

impl View for GrepSink {
    type V = SinkView;

    open spec fn view(&self) -> SinkView {
        SinkView {
            mode: self.output_mode,
            max_results: self.max_results as nat,
            stop: self.stop,
            root: self.resolved@,
            single_file: self.single_file,
            path: self.current_path@,
            label: self.current_label@,
            buckets: bucket_views(self.content_files@),
            matches: self.content_match_count as nat,
            matched_files: text::views(self.matched_files@),
            hits_before: self.hits_before as nat,
            count_lines: self.count_file_lines as nat,
            count_entries: entry_views(self.count_entries@),
            after_context: self.after_context as nat,
            remaining: self.after_context_remaining as nat,
            files_searched: self.files_searched as nat,
            aborted: self.file_aborted,
        }
    }
}

impl GrepSink {
    /// The collected lines are well separated, within the byte budget and charged exactly: each
    /// file with what it adds to the output.
    pub open spec fn accounted(&self) -> bool {
        let bs = self@.buckets;
        &&& self.content_bytes == content_len(bs)
        &&& content_len(bs) <= MAX_TOOL_OUTPUT_BYTES
        &&& forall|i: int| 0 <= i < bs.len() ==> well_separated(#[trigger] bs[i].items)
        &&& forall|i: int|
            0 <= i < self.content_files@.len() ==> #[trigger] self.content_files@[i].2
                == content_len(bs.take(i + 1)) - content_len(bs.take(i))
    }

    /// The invariant of a search.
    pub open spec fn wf(&self) -> bool {
        self.accounted() && consistent(self@)
    }

    /// A search that has collected nothing.
    pub fn new(
        output_mode: GrepOutputMode,
        max_results: usize,
        after_context: usize,
        resolved: &str,
        single_file: bool,
    ) -> (r: Self)
        requires
            max_results >= 1,
        ensures
            r@ == fresh(
                output_mode,
                max_results as nat,
                after_context as nat,
                resolved@,
                single_file,
            ),
            r.wf(),
    {
        let r = GrepSink {
            output_mode,
            max_results,
            stop: None,
            resolved: resolved.to_owned(),
            single_file,
            current_path: String::new(),
            current_label: String::new(),
            content_files: Vec::new(),
            content_match_count: 0,
            content_bytes: 0,
            matched_files: Vec::new(),
            hits_before: 0,
            count_file_lines: 0,
            count_entries: Vec::new(),
            after_context,
            after_context_remaining: after_context,
            files_searched: 0,
            file_aborted: false,
        };
        assert(r@.buckets =~= Seq::<Bucket>::empty());
        proof {
            lemma_lines_nonempty(r@.buckets);
        }
        assert(r@ =~= fresh(
            output_mode,
            max_results as nat,
            after_context as nat,
            resolved@,
            single_file,
        ));
        r
    }

    /// Starts on the file at `path`.
    pub fn begin_file(&mut self, path: &str)
        requires
            old(self).wf(),
            old(self).files_searched < usize::MAX,
        ensures
            final(self)@ == begun(old(self)@, path@),
            final(self).wf(),
    {
        let label = path_label(path, &self.resolved, self.single_file);
        self.current_path = path.to_owned();
        self.current_label = sanitize_name(&label);
        self.files_searched = self.files_searched + 1;
        self.hits_before = self.matched_files.len();
        self.file_aborted = false;
        self.after_context_remaining = self.after_context;
        assert(self@ =~= begun(old(self)@, path@));
    }

    /// Marks the current file's search as one that did not run to its end.
    pub fn abort_file(&mut self)
        ensures
            final(self)@ == (SinkView { aborted: true, ..old(self)@ }),
            old(self).wf() ==> final(self).wf(),
            old(self).accounted() ==> final(self).accounted(),
    {
        self.file_aborted = true;
        assert(self@ =~= (SinkView { aborted: true, ..old(self)@ }));
    }

    /// Takes the current file's lines out again and refunds their bytes and matches.
    pub fn drop_current_bucket(&mut self)
        requires
            old(self).wf(),
        ensures
            final(self)@ == dropped(old(self)@),
            final(self).wf(),
    {
        let n: usize = self.content_files.len();
        if n == 0 {
            return;
        }
        assert(self@.buckets.last() == bucket_view(self.content_files@[n - 1]));
        if !same(&self.content_files[n - 1].0, &self.current_label) {
            return;
        }
        let ghost before = self@;
        let ghost files = self.content_files@;
        let matches = count_matches(&self.content_files[n - 1].1);
        proof {
            assert(before.buckets.take(n as int) =~= before.buckets);
            assert(before.buckets.take(n - 1) =~= before.buckets.drop_last());
            assert(files[n - 1].2 == content_len(before.buckets.take(n - 1 + 1)) - content_len(
                before.buckets.take(n - 1),
            ));
        }
        let charged: usize = self.content_files[n - 1].2;
        self.content_bytes = self.content_bytes - charged;
        self.content_match_count = self.content_match_count - matches;
        let _ = self.content_files.pop();
        proof {
            assert(self.content_files@ =~= files.drop_last());
            assert(self@.buckets =~= before.buckets.drop_last());
            assert forall|i: int| 0 <= i < self@.buckets.len() implies well_separated(
                #[trigger] self@.buckets[i].items,
            ) by {
                assert(self@.buckets[i] == before.buckets[i]);
            }
            assert forall|i: int| 0 <= i < self.content_files@.len() implies #[trigger] self.content_files@[i].2
                == content_len(self@.buckets.take(i + 1)) - content_len(self@.buckets.take(i)) by {
                assert(self.content_files@[i] == files[i]);
                assert(self@.buckets.take(i + 1) =~= before.buckets.take(i + 1));
                assert(self@.buckets.take(i) =~= before.buckets.take(i));
            }
        }
        self.uncap();
        assert(self@ =~= dropped(before));
    }

    /// Lets the search go on where the result cap stopped it and fewer results than that are left.
    fn uncap(&mut self)
        requires
            old(self).accounted(),
        ensures
            final(self)@ == uncapped(old(self)@),
            final(self).accounted(),
    {
        match self.stop {
            Some(StopReason::Cap) => {
                if self.result_count() < self.max_results {
                    self.stop = None;
                }
            },
            _ => {},
        }
        assert(self@ =~= uncapped(old(self)@));
    }

    /// Takes the current file's hits out again.
    fn drop_current_hits(&mut self)
        requires
            old(self).wf(),
        ensures
            final(self)@ == unlisted(old(self)@),
            final(self).accounted(),
    {
        let ghost before = self@;
        if self.hits_before < self.matched_files.len() {
            let ghost files = self.matched_files@;
            self.matched_files.truncate(self.hits_before);
            assert(text::views(self.matched_files@) =~= text::views(files).take(
                self.hits_before as int,
            ));
            self.uncap();
        }
        assert(self@ =~= unlisted(before));
    }

    /// Closes the current file.
    pub fn end_file(&mut self)
        requires
            old(self).wf(),
        ensures
            final(self)@ == ended(old(self)@),
            final(self).wf(),
    {
        let ghost before = self@;
        if self.file_aborted {
            match self.output_mode {
                GrepOutputMode::Content => {
                    self.drop_current_bucket();
                },
                GrepOutputMode::FilesWithMatches => {
                    self.drop_current_hits();
                },
                GrepOutputMode::Count => {},
            }
        } else if self.output_mode == GrepOutputMode::Count && self.count_file_lines > 0 {
            let ghost entries = self.count_entries@;
            self.count_entries.push((self.current_path.clone(), self.count_file_lines));
            assert(entry_views(self.count_entries@) =~= before.count_entries.push(
                (before.path, before.count_lines as u64),
            ));
            if self.count_entries.len() >= self.max_results {
                self.stop = Some(StopReason::Cap);
            }
        }
        if self.output_mode == GrepOutputMode::Count {
            self.count_file_lines = 0;
        }
        self.file_aborted = false;
        assert(self@ =~= ended(before));
    }

    /// Whether a line of `raw_len` bytes may still be collected; where it cannot, the search is
    /// stopped.
    pub fn budget_allows_raw(&mut self, line_number: u64, raw_len: usize) -> (r: bool)
        requires
            old(self).accounted(),
        ensures
            r == !over_budget(old(self)@, line_number as nat, raw_len as nat),
            r ==> final(self)@ == old(self)@,
            !r ==> final(self)@ == (SinkView { stop: Some(StopReason::ByteBudget), ..old(self)@ }),
            final(self).accounted(),
    {
        let bare: usize = if raw_len >= 2 {
            raw_len - 2
        } else {
            0
        };
        let shown: usize = if bare <= MAX_LINE_DISPLAY_BYTES {
            bare
        } else {
            MAX_LINE_DISPLAY_BYTES
        };
        let label: usize = byte_len(&self.current_label);
        let estimate: u128 = self.content_bytes as u128 + label as u128 + 2 + decimal_len(
            line_number,
        ) as u128 + shown as u128 + 1;
        if estimate > MAX_TOOL_OUTPUT_BYTES as u128 {
            self.stop = Some(StopReason::ByteBudget);
            assert(self@ =~= (SinkView { stop: Some(StopReason::ByteBudget), ..old(self)@ }));
            return false;
        }
        true
    }

    /// Adds an item for the current file. An idle gap is left out; an item that would exceed the
    /// byte budget stops the search. The result says whether the search goes on.
    #[verifier::spinoff_prover]
    #[verifier::rlimit(60)]
    pub fn push_item(&mut self, item: GrepItem) -> (r: bool)
        requires
            old(self).accounted(),
        ensures
            (final(self)@, r) == pushed(old(self)@, item@),
            final(self).accounted(),
    {
        let ghost before = self@;
        let ghost files = self.content_files@;
        match self.stop {
            Some(StopReason::ByteBudget) => {
                return false;
            },
            _ => {},
        }
        let n: usize = self.content_files.len();
        let is_open = n > 0 && same(&self.content_files[n - 1].0, &self.current_label);
        assert(is_open == open_for(before.buckets, before.label)) by {
            if n > 0 {
                assert(before.buckets.last() == bucket_view(files[n - 1]));
            }
        }
        let is_break = match &item {
            GrepItem::Break => true,
            _ => false,
        };
        if is_break {
            if !is_open {
                return true;
            }
            assert(well_separated(before.buckets[n - 1].items));
            assert(before.buckets[n - 1] == bucket_view(files[n - 1]));
            let items = &self.content_files[n - 1].1;
            let after_break = match &items[items.len() - 1] {
                GrepItem::Break => true,
                _ => false,
            };
            assert(after_break == (before.buckets.last().items.last() is Break));
            if after_break {
                return true;
            }
        }
        assert(!idle_break(before.buckets, before.label, item@));
        proof {
            assert forall|i: int| 0 <= i < before.buckets.len() implies #[trigger] before.buckets[i].items.len()
                > 0 by {
                assert(well_separated(before.buckets[i].items));
            }
            lemma_content_len_with_item(before.buckets, before.label, item@);
            lemma_rendered_len(item@, before.label);
        }
        let line_break: usize = if self.content_bytes == 0 {
            0
        } else {
            1
        };
        let room: usize = MAX_TOOL_OUTPUT_BYTES - self.content_bytes;
        if room < line_break || item.exceeds(&self.current_label, room - line_break) {
            self.stop = Some(StopReason::ByteBudget);
            assert(self@ =~= (SinkView { stop: Some(StopReason::ByteBudget), ..before }));
            return false;
        }
        let rendered: usize = item.render_len(&self.current_label) + line_break;
        let ghost it = item@;
        let (label, mut items, charged) = if is_open {
            let last = self.content_files.pop();
            match last {
                Some(f) => f,
                None => (String::new(), Vec::new(), 0),
            }
        } else {
            (self.current_label.clone(), Vec::new(), 0)
        };
        let ghost old_items = items@;
        proof {
            if is_open {
                assert((label, items, charged) == files[n - 1]);
                assert(before.buckets.take(n as int) =~= before.buckets);
                assert(before.buckets.take(n - 1) =~= before.buckets.drop_last());
                assert(files[n - 1].2 == content_len(before.buckets.take(n - 1 + 1)) - content_len(
                    before.buckets.take(n - 1),
                ));
            }
        }
        items.push(item);
        self.content_bytes = self.content_bytes + rendered;
        let ghost kept = self.content_files@;
        self.content_files.push((label, items, charged + rendered));
        proof {
            let next = with_item(before.buckets, before.label, it);
            assert(item_views(items@) =~= item_views(old_items).push(it));
            if is_open {
                assert(kept =~= files.drop_last());
                assert(item_views(old_items) =~= before.buckets.last().items);
            } else {
                assert(item_views(items@) =~= seq![it]);
            }
            assert(self@.buckets =~= next);
            assert forall|i: int| 0 <= i < next.len() implies well_separated(
                #[trigger] next[i].items,
            ) by {
                if i < next.len() - 1 {
                    assert(next[i] == before.buckets[i]);
                } else if is_open {
                    assert(well_separated(before.buckets[n - 1].items));
                }
            }
            assert forall|i: int| 0 <= i < self.content_files@.len() implies #[trigger] self.content_files@[i].2
                == content_len(next.take(i + 1)) - content_len(next.take(i)) by {
                if i < next.len() - 1 {
                    assert(self.content_files@[i] == files[i]);
                    assert(next.take(i + 1) =~= before.buckets.take(i + 1));
                    assert(next.take(i) =~= before.buckets.take(i));
                } else {
                    assert(next.take(i + 1) =~= next);
                    if is_open {
                        assert(next.take(i) =~= before.buckets.drop_last());
                    } else {
                        assert(next.take(i) =~= before.buckets);
                    }
                }
            }
            assert(self@ =~= (SinkView { buckets: next, ..before }));
        }
        true
    }

    /// Adds one line of the context behind the match that reached the cap. The result says
    /// whether more of it is wanted: not behind a line that was cut.
    pub fn drain_after_context(&mut self, line_number: u64, bytes: &[u8]) -> (r: bool)
        requires
            old(self).accounted(),
            old(self).after_context_remaining > 0,
        ensures
            (final(self)@, r) == drained(old(self)@, line_number as nat, bytes@),
            final(self).accounted(),
    {
        let (content, truncated) = sanitized_line(bytes);
        let ghost before = self@;
        let item = GrepItem::Context { line_number, content };
        assert(item@ == (ItemView::Context {
            line: line_number as nat,
            content: shown_line(bytes@).0,
        }));
        if !self.push_item(item) {
            return false;
        }
        let ghost mid = self@;
        self.after_context_remaining = self.after_context_remaining - 1;
        assert(self@ =~= (SinkView { remaining: (before.remaining - 1) as nat, ..mid }));
        !truncated
    }

    /// A line matched. The result says whether the file is searched further.
    pub fn matched(&mut self, line_number: Option<u64>, bytes: &[u8]) -> (r: bool)
        requires
            old(self).wf(),
            old(self).count_file_lines < u64::MAX,
        ensures
            (final(self)@, r) == on_match(old(self)@, line_number, bytes@),
            final(self).wf(),
    {
        let ghost before = self@;
        proof {
            lemma_match_consistent(before, line_number, bytes@);
        }
        let line: u64 = match line_number {
            Some(n) => n,
            None => 0,
        };
        match self.stop {
            Some(StopReason::Cap) => {
                if self.output_mode == GrepOutputMode::Content && self.after_context_remaining > 0 {
                    return self.drain_after_context(line, bytes);
                }
                return false;
            },
            Some(StopReason::ByteBudget) => {
                return false;
            },
            None => {},
        }
        match self.output_mode {
            GrepOutputMode::Content => {
                if !self.budget_allows_raw(line, bytes.len()) {
                    return false;
                }
                let (content, _) = sanitized_line(bytes);
                let item = GrepItem::Match { line_number: line, content };
                assert(item@ == (ItemView::Match {
                    line: line as nat,
                    content: shown_line(bytes@).0,
                }));
                if !self.push_item(item) {
                    return false;
                }
                let ghost mid = self@;
                self.content_match_count = self.content_match_count + 1;
                if self.content_match_count >= self.max_results {
                    self.stop = Some(StopReason::Cap);
                    assert(self@ =~= on_match(before, line_number, bytes@).0);
                    return self.after_context > 0;
                }
                assert(self@ =~= on_match(before, line_number, bytes@).0);
                true
            },
            GrepOutputMode::FilesWithMatches => {
                let path = self.current_path.clone();
                proof {
                    text::lemma_views_push(self.matched_files@, path);
                }
                self.matched_files.push(path);
                if self.matched_files.len() >= self.max_results {
                    self.stop = Some(StopReason::Cap);
                }
                assert(self@ =~= on_match(before, line_number, bytes@).0);
                false
            },
            GrepOutputMode::Count => {
                self.count_file_lines = self.count_file_lines + 1;
                assert(self@ =~= on_match(before, line_number, bytes@).0);
                true
            },
        }
    }

    /// A line stands near a match. The result says whether the file is searched further.
    pub fn context(&mut self, kind: ContextKind, line_number: Option<u64>, bytes: &[u8]) -> (r: bool)
        requires
            old(self).wf(),
        ensures
            (final(self)@, r) == on_context(old(self)@, kind, line_number, bytes@),
            final(self).wf(),
    {
        let ghost before = self@;
        proof {
            lemma_context_consistent(before, kind, line_number, bytes@);
        }
        let line: u64 = match line_number {
            Some(n) => n,
            None => 0,
        };
        if self.output_mode != GrepOutputMode::Content {
            return true;
        }
        match self.stop {
            Some(StopReason::Cap) => {
                if kind == ContextKind::After && self.after_context_remaining > 0 {
                    return self.drain_after_context(line, bytes);
                }
                return false;
            },
            Some(StopReason::ByteBudget) => {
                return false;
            },
            None => {},
        }
        if !self.budget_allows_raw(line, bytes.len()) {
            return false;
        }
        let (content, _) = sanitized_line(bytes);
        let item = GrepItem::Context { line_number: line, content };
        assert(item@ == (ItemView::Context { line: line as nat, content: shown_line(bytes@).0 }));
        self.push_item(item)
    }

    /// Lines were left out between two groups. The result says whether the file is searched
    /// further.
    pub fn context_break(&mut self) -> (r: bool)
        requires
            old(self).wf(),
        ensures
            (final(self)@, r) == on_break(old(self)@),
            final(self).wf(),
    {
        let ghost before = self@;
        proof {
            lemma_break_consistent(before);
        }
        if self.output_mode != GrepOutputMode::Content {
            return true;
        }
        if self.stop.is_some() {
            return false;
        }
        self.push_item(GrepItem::Break)
    }

    /// The file holds a NUL byte: nothing of it counts, and it is searched no further.
    pub fn binary_data(&mut self) -> (r: bool)
        requires
            old(self).wf(),
        ensures
            !r,
            final(self)@ == (SinkView { aborted: true, ..old(self)@ }),
            final(self).wf(),
    {
        self.abort_file();
        false
    }

    /// The number of results in the unit that the mode counts.
    pub fn result_count(&self) -> (n: usize)
        ensures
            n == results(self@),
    {
        match self.output_mode {
            GrepOutputMode::Content => self.content_match_count,
            GrepOutputMode::FilesWithMatches => self.matched_files.len(),
            GrepOutputMode::Count => self.count_entries.len(),
        }
    }

    /// Whether the output says that it stops short: never where a single file was asked for and
    /// files are counted.
    pub fn truncated(&self) -> (r: bool)
        ensures
            r == (self.stop is Some && !(self.single_file && self.output_mode
                != GrepOutputMode::Content)),
    {
        self.stop.is_some() && !(self.single_file && self.output_mode != GrepOutputMode::Content)
    }

    /// Whether no further file is searched.
    pub fn should_stop(&self) -> (r: bool)
        ensures
            r == (self.stop is Some),
    {
        self.stop.is_some()
    }

    /// The number that the truncation marker reports: what was collected where the byte budget
    /// stopped the search, else the cap.
    pub fn marker_count(&self) -> (n: usize)
        ensures
            n == marked(self@),
    {
        match self.stop {
            Some(StopReason::ByteBudget) => self.result_count(),
            _ => self.max_results,
        }
    }
}

/// The number that the truncation marker reports.
pub open spec fn marked(v: SinkView) -> nat {
    if v.stop == Some(StopReason::ByteBudget) {
        results(v)
    } else {
        v.max_results
    }
}

fn count_matches(items: &Vec<GrepItem>) -> (n: usize)
    ensures
        n == match_count(item_views(items@)),
{
    let mut n: usize = 0;
    let ghost all = item_views(items@);
    assert(all.take(0) =~= Seq::<ItemView>::empty());
    for i in 0..items.len()
        invariant
            all == item_views(items@),
            n == match_count(all.take(i as int)),
            n <= i,
    {
        assert(all.take(i + 1).drop_last() =~= all.take(i as int));
        assert(all.take(i + 1).last() == items[i as int]@);
        match &items[i] {
            GrepItem::Match { .. } => {
                n = n + 1;
            },
            _ => {},
        }
    }
    assert(all.take(all.len() as int) =~= all);
    n
}

proof fn lemma_pushed_consistent(v: SinkView, item: ItemView)
    requires
        consistent(v),
    ensures
        ({
            let next = pushed(v, item);
            &&& content_len(next.0.buckets) <= MAX_TOOL_OUTPUT_BYTES
            &&& forall|i: int|
                0 <= i < next.0.buckets.len() ==> well_separated(
                    #[trigger] next.0.buckets[i].items,
                )
            &&& total_matches(next.0.buckets) == v.matches + (if next.1 && item is Match {
                1nat
            } else {
                0nat
            })
        }),
{
    lemma_lines_with_item(v.buckets, v.label, item);
    let next = pushed(v, item).0.buckets;
    assert forall|i: int| 0 <= i < next.len() implies well_separated(#[trigger] next[i].items) by {
        if i < v.buckets.len() {
            assert(well_separated(v.buckets[i].items));
        }
    }
}

/// A match keeps the state of a search consistent.
pub proof fn lemma_match_consistent(v: SinkView, line: Option<u64>, bytes: Seq<u8>)
    requires
        consistent(v),
    ensures
        consistent(on_match(v, line, bytes).0),
{
    let n = line_or_zero(line);
    lemma_pushed_consistent(v, ItemView::Match { line: n, content: shown_line(bytes).0 });
    lemma_pushed_consistent(v, ItemView::Context { line: n, content: shown_line(bytes).0 });
}

/// A context line keeps the state of a search consistent.
pub proof fn lemma_context_consistent(
    v: SinkView,
    kind: ContextKind,
    line: Option<u64>,
    bytes: Seq<u8>,
)
    requires
        consistent(v),
    ensures
        consistent(on_context(v, kind, line, bytes).0),
{
    let n = line_or_zero(line);
    lemma_pushed_consistent(v, ItemView::Context { line: n, content: shown_line(bytes).0 });
}

/// A gap keeps the state of a search consistent.
pub proof fn lemma_break_consistent(v: SinkView)
    requires
        consistent(v),
    ensures
        consistent(on_break(v).0),
{
    lemma_pushed_consistent(v, ItemView::Break);
}

} // verus!
