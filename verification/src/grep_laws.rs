//! What holds of every search.

use crate::bytes;
use crate::grep::{DEFAULT_MAX_RESULTS, GrepArgs, GrepConfig, MAX_CONTEXT_LINES, MAX_RESULTS_CAP};
use crate::grep;
use crate::grep_sink::{Bucket, GrepOutputMode, ItemView, LINE_TRUNCATED_MARKER, SearchEvent, SinkView, StopReason};
use crate::grep_sink;
use crate::paths;
use crate::sanitize;
use crate::text;
use crate::text_stream::MAX_LINE_DISPLAY_BYTES;
use vstd::prelude::*;
use vstd::string::*;
use vstd::utf8::*;

verus! {

/// The state of a search, as it keeps through every report: the output is within the byte
/// budget, gaps are where they belong, the tally is the number of collected matches, and the
/// result cap is never exceeded.
pub proof fn law_reports_keep_consistency(v: SinkView, es: Seq<SearchEvent>)
    requires
        grep_sink::consistent(v),
    ensures
        grep_sink::consistent(grep_sink::after_events(v, es)),
    decreases es.len(),
{
    if es.len() > 0 {
        law_reports_keep_consistency(v, es.drop_last());
        let w = grep_sink::after_events(v, es.drop_last());
        match es.last() {
            SearchEvent::Match { line, bytes } => {
                grep_sink::lemma_match_consistent(w, line, bytes);
            },
            SearchEvent::Context { kind, line, bytes } => {
                grep_sink::lemma_context_consistent(w, kind, line, bytes);
            },
            SearchEvent::Break => {
                grep_sink::lemma_break_consistent(w);
            },
            SearchEvent::Binary => {},
        }
    }
}

/// Opening and closing a file keep the state of a search consistent.
pub proof fn law_files_keep_consistency(v: SinkView, path: Seq<char>)
    requires
        grep_sink::consistent(v),
        v.count_lines <= u64::MAX,
    ensures
        grep_sink::consistent(grep_sink::begun(v, path)),
        grep_sink::consistent(grep_sink::ended(v)),
{
    if grep_sink::open_for(v.buckets, v.label) {
        let head = v.buckets.drop_last();
        assert forall|i: int| 0 <= i < head.len() implies grep_sink::well_separated(
            #[trigger] head[i].items,
        ) by {
            assert(head[i] == v.buckets[i]);
        }
        lemma_shorter_output(v.buckets);
    }
}

/// Taking the last file out does not lengthen the output.
proof fn lemma_shorter_output(bs: Seq<Bucket>)
    requires
        bs.len() > 0,
    ensures
        grep_sink::content_len(bs.drop_last()) <= grep_sink::content_len(bs),
{
    let head = grep_sink::all_lines(bs.drop_last());
    let own = grep_sink::bucket_lines(bs.last());
    lemma_more_lines(head, own);
}

proof fn lemma_more_lines(a: Seq<Seq<char>>, b: Seq<Seq<char>>)
    ensures
        text::utf8_len(text::join(a, seq!['\n'])) <= text::utf8_len(text::join(a + b, seq!['\n'])),
    decreases b.len(),
{
    if b.len() == 0 {
        assert(a + b =~= a);
    } else {
        lemma_more_lines(a, b.drop_last());
        assert(a + b =~= (a + b.drop_last()).push(b.last()));
        grep_sink::lemma_join_len(a + b.drop_last(), b.last());
        if (a + b.drop_last()).len() == 0 {
            assert(text::join(a, seq!['\n']) =~= Seq::<char>::empty());
        }
    }
}

/// The files of `w` are those of `v`, or those and one more with the given label.
pub open spec fn grown_by(v: Seq<Bucket>, w: Seq<Bucket>, label: Seq<char>) -> bool {
    w == v || (w.len() == v.len() + 1 && w.drop_last() == v && w.last().label == label)
}

proof fn lemma_pushed_grows(base: Seq<Bucket>, v: SinkView, item: ItemView)
    requires
        grown_by(base, v.buckets, v.label),
        !grep_sink::open_for(base, v.label),
    ensures
        grown_by(base, grep_sink::pushed(v, item).0.buckets, v.label),
        grep_sink::pushed(v, item).0.label == v.label,
        grep_sink::pushed(v, item).0.mode == v.mode,
        grep_sink::pushed(v, item).0.aborted == v.aborted,
        grep_sink::pushed(v, item).0.matches == v.matches,
{
    let next = grep_sink::with_item(v.buckets, v.label, item);
    if grep_sink::open_for(v.buckets, v.label) {
        assert(v.buckets != base);
        assert(next.drop_last() =~= base);
    } else {
        assert(v.buckets == base);
        assert(next.drop_last() =~= base);
    }
}

proof fn lemma_events_grow(base: Seq<Bucket>, v: SinkView, es: Seq<SearchEvent>)
    requires
        grown_by(base, v.buckets, v.label),
        !grep_sink::open_for(base, v.label),
        v.mode == GrepOutputMode::Content,
    ensures
        grown_by(base, grep_sink::after_events(v, es).buckets, v.label),
        grep_sink::after_events(v, es).label == v.label,
        grep_sink::after_events(v, es).mode == v.mode,
    decreases es.len(),
{
    if es.len() > 0 {
        lemma_events_grow(base, v, es.drop_last());
        let w = grep_sink::after_events(v, es.drop_last());
        match es.last() {
            SearchEvent::Match { line, bytes } => {
                let n = grep_sink::line_or_zero(line);
                let shown = grep_sink::shown_line(bytes).0;
                lemma_pushed_grows(base, w, ItemView::Match { line: n, content: shown });
                lemma_pushed_grows(base, w, ItemView::Context { line: n, content: shown });
            },
            SearchEvent::Context { kind, line, bytes } => {
                let n = grep_sink::line_or_zero(line);
                let shown = grep_sink::shown_line(bytes).0;
                lemma_pushed_grows(base, w, ItemView::Context { line: n, content: shown });
            },
            SearchEvent::Break => {
                lemma_pushed_grows(base, w, ItemView::Break);
            },
            SearchEvent::Binary => {},
        }
    }
}

/// A file whose search was aborted leaves nothing behind: neither lines nor matches, whatever was
/// reported of it before. (The file must not share its label with the one before it.)
pub proof fn law_aborted_file_leaves_nothing(v: SinkView, path: Seq<char>, es: Seq<SearchEvent>)
    requires
        grep_sink::consistent(v),
        v.mode == GrepOutputMode::Content,
        !grep_sink::open_for(v.buckets, grep_sink::begun(v, path).label),
    ensures
        ({
            let aborted = SinkView { aborted: true, ..grep_sink::after_events(grep_sink::begun(v, path), es) };
            &&& grep_sink::ended(aborted).buckets == v.buckets
            &&& grep_sink::ended(aborted).matches == v.matches
        }),
{
    let start = grep_sink::begun(v, path);
    law_reports_keep_consistency(start, es);
    lemma_events_grow(v.buckets, start, es);
    let w = grep_sink::after_events(start, es);
    let aborted = SinkView { aborted: true, ..w };
    if grep_sink::open_for(w.buckets, w.label) {
        assert(w.buckets != v.buckets);
        assert(w.buckets.drop_last() == v.buckets);
    } else {
        assert(w.buckets == v.buckets);
    }
}

proof fn lemma_hits_before_stay(v: SinkView, es: Seq<SearchEvent>)
    requires
        v.mode == GrepOutputMode::FilesWithMatches,
    ensures
        ({
            let w = grep_sink::after_events(v, es);
            &&& w.mode == v.mode
            &&& w.hits_before == v.hits_before
            &&& w.matched_files.len() >= v.matched_files.len()
            &&& w.matched_files.take(v.matched_files.len() as int) == v.matched_files
        }),
    decreases es.len(),
{
    let n = v.matched_files.len() as int;
    if es.len() == 0 {
        assert(v.matched_files.take(n) =~= v.matched_files);
    } else {
        lemma_hits_before_stay(v, es.drop_last());
        let u = grep_sink::after_events(v, es.drop_last());
        let w = grep_sink::after_events(v, es);
        assert(w.matched_files.take(n) =~= u.matched_files.take(n));
    }
}

/// A file whose search was aborted is not among the hits, whatever was reported of it before: the
/// files that hold a match are those from before it, and so is their number.
pub proof fn law_aborted_hit_is_discarded(v: SinkView, path: Seq<char>, es: Seq<SearchEvent>)
    requires
        v.mode == GrepOutputMode::FilesWithMatches,
    ensures
        ({
            let aborted = SinkView { aborted: true, ..grep_sink::after_events(grep_sink::begun(v, path), es) };
            &&& grep_sink::ended(aborted).matched_files == v.matched_files
            &&& grep_sink::results(grep_sink::ended(aborted)) == grep_sink::results(v)
        }),
{
    let start = grep_sink::begun(v, path);
    lemma_hits_before_stay(start, es);
    let w = grep_sink::after_events(start, es);
    assert(w.matched_files.take(w.matched_files.len() as int) =~= w.matched_files);
}

/// An aborted file leaves no count behind, and no tally for the next file.
pub proof fn law_aborted_count_is_discarded(v: SinkView)
    requires
        v.mode == GrepOutputMode::Count,
        v.aborted,
    ensures
        grep_sink::ended(v).count_entries == v.count_entries,
        grep_sink::ended(v).count_lines == 0,
        grep_sink::ended(v).stop == v.stop,
{
}

/// A search counts as stopped by the result cap only where it holds that many results, whatever was
/// reported of a file and whether its search was aborted.
pub proof fn law_cap_means_enough_results(v: SinkView, path: Seq<char>, es: Seq<SearchEvent>, aborted: bool)
    requires
        grep_sink::consistent(v),
        grep_sink::after_events(grep_sink::begun(v, path), es).count_lines <= u64::MAX,
    ensures
        ({
            let w = grep_sink::after_events(grep_sink::begun(v, path), es);
            let end = grep_sink::ended(SinkView { aborted: w.aborted || aborted, ..w });
            &&& w.stop == Some(StopReason::Cap) ==> grep_sink::results(w) >= w.max_results
            &&& end.stop == Some(StopReason::Cap) ==> grep_sink::results(end) >= end.max_results
        }),
{
    let start = grep_sink::begun(v, path);
    law_reports_keep_consistency(start, es);
    let w = grep_sink::after_events(start, es);
    law_files_keep_consistency(SinkView { aborted: w.aborted || aborted, ..w }, path);
}

/// Once the byte budget has stopped a search, nothing more is collected.
pub proof fn law_budget_stop_is_final(v: SinkView, es: Seq<SearchEvent>)
    requires
        v.stop == Some(StopReason::ByteBudget),
    ensures
        grep_sink::after_events(v, es).buckets == v.buckets,
        grep_sink::after_events(v, es).matches == v.matches,
        grep_sink::after_events(v, es).matched_files == v.matched_files,
        grep_sink::after_events(v, es).stop == v.stop,
    decreases es.len(),
{
    if es.len() > 0 {
        law_budget_stop_is_final(v, es.drop_last());
    }
}

/// Once the result cap has stopped a search, no further match is counted.
pub proof fn law_cap_stop_counts_no_more(v: SinkView, es: Seq<SearchEvent>)
    requires
        v.stop == Some(StopReason::Cap),
    ensures
        grep_sink::after_events(v, es).matches == v.matches,
        grep_sink::after_events(v, es).matched_files == v.matched_files,
        grep_sink::after_events(v, es).stop is Some,
    decreases es.len(),
{
    if es.len() > 0 {
        law_cap_stop_counts_no_more(v, es.drop_last());
        let w = grep_sink::after_events(v, es.drop_last());
        if w.stop == Some(StopReason::ByteBudget) {
            law_budget_stop_is_final(w, seq![es.last()]);
        }
    }
}

/// Whether all text of an item and its label can stand on one line.
pub open spec fn one_line_item(item: ItemView, label: Seq<char>) -> bool {
    &&& forall|i: int| 0 <= i < label.len() ==> sanitize::keeps(#[trigger] label[i], false)
    &&& match item {
        ItemView::Match { content, .. } => forall|i: int|
            0 <= i < content.len() ==> sanitize::keeps(#[trigger] content[i], true),
        ItemView::Context { content, .. } => forall|i: int|
            0 <= i < content.len() ==> sanitize::keeps(#[trigger] content[i], true),
        ItemView::Break => true,
    }
}

/// Whether all collected text can stand on one line each.
pub open spec fn one_line_each(bs: Seq<Bucket>) -> bool {
    forall|i: int, j: int|
        0 <= i < bs.len() && 0 <= j < bs[i].items.len() ==> one_line_item(
            #[trigger] bs[i].items[j],
            bs[i].label,
        )
}

proof fn lemma_shown_is_clean(bytes: Seq<u8>)
    ensures
        forall|i: int|
            0 <= i < grep_sink::shown_line(bytes).0.len() ==> sanitize::keeps(#[trigger] grep_sink::shown_line(bytes).0[i], true),
{
    sanitize::law_sanitized_is_clean(
        grep_sink::capped_line(grep_sink::without_terminator(bytes::utf8_lossy(grep_sink::line_window(bytes)))).0,
        true,
    );
}

proof fn lemma_pushed_one_line(v: SinkView, item: ItemView)
    requires
        one_line_each(v.buckets),
        one_line_item(item, v.label),
    ensures
        one_line_each(grep_sink::pushed(v, item).0.buckets),
        grep_sink::pushed(v, item).0.label == v.label,
{
    let next = grep_sink::pushed(v, item).0.buckets;
    assert forall|i: int, j: int| 0 <= i < next.len() && 0 <= j < next[i].items.len() implies
        one_line_item(#[trigger] next[i].items[j], next[i].label) by {
        if next != v.buckets && i == next.len() - 1 {
            if grep_sink::open_for(v.buckets, v.label) && j < next[i].items.len() - 1 {
                assert(next[i].items[j] == v.buckets[i].items[j]);
            }
        } else {
            assert(next[i] == v.buckets[i]);
            assert(one_line_item(v.buckets[i].items[j], v.buckets[i].label));
        }
    }
}

/// What a file adds to the output stays on one line for each item, whatever its bytes and its
/// name.
pub proof fn law_collected_lines_are_clean(v: SinkView, path: Seq<char>, es: Seq<SearchEvent>)
    requires
        one_line_each(v.buckets),
    ensures
        one_line_each(grep_sink::after_events(grep_sink::begun(v, path), es).buckets),
        grep_sink::after_events(grep_sink::begun(v, path), es).label == grep_sink::begun(v, path).label,
    decreases es.len(),
{
    let start = grep_sink::begun(v, path);
    sanitize::law_sanitized_is_clean(paths::label_of(path, v.root, v.single_file), false);
    if es.len() > 0 {
        law_collected_lines_are_clean(v, path, es.drop_last());
        let w = grep_sink::after_events(start, es.drop_last());
        match es.last() {
            SearchEvent::Match { line, bytes } => {
                let n = grep_sink::line_or_zero(line);
                let shown = grep_sink::shown_line(bytes).0;
                lemma_shown_is_clean(bytes);
                lemma_pushed_one_line(w, ItemView::Match { line: n, content: shown });
                lemma_pushed_one_line(w, ItemView::Context { line: n, content: shown });
            },
            SearchEvent::Context { kind, line, bytes } => {
                let n = grep_sink::line_or_zero(line);
                let shown = grep_sink::shown_line(bytes).0;
                lemma_shown_is_clean(bytes);
                lemma_pushed_one_line(w, ItemView::Context { line: n, content: shown });
            },
            SearchEvent::Break => {
                lemma_pushed_one_line(w, ItemView::Break);
            },
            SearchEvent::Binary => {},
        }
    }
}

proof fn lemma_rendered_item_one_line(item: ItemView, label: Seq<char>)
    requires
        one_line_item(item, label),
    ensures
        forall|i: int|
            0 <= i < grep_sink::rendered_item(item, label).len() ==> #[trigger] grep_sink::rendered_item(item, label)[i]
                != '\n',
{
    reveal_strlit(":");
    reveal_strlit("-");
    reveal_strlit("--");
    match item {
        ItemView::Match { line, content } => {
            text::lemma_decimal_ascii(line);
        },
        ItemView::Context { line, content } => {
            text::lemma_decimal_ascii(line);
        },
        ItemView::Break => {},
    }
}

proof fn lemma_lines_one_line(bs: Seq<Bucket>)
    requires
        one_line_each(bs),
    ensures
        forall|i: int, j: int|
            0 <= i < grep_sink::all_lines(bs).len() && 0 <= j < grep_sink::all_lines(bs)[i].len()
                ==> #[trigger] grep_sink::all_lines(bs)[i][j] != '\n',
    decreases bs.len(),
{
    if bs.len() > 0 {
        let head = bs.drop_last();
        assert(one_line_each(head)) by {
            assert forall|i: int, j: int| 0 <= i < head.len() && 0 <= j < head[i].items.len() implies
                one_line_item(#[trigger] head[i].items[j], head[i].label) by {
                assert(one_line_item(bs[i].items[j], bs[i].label));
            }
        }
        lemma_lines_one_line(head);
        let lines = grep_sink::all_lines(bs);
        let k = grep_sink::all_lines(head).len();
        assert forall|i: int, j: int| 0 <= i < lines.len() && 0 <= j < lines[i].len() implies
            #[trigger] lines[i][j] != '\n' by {
            if i < k {
                assert(lines[i] == grep_sink::all_lines(head)[i]);
            } else {
                let b = bs[bs.len() - 1];
                assert(one_line_item(b.items[i - k], b.label));
                lemma_rendered_item_one_line(b.items[i - k], b.label);
                assert(lines[i] == grep_sink::rendered_item(b.items[i - k], b.label));
            }
        }
    }
}

/// The output has exactly one line for each collected item.
pub proof fn law_one_line_per_item(bs: Seq<Bucket>)
    requires
        one_line_each(bs),
        grep_sink::all_lines(bs).len() > 0,
    ensures
        text::split_on(grep_sink::rendered_content(bs), '\n') == grep_sink::all_lines(bs),
{
    lemma_lines_one_line(bs);
    text::lemma_split_join(grep_sink::all_lines(bs), '\n');
}

proof fn lemma_sanitized_not_shorter(s: Seq<char>, keep_tabs: bool)
    ensures
        text::utf8_len(s) <= text::utf8_len(sanitize::sanitized(s, keep_tabs)) <= 12 * s.len(),
    decreases s.len(),
{
    let f = sanitize::sanitize_char(keep_tabs);
    if s.len() > 0 {
        let t = s.drop_last();
        let c = s.last();
        lemma_sanitized_not_shorter(t, keep_tabs);
        assert(s =~= t.push(c));
        text::lemma_utf8_len_push(t, c);
        text::lemma_expand_push(t, c, f);
        text::lemma_utf8_len_concat(text::expand(t, f), f(c));
        if sanitize::keeps(c, keep_tabs) {
            text::lemma_utf8_len_push(Seq::empty(), c);
            assert(Seq::<char>::empty().push(c) =~= seq![c]);
        } else {
            lemma_escape_len(c);
        }
    }
}

proof fn lemma_escape_len(c: char)
    requires
        sanitize::control(c) || sanitize::unsafe_unicode(c),
    ensures
        text::char_width(c) <= text::utf8_len(sanitize::escaped(c)) <= 12,
{
    sanitize::lemma_escaped_printable(c);
    is_ascii_chars_encode_utf8(sanitize::escaped(c));
    text::lemma_utf8_len_push(Seq::empty(), c);
    lemma_hex_digits(c as nat);
}

proof fn lemma_hex_digits(n: nat)
    requires
        n < 0x1000_0000,
    ensures
        1 <= text::hexadecimal(n).len() <= 7,
{
    reveal_with_fuel(text::hexadecimal, 8);
}

/// The quick check before a line is decoded never turns away a line that would have fitted
/// (behind another one, where the line is UTF-8).
pub proof fn law_quick_check_turns_nothing_away(v: SinkView, line: nat, bytes: Seq<u8>)
    requires
        grep_sink::consistent(v),
        v.buckets.len() > 0,
        v.stop is None,
        valid_utf8(grep_sink::line_window(bytes)),
        grep_sink::over_budget(v, line, bytes.len()),
    ensures
        !grep_sink::pushed(v, ItemView::Match { line, content: grep_sink::shown_text(decode_utf8(grep_sink::line_window(bytes))).0 }).1,
        !grep_sink::pushed(v, ItemView::Context { line, content: grep_sink::shown_text(decode_utf8(grep_sink::line_window(bytes))).0 }).1,
{
    let window = grep_sink::line_window(bytes);
    let text = decode_utf8(window);
    decode_utf8_encode_utf8(window);
    let bare = grep_sink::without_terminator(text);
    assert(text::utf8_len(bare) + 2 >= window.len()) by {
        if text.len() > 0 && text.last() == '\n' {
            let t = text.drop_last();
            assert(text =~= t.push('\n'));
            text::lemma_utf8_len_push(t, '\n');
            if t.len() > 0 && t.last() == '\r' {
                assert(t =~= t.drop_last().push('\r'));
                text::lemma_utf8_len_push(t.drop_last(), '\r');
            }
        }
    }
    let shown = grep_sink::shown_text(text).0;
    let capped = grep_sink::capped_line(bare).0;
    lemma_sanitized_not_shorter(capped, true);
    let budget = MAX_LINE_DISPLAY_BYTES as nat;
    if text::utf8_len(bare) > budget {
        text::lemma_fitting(bare, budget);
        let k = text::fitting(bare, budget) as int;
        assert(text::utf8_len(bare.take(k + 1)) > budget);
        assert(bare.take(k + 1) =~= bare.take(k).push(bare[k]));
        text::lemma_utf8_len_push(bare.take(k), bare[k]);
        text::lemma_utf8_len_concat(text::cut(bare, budget), LINE_TRUNCATED_MARKER@);
        reveal_strlit("...[line truncated: exceeds 64 KiB]");
        is_ascii_chars_encode_utf8(LINE_TRUNCATED_MARKER@);
        assert(text::utf8_len(capped) >= budget);
    }
    let m = ItemView::Match { line, content: shown };
    let c = ItemView::Context { line, content: shown };
    assert forall|i: int| 0 <= i < v.buckets.len() implies #[trigger] v.buckets[i].items.len()
        > 0 by {
        assert(grep_sink::well_separated(v.buckets[i].items));
    }
    grep_sink::lemma_content_len_with_item(v.buckets, v.label, m);
    grep_sink::lemma_content_len_with_item(v.buckets, v.label, c);
    grep_sink::lemma_rendered_len(m, v.label);
    grep_sink::lemma_rendered_len(c, v.label);
}

/// Number of matches among reports.
pub open spec fn matches_in(es: Seq<SearchEvent>) -> nat
    decreases es.len(),
{
    if es.len() == 0 {
        0
    } else {
        matches_in(es.drop_last()) + (if es.last() is Match {
            1nat
        } else {
            0nat
        })
    }
}

/// What a walk finds at an entry: whether it is a file that the include glob lets pass, what the
/// search of it reports, and whether that search failed.
pub struct FileReport {
    pub path: Seq<char>,
    pub is_file: bool,
    pub included: bool,
    pub events: Seq<SearchEvent>,
    pub failed: bool,
}

/// The state after an entry.
pub open spec fn after_file(v: SinkView, f: FileReport) -> SinkView {
    if f.is_file && f.included {
        let w = grep_sink::after_events(grep_sink::begun(v, f.path), f.events);
        grep_sink::ended(SinkView { aborted: w.aborted || f.failed, ..w })
    } else {
        v
    }
}

/// The state after a walk, which stops where the search does.
pub open spec fn after_files(v: SinkView, fs: Seq<FileReport>) -> SinkView
    decreases fs.len(),
{
    if fs.len() == 0 {
        v
    } else {
        let u = after_files(v, fs.drop_last());
        if u.stop is Some {
            u
        } else {
            after_file(u, fs.last())
        }
    }
}

/// Number of matches in the files of a walk.
pub open spec fn matches_below(fs: Seq<FileReport>) -> nat
    decreases fs.len(),
{
    if fs.len() == 0 {
        0
    } else {
        matches_below(fs.drop_last()) + (if fs.last().is_file && fs.last().included {
            matches_in(fs.last().events)
        } else {
            0
        })
    }
}

/// Whether the search of a file ran to its end.
pub open spec fn ends_well(f: FileReport) -> bool {
    !f.failed && forall|j: int| 0 <= j < f.events.len() ==> !(#[trigger] f.events[j] is Binary)
}

/// Whether every search of a walk ran to its end.
pub open spec fn unbroken(fs: Seq<FileReport>) -> bool {
    forall|i: int| 0 <= i < fs.len() ==> ends_well(#[trigger] fs[i])
}

/// `n`, but no more than `cap`.
pub open spec fn at_most(n: nat, cap: nat) -> nat {
    if n <= cap {
        n
    } else {
        cap
    }
}

proof fn lemma_event_counts(u: SinkView, e: SearchEvent)
    requires
        u.mode == GrepOutputMode::Content,
        u.stop != Some(StopReason::ByteBudget),
        !(e is Binary),
        grep_sink::after_event(u, e).stop != Some(StopReason::ByteBudget),
    ensures
        ({
            let w = grep_sink::after_event(u, e);
            &&& w.mode == u.mode
            &&& w.max_results == u.max_results
            &&& w.aborted == u.aborted
            &&& w.matches == u.matches + (if e is Match && u.stop is None {
                1nat
            } else {
                0nat
            })
        }),
{
    match e {
        SearchEvent::Match { line, bytes } => {},
        SearchEvent::Context { kind, line, bytes } => {},
        SearchEvent::Break => {},
        SearchEvent::Binary => {},
    }
}

/// What a state is in content mode while the byte budget has not stopped it: as many matches as
/// there were, but no more than the cap, which has stopped it where there were as many.
spec fn counts(v: SinkView, w: SinkView, matches: nat) -> bool {
    &&& w.mode == GrepOutputMode::Content
    &&& w.max_results == v.max_results
    &&& w.stop != Some(StopReason::ByteBudget)
    &&& w.matches == at_most(matches, v.max_results)
    &&& w.stop is Some <==> matches >= v.max_results
}

proof fn lemma_cap_tells(v: SinkView)
    requires
        grep_sink::consistent(v),
        v.mode == GrepOutputMode::Content,
        v.stop != Some(StopReason::ByteBudget),
    ensures
        v.stop is Some <==> v.matches >= v.max_results,
        v.matches <= v.max_results,
{
    assert(grep_sink::results(v) == v.matches);
    match v.stop {
        None => {},
        Some(StopReason::Cap) => {},
        Some(StopReason::ByteBudget) => {},
    }
}

#[verifier::spinoff_prover]
proof fn lemma_events_count(v: SinkView, es: Seq<SearchEvent>)
    requires
        grep_sink::consistent(v),
        v.mode == GrepOutputMode::Content,
        v.stop is None,
        forall|j: int| 0 <= j < es.len() ==> !(#[trigger] es[j] is Binary),
        grep_sink::after_events(v, es).stop != Some(StopReason::ByteBudget),
    ensures
        counts(v, grep_sink::after_events(v, es), v.matches + matches_in(es)),
        grep_sink::after_events(v, es).aborted == v.aborted,
    decreases es.len(),
{
    lemma_cap_tells(v);
    if es.len() > 0 {
        let front = es.drop_last();
        let u = grep_sink::after_events(v, front);
        let e = es.last();
        assert(e == es[es.len() - 1]);
        assert forall|j: int| 0 <= j < front.len() implies !(#[trigger] front[j] is Binary) by {
            assert(front[j] == es[j]);
        }
        if u.stop == Some(StopReason::ByteBudget) {
            lemma_budget_stays(u, e);
        }
        lemma_events_count(v, front);
        lemma_event_counts(u, e);
        law_reports_keep_consistency(v, es);
        lemma_cap_tells(grep_sink::after_events(v, es));
    }
}

proof fn lemma_budget_stays(u: SinkView, e: SearchEvent)
    requires
        u.stop == Some(StopReason::ByteBudget),
    ensures
        grep_sink::after_event(u, e).stop == u.stop,
{
}

proof fn lemma_file_keeps_consistency(u: SinkView, f: FileReport)
    requires
        grep_sink::consistent(u),
        u.mode == GrepOutputMode::Content,
        u.stop is None,
        f.is_file && f.included,
        ends_well(f),
        after_file(u, f).stop != Some(StopReason::ByteBudget),
    ensures
        grep_sink::consistent(after_file(u, f)),
        counts(u, after_file(u, f), u.matches + matches_in(f.events)),
{
    let start = grep_sink::begun(u, f.path);
    assert(grep_sink::consistent(start));
    let w = grep_sink::after_events(start, f.events);
    law_reports_keep_consistency(start, f.events);
    lemma_never_aborted(start, f.events);
    assert(after_file(u, f) =~= w);
    lemma_events_count(start, f.events);
}

proof fn lemma_never_aborted(v: SinkView, es: Seq<SearchEvent>)
    requires
        v.mode == GrepOutputMode::Content,
        !v.aborted,
        forall|j: int| 0 <= j < es.len() ==> !(#[trigger] es[j] is Binary),
    ensures
        !grep_sink::after_events(v, es).aborted,
        grep_sink::after_events(v, es).mode == v.mode,
    decreases es.len(),
{
    if es.len() > 0 {
        let front = es.drop_last();
        assert forall|j: int| 0 <= j < front.len() implies !(#[trigger] front[j] is Binary) by {
            assert(front[j] == es[j]);
        }
        lemma_never_aborted(v, front);
        assert(!(es[es.len() - 1] is Binary));
    }
}

#[verifier::spinoff_prover]
proof fn lemma_walk_count(v: SinkView, fs: Seq<FileReport>)
    requires
        grep_sink::consistent(v),
        v.mode == GrepOutputMode::Content,
        v.stop is None,
        unbroken(fs),
        after_files(v, fs).stop != Some(StopReason::ByteBudget),
    ensures
        grep_sink::consistent(after_files(v, fs)),
        counts(v, after_files(v, fs), v.matches + matches_below(fs)),
    decreases fs.len(),
{
    lemma_cap_tells(v);
    if fs.len() > 0 {
        let front = fs.drop_last();
        let f = fs.last();
        assert(f == fs[fs.len() - 1]);
        assert(unbroken(front)) by {
            assert forall|i: int| 0 <= i < front.len() implies ends_well(#[trigger] front[i]) by {
                assert(front[i] == fs[i]);
            }
        }
        lemma_walk_count(v, front);
        let u = after_files(v, front);
        if u.stop is None && f.is_file && f.included {
            lemma_file_keeps_consistency(u, f);
        }
    }
}

/// A walk whose searches all ran to their end, and which the byte budget did not stop, shows as many
/// lines that matched as there are, but no more than the cap; and its result says that it stops
/// short, with the cap, exactly where there are at least that many.
pub proof fn law_match_lines_are_the_first_ones(v: SinkView, fs: Seq<FileReport>)
    requires
        grep_sink::consistent(v),
        v.mode == GrepOutputMode::Content,
        v.stop is None,
        v.matches == 0,
        unbroken(fs),
        after_files(v, fs).stop != Some(StopReason::ByteBudget),
    ensures
        ({
            let w = after_files(v, fs);
            &&& grep_sink::total_matches(w.buckets) == at_most(matches_below(fs), v.max_results)
            &&& grep_sink::results(w) == at_most(matches_below(fs), v.max_results)
            &&& grep::stops_short(w) <==> matches_below(fs) >= v.max_results
            &&& forall|pattern: Seq<char>, regex: bool|
                matches_below(fs) > 0 ==> #[trigger] grep::grep_result(w, pattern, regex)
                    == sanitize::finished(
                    grep_sink::rendered_content(w.buckets),
                    if matches_below(fs) >= v.max_results {
                        Some(
                            sanitize::cap_marker(
                                v.max_results,
                                grep_sink::mode_noun(GrepOutputMode::Content),
                            ),
                        )
                    } else {
                        None
                    },
                )
        }),
{
    lemma_walk_count(v, fs);
}

/// The result of a search below a root, or of the single file that was asked for. `tree` is what the
/// files report to a search with a given pattern, number of context lines and limit on the matches
/// of a file.
pub open spec fn walk_result(
    config: GrepConfig,
    root: Seq<char>,
    single_file: bool,
    tree: spec_fn(grep_regex::RegexMatcher, nat, Option<u64>) -> Seq<FileReport>,
) -> Result<Seq<char>, Seq<char>> {
    match grep::pattern_error(config) {
        Some(e) => Err(e),
        None => Ok(
            grep::grep_result(
                after_files(
                    grep::initial(config, root, single_file),
                    tree(
                        grep::pattern_of(config),
                        grep::applied_context(config) as nat,
                        grep::match_limit(config),
                    ),
                ),
                config.pattern@,
                config.regex,
            ),
        ),
    }
}

/// The result cap that a call comes to.
pub open spec fn applied_results(max_results: Option<u32>) -> u32 {
    grep::clamped_results(
        match max_results {
            Some(n) => n,
            None => DEFAULT_MAX_RESULTS,
        },
    )
}

/// Two calls that differ only in the result cap and the context have the same result on the same
/// files where those come to the same within their bounds; outside content mode the context does not
/// count at all. A cap of zero comes to one, one above the largest to the largest, none to the
/// default; a context above the largest comes to the largest.
pub proof fn law_only_clamped_bounds_count(
    a: GrepArgs,
    b: GrepArgs,
    first: GrepConfig,
    second: GrepConfig,
    root: Seq<char>,
    single_file: bool,
    tree: spec_fn(grep_regex::RegexMatcher, nat, Option<u64>) -> Seq<FileReport>,
)
    requires
        grep::configures(a, first),
        grep::configures(b, second),
        a.pattern@ == b.pattern@,
        a.regex == b.regex,
        a.ignore_case == b.ignore_case,
        a.output_mode == b.output_mode,
    ensures
        applied_results(a.max_results) == applied_results(b.max_results) && (grep::clamped_context(
            a.context,
        ) == grep::clamped_context(b.context) || a.output_mode != GrepOutputMode::Content)
            ==> walk_result(first, root, single_file, tree) == walk_result(
            second,
            root,
            single_file,
            tree,
        ),
        applied_results(Some(0)) == applied_results(Some(1)),
        forall|m: u32|
            m >= MAX_RESULTS_CAP ==> #[trigger] applied_results(Some(m)) == applied_results(
                Some(MAX_RESULTS_CAP),
            ),
        applied_results(None) == applied_results(Some(DEFAULT_MAX_RESULTS)),
        forall|c: u32|
            c >= MAX_CONTEXT_LINES ==> #[trigger] grep::clamped_context(c)
                == grep::clamped_context(MAX_CONTEXT_LINES),
{
}

} // verus!
