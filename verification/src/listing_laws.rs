//! What the output modes of `grep` are for: which files hold a match, how many lines of each do, and
//! what those lines are.

use crate::grep::{GrepArgs, GrepConfig};
use crate::grep;
use crate::grep_laws::FileReport;
use crate::grep_laws;
use crate::grep_sink::{ContextKind, GrepOutputMode, SearchEvent, SinkView, StopReason};
use crate::grep_sink;
use crate::label_laws;
use crate::order;
use crate::sanitize;
use crate::text;
use crate::text_laws;
use vstd::prelude::*;
use vstd::utf8::*;

verus! {

/// Whether the files at `rels` below the root are those that were matched, in some order of a walk.
pub open spec fn found_at(root: Seq<char>, files: Seq<Seq<char>>, rels: Seq<Seq<char>>) -> bool {
    &&& files.len() == rels.len()
    &&& forall|i: int|
        0 <= i < rels.len() ==> #[trigger] files[i] == label_laws::below(root, rels[i])
            && label_laws::plain_relative(rels[i]) && text_laws::readable_text(rels[i])
}

/// A search of a directory for the files that hold a match lists every one of them, each on a line
/// that is its path below the directory, and nothing else; each once, in order.
pub proof fn law_every_matched_file_is_listed(v: SinkView, rels: Seq<Seq<char>>, t: Seq<char>, i: int, j: int)
    requires
        v.mode is FilesWithMatches,
        !v.single_file,
        rels.len() > 0,
        found_at(v.root, v.matched_files, rels),
    ensures
        ({
            let lines = text::split_on(grep::grep_body(v), '\n');
            &&& lines.contains(t) <==> rels.contains(t)
            &&& 0 <= i < j < lines.len() ==> lines[i] != lines[j] && order::text_le(
                lines[i],
                lines[j],
            )
        }),
{
    let labels = grep::file_labels(v);
    assert forall|k: int| 0 <= k < rels.len() implies #[trigger] labels[k] == rels[k] by {
        assert(v.matched_files[k] == label_laws::below(v.root, rels[k]));
        label_laws::law_relative_path_leads_back(v.root, rels[k]);
        text_laws::law_readable_text_is_kept(rels[k], false);
    }
    assert(labels =~= rels);
    let listed = order::without_repeats(order::sort_texts(rels));
    order::law_sorted_without_repeats(rels, t, i, j);
    order::law_sorted_without_repeats(rels, rels[0], 0, 0);
    assert(rels.contains(rels[0]));
    assert(listed.len() > 0);
    lemma_lines_apart(listed, rels);
}

/// A list of texts that are all among readable ones is split at its line breaks again.
proof fn lemma_lines_apart(listed: Seq<Seq<char>>, rels: Seq<Seq<char>>)
    requires
        listed.len() > 0,
        forall|k: int| 0 <= k < rels.len() ==> text_laws::readable_text(#[trigger] rels[k]),
        listed == order::without_repeats(order::sort_texts(rels)),
    ensures
        text::split_on(text::join(listed, seq!['\n']), '\n') == listed,
{
    assert forall|i: int, j: int|
        0 <= i < listed.len() && 0 <= j < listed[i].len() implies #[trigger] listed[i][j] != '\n' by {
        order::law_sorted_without_repeats(rels, listed[i], 0, 0);
        assert(listed.contains(listed[i]));
        let k = choose|k: int| 0 <= k < rels.len() && rels[k] == listed[i];
        assert(text_laws::readable(rels[k][j]));
    }
    text::lemma_split_join(listed, '\n');
}

/// The label of a file is the same in every output mode: what a listing calls a file is what its
/// matching lines begin with, and what its count stands behind.
pub proof fn law_modes_share_labels(content: SinkView, files: SinkView, counts: SinkView, path: Seq<char>, i: int, j: int)
    requires
        content.root == files.root,
        content.root == counts.root,
        content.single_file == files.single_file,
        content.single_file == counts.single_file,
        0 <= i < files.matched_files.len(),
        files.matched_files[i] == path,
        0 <= j < counts.count_entries.len(),
        counts.count_entries[j].0 == path,
    ensures
        grep_sink::begun(content, path).label == grep::file_labels(files)[i],
        grep_sink::begun(content, path).label == grep::count_labels(counts)[j].0,
{
}

/// A file below the root is searched under its path there; the one file that was asked for is
/// searched under its name.
pub proof fn law_searched_file_has_its_label(v: SinkView, rel: Seq<char>)
    requires
        text_laws::readable_text(rel),
    ensures
        label_laws::plain_relative(rel) && !v.single_file ==> grep_sink::begun(
            v,
            label_laws::below(v.root, rel),
        ).label == rel,
        v.single_file && rel.len() > 0 && rel != seq!['.'] && rel != seq!['.', '.'] && (forall|i: int|
            0 <= i < rel.len() ==> #[trigger] rel[i] != '/') ==> forall|dir: Seq<char>|
            (#[trigger] grep_sink::begun(v, dir + seq!['/'] + rel)).label == rel,
{
    text_laws::law_readable_text_is_kept(rel, false);
    if label_laws::plain_relative(rel) && !v.single_file {
        label_laws::law_relative_path_leads_back(v.root, rel);
    }
    if v.single_file && rel.len() > 0 && rel != seq!['.'] && rel != seq!['.', '.'] && (forall|i: int|
        0 <= i < rel.len() ==> #[trigger] rel[i] != '/') {
        assert forall|dir: Seq<char>| (#[trigger] grep_sink::begun(v, dir + seq!['/'] + rel)).label
            == rel by {
            label_laws::law_single_file_is_labelled_by_name(dir, rel, v.root);
        }
    }
}

/// A search for the files that hold a match takes a file exactly where its search reports one, and
/// keeps those that it has.
pub proof fn law_file_is_taken_where_it_matches(v: SinkView, f: FileReport)
    requires
        v.mode is FilesWithMatches,
        v.stop is None,
        f.is_file,
        f.included,
        grep_laws::ends_well(f),
    ensures
        ({
            let w = grep_laws::after_file(v, f).matched_files;
            &&& v.matched_files.is_prefix_of(w)
            &&& w.len() > v.matched_files.len() <==> grep_laws::matches_in(f.events) > 0
            &&& forall|k: int| v.matched_files.len() <= k < w.len() ==> #[trigger] w[k] == f.path
        }),
{
    let start = grep_sink::begun(v, f.path);
    lemma_hits(start, v, f.events);
}

proof fn lemma_hits(start: SinkView, v: SinkView, es: Seq<SearchEvent>)
    requires
        v.mode is FilesWithMatches,
        start.mode is FilesWithMatches,
        v.stop is None,
        start.stop is None,
        start.matched_files == v.matched_files,
        !start.aborted,
        forall|j: int| 0 <= j < es.len() ==> !(#[trigger] es[j] is Binary),
    ensures
        ({
            let w = grep_sink::after_events(start, es);
            &&& w.mode is FilesWithMatches
            &&& w.path == start.path
            &&& !w.aborted
            &&& w.stop != Some(StopReason::ByteBudget)
            &&& w.stop is Some ==> grep_laws::matches_in(es) > 0
            &&& v.matched_files.is_prefix_of(w.matched_files)
            &&& w.matched_files.len() > v.matched_files.len() <==> grep_laws::matches_in(es) > 0
            &&& forall|k: int|
                v.matched_files.len() <= k < w.matched_files.len() ==> #[trigger] w.matched_files[k]
                    == start.path
        }),
    decreases es.len(),
{
    if es.len() > 0 {
        let t = es.drop_last();
        assert forall|j: int| 0 <= j < t.len() implies !(#[trigger] t[j] is Binary) by {
            assert(t[j] == es[j]);
        }
        lemma_hits(start, v, t);
        assert(!(es[es.len() - 1] is Binary));
    }
}

/// A count counts every line that matched, once: a file is entered with the number of its matching
/// lines, and only where there are any.
pub proof fn law_count_is_the_number_of_matching_lines(v: SinkView, f: FileReport)
    requires
        v.mode is Count,
        v.stop is None,
        v.count_lines == 0,
        f.is_file,
        f.included,
        grep_laws::ends_well(f),
        grep_laws::matches_in(f.events) <= u64::MAX,
    ensures
        ({
            let n = grep_laws::matches_in(f.events);
            &&& n > 0 ==> grep_laws::after_file(v, f).count_entries == v.count_entries.push(
                (f.path, n as u64),
            )
            &&& n == 0 ==> grep_laws::after_file(v, f).count_entries == v.count_entries
        }),
{
    lemma_counts(grep_sink::begun(v, f.path), f.events);
}

proof fn lemma_counts(v: SinkView, es: Seq<SearchEvent>)
    requires
        v.mode is Count,
        v.stop is None,
        !v.aborted,
        forall|j: int| 0 <= j < es.len() ==> !(#[trigger] es[j] is Binary),
    ensures
        grep_sink::after_events(v, es) == (SinkView {
            count_lines: v.count_lines + grep_laws::matches_in(es),
            ..v
        }),
    decreases es.len(),
{
    if es.len() > 0 {
        let t = es.drop_last();
        assert forall|j: int| 0 <= j < t.len() implies !(#[trigger] t[j] is Binary) by {
            assert(t[j] == es[j]);
        }
        lemma_counts(v, t);
        assert(!(es[es.len() - 1] is Binary));
    }
}

/// A count of a directory shows every counted file on a line of its own: its path below the
/// directory, a colon and the number.
pub proof fn law_every_count_is_shown(v: SinkView, rels: Seq<Seq<char>>, i: int)
    requires
        v.mode is Count,
        !v.single_file,
        0 <= i < rels.len(),
        rels.len() == v.count_entries.len(),
        found_at(v.root, Seq::new(rels.len(), |k: int| v.count_entries[k].0), rels),
    ensures
        ({
            let lines = text::split_on(grep::grep_body(v), '\n');
            &&& lines.len() == rels.len()
            &&& lines.contains(rels[i] + ": "@ + text::decimal(v.count_entries[i].1 as nat))
        }),
{
    broadcast use vstd::seq_lib::group_to_multiset_ensures;

    let files = Seq::new(rels.len(), |k: int| v.count_entries[k].0);
    let labels = grep::count_labels(v);
    let plain = Seq::new(rels.len(), |k: int| (rels[k], v.count_entries[k].1));
    assert forall|k: int| 0 <= k < rels.len() implies #[trigger] labels[k] == plain[k] by {
        assert(files[k] == label_laws::below(v.root, rels[k]));
        label_laws::law_relative_path_leads_back(v.root, rels[k]);
        text_laws::law_readable_text_is_kept(rels[k], false);
    }
    assert(labels =~= plain);
    let sorted = order::sort_pairs(plain);
    order::law_sort_orders_and_keeps(plain);
    let lines = grep::count_lines(sorted);
    assert forall|a: int, b: int| 0 <= a < lines.len() && 0 <= b < lines[a].len() implies #[trigger] lines[a][b]
        != '\n' by {
        assert(sorted.contains(sorted[a]));
        assert(sorted.to_multiset().count(sorted[a]) > 0);
        assert(plain.contains(sorted[a]));
        let k = choose|k: int| 0 <= k < plain.len() && plain[k] == sorted[a];
        assert(files[k] == label_laws::below(v.root, rels[k]));
        text::lemma_decimal_ascii(sorted[a].1 as nat);
        reveal_strlit(": ");
        let name = sorted[a].0;
        if b < name.len() {
            assert(lines[a][b] == rels[k][b]);
            assert(text_laws::readable(rels[k][b]));
        } else if b < name.len() + 2 {
            assert(lines[a][b] == ": "@[b - name.len()]);
        } else {
            assert(lines[a][b] == text::decimal(sorted[a].1 as nat)[b - name.len() - 2]);
        }
    }
    text::lemma_split_join(lines, '\n');
    assert(plain.contains(plain[i]));
    assert(plain.to_multiset().count(plain[i]) > 0);
    assert(sorted.contains(plain[i]));
    let k = choose|k: int| 0 <= k < sorted.len() && sorted[k] == plain[i];
    assert(lines[k] == rels[i] + ": "@ + text::decimal(v.count_entries[i].1 as nat));
}

/// A line that matched, and that the budget has room for, is shown behind what was collected: the
/// label of its file, its number and its text, with colons between them.
pub proof fn law_match_is_shown_on_its_line(v: SinkView, n: u64, bytes: Seq<u8>)
    requires
        v.mode is Content,
        v.stop is None,
        grep_sink::on_match(v, Some(n), bytes).0.stop != Some(StopReason::ByteBudget),
    ensures
        grep_sink::all_lines(grep_sink::on_match(v, Some(n), bytes).0.buckets) == grep_sink::all_lines(
            v.buckets,
        ).push(
            v.label + ":"@ + text::decimal(n as nat) + ":"@ + grep_sink::shown_line(bytes).0,
        ),
        grep_sink::on_match(v, Some(n), bytes).0.matches == v.matches + 1,
{
    let item = grep_sink::ItemView::Match { line: n as nat, content: grep_sink::shown_line(bytes).0 };
    grep_sink::lemma_lines_with_item(v.buckets, v.label, item);
}

/// A line near a match is shown in the same way, with dashes, and is no match.
pub proof fn law_context_is_shown_on_its_line(v: SinkView, kind: ContextKind, n: u64, bytes: Seq<u8>)
    requires
        v.mode is Content,
        v.stop is None,
        grep_sink::on_context(v, kind, Some(n), bytes).0.stop != Some(StopReason::ByteBudget),
    ensures
        grep_sink::all_lines(grep_sink::on_context(v, kind, Some(n), bytes).0.buckets)
            == grep_sink::all_lines(v.buckets).push(
            v.label + "-"@ + text::decimal(n as nat) + "-"@ + grep_sink::shown_line(bytes).0,
        ),
        grep_sink::on_context(v, kind, Some(n), bytes).0.matches == v.matches,
{
    let item = grep_sink::ItemView::Context { line: n as nat, content: grep_sink::shown_line(bytes).0 };
    grep_sink::lemma_lines_with_item(v.buckets, v.label, item);
}

/// The text of a line is shown as it is, white space included, without its line break: in whatever
/// script, up to 64 KiB.
pub proof fn law_line_text_is_shown_as_it_is(s: Seq<char>)
    requires
        forall|i: int| 0 <= i < s.len() ==> text_laws::readable(#[trigger] s[i]) || s[i] == '\t',
        encode_utf8(s).len() <= 65536,
    ensures
        grep_sink::shown_text(s) == (s, false),
        grep_sink::shown_text(s.push('\n')) == (s, false),
        grep_sink::shown_text(s.push('\r').push('\n')) == (s, false),
{
    text_laws::law_tabs_are_content(s);
    if s.len() > 0 {
        assert(text_laws::readable(s[s.len() - 1]) || s[s.len() - 1] == '\t');
    }
    assert(s.push('\n').drop_last() =~= s);
    assert(s.push('\r').push('\n').drop_last() =~= s.push('\r'));
    assert(s.push('\r').drop_last() =~= s);
}

/// A search is the one that is asked for: its pattern is taken literally unless it is to be a regular
/// expression, and with its case unless that is to be ignored; its mode, its cap and its context are
/// those of the call, within their bounds.
pub proof fn law_search_is_the_one_asked_for(
    args: GrepArgs,
    config: GrepConfig,
    root: Seq<char>,
    single_file: bool,
)
    requires
        grep::configures(args, config),
    ensures
        grep::pattern_of(config) == grep::compiled_pattern(
            args.pattern@,
            !args.regex,
            args.ignore_case,
        ),
        ({
            let v = grep::initial(config, root, single_file);
            &&& v.mode == args.output_mode
            &&& v.root == root
            &&& v.single_file == single_file
            &&& v.stop is None
            &&& grep_sink::results(v) == 0
            &&& args.max_results is None ==> v.max_results == 50
            &&& args.max_results matches Some(n) ==> (1 <= n <= 200 ==> v.max_results == n) && (n > 200
                ==> v.max_results == 200) && (n == 0 ==> v.max_results == 1)
            &&& args.output_mode is Content ==> (args.context <= 100 ==> v.after_context
                == args.context) && (args.context > 100 ==> v.after_context == 100)
            &&& !(args.output_mode is Content) ==> v.after_context == 0
        }),
        sanitize::opt_view(config.include_glob) == sanitize::opt_view(args.include_glob),
{
}

/// An include glob without a slash is held against the name of a file in whatever directory; one with
/// a slash against its path below the root.
pub proof fn law_glob_is_held_against(glob: Seq<char>, dir: Seq<char>, name: Seq<char>)
    requires
        name.len() > 0,
        name != seq!['.'],
        name != seq!['.', '.'],
        forall|i: int| 0 <= i < name.len() ==> #[trigger] name[i] != '/',
    ensures
        !glob.contains('/') ==> grep::glob_subject(glob, dir + seq!['/'] + name) == name
            && grep::glob_subject(glob, name) == name,
        glob.contains('/') ==> grep::glob_subject(glob, dir + seq!['/'] + name) == dir + seq!['/']
            + name && grep::glob_subject(glob, name) == name,
{
    label_laws::law_single_file_is_labelled_by_name(dir, name, dir);
}

/// A search that found nothing says so; it adds a hint exactly where a pattern that was taken
/// literally holds a character of regular expressions.
pub proof fn law_empty_search_says_so(pattern: Seq<char>, regex: bool)
    ensures
        "No matches found."@.is_suffix_of(grep::nothing_found(pattern, regex)),
        grep::nothing_found(pattern, regex) == "No matches found."@ <==> regex || !(exists|i: int|
            0 <= i < pattern.len() && (#[trigger] pattern[i] == '|' || pattern[i] == '(' || pattern[i]
                == ')' || pattern[i] == '^' || pattern[i] == '$' || pattern[i] == '+' || pattern[i]
                == '*' || pattern[i] == '?' || pattern[i] == '[' || pattern[i] == ']' || pattern[i]
                == '\\')),
{
    let r = grep::nothing_found(pattern, regex);
    let n = "No matches found."@;
    reveal_strlit("No matches found.");
    reveal_strlit("\nNo matches found.");
    assert(r.skip(r.len() - n.len()) =~= n);
    if grep::looks_like_regex(pattern) {
        let i = choose|i: int| 0 <= i < pattern.len() && grep::regex_char(#[trigger] pattern[i]);
        assert(grep::regex_char(pattern[i]));
    } else {
        assert forall|i: int| 0 <= i < pattern.len() implies !grep::regex_char(
            #[trigger] pattern[i],
        ) by {}
    }
}

/// What was found is given whole where it fits into a result and the search did not stop short; where
/// it did, a marker on the last line says so.
pub proof fn law_findings_are_given_whole(v: SinkView, pattern: Seq<char>, regex: bool)
    requires
        grep_sink::results(v) > 0,
        encode_utf8(grep::grep_body(v)).len() <= 100000,
    ensures
        v.stop is None ==> grep::grep_result(v, pattern, regex) == grep::grep_body(v),
        v.stop is Some && (v.mode is Content || !v.single_file) && v.max_results <= 200
            && grep_sink::results(v) <= 200 ==> grep::grep_result(v, pattern, regex)
            == grep::grep_body(v) + "\n"@ + "...[truncated at "@ + text::decimal(
            if v.stop == Some(StopReason::ByteBudget) {
                grep_sink::results(v)
            } else {
                v.max_results
            },
        ) + " "@ + (if v.mode is Content {
            "matches"@
        } else {
            "files"@
        }) + "]"@,
{
    let body = grep::grep_body(v);
    text_laws::law_results_that_fit_are_whole(body, 131072);
    if v.stop is Some && (v.mode is Content || !v.single_file) && v.max_results <= 200
        && grep_sink::results(v) <= 200 {
        let n = grep_sink::marked(v);
        let noun = grep_sink::mode_noun(v.mode);
        let m = sanitize::cap_marker(n, noun);
        lemma_marker_len(n, v.mode);
        sanitize::lemma_suffix_len();
        text_laws::law_results_that_fit_are_whole(body, sanitize::body_room(m));
        assert(body + "\n"@ + m =~= body + "\n"@ + "...[truncated at "@ + text::decimal(n) + " "@
            + noun + "]"@);
    }
}

proof fn lemma_marker_len(n: nat, mode: GrepOutputMode)
    requires
        n <= 200,
    ensures
        text::utf8_len(sanitize::cap_marker(n, grep_sink::mode_noun(mode))) <= 100,
{
    let noun = grep_sink::mode_noun(mode);
    reveal_strlit("...[truncated at ");
    reveal_strlit(" ");
    reveal_strlit("]");
    reveal_strlit("matches");
    reveal_strlit("files");
    text::lemma_decimal_ascii(n);
    let m = sanitize::cap_marker(n, noun);
    assert(text::decimal(n).len() <= 3) by {
        reveal_with_fuel(text::decimal, 4);
    }
    assert(is_ascii_chars(m));
    is_ascii_chars_encode_utf8(m);
}

/// Behind the match that reached the cap, the lines of its context still come, each on its line, as
/// many as were asked for.
pub proof fn law_last_context_is_shown(v: SinkView, n: u64, bytes: Seq<u8>)
    requires
        v.mode is Content,
        v.stop == Some(StopReason::Cap),
        v.remaining > 0,
        grep_sink::on_context(v, ContextKind::After, Some(n), bytes).0.stop != Some(
            StopReason::ByteBudget,
        ),
    ensures
        grep_sink::all_lines(
            grep_sink::on_context(v, ContextKind::After, Some(n), bytes).0.buckets,
        ) == grep_sink::all_lines(v.buckets).push(
            v.label + "-"@ + text::decimal(n as nat) + "-"@ + grep_sink::shown_line(bytes).0,
        ),
        grep_sink::on_context(v, ContextKind::After, Some(n), bytes).0.remaining == v.remaining - 1,
        grep_sink::on_context(v, ContextKind::After, Some(n), bytes).0.matches == v.matches,
{
    let item = grep_sink::ItemView::Context { line: n as nat, content: grep_sink::shown_line(bytes).0 };
    grep_sink::lemma_lines_with_item(v.buckets, v.label, item);
}

/// Groups of lines that do not touch are kept apart by two dashes, within a file and never twice.
pub proof fn law_gaps_are_shown(v: SinkView)
    requires
        v.mode is Content,
        v.stop is None,
        v.buckets.len() > 0,
        v.buckets.last().label == v.label,
        v.buckets.last().items.len() > 0,
        grep_sink::on_break(v).0.stop is None,
    ensures
        !(v.buckets.last().items.last() is Break) ==> grep_sink::all_lines(
            grep_sink::on_break(v).0.buckets,
        ) == grep_sink::all_lines(v.buckets).push(seq!['-', '-']),
        v.buckets.last().items.last() is Break ==> grep_sink::on_break(v).0.buckets == v.buckets,
{
    grep_sink::lemma_lines_with_item(v.buckets, v.label, grep_sink::ItemView::Break);
    reveal_strlit("--");
    assert("--"@ =~= seq!['-', '-']);
}

/// What was collected of a file stays when the next one is begun, and when a search of it that ran to
/// its end is over.
pub proof fn law_collected_lines_stay(v: SinkView, path: Seq<char>)
    ensures
        grep_sink::begun(v, path).buckets == v.buckets,
        grep_sink::begun(v, path).matched_files == v.matched_files,
        grep_sink::begun(v, path).count_entries == v.count_entries,
        grep_sink::begun(v, path).path == path,
        !v.aborted && !(v.mode is Count) ==> grep_sink::ended(v).buckets == v.buckets
            && grep_sink::ended(v).matched_files == v.matched_files && grep_sink::ended(v).stop
            == v.stop,
{
}

/// An entry of a walk that is no file, or that the include glob leaves out, changes nothing.
pub proof fn law_other_entries_change_nothing(v: SinkView, f: FileReport)
    requires
        !f.is_file || !f.included,
    ensures
        grep_laws::after_file(v, f) == v,
{
}

/// A walk goes on to its last entry unless the search stops, and not beyond where it does.
pub proof fn law_walk_goes_to_its_end(v: SinkView, fs: Seq<FileReport>, f: FileReport)
    ensures
        grep_laws::after_files(v, fs).stop is None ==> grep_laws::after_files(v, fs.push(f))
            == grep_laws::after_file(grep_laws::after_files(v, fs), f),
        grep_laws::after_files(v, fs).stop is Some ==> grep_laws::after_files(v, fs.push(f))
            == grep_laws::after_files(v, fs),
{
    assert(fs.push(f).drop_last() =~= fs);
}

/// A search that names no path is one of the working directory; one that names a path is one of that.
pub proof fn law_searched_place_is_the_named_one(path: Option<String>)
    ensures
        path is None ==> grep::path_or_dot(path) == seq!['.'],
        path is Some ==> grep::path_or_dot(path) == path->0@,
{
}

/// A search without results says that it found nothing, with the hint only where a file was searched;
/// and one with results never says so instead of them.
pub proof fn law_result_tells_whether_there_are_any(v: SinkView, pattern: Seq<char>, regex: bool)
    ensures
        grep_sink::results(v) == 0 && v.files_searched == 0 ==> grep::grep_result(v, pattern, regex)
            == "No matches found."@,
        grep_sink::results(v) == 0 && v.files_searched > 0 ==> grep::grep_result(v, pattern, regex)
            == grep::nothing_found(pattern, regex),
        v.mode is Content ==> grep_sink::results(v) == v.matches,
        v.mode is FilesWithMatches ==> grep_sink::results(v) == v.matched_files.len(),
        v.mode is Count ==> grep_sink::results(v) == v.count_entries.len(),
{
}

/// A search of a single file that lists or counts never says that it stops short; one in its lines
/// says so exactly where it did.
pub proof fn law_stops_are_told(v: SinkView)
    ensures
        v.stop is None ==> !grep::stops_short(v),
        v.stop is Some && v.mode is Content ==> grep::stops_short(v),
        v.stop is Some && !v.single_file ==> grep::stops_short(v),
        v.single_file && !(v.mode is Content) ==> !grep::stops_short(v),
{
}

} // verus!
