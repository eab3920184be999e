//! Slash-separated paths as text: tilde expansion, resolution against a working directory, and
//! the labels under which files are shown.
//!
//! A host whose paths begin with drives has rules of its own for what is absolute. There a path is
//! resolved before it comes here and is handed over without a working directory, which leaves it as
//! it is.

use crate::text::{chars_of, from_chars, same, split};
use crate::text;
use vstd::prelude::*;
use vstd::string::*;

verus! {

/// The user's home directory as text, where one is known.
///
/// Calls `dirs::home_dir`. What it returns depends on the environment of the process, so nothing
/// is claimed of it.
#[verifier::external_body]
fn home_dir() -> (home: Option<String>) {
    dirs::home_dir().map(|h| h.to_string_lossy().into_owned())
}

/// Whether `path` is `~` or begins with `~/`.
pub open spec fn tilde_form(path: Seq<char>) -> bool {
    path.len() > 0 && path[0] == '~' && (path.len() == 1 || path[1] == '/')
}

/// `path` with its leading tilde replaced by the home directory, where there is one.
pub open spec fn tilde_expanded(path: Seq<char>, home: Option<Seq<char>>) -> Seq<char> {
    match home {
        Some(h) if tilde_form(path) => h + path.skip(1),
        _ => path,
    }
}

/// Whether `path` starts at the root.
pub open spec fn absolute(path: Seq<char>) -> bool {
    path.len() > 0 && path[0] == '/'
}

/// `rel` below `base`; an absolute `rel` stands for itself.
pub open spec fn joined(base: Seq<char>, rel: Seq<char>) -> Seq<char> {
    if absolute(rel) {
        rel
    } else if base.len() == 0 || base.last() == '/' {
        base + rel
    } else {
        base + seq!['/'] + rel
    }
}

/// Whether `path` names the working directory itself.
pub open spec fn here(path: Seq<char>) -> bool {
    path == seq!['.'] || path == seq!['.', '/']
}

/// Where `path` leads: tilde first, then the working directory for what is not absolute.
pub open spec fn resolved_path(
    path: Seq<char>,
    working_dir: Option<Seq<char>>,
    home: Option<Seq<char>>,
) -> Seq<char> {
    let expanded = tilde_expanded(path, home);
    if absolute(expanded) {
        expanded
    } else {
        match working_dir {
            None => expanded,
            Some(w) => if here(path) {
                w
            } else {
                joined(w, expanded)
            },
        }
    }
}

/// The characters of an optional string slice.
pub open spec fn opt_str(s: Option<&str>) -> Option<Seq<char>> {
    match s {
        None => None,
        Some(x) => Some(x@),
    }
}

/// Replaces a leading tilde by the given home directory.
pub fn expand_tilde_in(path: &str, home: Option<&str>) -> (r: String)
    ensures
        r@ == tilde_expanded(path@, opt_str(home)),
{
    let cs = chars_of(path);
    let tilde = cs.len() > 0 && cs[0] == '~' && (cs.len() == 1 || cs[1] == '/');
    match home {
        Some(h) => if tilde {
            let mut out = h.to_owned();
            let rest = from_chars(&cs[1..cs.len()]);
            out.append(&rest);
            assert(out@ =~= h@ + path@.skip(1));
            out
        } else {
            path.to_owned()
        },
        None => path.to_owned(),
    }
}

/// Replaces a leading tilde by the user's home directory, where one is known; `~user` stays.
pub fn expand_tilde(path: &str) -> (r: String)
    ensures
        exists|home: Option<Seq<char>>| r@ == #[trigger] tilde_expanded(path@, home),
        !tilde_form(path@) ==> r@ == path@,
{
    match home_dir() {
        Some(h) => {
            let r = expand_tilde_in(path, Some(h.as_str()));
            assert(r@ == tilde_expanded(path@, Some(h@)));
            r
        },
        None => {
            let r = expand_tilde_in(path, None);
            assert(r@ == tilde_expanded(path@, None));
            r
        },
    }
}

/// `rel` below `base`.
pub fn join_path(base: &str, rel: &str) -> (r: String)
    ensures
        r@ == joined(base@, rel@),
{
    let b = chars_of(base);
    let c = chars_of(rel);
    if c.len() > 0 && c[0] == '/' {
        return rel.to_owned();
    }
    let mut out = base.to_owned();
    if b.len() > 0 && b[b.len() - 1] != '/' {
        out.push('/');
    }
    out.append(rel);
    assert(out@ =~= joined(base@, rel@));
    out
}

/// Resolves `path` with the given home directory.
pub fn resolve_path_in(path: &str, working_dir: Option<&str>, home: Option<&str>) -> (r: String)
    ensures
        r@ == resolved_path(path@, opt_str(working_dir), opt_str(home)),
{
    let expanded = expand_tilde_in(path, home);
    resolve_expanded(path, &expanded, working_dir, Ghost(opt_str(home)))
}

fn resolve_expanded(
    path: &str,
    expanded: &str,
    working_dir: Option<&str>,
    Ghost(home): Ghost<Option<Seq<char>>>,
) -> (r: String)
    requires
        expanded@ == tilde_expanded(path@, home),
    ensures
        r@ == resolved_path(path@, opt_str(working_dir), home),
{
    let e = chars_of(expanded);
    if e.len() > 0 && e[0] == '/' {
        return expanded.to_owned();
    }
    match working_dir {
        None => expanded.to_owned(),
        Some(w) => {
            let p = chars_of(path);
            let is_here = (p.len() == 1 && p[0] == '.') || (p.len() == 2 && p[0] == '.' && p[1]
                == '/');
            assert(is_here == here(path@)) by {
                assert(is_here ==> path@ =~= seq!['.'] || path@ =~= seq!['.', '/']);
            }
            if is_here {
                w.to_owned()
            } else {
                join_path(w, expanded)
            }
        },
    }
}

/// Resolves `path`: a leading tilde stands for the home directory, and what is not absolute lies
/// below the working directory, where there is one.
pub fn resolve_path(path: &str, working_dir: Option<&str>) -> (r: String)
    ensures
        exists|home: Option<Seq<char>>|
            r@ == #[trigger] resolved_path(path@, opt_str(working_dir), home),
        !tilde_form(path@) ==> r@ == resolved_path(path@, opt_str(working_dir), None),
{
    let expanded = expand_tilde(path);
    let ghost home = choose|home: Option<Seq<char>>|
        expanded@ == #[trigger] tilde_expanded(path@, home);
    let r = resolve_expanded(path, &expanded, working_dir, Ghost(home));
    assert(!tilde_form(path@) ==> tilde_expanded(path@, home) == tilde_expanded(path@, None));
    assert(r@ == resolved_path(path@, opt_str(working_dir), home));
    r
}

/// The pieces of a path between slashes.
pub open spec fn segments(path: Seq<char>) -> Seq<Seq<char>> {
    text::split_on(path, '/')
}

/// Whether piece `i` is a component: not empty, and a dot only where the path begins with it.
pub open spec fn significant(segs: Seq<Seq<char>>, i: int) -> bool {
    segs[i].len() > 0 && !(i > 0 && segs[i] == seq!['.'])
}

/// Position of the first component at or behind `i`; the number of pieces where there is none.
pub open spec fn next_component(segs: Seq<Seq<char>>, i: int) -> int
    decreases segs.len() - i,
{
    if i >= segs.len() {
        segs.len() as int
    } else if significant(segs, i) {
        i
    } else {
        next_component(segs, i + 1)
    }
}

/// Position of the last component before `n`; -1 where there is none.
pub open spec fn last_component(segs: Seq<Seq<char>>, n: int) -> int
    decreases n,
{
    if n <= 0 {
        -1
    } else if significant(segs, n - 1) {
        n - 1
    } else {
        last_component(segs, n - 1)
    }
}

/// The last component of a path, unless it is `.` or `..`.
pub open spec fn file_name_of(path: Seq<char>) -> Option<Seq<char>> {
    let segs = segments(path);
    let k = last_component(segs, segs.len() as int);
    if k < 0 || segs[k] == seq!['.'] || segs[k] == seq!['.', '.'] {
        None
    } else {
        Some(segs[k])
    }
}

/// Where the components of `base` from `j` on are those of `path` from `i` on: the position of
/// the component behind them.
pub open spec fn behind(
    path: Seq<Seq<char>>,
    i: int,
    base: Seq<Seq<char>>,
    j: int,
) -> Option<int>
    decreases base.len() - j,
{
    let b = next_component(base, j);
    let p = next_component(path, i);
    if j > base.len() || b >= base.len() {
        Some(p)
    } else if b < j {
        None
    } else if p < path.len() && path[p] == base[b] {
        behind(path, p + 1, base, b + 1)
    } else {
        None
    }
}

/// Pieces `k` to the last component, as a path.
pub open spec fn from_component(segs: Seq<Seq<char>>, k: int) -> Seq<char> {
    let last = last_component(segs, segs.len() as int);
    if k > last {
        Seq::empty()
    } else {
        text::join(segs.subrange(k, last + 1), seq!['/'])
    }
}

/// `path` relative to `base`, where it lies below it component by component.
pub open spec fn relative_to(path: Seq<char>, base: Seq<char>) -> Option<Seq<char>> {
    if base.len() == 0 {
        if absolute(path) && last_component(segments(path), segments(path).len() as int) < 0 {
            Some(seq!['/'])
        } else {
            Some(from_component(segments(path), 0))
        }
    } else if absolute(path) != absolute(base) {
        None
    } else {
        match behind(segments(path), 0, segments(base), 0) {
            None => None,
            Some(k) => Some(from_component(segments(path), k)),
        }
    }
}

/// The label of a file: its name where it was asked for directly, else its path below the search
/// root.
pub open spec fn label_of(path: Seq<char>, root: Seq<char>, single_file: bool) -> Seq<char> {
    if single_file {
        match file_name_of(path) {
            Some(n) => n,
            None => Seq::empty(),
        }
    } else {
        match relative_to(path, root) {
            Some(r) => r,
            None => path,
        }
    }
}

fn is_significant(segs: &Vec<String>, i: usize) -> (r: bool)
    requires
        i < segs.len(),
    ensures
        r == significant(text::views(segs@), i as int),
{
    let cs = chars_of(&segs[i]);
    let dot = cs.len() == 1 && cs[0] == '.';
    assert(text::views(segs@)[i as int] == cs@);
    assert(dot == (cs@ == seq!['.'])) by {
        assert(dot ==> cs@ =~= seq!['.']);
    }
    cs.len() > 0 && !(i > 0 && dot)
}

fn find_next(segs: &Vec<String>, from: usize) -> (k: usize)
    requires
        from <= segs.len(),
    ensures
        k == next_component(text::views(segs@), from as int),
        from <= k <= segs.len(),
{
    let mut k: usize = from;
    while k < segs.len() && !is_significant(segs, k)
        invariant
            from <= k <= segs.len(),
            next_component(text::views(segs@), from as int) == next_component(text::views(segs@), k as int),
        decreases segs.len() - k,
    {
        k = k + 1;
    }
    k
}

/// One more than the position of the last component; zero where there is none.
fn find_end(segs: &Vec<String>) -> (n: usize)
    ensures
        n == last_component(text::views(segs@), segs.len() as int) + 1,
        n <= segs.len(),
{
    let mut n: usize = segs.len();
    while n > 0 && !is_significant(segs, n - 1)
        invariant
            n <= segs.len(),
            last_component(text::views(segs@), segs.len() as int) == last_component(
                text::views(segs@),
                n as int,
            ),
        decreases n,
    {
        n = n - 1;
    }
    n
}

/// Pieces `k` to `end` with slashes between.
fn join_range(segs: &Vec<String>, k: usize, end: usize) -> (r: String)
    requires
        end <= segs.len(),
    ensures
        k < end ==> r@ == text::join(text::views(segs@).subrange(k as int, end as int), seq!['/']),
        k >= end ==> r@ == Seq::<char>::empty(),
{
    let mut out = String::new();
    if k >= end {
        return out;
    }
    let ghost all = text::views(segs@);
    assert(all.subrange(k as int, k as int) =~= Seq::<Seq<char>>::empty());
    let mut i: usize = k;
    while i < end
        invariant
            k <= i <= end <= segs.len(),
            all == text::views(segs@),
            out@ == text::join(all.subrange(k as int, i as int), seq!['/']),
        decreases end - i,
    {
        if i > k {
            out.push('/');
        }
        out.append(&segs[i]);
        proof {
            let head = all.subrange(k as int, i as int);
            assert(all.subrange(k as int, i + 1) =~= head.push(segs[i as int]@));
            text::lemma_join_push(head, segs[i as int]@, seq!['/']);
            if i > k {
                assert(out@ =~= text::join(head, seq!['/']) + seq!['/'] + segs[i as int]@);
            } else {
                assert(out@ =~= segs[i as int]@);
            }
        }
        i = i + 1;
    }
    out
}

/// The last component of `path`, unless it is `.` or `..` or missing.
pub fn file_name(path: &str) -> (r: Option<String>)
    ensures
        match (r, file_name_of(path@)) {
            (Some(n), Some(m)) => n@ == m,
            (None, None) => true,
            _ => false,
        },
{
    let segs = split(path, '/');
    let end = find_end(&segs);
    if end == 0 {
        return None;
    }
    let name = segs[end - 1].clone();
    let cs = chars_of(&name);
    assert(text::views(segs@)[end - 1] == cs@);
    let dots = (cs.len() == 1 && cs[0] == '.') || (cs.len() == 2 && cs[0] == '.' && cs[1] == '.');
    assert(dots == (cs@ == seq!['.'] || cs@ == seq!['.', '.'])) by {
        assert(dots ==> cs@ =~= seq!['.'] || cs@ =~= seq!['.', '.']);
    }
    if dots {
        None
    } else {
        Some(name)
    }
}

fn find_behind(path: &Vec<String>, base: &Vec<String>) -> (r: Option<usize>)
    ensures
        match (r, behind(text::views(path@), 0, text::views(base@), 0)) {
            (Some(k), Some(m)) => k == m && k <= path.len(),
            (None, None) => true,
            _ => false,
        },
{
    let mut i: usize = 0;
    let mut j: usize = 0;
    loop
        invariant
            i <= path.len(),
            j <= base.len(),
            behind(text::views(path@), 0, text::views(base@), 0) == behind(
                text::views(path@),
                i as int,
                text::views(base@),
                j as int,
            ),
        decreases base.len() - j,
    {
        let b = find_next(base, j);
        let p = find_next(path, i);
        if b >= base.len() {
            return Some(p);
        }
        if p < path.len() && same(&path[p], &base[b]) {
            assert(text::views(path@)[p as int] == text::views(base@)[b as int]);
            i = p + 1;
            j = b + 1;
        } else {
            return None;
        }
    }
}

/// `path` relative to `base`, where it lies below it component by component.
pub fn strip_prefix(path: &str, base: &str) -> (r: Option<String>)
    ensures
        match (r, relative_to(path@, base@)) {
            (Some(n), Some(m)) => n@ == m,
            (None, None) => true,
            _ => false,
        },
{
    let p = chars_of(path);
    let b = chars_of(base);
    let segs = split(path, '/');
    let end = find_end(&segs);
    let p_abs = p.len() > 0 && p[0] == '/';
    let b_abs = b.len() > 0 && b[0] == '/';
    if b.len() == 0 {
        if p_abs && end == 0 {
            let mut out = String::new();
            out.push('/');
            assert(out@ =~= seq!['/']);
            return Some(out);
        }
        return Some(join_range(&segs, 0, end));
    }
    if p_abs != b_abs {
        return None;
    }
    let base_segs = split(base, '/');
    match find_behind(&segs, &base_segs) {
        None => None,
        Some(k) => Some(join_range(&segs, k, end)),
    }
}

/// The label under which a file is shown.
pub fn path_label(path: &str, resolved: &str, single_file: bool) -> (r: String)
    ensures
        r@ == label_of(path@, resolved@, single_file),
{
    if single_file {
        match file_name(path) {
            Some(n) => n,
            None => String::new(),
        }
    } else {
        match strip_prefix(path, resolved) {
            Some(n) => n,
            None => path.to_owned(),
        }
    }
}

/// The label of a symbolic link's target: the target, with a slash behind it where it is a
/// directory, on one line. `target` is `None` where the link cannot be read.
pub fn symlink_target_label(target: Option<&str>, is_dir: bool) -> (r: String)
    ensures
        target is None ==> r@ == "<unreadable target>"@,
        target matches Some(t) ==> r@ == crate::sanitize::sanitized(
            if is_dir {
                t@ + seq!['/']
            } else {
                t@
            },
            false,
        ),
{
    match target {
        None => "<unreadable target>".to_owned(),
        Some(t) => {
            let mut label = t.to_owned();
            if is_dir {
                label.push('/');
                assert(label@ =~= t@ + seq!['/']);
            }
            crate::sanitize::sanitize_name(&label)
        },
    }
}

/// A path without a tilde that is already absolute is where it says, whatever the working
/// directory.
pub proof fn law_absolute_path_stands(
    path: Seq<char>,
    working_dir: Option<Seq<char>>,
    home: Option<Seq<char>>,
)
    requires
        absolute(path),
    ensures
        resolved_path(path, working_dir, home) == path,
{
}

/// A path without a tilde that comes without a working directory is left as it is.
pub proof fn law_placed_path_stands(path: Seq<char>, home: Option<Seq<char>>)
    requires
        !tilde_form(path),
    ensures
        resolved_path(path, None, home) == path,
{
}

/// The working directory itself is meant by a lone dot.
pub proof fn law_dot_is_working_dir(w: Seq<char>, home: Option<Seq<char>>)
    ensures
        resolved_path(seq!['.'], Some(w), home) == w,
        resolved_path(seq!['.', '/'], Some(w), home) == w,
{
}

/// An expanded tilde path begins with the home directory.
pub proof fn law_tilde_begins_with_home(path: Seq<char>, home: Seq<char>)
    requires
        tilde_form(path),
    ensures
        home.is_prefix_of(tilde_expanded(path, Some(home))),
        tilde_expanded(path, Some(home)).len() == home.len() + path.len() - 1,
{
    assert(tilde_expanded(path, Some(home)).take(home.len() as int) =~= home);
}

} // verus!
