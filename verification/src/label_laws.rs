//! What the labels of files are for: they say where a file lies, and no two files share one.

use crate::paths;
use crate::read_file;
use crate::text;
use crate::text_laws;
use vstd::prelude::*;

verus! {

/// Where a file lies that is at `rel` below the directory `root`.
pub open spec fn below(root: Seq<char>, rel: Seq<char>) -> Seq<char> {
    if root.len() == 0 || root.last() == '/' {
        root + rel
    } else {
        root + seq!['/'] + rel
    }
}

/// Whether `rel` is names with one slash between neighbours, none of them a dot.
pub open spec fn plain_relative(rel: Seq<char>) -> bool {
    &&& rel.len() > 0
    &&& forall|i: int|
        0 <= i < text::split_on(rel, '/').len() ==> (#[trigger] text::split_on(rel, '/')[i]).len() > 0
            && text::split_on(rel, '/')[i] != seq!['.']
}

/// The pieces of two texts with a separator between them are those of the one and of the other.
pub proof fn lemma_split_between(a: Seq<char>, sep: char, b: Seq<char>)
    ensures
        text::split_on(a + seq![sep] + b, sep) == text::split_on(a, sep) + text::split_on(b, sep),
    decreases b.len(),
{
    let all = a + seq![sep] + b;
    text::lemma_split_nonempty(b, sep);
    if b.len() == 0 {
        assert(all.drop_last() =~= a);
        assert(text::split_on(all, sep) =~= text::split_on(a, sep) + text::split_on(b, sep));
    } else {
        let t = b.drop_last();
        lemma_split_between(a, sep, t);
        text::lemma_split_nonempty(t, sep);
        assert(all.drop_last() =~= a + seq![sep] + t);
        assert(all.last() == b.last());
        assert(text::split_on(all, sep) =~= text::split_on(a, sep) + text::split_on(b, sep));
    }
}

/// The components of a directory are those that a path below it begins with.
proof fn lemma_behind_directory(s: Seq<Seq<char>>, r: Seq<Seq<char>>, slash: bool, i: int)
    requires
        0 <= i <= s.len(),
        s.len() > 0,
        r.len() > 0,
        r[0].len() > 0,
        r[0] != seq!['.'],
    ensures
        ({
            let base = if slash {
                s.push(Seq::empty())
            } else {
                s
            };
            paths::behind(s + r, i, base, i) == Some(s.len() as int)
        }),
    decreases s.len() - i,
{
    let path = s + r;
    let base = if slash {
        s.push(Seq::<char>::empty())
    } else {
        s
    };
    if i == s.len() {
        assert(paths::significant(path, i));
        reveal_with_fuel(paths::next_component, 3);
        assert(paths::next_component(base, i) == base.len());
        assert(paths::next_component(path, i) == i);
    } else {
        lemma_behind_directory(s, r, slash, i + 1);
        assert(path[i] == base[i]);
        assert(paths::significant(path, i) == paths::significant(base, i));
        if !paths::significant(path, i) {
            assert(paths::next_component(path, i) == paths::next_component(path, i + 1));
            assert(paths::next_component(base, i) == paths::next_component(base, i + 1));
            lemma_next_component(base, i + 1);
        }
    }
}

proof fn lemma_next_component(segs: Seq<Seq<char>>, i: int)
    requires
        0 <= i <= segs.len(),
    ensures
        i <= paths::next_component(segs, i) <= segs.len(),
    decreases segs.len() - i,
{
    if i < segs.len() && !paths::significant(segs, i) {
        lemma_next_component(segs, i + 1);
    }
}

/// The path of a file relative to the directory that it lies below is where it lies there: joining
/// the two gives the path back.
pub proof fn law_relative_path_leads_back(root: Seq<char>, rel: Seq<char>)
    requires
        plain_relative(rel),
    ensures
        paths::relative_to(below(root, rel), root) == Some(rel),
{
    let path = below(root, rel);
    let r = text::split_on(rel, '/');
    text::lemma_split_nonempty(rel, '/');
    text_laws::law_pieces_make_the_text(rel, '/');
    assert(rel[0] != '/') by {
        if rel[0] == '/' {
            assert(rel =~= Seq::<char>::empty() + seq!['/'] + rel.skip(1));
            lemma_split_between(Seq::empty(), '/', rel.skip(1));
            text::lemma_split_plain(Seq::<char>::empty(), '/');
            assert(r[0].len() == 0);
        }
    }
    if root.len() == 0 {
        assert(path =~= rel);
        assert(paths::significant(r, r.len() - 1));
        assert(r.subrange(0, r.len() as int) =~= r);
    } else {
        let slash = root.last() == '/';
        let dir = if slash {
            root.drop_last()
        } else {
            root
        };
        let s = text::split_on(dir, '/');
        text::lemma_split_nonempty(dir, '/');
        assert(path =~= dir + seq!['/'] + rel);
        lemma_split_between(dir, '/', rel);
        if slash {
            assert(root =~= dir + seq!['/'] + Seq::<char>::empty());
            lemma_split_between(dir, '/', Seq::empty());
            text::lemma_split_plain(Seq::<char>::empty(), '/');
            assert(paths::segments(root) =~= s.push(Seq::empty()));
        }
        assert(path[0] == root[0]);
        lemma_behind_directory(s, r, slash, 0);
        let all = paths::segments(path);
        assert(all == s + r);
        assert(all[all.len() - 1] == r[r.len() - 1]);
        assert(paths::significant(all, all.len() - 1));
        assert(all.subrange(s.len() as int, all.len() as int) =~= r);
    }
}

/// In a search of a directory a file is labelled with its path below the directory, so that two files
/// have two labels, and the directory and the label lead back to the file.
pub proof fn law_label_is_the_path_below_the_root(root: Seq<char>, rel: Seq<char>, other: Seq<char>)
    requires
        plain_relative(rel),
        plain_relative(other),
    ensures
        paths::label_of(below(root, rel), root, false) == rel,
        below(root, paths::label_of(below(root, rel), root, false)) == below(root, rel),
        below(root, rel) != below(root, other) ==> paths::label_of(below(root, rel), root, false)
            != paths::label_of(below(root, other), root, false),
{
    law_relative_path_leads_back(root, rel);
    law_relative_path_leads_back(root, other);
}

/// A file that was asked for by itself is labelled with its name, whatever directory it lies in.
pub proof fn law_single_file_is_labelled_by_name(dir: Seq<char>, name: Seq<char>, root: Seq<char>)
    requires
        name.len() > 0,
        name != seq!['.'],
        name != seq!['.', '.'],
        forall|i: int| 0 <= i < name.len() ==> #[trigger] name[i] != '/',
    ensures
        paths::file_name_of(dir + seq!['/'] + name) == Some(name),
        paths::file_name_of(name) == Some(name),
        paths::label_of(dir + seq!['/'] + name, root, true) == name,
{
    let path = dir + seq!['/'] + name;
    lemma_split_between(dir, '/', name);
    text::lemma_split_plain(name, '/');
    text::lemma_split_nonempty(dir, '/');
    let segs = paths::segments(path);
    assert(segs[segs.len() - 1] == name);
    assert(paths::significant(segs, segs.len() - 1));
    assert(paths::significant(paths::segments(name), 0));
}

/// A file below the working directory is shown under its path there, and any file under its whole
/// path where there is no working directory.
pub proof fn law_shown_path_leads_back(root: Seq<char>, rel: Seq<char>)
    requires
        plain_relative(rel),
    ensures
        read_file::shown_path(below(root, rel), Some(root)) == rel,
        read_file::shown_path(below(root, rel), None) == below(root, rel),
{
    law_relative_path_leads_back(root, rel);
}

/// A relative path leads below the working directory, and the label of where it leads is the path.
pub proof fn law_relative_paths_lie_below_the_working_directory(
    rel: Seq<char>,
    dir: Seq<char>,
    home: Option<Seq<char>>,
)
    requires
        plain_relative(rel),
        rel[0] != '~',
    ensures
        paths::resolved_path(rel, Some(dir), home) == below(dir, rel),
        paths::relative_to(paths::resolved_path(rel, Some(dir), home), dir) == Some(rel),
{
    law_relative_path_leads_back(dir, rel);
    assert(rel[0] != '/') by {
        if rel[0] == '/' {
            assert(rel =~= Seq::<char>::empty() + seq!['/'] + rel.skip(1));
            lemma_split_between(Seq::empty(), '/', rel.skip(1));
            text::lemma_split_plain(Seq::<char>::empty(), '/');
            assert(text::split_on(rel, '/')[0].len() == 0);
        }
    }
    assert(!paths::here(rel)) by {
        if rel == seq!['.'] {
            text::lemma_split_plain(rel, '/');
            assert(text::split_on(rel, '/')[0] == seq!['.']);
        }
        if rel == seq!['.', '/'] {
            assert(rel =~= seq!['.'] + seq!['/'] + Seq::<char>::empty());
            lemma_split_between(seq!['.'], '/', Seq::empty());
            text::lemma_split_plain(seq!['.'], '/');
            assert(text::split_on(rel, '/')[0] == seq!['.']);
        }
    }
}

/// A tilde stands for the home directory, alone or before a slash, and only there.
pub proof fn law_tilde_is_the_home_directory(rest: Seq<char>, home: Seq<char>)
    ensures
        paths::tilde_expanded(seq!['~'], Some(home)) == home,
        paths::tilde_expanded(seq!['~', '/'] + rest, Some(home)) == home + seq!['/'] + rest,
        paths::tilde_expanded(seq!['~', '/'] + rest, None) == seq!['~', '/'] + rest,
        rest.len() > 0 && rest[0] != '/' ==> paths::tilde_expanded(seq!['~'] + rest, Some(home))
            == seq!['~'] + rest,
        rest.len() > 0 && rest[0] != '~' ==> paths::tilde_expanded(rest, Some(home)) == rest,
{
    assert(seq!['~'].skip(1) =~= Seq::<char>::empty());
    assert(home + Seq::<char>::empty() =~= home);
    let p = seq!['~', '/'] + rest;
    assert(home + p.skip(1) =~= home + seq!['/'] + rest);
}

} // verus!
