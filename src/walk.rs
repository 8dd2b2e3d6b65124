use vstd::prelude::*;
use crate::config::Args;
use crate::page::{redirect_page, render_redirect};
use crate::text::{chars_of, has_suffix, replace, replace_all};

verus! {

/// The placeholder for the part of an address that the walk has yet to fill.
pub const TAIL_TOKEN: &'static str = "$TAIL";

/// The ending of the names of the pages that get rewritten.
pub const PAGE_SUFFIX: &'static str = ".html";

/// One entry of a directory listing.
pub struct Entry {
    pub name: String,
    pub kind: EntryKind,
}

/// What a directory entry is: a directory with its own entries, a regular
/// file, or anything else (a dangling link, a special file).
pub enum EntryKind {
    Dir(Vec<Entry>),
    File,
    Other,
}

/// A file's place below the root of a walk: the names of the directories
/// that lead to it, then its own name.
pub type RelPath = Seq<Seq<char>>;

/// What the walk does to one file.
pub enum Step {
    /// Overwrite the file with `body`, a page that sends its reader to `uri`.
    Redirect { path: RelPath, uri: Seq<char>, body: Seq<char> },
    /// Delete the file.
    Remove { path: RelPath },
}

/// The executable form of a `Step`.
pub enum Action {
    Redirect { path: Vec<String>, uri: String, body: String },
    Remove { path: Vec<String> },
}

/// The names of a list of path components.
pub open spec fn names(v: Seq<String>) -> RelPath {
    v.map_values(|s: String| s@)
}

impl View for Action {
    type V = Step;

    open spec fn view(&self) -> Step {
        match self {
            Action::Redirect { path, uri, body } => Step::Redirect {
                path: names(path@),
                uri: uri@,
                body: body@,
            },
            Action::Remove { path } => Step::Remove { path: names(path@) },
        }
    }
}

/// The steps that a list of actions stands for.
pub open spec fn steps(v: Seq<Action>) -> Seq<Step> {
    v.map_values(|a: Action| a@)
}

/// Whether a file of this name is a page to rewrite.
pub open spec fn is_page(name: Seq<char>) -> bool {
    has_suffix(name, PAGE_SUFFIX@)
}

/// The template one directory further down: the directory's name and a
/// fresh placeholder take the place of the placeholder.
pub open spec fn descend(t: Seq<char>, name: Seq<char>) -> Seq<char> {
    replace_all(t, TAIL_TOKEN@, name + seq!['/'] + TAIL_TOKEN@)
}

/// The template in effect below the directories `dirs`, starting from `root`.
pub open spec fn template_at(root: Seq<char>, dirs: RelPath) -> Seq<char>
    decreases dirs.len(),
{
    if dirs.len() == 0 {
        root
    } else {
        descend(template_at(root, dirs.drop_last()), dirs.last())
    }
}

/// The address that the file at `path` is sent to: its name takes the place
/// of the placeholder of the template in effect in its directory.
pub open spec fn destination(root: Seq<char>, path: RelPath) -> Seq<char> {
    replace_all(template_at(root, path.drop_last()), TAIL_TOKEN@, path.last())
}

/// The regular files of a listing, depth first, each directory's files at
/// the place of the directory.
pub open spec fn files_in(dirs: RelPath, es: Seq<Entry>) -> Seq<RelPath>
    decreases es,
{
    if es.len() == 0 {
        seq![]
    } else {
        let e = es[es.len() - 1];
        files_in(dirs, es.subrange(0, es.len() - 1)) + match e.kind {
            EntryKind::Dir(v) => files_in(dirs.push(e.name@), v@),
            EntryKind::File => seq![dirs.push(e.name@)],
            EntryKind::Other => seq![],
        }
    }
}

/// What is done to the file at `path`: a page is rewritten, another file is
/// deleted when the configuration asks for it and kept otherwise.
pub open spec fn step_for(args: Args, root: Seq<char>, path: RelPath) -> Seq<Step> {
    if is_page(path.last()) {
        seq![
            Step::Redirect {
                path,
                uri: destination(root, path),
                body: redirect_page(args.crate_name@, destination(root, path)),
            },
        ]
    } else if args.delete_others {
        seq![Step::Remove { path }]
    } else {
        seq![]
    }
}

/// The steps for a list of files, in its order.
pub open spec fn steps_for(args: Args, root: Seq<char>, files: Seq<RelPath>) -> Seq<Step>
    decreases files.len(),
{
    if files.len() == 0 {
        seq![]
    } else {
        steps_for(args, root, files.drop_last()) + step_for(args, root, files.last())
    }
}

/// The steps of a walk over the listing `es`, whose addresses grow from the
/// template `root`.
pub open spec fn plan(args: Args, root: Seq<char>, es: Seq<Entry>) -> Seq<Step> {
    steps_for(args, root, files_in(seq![], es))
}

/// The steps for two lists of files, one after the other, are those of the
/// first list, then those of the second.
pub proof fn lemma_steps_for_append(args: Args, root: Seq<char>, a: Seq<RelPath>, b: Seq<RelPath>)
    ensures
        steps_for(args, root, a + b) == steps_for(args, root, a) + steps_for(args, root, b),
    decreases b.len(),
{
    if b.len() == 0 {
        assert(a + b == a);
    } else {
        lemma_steps_for_append(args, root, a, b.drop_last());
        assert((a + b).drop_last() == a + b.drop_last());
    }
}

/// Whether `s` ends with `suffix`.
pub fn ends_with(s: &str, suffix: &str) -> (r: bool)
    ensures
        r == has_suffix(s@, suffix@),
{
    let cs = chars_of(s);
    let xs = chars_of(suffix);
    if xs.len() > cs.len() {
        return false;
    }
    let off = cs.len() - xs.len();
    let mut j: usize = 0;
    while j < xs.len()
        invariant
            cs@ == s@,
            xs@ == suffix@,
            off + xs@.len() == cs@.len() <= usize::MAX,
            j <= xs@.len(),
            forall|k: int| 0 <= k < j ==> cs@[off + k] == xs@[k],
        decreases xs@.len() - j,
    {
        if cs[off + j] != xs[j] {
            assert(s@.subrange(off as int, s@.len() as int)[j as int] != suffix@[j as int]);
            return false;
        }
        j = j + 1;
    }
    assert(s@.subrange(off as int, s@.len() as int) =~= suffix@);
    true
}

fn child_path(dirs: &Vec<String>, name: &String) -> (r: Vec<String>)
    ensures
        names(r@) == names(dirs@).push(name@),
{
    let mut r: Vec<String> = Vec::new();
    let mut i: usize = 0;
    while i < dirs.len()
        invariant
            i <= dirs@.len(),
            names(r@) == names(dirs@.subrange(0, i as int)),
        decreases dirs@.len() - i,
    {
        r.push(dirs[i].clone());
        assert(names(dirs@.subrange(0, i + 1)) =~= names(dirs@.subrange(0, i as int)).push(
            dirs@[i as int]@,
        ));
        i = i + 1;
    }
    r.push(name.clone());
    assert(dirs@.subrange(0, dirs@.len() as int) == dirs@);
    assert(names(r@) =~= names(dirs@).push(name@));
    r
}

fn walk(
    args: &Args,
    entries: &Vec<Entry>,
    base_uri: &str,
    dirs: &Vec<String>,
    Ghost(root): Ghost<Seq<char>>,
) -> (r: Vec<Action>)
    requires
        base_uri@ == template_at(root, names(dirs@)),
    ensures
        steps(r@) == steps_for(*args, root, files_in(names(dirs@), entries@)),
    decreases entries@,
{
    let ghost d = names(dirs@);
    let mut out: Vec<Action> = Vec::new();
    let mut i: usize = 0;
    assert(entries@.subrange(0, 0) =~= Seq::<Entry>::empty());
    while i < entries.len()
        invariant
            base_uri@ == template_at(root, d),
            d == names(dirs@),
            i <= entries@.len(),
            steps(out@) == steps_for(*args, root, files_in(d, entries@.subrange(0, i as int))),
        decreases entries@.len() - i,
    {
        proof {
            reveal_strlit("$TAIL");
            reveal_strlit(".html");
        }
        let e = &entries[i];
        let ghost before = files_in(d, entries@.subrange(0, i as int));
        let ghost pre = entries@.subrange(0, i + 1);
        assert(pre.subrange(0, pre.len() - 1) == entries@.subrange(0, i as int));
        assert(pre[pre.len() - 1] == *e);
        let ghost p = d.push(e.name@);
        match &e.kind {
            EntryKind::Dir(children) => {
                let sub = child_path(dirs, &e.name);
                let mut tail = String::new();
                tail.append(e.name.as_str());
                tail.append("/");
                tail.append(TAIL_TOKEN);
                let next_uri = replace(base_uri, TAIL_TOKEN, tail.as_str());
                proof {
                    reveal_strlit("/");
                    assert(tail@ =~= e.name@ + seq!['/'] + TAIL_TOKEN@);
                    assert(p.drop_last() == d);
                    assert(decreases_to!(entries@ => entries@[i as int]));
                    assert(decreases_to!(entries@[i as int] => entries@[i as int].kind));
                }
                let inner = walk(args, children, next_uri.as_str(), &sub, Ghost(root));
                proof {
                    lemma_steps_for_append(*args, root, before, files_in(p, children@));
                }
                assert(files_in(d, pre) == before + files_in(p, children@));
                let mut inner = inner;
                let ghost out_before = out@;
                out.append(&mut inner);
                assert(steps(out@) =~= steps(out_before) + steps_for(*args, root, files_in(p, children@)));
            },
            EntryKind::File => {
                assert(files_in(d, pre) == before + seq![p]);
                proof {
                    lemma_steps_for_append(*args, root, before, seq![p]);
                    assert(seq![p].drop_last() =~= Seq::<RelPath>::empty());
                    assert(seq![p].last() == p);
                    assert(steps_for(*args, root, seq![p].drop_last()) =~= Seq::<Step>::empty());
                    assert(steps_for(*args, root, seq![p]) =~= step_for(*args, root, p));
                    assert(p.drop_last() == d);
                }
                if ends_with(e.name.as_str(), PAGE_SUFFIX) {
                    let uri = replace(base_uri, TAIL_TOKEN, e.name.as_str());
                    let body = render_redirect(args.crate_name.as_str(), uri.as_str());
                    let path = child_path(dirs, &e.name);
                    let ghost out_before = out@;
                    out.push(Action::Redirect { path, uri, body });
                    assert(steps(out@) =~= steps(out_before) + step_for(*args, root, p));
                } else if args.delete_others {
                    let path = child_path(dirs, &e.name);
                    let ghost out_before = out@;
                    out.push(Action::Remove { path });
                    assert(steps(out@) =~= steps(out_before) + step_for(*args, root, p));
                } else {
                    assert(step_for(*args, root, p) =~= Seq::<Step>::empty());
                    assert(steps_for(*args, root, before) + step_for(*args, root, p) =~= steps_for(*args, root, before));
                }
            },
            EntryKind::Other => {
                assert(files_in(d, pre) == before + Seq::<RelPath>::empty());
                assert(before + Seq::<RelPath>::empty() =~= before);
            },
        }
        assert(steps(out@) == steps_for(*args, root, files_in(d, pre)));
        i = i + 1;
    }
    assert(entries@.subrange(0, entries@.len() as int) == entries@);
    out
}

/// Walks the listing `entries` with the address template `base_uri` and
/// returns, in the order of the walk, what is to be done to each file.
pub fn rewrite_dir(args: &Args, entries: &Vec<Entry>, base_uri: &str) -> (r: Vec<Action>)
    ensures
        steps(r@) == plan(*args, base_uri@, entries@),
{
    let dirs: Vec<String> = Vec::new();
    assert(names(dirs@) =~= Seq::<Seq<char>>::empty());
    walk(args, entries, base_uri, &dirs, Ghost(base_uri@))
}

} // verus!
