use vstd::prelude::*;
use crate::config::Args;
use crate::page::redirect_page;
use crate::text::replace_all;
use crate::walk::{
    destination, files_in, is_page, plan, step_for, steps_for, template_at, RelPath, Step,
    TAIL_TOKEN,
};

verus! {

/// The files below the root of a walk, each with its contents.
pub type Files = Map<RelPath, Seq<char>>;

/// The files after one step is carried out.
pub open spec fn apply_step(fs: Files, s: Step) -> Files {
    match s {
        Step::Redirect { path, body, .. } => fs.insert(path, body),
        Step::Remove { path } => fs.remove(path),
    }
}

/// The files after the steps are carried out in order.
pub open spec fn apply_steps(fs: Files, ss: Seq<Step>) -> Files
    decreases ss.len(),
{
    if ss.len() == 0 {
        fs
    } else {
        apply_step(apply_steps(fs, ss.drop_last()), ss.last())
    }
}

/// The files after a run with these steps: a dry run reports the steps and
/// carries out none of them.
pub open spec fn outcome(fs: Files, ss: Seq<Step>, dry_run: bool) -> Files {
    if dry_run {
        fs
    } else {
        apply_steps(fs, ss)
    }
}

/// The pages among a list of files, in order.
pub open spec fn pages_among(files: Seq<RelPath>) -> Seq<RelPath>
    decreases files.len(),
{
    if files.len() == 0 {
        seq![]
    } else if is_page(files.last().last()) {
        pages_among(files.drop_last()).push(files.last())
    } else {
        pages_among(files.drop_last())
    }
}

/// The files that a walk over `files` leaves in place.
pub open spec fn survivors(args: Args, files: Seq<RelPath>) -> Seq<RelPath> {
    if args.delete_others && !args.dry_run {
        pages_among(files)
    } else {
        files
    }
}

/// The directories `dirs`, each followed by `/`.
pub open spec fn dir_prefix(dirs: RelPath) -> Seq<char>
    decreases dirs.len(),
{
    if dirs.len() == 0 {
        seq![]
    } else {
        dir_prefix(dirs.drop_last()) + dirs.last() + seq!['/']
    }
}

/// A relative path written with `/` between its names.
pub open spec fn joined(path: RelPath) -> Seq<char> {
    dir_prefix(path.drop_last()) + path.last()
}

/// Whether no `$` stands in `s`.
pub open spec fn no_dollar(s: Seq<char>) -> bool {
    forall|i: int| 0 <= i < s.len() ==> s[i] != '$'
}

proof fn lemma_apply_append(fs: Files, a: Seq<Step>, b: Seq<Step>)
    ensures
        apply_steps(fs, a + b) == apply_steps(apply_steps(fs, a), b),
    decreases b.len(),
{
    if b.len() == 0 {
        assert(a + b == a);
    } else {
        lemma_apply_append(fs, a, b.drop_last());
        assert((a + b).drop_last() == a + b.drop_last());
    }
}

proof fn lemma_single_step(args: Args, root: Seq<char>, init: Seq<RelPath>, p: RelPath)
    ensures
        steps_for(args, root, init.push(p)) == steps_for(args, root, init) + step_for(
            args,
            root,
            p,
        ),
{
    assert(init.push(p).drop_last() == init);
}

proof fn lemma_apply_one(fs: Files, ss: Seq<Step>)
    ensures
        ss.len() == 0 ==> apply_steps(fs, ss) == fs,
        ss.len() == 1 ==> apply_steps(fs, ss) == apply_step(fs, ss[0]),
{
    if ss.len() == 1 {
        assert(ss.drop_last().len() == 0);
        assert(apply_steps(fs, ss.drop_last()) == fs);
        assert(ss.last() == ss[0]);
    }
}

/// No file other than a page is touched unless the run deletes such files.
proof fn lemma_others_untouched(args: Args, root: Seq<char>, files: Seq<RelPath>, fs: Files)
    requires
        !args.delete_others,
    ensures
        forall|p: RelPath|
            !is_page(#[trigger] p.last()) ==> (apply_steps(fs, steps_for(args, root, files)).contains_key(p)
                == fs.contains_key(p) && (fs.contains_key(p) ==> apply_steps(
                fs,
                steps_for(args, root, files),
            )[p] == fs[p])),
    decreases files.len(),
{
    if files.len() > 0 {
        let init = files.drop_last();
        let q = files.last();
        lemma_others_untouched(args, root, init, fs);
        assert(files == init.push(q));
        lemma_single_step(args, root, init, q);
        let a = steps_for(args, root, init);
        let b = step_for(args, root, q);
        lemma_apply_append(fs, a, b);
        lemma_apply_one(apply_steps(fs, a), b);
    }
}

/// Every page of the list holds its redirect page once the steps are
/// carried out.
proof fn lemma_pages_hold_redirects(args: Args, root: Seq<char>, files: Seq<RelPath>, fs: Files)
    ensures
        forall|p: RelPath|
            files.contains(p) && is_page(#[trigger] p.last()) ==> apply_steps(
                fs,
                steps_for(args, root, files),
            ).contains_key(p) && apply_steps(fs, steps_for(args, root, files))[p]
                == redirect_page(args.crate_name@, destination(root, p)),
    decreases files.len(),
{
    if files.len() > 0 {
        let init = files.drop_last();
        let q = files.last();
        lemma_pages_hold_redirects(args, root, init, fs);
        assert(files == init.push(q));
        lemma_single_step(args, root, init, q);
        let a = steps_for(args, root, init);
        let b = step_for(args, root, q);
        lemma_apply_append(fs, a, b);
        lemma_apply_one(apply_steps(fs, a), b);
        assert forall|p: RelPath|
            files.contains(p) && is_page(#[trigger] p.last()) implies apply_steps(
                fs,
                steps_for(args, root, files),
            ).contains_key(p) && apply_steps(fs, steps_for(args, root, files))[p]
                == redirect_page(args.crate_name@, destination(root, p)) by {
            if p != q {
                let k = choose|k: int| 0 <= k < files.len() && files[k] == p;
                assert(init[k] == p);
                assert(init.contains(p));
            }
        }
    }
}

/// Carrying out the steps of a list of files changes nothing where every
/// page already holds its redirect page and no other file would be deleted.
proof fn lemma_rerun_changes_nothing(args: Args, root: Seq<char>, files: Seq<RelPath>, fs: Files)
    requires
        forall|p: RelPath|
            files.contains(p) && is_page(#[trigger] p.last()) ==> fs.contains_key(p) && fs[p]
                == redirect_page(args.crate_name@, destination(root, p)),
        args.delete_others ==> forall|p: RelPath| #[trigger] files.contains(p) ==> is_page(p.last()),
    ensures
        apply_steps(fs, steps_for(args, root, files)) == fs,
    decreases files.len(),
{
    if files.len() > 0 {
        let init = files.drop_last();
        let q = files.last();
        assert forall|p: RelPath| #[trigger] init.contains(p) implies files.contains(p) by {
            let k = choose|k: int| 0 <= k < init.len() && init[k] == p;
            assert(files[k] == p);
        }
        assert(files.contains(q)) by {
            assert(files[files.len() - 1] == q);
        }
        lemma_rerun_changes_nothing(args, root, init, fs);
        assert(files == init.push(q));
        lemma_single_step(args, root, init, q);
        let a = steps_for(args, root, init);
        let b = step_for(args, root, q);
        lemma_apply_append(fs, a, b);
        lemma_apply_one(apply_steps(fs, a), b);
        if is_page(q.last()) {
            assert(fs.insert(q, redirect_page(args.crate_name@, destination(root, q))) =~= fs);
        }
    }
}

proof fn lemma_pages_among(files: Seq<RelPath>)
    ensures
        forall|p: RelPath| #[trigger] pages_among(files).contains(p) ==> files.contains(p)
            && is_page(p.last()),
    decreases files.len(),
{
    if files.len() > 0 {
        let init = files.drop_last();
        lemma_pages_among(init);
        assert forall|p: RelPath| #[trigger] pages_among(files).contains(p) implies files.contains(p)
            && is_page(p.last()) by {
            let k = choose|k: int| 0 <= k < pages_among(files).len() && pages_among(files)[k] == p;
            if pages_among(files) == pages_among(init) || k < pages_among(init).len() {
                assert(pages_among(init)[k] == p);
                assert(pages_among(init).contains(p));
                let j = choose|j: int| 0 <= j < init.len() && init[j] == p;
                assert(files[j] == p);
            } else {
                assert(files[files.len() - 1] == p);
            }
        }
    }
}

/// When files other than pages are kept, a run leaves every such file as it
/// was: it is present afterwards exactly when it was present before, with the
/// same contents.
pub proof fn lemma_other_files_kept(args: Args, root: Seq<char>, es: Seq<crate::walk::Entry>, fs: Files)
    requires
        !args.delete_others,
    ensures
        forall|p: RelPath|
            !is_page(#[trigger] p.last()) ==> (outcome(fs, plan(args, root, es), args.dry_run).contains_key(p)
                == fs.contains_key(p) && (fs.contains_key(p) ==> outcome(
                fs,
                plan(args, root, es),
                args.dry_run,
            )[p] == fs[p])),
{
    lemma_others_untouched(args, root, files_in(seq![], es), fs);
}

/// After a run that is not a dry run, every page of the listing holds the
/// redirect page for the crate and for the page's destination.
pub proof fn lemma_pages_rewritten(args: Args, root: Seq<char>, es: Seq<crate::walk::Entry>, fs: Files)
    requires
        !args.dry_run,
    ensures
        forall|p: RelPath|
            files_in(seq![], es).contains(p) && is_page(#[trigger] p.last()) ==> outcome(
                fs,
                plan(args, root, es),
                args.dry_run,
            ).contains_key(p) && outcome(fs, plan(args, root, es), args.dry_run)[p]
                == redirect_page(args.crate_name@, destination(root, p)),
{
    lemma_pages_hold_redirects(args, root, files_in(seq![], es), fs);
}

/// A dry run leaves every file as it was.
pub proof fn lemma_dry_run_changes_nothing(args: Args, root: Seq<char>, es: Seq<crate::walk::Entry>, fs: Files)
    requires
        args.dry_run,
    ensures
        outcome(fs, plan(args, root, es), args.dry_run) == fs,
{
}

/// A second run over what a first run left, with the same configuration,
/// changes nothing more: the files after it are those after the first.
pub proof fn lemma_second_run_idempotent(args: Args, root: Seq<char>, es: Seq<crate::walk::Entry>, fs: Files)
    ensures
        ({
            let files = files_in(seq![], es);
            let first = outcome(fs, steps_for(args, root, files), args.dry_run);
            outcome(first, steps_for(args, root, survivors(args, files)), args.dry_run) == first
        }),
{
    let files = files_in(seq![], es);
    if !args.dry_run {
        let first = apply_steps(fs, steps_for(args, root, files));
        lemma_pages_hold_redirects(args, root, files, fs);
        let rest = survivors(args, files);
        if args.delete_others {
            lemma_pages_among(files);
        }
        lemma_rerun_changes_nothing(args, root, rest, first);
    }
}

proof fn lemma_replace_skips(a: Seq<char>, b: Seq<char>, pat: Seq<char>, r: Seq<char>)
    requires
        pat.len() > 0,
        pat[0] == '$',
        no_dollar(a),
    ensures
        replace_all(a + b, pat, r) == a + replace_all(b, pat, r),
    decreases a.len(),
{
    let ab = a + b;
    if a.len() == 0 {
        assert(ab == b);
    } else {
        let rest = a.subrange(1, a.len() as int);
        lemma_replace_skips(rest, b, pat, r);
        assert(ab.subrange(1, ab.len() as int) == rest + b);
        assert(a == seq![a[0]] + rest);
        if ab.len() >= pat.len() {
            assert(ab.subrange(0, pat.len() as int)[0] != pat[0]);
            assert(ab.subrange(0, pat.len() as int) != pat);
            assert(replace_all(ab, pat, r) == seq![a[0]] + replace_all(rest + b, pat, r));
            assert(seq![a[0]] + (rest + replace_all(b, pat, r)) == a + replace_all(b, pat, r));
        } else {
            assert(replace_all(b, pat, r) == b);
            assert(rest.len() + b.len() < pat.len());
            assert(replace_all(rest + b, pat, r) == rest + b);
        }
    }
}

proof fn lemma_replace_at_start(b: Seq<char>, pat: Seq<char>, r: Seq<char>)
    requires
        pat.len() > 0,
    ensures
        replace_all(pat + b, pat, r) == r + replace_all(b, pat, r),
{
    let s = pat + b;
    assert(s.subrange(0, pat.len() as int) == pat);
    assert(s.subrange(pat.len() as int, s.len() as int) == b);
}

proof fn lemma_replace_none(b: Seq<char>, pat: Seq<char>, r: Seq<char>)
    requires
        pat.len() > 0,
        pat[0] == '$',
        no_dollar(b),
    ensures
        replace_all(b, pat, r) == b,
{
    lemma_replace_skips(b, seq![], pat, r);
    assert(b + Seq::<char>::empty() == b);
    assert(replace_all(Seq::<char>::empty(), pat, r) == Seq::<char>::empty());
}

proof fn lemma_dir_prefix_no_dollar(dirs: RelPath)
    requires
        forall|i: int| 0 <= i < dirs.len() ==> no_dollar(#[trigger] dirs[i]),
    ensures
        no_dollar(dir_prefix(dirs)),
    decreases dirs.len(),
{
    if dirs.len() > 0 {
        lemma_dir_prefix_no_dollar(dirs.drop_last());
        assert(no_dollar(dirs[dirs.len() - 1]));
    }
}

proof fn lemma_template_shape(pre: Seq<char>, post: Seq<char>, dirs: RelPath)
    requires
        no_dollar(pre),
        no_dollar(post),
        forall|i: int| 0 <= i < dirs.len() ==> no_dollar(#[trigger] dirs[i]),
    ensures
        template_at(pre + TAIL_TOKEN@ + post, dirs) == pre + dir_prefix(dirs) + TAIL_TOKEN@ + post,
    decreases dirs.len(),
{
    reveal_strlit("$TAIL");
    if dirs.len() > 0 {
        let init = dirs.drop_last();
        let n = dirs.last();
        lemma_template_shape(pre, post, init);
        lemma_dir_prefix_no_dollar(init);
        assert(no_dollar(n)) by {
            assert(n == dirs[dirs.len() - 1]);
        }
        let a = pre + dir_prefix(init);
        assert(no_dollar(a));
        let tail = n + seq!['/'] + TAIL_TOKEN@;
        assert(pre + dir_prefix(init) + TAIL_TOKEN@ + post == a + (TAIL_TOKEN@ + post));
        lemma_replace_skips(a, TAIL_TOKEN@ + post, TAIL_TOKEN@, tail);
        lemma_replace_at_start(post, TAIL_TOKEN@, tail);
        lemma_replace_none(post, TAIL_TOKEN@, tail);
        assert(a + (tail + post) == pre + dir_prefix(dirs) + TAIL_TOKEN@ + post);
    }
}

/// Where the template is `pre`, the placeholder, then `post`, and no `$`
/// stands in `pre`, `post` or the names of the path, the destination of a
/// file is `pre`, then the file's path below the root with `/` between its
/// names, then `post`.
pub proof fn lemma_destination_follows_path(pre: Seq<char>, post: Seq<char>, path: RelPath)
    requires
        no_dollar(pre),
        no_dollar(post),
        path.len() > 0,
        forall|i: int| 0 <= i < path.len() ==> no_dollar(#[trigger] path[i]),
    ensures
        destination(pre + TAIL_TOKEN@ + post, path) == pre + joined(path) + post,
{
    reveal_strlit("$TAIL");
    let init = path.drop_last();
    let n = path.last();
    assert forall|i: int| 0 <= i < init.len() implies no_dollar(#[trigger] init[i]) by {
        assert(init[i] == path[i]);
    }
    lemma_template_shape(pre, post, init);
    lemma_dir_prefix_no_dollar(init);
    let a = pre + dir_prefix(init);
    assert(pre + dir_prefix(init) + TAIL_TOKEN@ + post == a + (TAIL_TOKEN@ + post));
    lemma_replace_skips(a, TAIL_TOKEN@ + post, TAIL_TOKEN@, n);
    lemma_replace_at_start(post, TAIL_TOKEN@, n);
    lemma_replace_none(post, TAIL_TOKEN@, n);
    assert(a + (n + post) == pre + joined(path) + post);
}

} // verus!
