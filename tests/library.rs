use redirect_to_docs::config::{base_uri, crate_safe_name, implementors_dir, passes, Args, DOC_URI, SRC_URI};
use redirect_to_docs::page::{render_redirect, REDIR_TEMPLATE};
use redirect_to_docs::text::{chars_of, replace};
use redirect_to_docs::walk::{ends_with, rewrite_dir, Action, Entry, EntryKind};

fn args(crate_name: &str, delete_others: bool, dry_run: bool) -> Args {
    Args {
        crate_name: crate_name.to_string(),
        delete_others,
        doc_root: "/docs".to_string(),
        dry_run,
    }
}

fn file(name: &str) -> Entry {
    Entry { name: name.to_string(), kind: EntryKind::File }
}

fn dir(name: &str, children: Vec<Entry>) -> Entry {
    Entry { name: name.to_string(), kind: EntryKind::Dir(children) }
}

fn path(p: &[&str]) -> Vec<String> {
    p.iter().map(|s| s.to_string()).collect()
}

fn docs_uri(name: &str) -> String {
    base_uri(DOC_URI, name)
}

fn redirects(actions: &[Action]) -> Vec<(Vec<String>, String, String)> {
    actions
        .iter()
        .filter_map(|a| match a {
            Action::Redirect { path, uri, body } => Some((path.clone(), uri.clone(), body.clone())),
            Action::Remove { .. } => None,
        })
        .collect()
}

fn removals(actions: &[Action]) -> Vec<Vec<String>> {
    actions
        .iter()
        .filter_map(|a| match a {
            Action::Remove { path } => Some(path.clone()),
            Action::Redirect { .. } => None,
        })
        .collect()
}

#[test]
fn replace_every_occurrence() {
    assert_eq!(replace("a-b-c", "-", "_"), "a_b_c");
    assert_eq!(replace("no dashes", "-", "_"), "no dashes");
    assert_eq!(replace("", "-", "_"), "");
}

#[test]
fn replace_takes_leftmost_without_overlap() {
    assert_eq!(replace("aaa", "aa", "x"), "xa");
    assert_eq!(replace("aaaa", "aa", "x"), "xx");
    assert_eq!(replace("$TAIL", "$TAIL", "foo/$TAIL"), "foo/$TAIL");
}

#[test]
fn replace_agrees_with_std() {
    let cases = [
        ("https://docs.rs/$CRATE/*/$CRATESAFE/$TAIL", "$CRATESAFE", "a_b"),
        ("x$CRATE$CRATEy", "$CRATE", "é-ü"),
        ("ab", "abc", "z"),
    ];
    for (s, p, r) in cases {
        assert_eq!(replace(s, p, r), s.replace(p, r));
    }
}

#[test]
fn chars_of_keeps_every_character() {
    assert_eq!(chars_of("añb"), vec!['a', 'ñ', 'b']);
    assert_eq!(chars_of(""), Vec::<char>::new());
}

#[test]
fn ends_with_page_suffix() {
    assert!(ends_with("bar.html", ".html"));
    assert!(ends_with(".html", ".html"));
    assert!(!ends_with("html", ".html"));
    assert!(!ends_with("data.json", ".html"));
    assert!(!ends_with("bar.html.bak", ".html"));
}

#[test]
fn safe_name_folds_dashes() {
    assert_eq!(crate_safe_name("my-crate"), "my_crate");
    assert_eq!(crate_safe_name("a-b-c"), "a_b_c");
    assert_eq!(crate_safe_name("plain"), "plain");
}

#[test]
fn base_uris_fill_both_names() {
    assert_eq!(docs_uri("my-crate"), "https://docs.rs/my-crate/*/my_crate/$TAIL");
    assert_eq!(base_uri(SRC_URI, "my-crate"), "https://docs.rs/crate/my-crate/$TAIL");
}

#[test]
fn passes_walk_docs_then_sources() {
    let p = passes(&args("my-crate", false, true));
    assert_eq!(p.len(), 2);
    assert_eq!(p[0].dir, path(&["my_crate"]));
    assert_eq!(p[0].base_uri, "https://docs.rs/my-crate/*/my_crate/$TAIL");
    assert_eq!(p[1].dir, path(&["src", "my_crate"]));
    assert_eq!(p[1].base_uri, "https://docs.rs/crate/my-crate/$TAIL");
}

#[test]
fn implementors_removed_only_when_deleting_others() {
    assert_eq!(implementors_dir(&args("my-crate", false, false)), None);
    assert_eq!(
        implementors_dir(&args("my-crate", true, false)),
        Some(path(&["implementors", "my_crate"]))
    );
}

#[test]
fn redirect_page_fills_title_and_destination() {
    let dest = "https://docs.rs/my-crate/*/my_crate/foo/bar.html";
    let page = render_redirect("my-crate", dest);
    assert_eq!(page, REDIR_TEMPLATE.replace("$CRATE", "my-crate").replace("$DEST", dest));
    assert!(page.contains("<title>my-crate</title>"));
    assert!(page.contains(&format!("<meta http-equiv=\"refresh\" content=\"0; url={}\">", dest)));
    assert!(page.contains(&format!("<h1><a href=\"{}\">Content Moved</a></h1>", dest)));
    assert!(page.contains("<meta charset=\"UTF-8\">"));
    assert!(!page.contains("$CRATE"));
    assert!(!page.contains("$DEST"));
}

#[test]
fn scenario_commit_rewrites_nested_page() {
    let a = args("my-crate", false, false);
    let tree = vec![dir("foo", vec![file("bar.html")])];
    let actions = rewrite_dir(&a, &tree, &docs_uri("my-crate"));
    let r = redirects(&actions);
    assert_eq!(actions.len(), 1);
    assert_eq!(r[0].0, path(&["foo", "bar.html"]));
    assert_eq!(r[0].1, "https://docs.rs/my-crate/*/my_crate/foo/bar.html");
    assert_eq!(r[0].2, render_redirect("my-crate", "https://docs.rs/my-crate/*/my_crate/foo/bar.html"));
    assert!(r[0].2.contains("<title>my-crate</title>"));
}

#[test]
fn scenario_delete_others_removes_data_file() {
    let a = args("my-crate", true, false);
    let tree = vec![dir("foo", vec![file("bar.html"), file("data.json")])];
    let actions = rewrite_dir(&a, &tree, &docs_uri("my-crate"));
    assert_eq!(actions.len(), 2);
    assert_eq!(redirects(&actions)[0].1, "https://docs.rs/my-crate/*/my_crate/foo/bar.html");
    assert_eq!(removals(&actions), vec![path(&["foo", "data.json"])]);
}

#[test]
fn other_files_kept_without_delete_others() {
    let a = args("my-crate", false, false);
    let tree = vec![
        file("main.js"),
        dir("foo", vec![file("data.json"), file("bar.html"), dir("empty", vec![])]),
        file("index.html"),
    ];
    let actions = rewrite_dir(&a, &tree, &docs_uri("my-crate"));
    assert!(removals(&actions).is_empty());
    let r = redirects(&actions);
    assert_eq!(r.len(), 2);
    assert_eq!(r[0].0, path(&["foo", "bar.html"]));
    assert_eq!(r[1].0, path(&["index.html"]));
    assert_eq!(r[1].1, "https://docs.rs/my-crate/*/my_crate/index.html");
}

#[test]
fn walk_order_follows_listing() {
    let a = args("c", true, true);
    let tree = vec![file("z.txt"), dir("d", vec![file("a.html")]), file("b.html")];
    let actions = rewrite_dir(&a, &tree, "u/$TAIL");
    assert_eq!(actions.len(), 3);
    assert!(matches!(&actions[0], Action::Remove { path: p } if *p == path(&["z.txt"])));
    assert!(matches!(&actions[1], Action::Redirect { uri, .. } if uri == "u/d/a.html"));
    assert!(matches!(&actions[2], Action::Redirect { uri, .. } if uri == "u/b.html"));
}

#[test]
fn deep_paths_keep_separators_in_order() {
    let a = args("c", false, false);
    let tree = vec![dir("a", vec![dir("b", vec![dir("c", vec![file("x.html")])])])];
    let actions = rewrite_dir(&a, &tree, "https://h/$TAIL?q");
    let r = redirects(&actions);
    assert_eq!(r[0].0, path(&["a", "b", "c", "x.html"]));
    assert_eq!(r[0].1, "https://h/a/b/c/x.html?q");
}

#[test]
fn other_entries_are_skipped() {
    let a = args("c", true, false);
    let tree = vec![Entry { name: "link.html".to_string(), kind: EntryKind::Other }];
    assert!(rewrite_dir(&a, &tree, "u/$TAIL").is_empty());
}

#[test]
fn dry_run_plans_the_same_steps() {
    let tree = vec![dir("foo", vec![file("bar.html"), file("data.json")])];
    let wet = rewrite_dir(&args("my-crate", true, false), &tree, &docs_uri("my-crate"));
    let dry = rewrite_dir(&args("my-crate", true, true), &tree, &docs_uri("my-crate"));
    assert_eq!(redirects(&wet), redirects(&dry));
    assert_eq!(removals(&wet), removals(&dry));
}

#[test]
fn second_run_repeats_the_same_pages() {
    let a = args("my-crate", true, false);
    let first_tree = vec![dir("foo", vec![file("bar.html"), file("data.json")])];
    let first = rewrite_dir(&a, &first_tree, &docs_uri("my-crate"));
    let second_tree = vec![dir("foo", vec![file("bar.html")])];
    let second = rewrite_dir(&a, &second_tree, &docs_uri("my-crate"));
    assert_eq!(redirects(&first), redirects(&second));
    assert!(removals(&second).is_empty());
}

#[test]
fn empty_listing_has_no_steps() {
    assert!(rewrite_dir(&args("c", true, false), &vec![], "u/$TAIL").is_empty());
}
