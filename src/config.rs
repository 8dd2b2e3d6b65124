use vstd::prelude::*;
use crate::page::CRATE_TOKEN;
use crate::text::{replace, replace_all};
use crate::walk::names;

verus! {

/// What one run is asked to do.
pub struct Args {
    /// The crate's name as published, used in addresses and page titles.
    pub crate_name: String,
    /// Whether files other than pages are deleted.
    pub delete_others: bool,
    /// The directory that holds the generated documentation.
    pub doc_root: String,
    /// Whether the run only reports what it would do.
    pub dry_run: bool,
}

/// Where the rendered documentation is hosted; `*` picks the latest version.
pub const DOC_URI: &'static str = "https://docs.rs/$CRATE/*/$CRATESAFE/$TAIL";

/// Where the source listing is hosted. The host's own layout of these pages
/// varies, so the address is an approximation.
pub const SRC_URI: &'static str = "https://docs.rs/crate/$CRATE/$TAIL";

/// The placeholder for the crate's name as it stands in paths.
pub const CRATE_SAFE_TOKEN: &'static str = "$CRATESAFE";

/// The crate's name as it stands in paths: each `-` becomes `_`.
pub open spec fn safe_name(crate_name: Seq<char>) -> Seq<char> {
    replace_all(crate_name, seq!['-'], seq!['_'])
}

/// An address template with the crate's names filled in; the path form goes
/// first, since its placeholder begins with the other one.
pub open spec fn fill_names(template: Seq<char>, crate_name: Seq<char>) -> Seq<char> {
    replace_all(
        replace_all(template, CRATE_SAFE_TOKEN@, safe_name(crate_name)),
        CRATE_TOKEN@,
        crate_name,
    )
}

/// One walk of a run: the directory walked, as names below the documentation
/// root, and the address template its files are sent to.
pub struct Pass {
    pub dir: Vec<String>,
    pub base_uri: String,
}

/// Returns the crate's name as it stands in paths.
pub fn crate_safe_name(crate_name: &str) -> (r: String)
    ensures
        r@ == safe_name(crate_name@),
{
    proof {
        reveal_strlit("-");
        reveal_strlit("_");
    }
    let r = replace(crate_name, "-", "_");
    assert("-"@ =~= seq!['-']);
    assert("_"@ =~= seq!['_']);
    r
}

/// Fills the crate's names into an address template.
pub fn base_uri(template: &str, crate_name: &str) -> (r: String)
    ensures
        r@ == fill_names(template@, crate_name@),
{
    proof {
        reveal_strlit("$CRATESAFE");
        reveal_strlit("$CRATE");
    }
    let safe = crate_safe_name(crate_name);
    let named = replace(template, CRATE_SAFE_TOKEN, safe.as_str());
    replace(named.as_str(), CRATE_TOKEN, crate_name)
}

fn path_of(first: &str, second: &String) -> (r: Vec<String>)
    ensures
        names(r@) == seq![first@, second@],
{
    let mut r: Vec<String> = Vec::new();
    r.push(String::from_str(first));
    r.push(second.clone());
    assert(names(r@) =~= seq![first@, second@]);
    r
}

/// The two walks of a run, in order: the rendered documentation, in the
/// directory named after the crate, then the source listing, below `src`.
pub fn passes(args: &Args) -> (r: Vec<Pass>)
    ensures
        r@.len() == 2,
        names(r@[0].dir@) == seq![safe_name(args.crate_name@)],
        r@[0].base_uri@ == fill_names(DOC_URI@, args.crate_name@),
        names(r@[1].dir@) == seq!["src"@, safe_name(args.crate_name@)],
        r@[1].base_uri@ == fill_names(SRC_URI@, args.crate_name@),
{
    let safe = crate_safe_name(args.crate_name.as_str());
    let mut docs_dir: Vec<String> = Vec::new();
    docs_dir.push(safe.clone());
    assert(names(docs_dir@) =~= seq![safe@]);
    let src_dir = path_of("src", &safe);
    let mut r: Vec<Pass> = Vec::new();
    r.push(Pass { dir: docs_dir, base_uri: base_uri(DOC_URI, args.crate_name.as_str()) });
    r.push(Pass { dir: src_dir, base_uri: base_uri(SRC_URI, args.crate_name.as_str()) });
    r
}

/// The directory removed whole after the walks, as names below the
/// documentation root: the crate's `implementors` directory, when files
/// other than pages are deleted, and none otherwise.
pub fn implementors_dir(args: &Args) -> (r: Option<Vec<String>>)
    ensures
        r is Some <==> args.delete_others,
        r matches Some(d) ==> names(d@) == seq!["implementors"@, safe_name(args.crate_name@)],
{
    if args.delete_others {
        let safe = crate_safe_name(args.crate_name.as_str());
        Some(path_of("implementors", &safe))
    } else {
        None
    }
}

} // verus!
