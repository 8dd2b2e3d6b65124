use vstd::prelude::*;
use crate::text::{replace, replace_all};

verus! {

/// The redirect page; `$CRATE` stands for the crate's name and `$DEST` for
/// the address that the page sends its reader to.
pub const REDIR_TEMPLATE: &'static str = r##"<!DOCTYPE html>
<html>
<head>
    <meta charset="UTF-8">
    <title>$CRATE</title>
    <style type="text/css">

        body {
            font-family: sans-serif;
            position: absolute;
            top: 40%;
            left: 50%;
            margin-right: -50%;
            transform: translate(-50%, -50%);
            margin-left: auto;
            margin-top: auto;
            margin-bottom: auto;
        }

    </style>
    <meta http-equiv="refresh" content="0; url=$DEST">
</head>
<body>
    <h1><a href="$DEST">Content Moved</a></h1>
    <p>This documentation is now being hosted on <a href="https://docs.rs/">docs.rs</a>.  <a href="$DEST">Follow the redirection</a> if it does not work automatically.</p>
</body>
</html>
"##;

/// The placeholder for the crate's name, in the page and in address templates.
pub const CRATE_TOKEN: &'static str = "$CRATE";

/// The placeholder for the destination address in the page.
pub const DEST_TOKEN: &'static str = "$DEST";

/// The redirect page for a crate and a destination: the crate's name is
/// substituted first, then the destination.
pub open spec fn redirect_page(crate_name: Seq<char>, dest: Seq<char>) -> Seq<char> {
    replace_all(replace_all(REDIR_TEMPLATE@, CRATE_TOKEN@, crate_name), DEST_TOKEN@, dest)
}

/// Renders the page that sends its reader to `dest`, titled `crate_name`.
pub fn render_redirect(crate_name: &str, dest: &str) -> (r: String)
    ensures
        r@ == redirect_page(crate_name@, dest@),
{
    proof {
        reveal_strlit("$CRATE");
        reveal_strlit("$DEST");
    }
    let titled = replace(REDIR_TEMPLATE, CRATE_TOKEN, crate_name);
    replace(titled.as_str(), DEST_TOKEN, dest)
}

} // verus!
