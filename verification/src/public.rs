//! The page that the web server hands out.

use vstd::prelude::*;

verus! {

/// The page: it loads the client from `/index.js` and starts it.
pub const INDEX_HTML: &'static str =
    "<!DOCTYPE html>\n<html>\n<head>\n<meta charset=\"UTF-8\">\n<title>ly</title>\n<script src=\"/index.js\"></script>\n</head>\n<body>\n<div id=\"app\"></div>\n<script>\nvar app = Elm.Main.init({ node: document.getElementById(\"app\") });\n</script>\n</body>\n</html>\n";

/// The page that is served at the root.
pub fn index_html() -> (page: &'static str)
    ensures
        page@ == INDEX_HTML@,
{
    INDEX_HTML
}

} // verus!
