//! Public route paths of documents.

use vstd::prelude::*;
use crate::text::str_equal;

verus! {

/// The slug of the document served at the site root.
pub open spec fn home_slug() -> Seq<char> {
    "_home"@
}

/// The public route path of a document: `/` for the home document, the slug
/// itself for every other one.
pub open spec fn route_path(slug: Seq<char>) -> Seq<char> {
    if slug == home_slug() {
        "/"@
    } else {
        slug
    }
}

/// Maps a document slug to the path under which its page is served.
pub fn get_actual_md_route_path(path: &str) -> (r: String)
    ensures
        r@ == route_path(path@),
        path@ == home_slug() ==> r@ == "/"@,
        path@ != home_slug() ==> r@ == path@,
{
    if str_equal(path, "_home") {
        String::from_str("/")
    } else {
        String::from_str(path)
    }
}

} // verus!
