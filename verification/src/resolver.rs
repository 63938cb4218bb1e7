//! Request-path resolution against the built output tree.
//!
//! A requested route name is looked up in two steps: an exact match on
//! `{name}.html`, then a directory-index fallback on `{name}/index.html`.
//! The empty name stands for the site root and is looked up as `index.html`
//! directly, with no fallback.  The caller performs the reads; this module
//! names the paths to read and decides the outcome from what came back.

use vstd::prelude::*;
use vstd::string::*;
use crate::paths::{is_markup, lemma_markup_under_root_len, mirrored, under_root};

verus! {

/// The outcome of resolving one requested route name.
pub enum Resolution {
    /// The page's HTML content.
    Found(String),
    /// Neither lookup step yielded content: a routine miss.
    NotFound,
    /// No output root is configured: the server answers every request so.
    Misconfigured,
}

/// The path read for the exact-match step.
pub open spec fn exact_candidate_spec(output_root: Seq<char>, name: Seq<char>) -> Seq<char> {
    if name.len() == 0 {
        output_root + "/index.html"@
    } else {
        output_root + "/"@ + name + ".html"@
    }
}

/// The path read for the directory-index fallback step.
pub open spec fn index_candidate_spec(output_root: Seq<char>, name: Seq<char>) -> Seq<char> {
    output_root + "/"@ + name + "/index.html"@
}

/// Names the file that the exact-match step reads.
pub fn exact_candidate(output_root: &str, name: &str) -> (r: String)
    ensures
        r@ == exact_candidate_spec(output_root@, name@),
{
    if name.is_empty() {
        let mut r = String::from_str(output_root);
        r.append("/index.html");
        r
    } else {
        let mut r = String::from_str(output_root);
        r.append("/");
        r.append(name);
        r.append(".html");
        proof {
            assert(r@ =~= exact_candidate_spec(output_root@, name@));
        }
        r
    }
}

/// Names the file that the fallback step reads.  The root request never
/// reaches this step.
pub fn index_candidate(output_root: &str, name: &str) -> (r: String)
    requires
        name@.len() > 0,
    ensures
        r@ == index_candidate_spec(output_root@, name@),
{
    let mut r = String::from_str(output_root);
    r.append("/");
    r.append(name);
    r.append("/index.html");
    proof {
        assert(r@ =~= index_candidate_spec(output_root@, name@));
    }
    r
}

/// The logical route name of a markup source file: its path with the content
/// root, the separator after it and the markup extension stripped off.
pub open spec fn route_name_of(source: Seq<char>, routes_root: Seq<char>) -> Seq<char> {
    source.subrange(routes_root.len() + 1 as int, source.len() - ".md"@.len())
}

/// The build and the serving layer share one path mapping: requesting the
/// route name of a markup source file reads, in the exact-match step,
/// precisely the file that the build wrote for that source.
pub proof fn lemma_build_serve_agree(
    source: Seq<char>,
    routes_root: Seq<char>,
    build_root: Seq<char>,
)
    requires
        under_root(source, routes_root),
        is_markup(source),
        route_name_of(source, routes_root).len() > 0,
    ensures
        exact_candidate_spec(build_root, route_name_of(source, routes_root)) == mirrored(
            source,
            routes_root,
            build_root,
        ),
{
    reveal_strlit("/");
    lemma_markup_under_root_len(source, routes_root);
    let k = routes_root.len() as int;
    let withsep = routes_root + "/"@;
    assert(withsep =~= source.subrange(0, withsep.len() as int));
    assert(source[k] == withsep[k]);
    let name = route_name_of(source, routes_root);
    let middle = source.subrange(k, source.len() - ".md"@.len());
    assert(middle =~= "/"@ + name);
    assert(exact_candidate_spec(build_root, name) =~= mirrored(source, routes_root, build_root));
}

/// Decides one request from what the two candidate reads returned.  A read
/// that failed, found nothing, or found an empty file hands in the empty
/// string: an existing but empty page counts as missing.  The fallback read
/// matters only when the exact read came back empty and the name is not the
/// root.
pub fn resolve_from_reads(output_root: &str, name: &str, exact: String, fallback: String) -> (r:
    Resolution)
    ensures
        output_root@.len() == 0 <==> r is Misconfigured,
        output_root@.len() > 0 && exact@.len() > 0 ==> (r matches Resolution::Found(c) && c@
            == exact@),
        output_root@.len() > 0 && exact@.len() == 0 && name@.len() == 0 ==> r is NotFound,
        output_root@.len() > 0 && exact@.len() == 0 && name@.len() > 0 && fallback@.len() > 0 ==> (
        r matches Resolution::Found(c) && c@ == fallback@),
        output_root@.len() > 0 && exact@.len() == 0 && name@.len() > 0 && fallback@.len() == 0
            ==> r is NotFound,
{
    if output_root.is_empty() {
        Resolution::Misconfigured
    } else if !exact.as_str().is_empty() {
        Resolution::Found(exact)
    } else if !name.is_empty() && !fallback.as_str().is_empty() {
        Resolution::Found(fallback)
    } else {
        Resolution::NotFound
    }
}

} // verus!
