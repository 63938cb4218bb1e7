//! The content transformer: markup text in, one HTML document out.
//!
//! The conversion algorithm itself is a third-party concern; the pipeline
//! only invokes it per eligible file and carries its output.  Its result is
//! therefore given a name, `html_of`, and every contract downstream speaks
//! of that name.

use vstd::prelude::*;

verus! {

/// The HTML document that the transformer produces for a markup text.
pub uninterp spec fn html_of(source: Seq<char>) -> Seq<char>;

/// Relies on markdown::to_html: compiles one Markdown string to HTML under the
/// default (CommonMark) options, where it never fails; the result depends on
/// the input text alone.
#[verifier::external_body]
pub(crate) fn to_html(source: &str) -> (r: String)
    ensures
        r@ == html_of(source@),
{
    markdown::to_html(source)
}

} // verus!
